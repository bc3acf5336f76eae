use rasterization_in_a_weekend::color::{blue, red, white};
use rasterization_in_a_weekend::framebuffer::{Framebuffer, DEPTH_INFINITY};
use rasterization_in_a_weekend::fixed::ONE;
use rasterization_in_a_weekend::image::{map_coords_to_index, Image};

#[test]
fn new_framebuffer_is_black_and_infinitely_deep() {
    let fb = Framebuffer::new(3, 2);
    assert_eq!((fb.width(), fb.height()), (3, 2));
    assert_eq!(fb.color_attachment(), &vec![0u32; 6]);
    assert_eq!(fb.get_depth((2, 1)), DEPTH_INFINITY);
}

#[test]
fn depth_test_keeps_the_nearest() {
    let mut fb = Framebuffer::new(3, 2);
    assert!(fb.test_and_set_depth((1, 1), ONE));
    assert!(!fb.test_and_set_depth((1, 1), 2 * ONE));
    assert!(!fb.test_and_set_depth((1, 1), ONE));
    assert!(fb.test_and_set_depth((1, 1), ONE / 2));
    assert_eq!(fb.get_depth((1, 1)), ONE / 2);
    assert!(!fb.test_and_set_depth_safe((3, 0), 0));
    assert!(!fb.test_and_set_depth_safe((0, 2), 0));
}

#[test]
fn colors_are_stored_row_major() {
    let mut fb = Framebuffer::new(3, 2);
    fb.set_color((2, 1), red());
    fb.set_color_safe((0, 1), blue());
    fb.set_color_safe((5, 5), white());
    assert_eq!(fb.color_attachment(), &vec![0, 0, 0, 0x0000FF, 0, 0xFF0000]);
    assert_eq!(fb.get_color((2, 1)), red());
    assert!(fb.contains((2, 1)) && !fb.contains((3, 1)) && !fb.contains((0, 2)));
}

#[test]
fn clear_fills_both_attachments() {
    let mut fb = Framebuffer::new(2, 2);
    fb.clear(white(), 7);
    assert_eq!(fb.color_attachment(), &vec![0xFFFFFF; 4]);
    assert_eq!(fb.get_depth((1, 1)), 7);
}

#[test]
fn image_from_rgba_bytes() {
    let bytes = vec![255, 255, 255, 255, 255, 0, 0, 255, 0, 255, 0, 128, 0, 0, 255, 0];
    let image = Image::from_rgba8(&bytes, 2, 2);
    assert_eq!((image.width(), image.height()), (2, 2));
    assert_eq!(image.get_color((0, 0)), white());
    assert_eq!(image.get_color((1, 0)), red());
    assert_eq!(image.get_color((1, 1)), blue());
    assert!(image.contains((1, 1)) && !image.contains((2, 0)));
    assert_eq!(map_coords_to_index((1, 1), 2), 3);
}
