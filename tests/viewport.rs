use rasterization_in_a_weekend::fixed::ONE;
use rasterization_in_a_weekend::vector::vec2;
use rasterization_in_a_weekend::viewport::Viewport;

// Results are in sixteenths of a pixel.
#[test]
pub fn ndc_to_framebuffer() {
    let viewport = Viewport::new(160, 80, 640, 480);
    assert_eq!(viewport.ndc_to_framebuffer(vec2(-ONE, -ONE)), vec2(160 * 16, 80 * 16));
    assert_eq!(viewport.ndc_to_framebuffer(vec2(0, 0)), vec2(480 * 16, 320 * 16));
    assert_eq!(viewport.ndc_to_framebuffer(vec2(ONE, ONE)), vec2(800 * 16, 560 * 16));
}

#[test]
fn full_viewport_rounds_to_nearest_sixteenth() {
    let viewport = Viewport::full(3, 1);
    assert_eq!(viewport, Viewport { x: 0, y: 0, width: 3, height: 1 });
    // (0.25 + 1) * 3 / 2 = 1.875 pixels = 30 sixteenths
    assert_eq!(viewport.ndc_to_framebuffer(vec2(ONE / 4, 0)).x, 30);
    // one unit above -1: 3 * 8 / 65536 of a sixteenth rounds to 0
    assert_eq!(viewport.ndc_to_framebuffer(vec2(-ONE + 1, -ONE)), vec2(0, 0));
}
