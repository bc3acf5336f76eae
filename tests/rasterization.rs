use rasterization_in_a_weekend::rasterization::{rasterize_solid_triangle, Fragment};
use rasterization_in_a_weekend::vector::{vec2, Vec2};

fn coords(fragments: &[Fragment]) -> Vec<(i64, i64)> {
    fragments.iter().map(|f| (f.coords.x, f.coords.y)).collect()
}

// Corner coordinates are in sixteenths of a pixel.
#[test]
pub fn half_pixel_center() {
    let fragments = rasterize_solid_triangle(&[vec2(20, 20), vec2(24, 28), vec2(28, 20)]);
    assert_eq!(coords(&fragments), [(1, 1)]);
}

#[test]
pub fn top_left_rule() {
    let fragments = rasterize_solid_triangle(&[vec2(8, 8), vec2(40, 40), vec2(40, 8)]);
    assert_eq!(coords(&fragments), [(0, 0), (1, 0), (1, 1)]);
}

#[test]
fn adjacent_triangles_tile_a_quad_without_overlap() {
    let a = rasterize_solid_triangle(&[vec2(8, 8), vec2(40, 40), vec2(40, 8)]);
    let b = rasterize_solid_triangle(&[vec2(8, 8), vec2(8, 40), vec2(40, 40)]);
    let mut all = coords(&a);
    all.extend(coords(&b));
    all.sort();
    assert_eq!(all, [(0, 0), (0, 1), (1, 0), (1, 1)]);
}

#[test]
fn back_facing_and_degenerate_triangles_emit_nothing() {
    assert!(rasterize_solid_triangle(&[vec2(8, 8), vec2(40, 8), vec2(40, 40)]).is_empty());
    assert!(rasterize_solid_triangle(&[vec2(8, 8), vec2(24, 24), vec2(40, 40)]).is_empty());
    assert!(rasterize_solid_triangle(&[vec2(8, 8), vec2(8, 8), vec2(8, 8)]).is_empty());
}

#[test]
fn weights_are_barycentric_at_every_fragment() {
    let fragments = rasterize_solid_triangle(&[vec2(3, 5), vec2(70, 130), vec2(150, 20)]);
    assert!(!fragments.is_empty());
    for f in &fragments {
        assert!(f.area > 0);
        assert!(f.t.x >= 0 && f.t.y >= 0 && f.t.z >= 0);
        assert_eq!(f.t.x + f.t.y + f.t.z, f.area);
    }
}

#[test]
fn weights_and_derivatives_have_exact_values() {
    // corners (0.5, 0.5), (2.5, 2.5), (2.5, 0.5); doubled area 4 = 1024 / 256
    let fragments = rasterize_solid_triangle(&[vec2(8, 8), vec2(40, 40), vec2(40, 8)]);
    let f = fragments[1];
    assert_eq!(f.coords, Vec2 { x: 1, y: 0 });
    assert_eq!(f.area, 1024);
    assert_eq!((f.t.x, f.t.y, f.t.z), (512, 0, 512));
    assert_eq!((f.dt_dx.x, f.dt_dx.y, f.dt_dx.z), (-512, 0, 512));
    assert_eq!((f.dt_dy.x, f.dt_dy.y, f.dt_dy.z), (0, 512, -512));
}

#[test]
fn fragments_come_in_row_major_order() {
    let fragments = rasterize_solid_triangle(&[vec2(0, 0), vec2(0, 72), vec2(72, 0)]);
    let c = coords(&fragments);
    let mut sorted = c.clone();
    sorted.sort_by_key(|&(x, y)| (y, x));
    assert_eq!(c, sorted);
    assert_eq!(c, [(0, 0), (1, 0), (2, 0), (3, 0), (0, 1), (1, 1), (2, 1), (0, 2), (1, 2), (0, 3)]);
}
