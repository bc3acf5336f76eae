use rasterization_in_a_weekend::clipping::{clip_triangle, ClipVertex};
use rasterization_in_a_weekend::fixed::ONE;
use rasterization_in_a_weekend::vector::{vec3, vec4, Vec3, Vec4};

const H: i64 = ONE / 2;

fn split(clipped: Vec<ClipVertex>) -> (Vec<Vec4>, Vec<Vec3>) {
    clipped.into_iter().map(|c| (c.coords, c.weights)).unzip()
}

#[test]
fn should_not_clip_primitives_fully_inside() {
    let triangles = [
        [vec4(0, -ONE, 0, ONE), vec4(ONE, ONE, 0, ONE), vec4(-ONE, ONE, 0, ONE)],
        [vec4(0, -2 * ONE, 0, 2 * ONE), vec4(2 * ONE, 2 * ONE, 0, 2 * ONE), vec4(-2 * ONE, 2 * ONE, 0, 2 * ONE)],
    ];
    for triangle in triangles {
        let (coords, weights) = split(clip_triangle(&triangle));
        assert_eq!(coords, triangle);
        assert_eq!(weights, [vec3(ONE, 0, 0), vec3(0, ONE, 0), vec3(0, 0, ONE)]);
    }
}

#[test]
fn should_clip_primitives_with_one_vertex_outside() {
    let test_cases = [
        (
            [vec4(0, -ONE, H, ONE), vec4(0, 0, -H, ONE), vec4(0, ONE, H, ONE)],
            [
                (vec4(0, -ONE, H, ONE), vec3(ONE, 0, 0)),
                (vec4(0, -H, 0, ONE), vec3(H, H, 0)),
                (vec4(0, H, 0, ONE), vec3(0, H, H)),
                (vec4(0, ONE, H, ONE), vec3(0, 0, ONE)),
            ],
        ),
        (
            [vec4(0, -ONE, H, ONE), vec4(0, 0, ONE + H, ONE), vec4(0, ONE, H, ONE)],
            [
                (vec4(0, -ONE, H, ONE), vec3(ONE, 0, 0)),
                (vec4(0, -H, ONE, ONE), vec3(H, H, 0)),
                (vec4(0, H, ONE, ONE), vec3(0, H, H)),
                (vec4(0, ONE, H, ONE), vec3(0, 0, ONE)),
            ],
        ),
    ];
    for (input, expected) in test_cases {
        let output: Vec<(Vec4, Vec3)> =
            clip_triangle(&input).into_iter().map(|c| (c.coords, c.weights)).collect();
        assert_eq!(output, expected);
    }
}

#[test]
fn triangle_outside_one_plane_clips_to_nothing() {
    let triangle = [vec4(2 * ONE, 0, H, ONE), vec4(3 * ONE, ONE, H, ONE), vec4(2 * ONE, -ONE, H, ONE)];
    assert!(clip_triangle(&triangle).is_empty());
}

#[test]
fn cut_vertices_lie_on_their_plane_and_weights_sum_to_one() {
    let triangle = [vec4(-3 * ONE, -ONE, H, ONE), vec4(3 * ONE, -ONE, H, ONE), vec4(0, 5 * ONE, H, ONE)];
    let clipped = clip_triangle(&triangle);
    assert!(clipped.len() >= 3);
    for c in &clipped {
        let w = c.weights;
        assert!(w.x >= 0 && w.y >= 0 && w.z >= 0);
        assert_eq!(w.x + w.y + w.z, ONE);
        let p = c.coords;
        assert!(p.x.abs() <= p.w + 1 && p.y.abs() <= p.w + 1);
    }
    assert!(clipped.iter().any(|c| c.coords.x == c.coords.w));
    assert!(clipped.iter().any(|c| c.coords.x == -c.coords.w));
    assert!(clipped.iter().any(|c| c.coords.y == c.coords.w));
}

#[test]
fn triangle_wholly_beyond_one_plane_clips_to_nothing_even_near_the_origin() {
    // every corner has w - x < 0; cut points near the origin must not
    // survive as rounded vertices
    let triangle = [vec4(1, 0, 0, 0), vec4(-1, 0, 0, -2), vec4(2, 0, 0, 1)];
    assert!(clip_triangle(&triangle).is_empty());
}

#[test]
fn one_vertex_beyond_a_side_plane_gives_a_quadrilateral() {
    // the middle corner is beyond x <= w only
    let triangle = [vec4(0, -ONE, H, ONE), vec4(2 * ONE, 0, H, ONE), vec4(0, ONE, H, ONE)];
    let (coords, weights) = split(clip_triangle(&triangle));
    assert_eq!(coords, [vec4(0, -ONE, H, ONE), vec4(ONE, -H, H, ONE), vec4(ONE, H, H, ONE), vec4(0, ONE, H, ONE)]);
    assert_eq!(weights, [vec3(ONE, 0, 0), vec3(H, H, 0), vec3(0, H, H), vec3(0, 0, ONE)]);
}
