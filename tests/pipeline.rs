use rasterization_in_a_weekend::color::black;
use rasterization_in_a_weekend::fixed::ONE;
use rasterization_in_a_weekend::framebuffer::Framebuffer;
use rasterization_in_a_weekend::image::Image;
use rasterization_in_a_weekend::pipeline::RasterizationPipeline;
use rasterization_in_a_weekend::sampler::{AddressMode, Filter, Sampler};
use rasterization_in_a_weekend::shaders::{
    BasicFragmentShader, BasicUniform, BasicVertexShader, TextureShader, TextureUniform,
};
use rasterization_in_a_weekend::color::{red, Color};
use rasterization_in_a_weekend::triangulation::fan_triangulate;
use rasterization_in_a_weekend::vector::{vec2, vec3, vec4};
use rasterization_in_a_weekend::vertex::{Mat4, Vertex};

const W: u32 = 0xFFFFFF;
const R: u32 = 0xFF0000;
const G: u32 = 0x00FF00;
const B: u32 = 0x0000FF;

fn vertex(x: i64, y: i64, z: i64, w: i64, u: i64, v: i64) -> Vertex {
    Vertex { coords: vec4(x, y, z, w), color: black(), uv: vec2(u, v) }
}

/// The square `[-1, 1]^2` at depth `z`, as two triangles, with texture
/// coordinates spanning `[0, 1]^2`.
fn square(z: i64) -> Vec<Vertex> {
    let a = vertex(-ONE, -ONE, z, ONE, 0, 0);
    let b = vertex(ONE, ONE, z, ONE, ONE, ONE);
    let c = vertex(ONE, -ONE, z, ONE, ONE, 0);
    let d = vertex(-ONE, ONE, z, ONE, 0, ONE);
    vec![a, b, c, a, d, b]
}

/// Vertices are given in clip space already.
fn clip_space() -> BasicUniform {
    BasicUniform { transform: Mat4::identity() }
}

fn checker() -> Image {
    Image::from_buffer(vec![W, R, G, B], 2, 2)
}

fn textured(image: Image) -> TextureUniform {
    TextureUniform { image, sampler: nearest() }
}

fn nearest() -> Sampler {
    Sampler::new(AddressMode::Clamp, AddressMode::Clamp, Filter::Nearest)
}

#[test]
fn fan_triangulation_shares_the_first_vertex() {
    assert_eq!(fan_triangulate(&[1, 2, 3, 4, 5]), vec![1, 2, 3, 1, 3, 4, 1, 4, 5]);
    assert_eq!(fan_triangulate(&[1, 2, 3]), vec![1, 2, 3]);
    assert!(fan_triangulate(&[1, 2]).is_empty());
    assert!(fan_triangulate::<i32>(&[]).is_empty());
}

#[test]
fn textured_square_fills_the_framebuffer() {
    let mut fb = Framebuffer::new(4, 4);
    let pipeline = RasterizationPipeline::new(rasterization_in_a_weekend::viewport::Viewport::full(4, 4));
    pipeline.draw_triangles(&mut fb, &BasicVertexShader, &clip_space(), &TextureShader, &textured(checker()), &square(ONE / 2));
    let expected = vec![
        W, W, R, R,
        W, W, R, R,
        G, G, B, B,
        G, G, B, B,
    ];
    assert_eq!(fb.color_attachment(), &expected);
    for y in 0..4 {
        for x in 0..4 {
            assert_eq!(fb.get_depth((x, y)), ONE / 2);
        }
    }
}

#[test]
fn depth_test_keeps_the_nearest_surface() {
    let mut fb = Framebuffer::new(4, 4);
    let pipeline = RasterizationPipeline::new(rasterization_in_a_weekend::viewport::Viewport::full(4, 4));
    let white = textured(Image::from_buffer(vec![W], 1, 1));
    let blue = textured(Image::from_buffer(vec![B], 1, 1));
    pipeline.draw_triangles(&mut fb, &BasicVertexShader, &clip_space(), &TextureShader, &white, &square(ONE / 2));
    pipeline.draw_triangles(&mut fb, &BasicVertexShader, &clip_space(), &TextureShader, &blue, &square(3 * ONE / 4));
    assert_eq!(fb.color_attachment(), &vec![W; 16]);
    pipeline.draw_triangles(&mut fb, &BasicVertexShader, &clip_space(), &TextureShader, &blue, &square(ONE / 4));
    assert_eq!(fb.color_attachment(), &vec![B; 16]);
    assert_eq!(fb.get_depth((3, 3)), ONE / 4);
}

#[test]
fn triangles_outside_the_volume_draw_nothing() {
    let mut fb = Framebuffer::new(4, 4);
    let pipeline = RasterizationPipeline::new(rasterization_in_a_weekend::viewport::Viewport::full(4, 4));
    let white = textured(Image::from_buffer(vec![W], 1, 1));
    // behind the near plane
    pipeline.draw_triangles(&mut fb, &BasicVertexShader, &clip_space(), &TextureShader, &white, &square(-ONE / 2));
    // beyond the far plane
    pipeline.draw_triangles(&mut fb, &BasicVertexShader, &clip_space(), &TextureShader, &white, &square(2 * ONE));
    assert_eq!(fb.color_attachment(), &vec![0; 16]);
}

#[test]
fn partly_outside_triangles_are_clipped_to_the_viewport() {
    let mut fb = Framebuffer::new(4, 4);
    let pipeline = RasterizationPipeline::new(rasterization_in_a_weekend::viewport::Viewport::full(4, 4));
    let white = textured(Image::from_buffer(vec![W], 1, 1));
    let h = ONE / 2;
    // a triangle far larger than the screen covers every pixel once
    let big = vec![
        vertex(-4 * ONE, -4 * ONE, h, ONE, 0, 0),
        vertex(4 * ONE, 4 * ONE, h, ONE, 0, 0),
        vertex(8 * ONE, -4 * ONE, h, ONE, 0, 0),
        vertex(-4 * ONE, -4 * ONE, h, ONE, 0, 0),
        vertex(-4 * ONE, 8 * ONE, h, ONE, 0, 0),
        vertex(4 * ONE, 4 * ONE, h, ONE, 0, 0),
    ];
    pipeline.draw_triangles(&mut fb, &BasicVertexShader, &clip_space(), &TextureShader, &white, &big);
    assert_eq!(fb.color_attachment(), &vec![W; 16]);
}

#[test]
fn back_facing_triangles_are_culled() {
    let mut fb = Framebuffer::new(4, 4);
    let pipeline = RasterizationPipeline::new(rasterization_in_a_weekend::viewport::Viewport::full(4, 4));
    let white = textured(Image::from_buffer(vec![W], 1, 1));
    let mut reversed = square(ONE / 2);
    reversed.swap(1, 2);
    reversed.swap(4, 5);
    pipeline.draw_triangles(&mut fb, &BasicVertexShader, &clip_space(), &TextureShader, &white, &reversed);
    assert_eq!(fb.color_attachment(), &vec![0; 16]);
}

#[test]
fn vertex_colors_pass_through_the_basic_shader() {
    let mut fb = Framebuffer::new(4, 4);
    let pipeline = RasterizationPipeline::new(rasterization_in_a_weekend::viewport::Viewport::full(4, 4));
    let vertices: Vec<Vertex> = square(ONE / 2).into_iter().map(|v| Vertex { color: red(), ..v }).collect();
    pipeline.draw_triangles(&mut fb, &BasicVertexShader, &clip_space(), &BasicFragmentShader, &(), &vertices);
    assert_eq!(fb.color_attachment(), &vec![R; 16]);
}

#[test]
fn homogenize_divides_by_w_and_keeps_its_reciprocal() {
    let v = vertex(ONE, -ONE, ONE / 2, 2 * ONE, 3, 4).homogenize();
    assert_eq!(v.coords, vec4(ONE / 2, -ONE / 2, ONE / 4, ONE / 2));
    assert_eq!(v.uv, vec2(3, 4));
}

#[test]
fn interpolation_is_perspective_correct() {
    // v1 is twice as far as v0: half way between them on screen is a third
    // of the way in texture space
    let v0 = vertex(0, 0, 0, ONE, 0, 0).homogenize();
    let v1 = vertex(0, 0, 0, 2 * ONE, ONE, 0).homogenize();
    let v2 = vertex(0, 0, 0, ONE, 0, ONE).homogenize();
    let t = vec3(1, 1, 0);
    let mid = v0.bary_lerp(&v1, &v2, t);
    assert_eq!(mid.uv, vec2(ONE / 3, 0));
    // the position's 1/w is interpolated linearly
    assert_eq!(mid.coords.w, 3 * ONE / 4);
    // one step further lands on v1
    let d = v0.duv(&v1, &v2, t, vec3(-1, 1, 0));
    assert_eq!(d, vec2(ONE - ONE / 3, 0));
    // where the extrapolated denominator vanishes there is no derivative
    assert_eq!(v0.duv(&v1, &v2, t, vec3(-1, -1, 0)), vec2(0, 0));
    // extrapolating to weights (-1, 3, 0): uv.x = (3/2 ONE * ONE) / (ONE / 2)
    let d = v0.duv(&v1, &v2, t, vec3(-2, 2, 0));
    assert_eq!(d, vec2(3 * ONE - ONE / 3, 0));
    // a negative denominator still follows the formula: at weights (-3, 1, 0)
    // the perspective weights are (-3 ONE, ONE / 2), summing to -5/2 ONE, and
    // uv.x = (ONE / 2 * ONE) / (-5/2 ONE) = -ONE / 5, rounded down
    let d = v0.duv(&v1, &v2, t, vec3(-4, 0, 0));
    assert_eq!(d, vec2(-13108 - ONE / 3, 0));
}

#[test]
fn clip_weights_rebuild_attributes() {
    let a = Vertex { color: Color { r: ONE, g: 0, b: 0 }, ..vertex(0, 0, 0, ONE, 0, 0) };
    let b = Vertex { color: Color { r: 0, g: ONE, b: 0 }, ..vertex(0, 0, 0, ONE, ONE, 0) };
    let c = Vertex { color: Color { r: 0, g: 0, b: ONE }, ..vertex(0, 0, 0, ONE, 0, ONE) };
    let v = a.clip_lerp(&b, &c, vec4(1, 2, 3, 4), vec3(ONE / 2, ONE / 4, ONE / 4));
    assert_eq!(v.coords, vec4(1, 2, 3, 4));
    assert_eq!(v.color, Color { r: ONE / 2, g: ONE / 4, b: ONE / 4 });
    assert_eq!(v.uv, vec2(ONE / 4, ONE / 4));
    let l = a.lerp(&b, ONE / 4);
    assert_eq!(l.color, Color { r: 3 * ONE / 4, g: ONE / 4, b: 0 });
    assert_eq!(l.uv, vec2(ONE / 4, 0));
}

#[test]
fn vertex_shader_transforms_positions() {
    let mut fb = Framebuffer::new(4, 4);
    let pipeline = RasterizationPipeline::new(rasterization_in_a_weekend::viewport::Viewport::full(4, 4));
    // the square at half size, scaled back up by the transform
    let half: Vec<Vertex> = square(ONE / 4)
        .into_iter()
        .map(|v| vertex(v.coords.x / 2, v.coords.y / 2, v.coords.z, ONE, v.uv.x, v.uv.y))
        .collect();
    let mut m = Mat4::identity();
    m.m[0] = 2 * ONE;
    m.m[5] = 2 * ONE;
    m.m[10] = 2 * ONE;
    pipeline.draw_triangles(&mut fb, &BasicVertexShader, &BasicUniform { transform: m }, &TextureShader, &textured(checker()), &half);
    assert_eq!(fb.color_attachment(), &vec![W, W, R, R, W, W, R, R, G, G, B, B, G, G, B, B]);
    assert_eq!(fb.get_depth((0, 0)), ONE / 2);
}

#[test]
fn transform_multiplies_by_the_matrix() {
    let mut m = Mat4::identity();
    // x' = x + 2 w, w' = 3 w / 2
    m.m[3] = 2 * ONE;
    m.m[15] = 3 * ONE / 2;
    let v = vertex(ONE, 5, -7, 2 * ONE, 0, 0).transform(&m);
    assert_eq!(v.coords, vec4(5 * ONE, 5, -7, 3 * ONE));
}
