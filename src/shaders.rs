//! Fragment shaders: what color a covered pixel gets from its interpolated
//! vertex data.
use vstd::prelude::*;

use crate::color::Color;
use crate::image::Image;
use crate::sampler::{filter_ok, image_ok, sample_spec, uv_in_range, Sampler};
use crate::vector::Vec2;
use crate::vertex::{attrs_in_range, mat_ok, point_ok, transform_spec, Mat4, Vertex};

verus! {

/// A vertex shader: turns an input of type `In` into a clip-space vertex,
/// with uniforms of type `U`.
pub trait VertexShader<In, U> {
    /// The input and uniforms are ones this shader can run with.
    spec fn vs_ready(&self, input: In, uniforms: &U) -> bool;

    /// The clip-space vertex this shader makes of `input`.
    spec fn vs_spec(&self, input: In, uniforms: &U) -> Vertex;

    fn vs(&self, input: &In, uniforms: &U) -> (r: Vertex)
        requires
            self.vs_ready(*input, uniforms),
        ensures
            r == self.vs_spec(*input, uniforms),
    ;
}

/// The transform applied by `BasicVertexShader`.
pub struct BasicUniform {
    pub transform: Mat4,
}

/// Multiplies the vertex position by the uniform transform and keeps the
/// attributes.
#[derive(Debug, Clone, Copy, PartialEq, Eq, Structural)]
pub struct BasicVertexShader;

impl VertexShader<Vertex, BasicUniform> for BasicVertexShader {
    open spec fn vs_ready(&self, input: Vertex, uniforms: &BasicUniform) -> bool {
        mat_ok(uniforms.transform) && point_ok(input.coords)
    }

    open spec fn vs_spec(&self, input: Vertex, uniforms: &BasicUniform) -> Vertex {
        Vertex { coords: transform_spec(uniforms.transform, input.coords), ..input }
    }

    fn vs(&self, input: &Vertex, uniforms: &BasicUniform) -> (r: Vertex) {
        input.transform(&uniforms.transform)
    }
}

/// What a fragment shader receives for one pixel: the vertex data
/// interpolated there, and the change of the texture coordinates per pixel
/// step in x and in y.
#[derive(Debug, Clone, Copy, PartialEq, Eq, Structural)]
pub struct Varying {
    pub vertex: Vertex,
    pub duv_dx: Vec2,
    pub duv_dy: Vec2,
}

/// A varying as the pipeline produces it.
pub open spec fn varying_ok(v: Varying) -> bool {
    attrs_in_range(v.vertex) && uv_in_range(v.duv_dx) && uv_in_range(v.duv_dy)
}

/// A fragment shader with uniforms of type `U`.
pub trait FragmentShader<U> {
    /// The uniforms are ones this shader can run with.
    spec fn ready(&self, uniforms: &U) -> bool;

    /// The color this shader gives `fragment`.
    spec fn fs_spec(&self, fragment: Varying, uniforms: &U) -> Color;

    fn fs(&self, fragment: &Varying, uniforms: &U) -> (r: Color)
        requires
            self.ready(uniforms),
            varying_ok(*fragment),
        ensures
            r == self.fs_spec(*fragment, uniforms),
    ;
}

/// Passes the interpolated vertex color through.
#[derive(Debug, Clone, Copy, PartialEq, Eq, Structural)]
pub struct BasicFragmentShader;

impl<U> FragmentShader<U> for BasicFragmentShader {
    open spec fn ready(&self, uniforms: &U) -> bool {
        true
    }

    open spec fn fs_spec(&self, fragment: Varying, uniforms: &U) -> Color {
        fragment.vertex.color
    }

    fn fs(&self, fragment: &Varying, uniforms: &U) -> (r: Color) {
        fragment.vertex.color
    }
}

/// The texture and sampler that `TextureShader` reads.
pub struct TextureUniform {
    pub image: Image,
    pub sampler: Sampler,
}

/// Samples a texture at the interpolated texture coordinates.
#[derive(Debug, Clone, Copy, PartialEq, Eq, Structural)]
pub struct TextureShader;

impl FragmentShader<TextureUniform> for TextureShader {
    open spec fn ready(&self, uniforms: &TextureUniform) -> bool {
        image_ok(&uniforms.image) && filter_ok(uniforms.sampler.filter)
    }

    open spec fn fs_spec(&self, fragment: Varying, uniforms: &TextureUniform) -> Color {
        sample_spec(uniforms.sampler, &uniforms.image, fragment.vertex.uv, fragment.duv_dx, fragment.duv_dy)
    }

    fn fs(&self, fragment: &Varying, uniforms: &TextureUniform) -> (r: Color) {
        uniforms.sampler.sample(&uniforms.image, fragment.vertex.uv, fragment.duv_dx, fragment.duv_dy)
    }
}

} // verus!
