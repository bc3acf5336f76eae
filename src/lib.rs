//! A software triangle rasterization pipeline on fixed-point integers:
//! homogeneous clipping, fan triangulation, edge-function rasterization with
//! the top-left fill rule, perspective-correct interpolation and texture
//! sampling into a color/depth framebuffer.

pub mod fixed;
pub mod color;
pub mod vector;
pub mod rasterization;
pub mod clipping;
pub mod triangulation;
pub mod framebuffer;
pub mod image;
pub mod sampler;
pub mod vertex;
pub mod viewport;
pub mod pipeline;
pub mod model;
pub mod shaders;
