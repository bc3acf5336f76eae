//! The map from normalized device coordinates to framebuffer positions.
use vstd::prelude::*;

use crate::fixed::{floor_div, floor_div_spec, ONE};
use crate::rasterization::{point_in_range, SUBPIXEL};
use crate::vector::Vec2;

verus! {

/// Largest magnitude of a viewport edge, in pixels (the rasterizer's range).
pub const VIEWPORT_LIMIT: i64 = 32768;

/// Largest magnitude of a normalized device coordinate that is mapped.
pub const NDC_MAP_LIMIT: i64 = 262144;

/// A rectangle of the framebuffer, in whole pixels: NDC `-1` maps to its
/// lower edge and `+1` to its upper edge on each axis.
#[derive(Debug, Clone, Copy, PartialEq, Eq, Structural)]
pub struct Viewport {
    pub x: i64,
    pub y: i64,
    pub width: i64,
    pub height: i64,
}

/// The viewport lies within the rasterizer's range: NDC in `[-1, 1]` maps
/// to positions it accepts.
pub open spec fn viewport_ok(v: Viewport) -> bool {
    &&& -VIEWPORT_LIMIT <= v.x <= VIEWPORT_LIMIT
    &&& -VIEWPORT_LIMIT <= v.y <= VIEWPORT_LIMIT
    &&& 0 <= v.width <= VIEWPORT_LIMIT
    &&& 0 <= v.height <= VIEWPORT_LIMIT
    &&& v.x + v.width <= VIEWPORT_LIMIT
    &&& v.y + v.height <= VIEWPORT_LIMIT
}

/// `(c + 1) * extent / 2 + offset`, in sixteenths of a pixel, rounded to
/// the nearest sixteenth (halves up); `c` is fixed point.
pub open spec fn ndc_axis(c: int, offset: int, extent: int) -> int {
    floor_div_spec((c + ONE) * extent * (SUBPIXEL / 2) + ONE / 2, ONE as int) + SUBPIXEL * offset
}

pub open spec fn ndc_to_framebuffer_spec(v: Viewport, src: Vec2) -> Vec2 {
    Vec2 {
        x: ndc_axis(src.x as int, v.x as int, v.width as int) as i64,
        y: ndc_axis(src.y as int, v.y as int, v.height as int) as i64,
    }
}

pub open spec fn ndc_in_range(src: Vec2) -> bool {
    -NDC_MAP_LIMIT <= src.x <= NDC_MAP_LIMIT && -NDC_MAP_LIMIT <= src.y <= NDC_MAP_LIMIT
}

fn ndc_axis_exec(c: i64, offset: i64, extent: i64) -> (r: i64)
    requires
        -NDC_MAP_LIMIT <= c <= NDC_MAP_LIMIT,
        -VIEWPORT_LIMIT <= offset <= VIEWPORT_LIMIT,
        0 <= extent <= VIEWPORT_LIMIT,
    ensures
        r == ndc_axis(c as int, offset as int, extent as int),
{
    assert(0 <= (c + ONE) * extent * 8 + 32768 || (c + ONE) * extent * 8 + 32768 < 0);
    assert(-0x4_0000_0000_0000 <= (c + ONE) * extent * 8 <= 0x4_0000_0000_0000) by (nonlinear_arith)
        requires -262144 <= c <= 262144, 0 <= extent <= 32768;
    let n = (c + ONE) * extent * (SUBPIXEL / 2) + ONE / 2;
    let q = floor_div(n, ONE);
    assert(-0x4_0000_0000_0000 <= q <= 0x4_0000_0000_0000);
    q + SUBPIXEL * offset
}

impl Viewport {
    pub fn new(x: i64, y: i64, width: i64, height: i64) -> (r: Self)
        ensures
            r == (Viewport { x, y, width, height }),
    {
        Self { x, y, width, height }
    }

    /// The viewport that covers a whole `width` by `height` framebuffer.
    pub fn full(width: i64, height: i64) -> (r: Self)
        ensures
            r == (Viewport { x: 0, y: 0, width, height }),
    {
        Self::new(0, 0, width, height)
    }

    /// The framebuffer position, in sixteenths of a pixel, of the
    /// normalized device coordinates `src` (fixed point).
    pub fn ndc_to_framebuffer(&self, src: Vec2) -> (r: Vec2)
        requires
            viewport_ok(*self),
            ndc_in_range(src),
        ensures
            r == ndc_to_framebuffer_spec(*self, src),
    {
        Vec2 {
            x: ndc_axis_exec(src.x, self.x, self.width),
            y: ndc_axis_exec(src.y, self.y, self.height),
        }
    }
}

proof fn lemma_ndc_axis_in_range(c: int, offset: int, extent: int)
    requires
        -ONE <= c <= ONE,
        -VIEWPORT_LIMIT <= offset,
        0 <= extent,
        offset + extent <= VIEWPORT_LIMIT,
    ensures
        SUBPIXEL * offset <= ndc_axis(c, offset, extent) <= SUBPIXEL * (offset + extent),
{
    let n = (c + ONE) * extent * 8;
    assert(0 <= n <= 16 * extent * 65536) by (nonlinear_arith)
        requires n == (c + 65536) * extent * 8, -65536 <= c <= 65536, 0 <= extent;
    assert(0 <= (n + 32768) / 65536 <= 16 * extent) by (nonlinear_arith)
        requires 0 <= n <= 16 * extent * 65536, 0 <= extent;
}

/// Normalized device coordinates in `[-1, 1]` land inside the viewport,
/// hence inside the range the rasterizer accepts.
pub proof fn lemma_viewport_in_range(v: Viewport, src: Vec2)
    requires
        viewport_ok(v),
        -ONE <= src.x <= ONE,
        -ONE <= src.y <= ONE,
    ensures
        point_in_range(ndc_to_framebuffer_spec(v, src)),
{
    lemma_ndc_axis_in_range(src.x as int, v.x as int, v.width as int);
    lemma_ndc_axis_in_range(src.y as int, v.y as int, v.height as int);
}

} // verus!
