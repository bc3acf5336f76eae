//! Vertices and their interpolation: by clip weights, by screen-space
//! barycentric weights, and perspective-correct.
use vstd::prelude::*;

use crate::clipping::{position_in_range, CLIP_LIMIT};
use crate::color::Color;
use crate::fixed::{trunc_div, trunc_div_spec, ONE};
use crate::rasterization::{max3, min3};
use crate::vector::{Vec2, Vec3, Vec4};

verus! {

/// Largest magnitude of a color channel or texture coordinate carried by a
/// vertex.
pub const ATTR_LIMIT: i64 = 536870912;

/// A vertex: homogeneous position plus the attributes interpolated across
/// a triangle.
#[derive(Debug, Clone, Copy, PartialEq, Eq, Structural)]
pub struct Vertex {
    pub coords: Vec4,
    pub color: Color,
    pub uv: Vec2,
}

pub open spec fn attr_in_range(a: int) -> bool {
    -ATTR_LIMIT <= a <= ATTR_LIMIT
}

pub open spec fn attrs_in_range(v: Vertex) -> bool {
    &&& attr_in_range(v.color.r as int)
    &&& attr_in_range(v.color.g as int)
    &&& attr_in_range(v.color.b as int)
    &&& attr_in_range(v.uv.x as int)
    &&& attr_in_range(v.uv.y as int)
}

/// A clip-space vertex that the pipeline accepts.
pub open spec fn vertex_ok(v: Vertex) -> bool {
    position_in_range(v.coords) && attrs_in_range(v)
}

/// The average of `a0, a1, a2` under weights `p0, p1, p2`, rounded down.
pub open spec fn weighted(a0: int, a1: int, a2: int, p0: int, p1: int, p2: int) -> int {
    (p0 * a0 + p1 * a1 + p2 * a2) / (p0 + p1 + p2)
}

proof fn lemma_weighted_bound(a0: int, a1: int, a2: int, p0: int, p1: int, p2: int, lo: int, hi: int)
    requires
        p0 >= 0,
        p1 >= 0,
        p2 >= 0,
        p0 + p1 + p2 > 0,
        lo <= a0 <= hi,
        lo <= a1 <= hi,
        lo <= a2 <= hi,
    ensures
        lo <= weighted(a0, a1, a2, p0, p1, p2) <= hi,
{
    let n = p0 * a0 + p1 * a1 + p2 * a2;
    let d = p0 + p1 + p2;
    assert(d * lo <= n <= d * hi) by (nonlinear_arith)
        requires
            n == p0 * a0 + p1 * a1 + p2 * a2,
            d == p0 + p1 + p2,
            p0 >= 0,
            p1 >= 0,
            p2 >= 0,
            lo <= a0 <= hi,
            lo <= a1 <= hi,
            lo <= a2 <= hi;
    assert(lo <= n / d <= hi) by (nonlinear_arith)
        requires d * lo <= n <= d * hi, d > 0;
}

proof fn lemma_product_bound(a: int, p: int)
    requires
        -0x8000_0000_0000 <= a <= 0x8000_0000_0000,
        0 <= p <= 0x4000_0000_0000_0000_0000,
    ensures
        -0x2000_0000_0000_0000_0000_0000_0000_0000 <= p * a <= 0x2000_0000_0000_0000_0000_0000_0000_0000,
{
    assert(-0x2000_0000_0000_0000_0000_0000_0000_0000 <= p * a
        <= 0x2000_0000_0000_0000_0000_0000_0000_0000) by (nonlinear_arith)
        requires -0x8000_0000_0000 <= a <= 0x8000_0000_0000, 0 <= p <= 0x4000_0000_0000_0000_0000;
}

/// `n / d` rounded toward negative infinity, on 128-bit integers.
fn floor_div_wide(n: i128, d: i128) -> (r: i128)
    requires
        d > 0,
        n > i128::MIN,
    ensures
        r == (n as int) / (d as int),
{
    if n >= 0 {
        n / d
    } else {
        let m: i128 = -n;
        let q: i128 = m / d;
        let rem: i128 = m % d;
        proof {
            crate::fixed::lemma_floor_div_negative(m as int, d as int, q as int, rem as int);
        }
        if rem == 0 {
            -q
        } else {
            -q - 1
        }
    }
}

/// Weighted average of three values with non-negative weights.
fn weighted3(a0: i64, a1: i64, a2: i64, p0: i128, p1: i128, p2: i128) -> (r: i64)
    requires
        p0 >= 0,
        p1 >= 0,
        p2 >= 0,
        p0 + p1 + p2 > 0,
        p0 <= 0x4000_0000_0000_0000_0000,
        p1 <= 0x4000_0000_0000_0000_0000,
        p2 <= 0x4000_0000_0000_0000_0000,
        -0x8000_0000_0000 <= a0 <= 0x8000_0000_0000,
        -0x8000_0000_0000 <= a1 <= 0x8000_0000_0000,
        -0x8000_0000_0000 <= a2 <= 0x8000_0000_0000,
    ensures
        r == weighted(a0 as int, a1 as int, a2 as int, p0 as int, p1 as int, p2 as int),
        min3(a0 as int, a1 as int, a2 as int) <= r <= max3(a0 as int, a1 as int, a2 as int),
{
    proof {
        lemma_product_bound(a0 as int, p0 as int);
        lemma_product_bound(a1 as int, p1 as int);
        lemma_product_bound(a2 as int, p2 as int);
        lemma_weighted_bound(
            a0 as int,
            a1 as int,
            a2 as int,
            p0 as int,
            p1 as int,
            p2 as int,
            min3(a0 as int, a1 as int, a2 as int),
            max3(a0 as int, a1 as int, a2 as int),
        );
    }
    let n: i128 = p0 * (a0 as i128) + p1 * (a1 as i128) + p2 * (a2 as i128);
    floor_div_wide(n, p0 + p1 + p2) as i64
}

/// The attributes of `v0, v1, v2` blended by clip weights `w` (summing to
/// `ONE`), with `coords` as the position.
pub open spec fn clip_lerp_spec(v0: Vertex, v1: Vertex, v2: Vertex, coords: Vec4, w: Vec3) -> Vertex {
    let (p0, p1, p2) = (w.x as int, w.y as int, w.z as int);
    Vertex {
        coords,
        color: Color {
            r: weighted(v0.color.r as int, v1.color.r as int, v2.color.r as int, p0, p1, p2) as i64,
            g: weighted(v0.color.g as int, v1.color.g as int, v2.color.g as int, p0, p1, p2) as i64,
            b: weighted(v0.color.b as int, v1.color.b as int, v2.color.b as int, p0, p1, p2) as i64,
        },
        uv: Vec2 {
            x: weighted(v0.uv.x as int, v1.uv.x as int, v2.uv.x as int, p0, p1, p2) as i64,
            y: weighted(v0.uv.y as int, v1.uv.y as int, v2.uv.y as int, p0, p1, p2) as i64,
        },
    }
}

/// The vertex divided by its `w`: `(x/w, y/w, z/w, 1/w)`, fixed point,
/// rounded toward zero.
pub open spec fn homogenize_spec(v: Vertex) -> Vertex {
    let w = v.coords.w as int;
    Vertex {
        coords: Vec4 {
            x: trunc_div_spec(v.coords.x * ONE, w) as i64,
            y: trunc_div_spec(v.coords.y * ONE, w) as i64,
            z: trunc_div_spec(v.coords.z * ONE, w) as i64,
            w: (ONE * ONE / w) as i64,
        },
        ..v
    }
}

/// Perspective weights: each screen-space weight times the vertex's `1/w`.
pub open spec fn perspective_weights(v0: Vertex, v1: Vertex, v2: Vertex, t: Vec3) -> (int, int, int) {
    (v0.coords.w * t.x, v1.coords.w * t.y, v2.coords.w * t.z)
}

/// What `bary_lerp` returns: the position blended by the screen-space
/// weights `t` (numerators over `t.x + t.y + t.z`), the color and texture
/// coordinates blended perspective-correctly.
pub open spec fn bary_lerp_spec(v0: Vertex, v1: Vertex, v2: Vertex, t: Vec3) -> Vertex {
    let (t0, t1, t2) = (t.x as int, t.y as int, t.z as int);
    let (p0, p1, p2) = perspective_weights(v0, v1, v2, t);
    Vertex {
        coords: Vec4 {
            x: weighted(v0.coords.x as int, v1.coords.x as int, v2.coords.x as int, t0, t1, t2) as i64,
            y: weighted(v0.coords.y as int, v1.coords.y as int, v2.coords.y as int, t0, t1, t2) as i64,
            z: weighted(v0.coords.z as int, v1.coords.z as int, v2.coords.z as int, t0, t1, t2) as i64,
            w: weighted(v0.coords.w as int, v1.coords.w as int, v2.coords.w as int, t0, t1, t2) as i64,
        },
        color: Color {
            r: weighted(v0.color.r as int, v1.color.r as int, v2.color.r as int, p0, p1, p2) as i64,
            g: weighted(v0.color.g as int, v1.color.g as int, v2.color.g as int, p0, p1, p2) as i64,
            b: weighted(v0.color.b as int, v1.color.b as int, v2.color.b as int, p0, p1, p2) as i64,
        },
        uv: Vec2 {
            x: weighted(v0.uv.x as int, v1.uv.x as int, v2.uv.x as int, p0, p1, p2) as i64,
            y: weighted(v0.uv.y as int, v1.uv.y as int, v2.uv.y as int, p0, p1, p2) as i64,
        },
    }
}

/// Largest `1/w` of a homogenized vertex.
pub const INV_W_LIMIT: i64 = 0x1_0000_0000;

/// Largest magnitude of a homogenized position coordinate.
pub const NDC_LIMIT: i64 = 0x4000_0000_0000;

/// Largest magnitude of a screen-space weight numerator.
pub const WEIGHT_LIMIT: i64 = 0x1000_0000_0000;

/// A homogenized vertex as the interpolation functions accept it.
pub open spec fn homogenized_ok(v: Vertex) -> bool {
    &&& -NDC_LIMIT <= v.coords.x <= NDC_LIMIT
    &&& -NDC_LIMIT <= v.coords.y <= NDC_LIMIT
    &&& -NDC_LIMIT <= v.coords.z <= NDC_LIMIT
    &&& 0 < v.coords.w <= INV_W_LIMIT
    &&& attrs_in_range(v)
}

/// Screen-space weight numerators as the rasterizer produces them.
pub open spec fn weights_ok(t: Vec3) -> bool {
    &&& 0 <= t.x <= WEIGHT_LIMIT
    &&& 0 <= t.y <= WEIGHT_LIMIT
    &&& 0 <= t.z <= WEIGHT_LIMIT
    &&& t.x + t.y + t.z > 0
}

/// Texture coordinates at weights `t + dt`, extrapolated by the
/// perspective formula and clamped to the attribute range, or `None` where
/// the perspective denominator there is zero.
/// `(p0 * a0 + p1 * a1 + p2 * a2) / (p0 + p1 + p2)` rounded down, for a
/// nonzero sum of either sign.
pub open spec fn signed_weighted(a0: int, a1: int, a2: int, p0: int, p1: int, p2: int) -> int {
    if p0 + p1 + p2 > 0 {
        weighted(a0, a1, a2, p0, p1, p2)
    } else {
        weighted(a0, a1, a2, -p0, -p1, -p2)
    }
}

pub open spec fn extrapolated_uv(v0: Vertex, v1: Vertex, v2: Vertex, t: Vec3, dt: Vec3) -> Option<(int, int)> {
    let (s0, s1, s2) = (t.x + dt.x, t.y + dt.y, t.z + dt.z);
    let (p0, p1, p2) = (v0.coords.w * s0, v1.coords.w * s1, v2.coords.w * s2);
    if p0 + p1 + p2 == 0 {
        None
    } else {
        Some(
            (
                crate::fixed::clamp_spec(
                    signed_weighted(v0.uv.x as int, v1.uv.x as int, v2.uv.x as int, p0, p1, p2),
                    -ATTR_LIMIT as int,
                    ATTR_LIMIT as int,
                ),
                crate::fixed::clamp_spec(
                    signed_weighted(v0.uv.y as int, v1.uv.y as int, v2.uv.y as int, p0, p1, p2),
                    -ATTR_LIMIT as int,
                    ATTR_LIMIT as int,
                ),
            ),
        )
    }
}

/// What `duv` returns: the change of the perspective-correct texture
/// coordinates from weights `t` to weights `t + dt`; zero where the
/// perspective denominator at `t + dt` is zero.
pub open spec fn duv_spec(v0: Vertex, v1: Vertex, v2: Vertex, t: Vec3, dt: Vec3) -> Vec2 {
    let here = bary_lerp_spec(v0, v1, v2, t).uv;
    match extrapolated_uv(v0, v1, v2, t, dt) {
        Some((x, y)) => Vec2 { x: (x - here.x) as i64, y: (y - here.y) as i64 },
        None => Vec2 { x: 0, y: 0 },
    }
}

/// Clip-space position `v.coords` must already be in range; attributes of
/// `v0, v1, v2` are blended by the weights.
pub open spec fn clip_weights_ok(w: Vec3) -> bool {
    w.x >= 0 && w.y >= 0 && w.z >= 0 && w.x + w.y + w.z == ONE
}

impl Vertex {
    /// A vertex at `coords` with `w = 1`.
    pub fn new(coords: Vec3, color: Color, uv: Vec2) -> (r: Self)
        ensures
            r == (Vertex { coords: Vec4 { x: coords.x, y: coords.y, z: coords.z, w: ONE }, color, uv }),
    {
        Self { coords: Vec4 { x: coords.x, y: coords.y, z: coords.z, w: ONE }, color, uv }
    }

    /// The vertex at clip-space position `coords` whose attributes are those
    /// of `self, v1, v2` blended by the clip weights `w`.
    pub fn clip_lerp(&self, v1: &Self, v2: &Self, coords: Vec4, w: Vec3) -> (r: Self)
        requires
            attrs_in_range(*self),
            attrs_in_range(*v1),
            attrs_in_range(*v2),
            clip_weights_ok(w),
        ensures
            r == clip_lerp_spec(*self, *v1, *v2, coords, w),
            attrs_in_range(r),
    {
        let v0 = self;
        let (p0, p1, p2) = (w.x as i128, w.y as i128, w.z as i128);
        Self {
            coords,
            color: Color {
                r: weighted3(v0.color.r, v1.color.r, v2.color.r, p0, p1, p2),
                g: weighted3(v0.color.g, v1.color.g, v2.color.g, p0, p1, p2),
                b: weighted3(v0.color.b, v1.color.b, v2.color.b, p0, p1, p2),
            },
            uv: Vec2 {
                x: weighted3(v0.uv.x, v1.uv.x, v2.uv.x, p0, p1, p2),
                y: weighted3(v0.uv.y, v1.uv.y, v2.uv.y, p0, p1, p2),
            },
        }
    }

    /// Perspective division: the position becomes `(x/w, y/w, z/w)` and its
    /// `w` becomes `1/w`, kept for perspective-correct interpolation.
    pub fn homogenize(self) -> (r: Self)
        requires
            position_in_range(self.coords),
            self.coords.w > 0,
            attrs_in_range(self),
        ensures
            r == homogenize_spec(self),
            homogenized_ok(r),
    {
        let w = self.coords.w;
        proof {
            let l = CLIP_LIMIT as int;
            assert(ONE * ONE / (w as int) >= 4 && ONE * ONE / (w as int) <= INV_W_LIMIT) by (nonlinear_arith)
                requires 0 < w <= 0x4000_0000;
        }
        let x = trunc_div(self.coords.x * ONE, w);
        let y = trunc_div(self.coords.y * ONE, w);
        let z = trunc_div(self.coords.z * ONE, w);
        proof {
            lemma_ndc_bound(self.coords.x as int, w as int);
            lemma_ndc_bound(self.coords.y as int, w as int);
            lemma_ndc_bound(self.coords.z as int, w as int);
        }
        Self { coords: Vec4 { x, y, z, w: ONE * ONE / w }, ..self }
    }

    /// The vertex at screen-space weights `t` (numerators over their sum):
    /// the position blended linearly, the color and texture coordinates
    /// blended perspective-correctly, weighting each vertex by its `1/w`.
    pub fn bary_lerp(&self, v1: &Self, v2: &Self, t: Vec3) -> (r: Self)
        requires
            homogenized_ok(*self),
            homogenized_ok(*v1),
            homogenized_ok(*v2),
            weights_ok(t),
        ensures
            r == bary_lerp_spec(*self, *v1, *v2, t),
            attrs_in_range(r),
    {
        let v0 = self;
        let (t0, t1, t2) = (t.x as i128, t.y as i128, t.z as i128);
        proof {
            lemma_perspective_weight(v0.coords.w as int, t.x as int);
            lemma_perspective_weight(v1.coords.w as int, t.y as int);
            lemma_perspective_weight(v2.coords.w as int, t.z as int);
        }
        let p0 = (v0.coords.w as i128) * t0;
        let p1 = (v1.coords.w as i128) * t1;
        let p2 = (v2.coords.w as i128) * t2;
        Self {
            coords: Vec4 {
                x: weighted3(v0.coords.x, v1.coords.x, v2.coords.x, t0, t1, t2),
                y: weighted3(v0.coords.y, v1.coords.y, v2.coords.y, t0, t1, t2),
                z: weighted3(v0.coords.z, v1.coords.z, v2.coords.z, t0, t1, t2),
                w: weighted3(v0.coords.w, v1.coords.w, v2.coords.w, t0, t1, t2),
            },
            color: Color {
                r: weighted3(v0.color.r, v1.color.r, v2.color.r, p0, p1, p2),
                g: weighted3(v0.color.g, v1.color.g, v2.color.g, p0, p1, p2),
                b: weighted3(v0.color.b, v1.color.b, v2.color.b, p0, p1, p2),
            },
            uv: Vec2 {
                x: weighted3(v0.uv.x, v1.uv.x, v2.uv.x, p0, p1, p2),
                y: weighted3(v0.uv.y, v1.uv.y, v2.uv.y, p0, p1, p2),
            },
        }
    }
}

impl Vertex {
    /// The change of the perspective-correct texture coordinates from
    /// weights `t` to weights `t + dt` (one pixel step away), the latter
    /// extrapolated by the same formula and clamped to the attribute range;
    /// zero where the perspective denominator at `t + dt` is zero.
    pub fn duv(&self, v1: &Self, v2: &Self, t: Vec3, dt: Vec3) -> (r: Vec2)
        requires
            homogenized_ok(*self),
            homogenized_ok(*v1),
            homogenized_ok(*v2),
            weights_ok(t),
            -WEIGHT_LIMIT <= dt.x <= WEIGHT_LIMIT,
            -WEIGHT_LIMIT <= dt.y <= WEIGHT_LIMIT,
            -WEIGHT_LIMIT <= dt.z <= WEIGHT_LIMIT,
        ensures
            r == duv_spec(*self, *v1, *v2, t, dt),
            -2 * ATTR_LIMIT <= r.x <= 2 * ATTR_LIMIT,
            -2 * ATTR_LIMIT <= r.y <= 2 * ATTR_LIMIT,
    {
        let v0 = self;
        let here = self.bary_lerp(v1, v2, t);
        let (s0, s1, s2) = (t.x + dt.x, t.y + dt.y, t.z + dt.z);
        proof {
            lemma_perspective_weight(v0.coords.w as int, s0 as int);
            lemma_perspective_weight(v1.coords.w as int, s1 as int);
            lemma_perspective_weight(v2.coords.w as int, s2 as int);
        }
        let p0 = (v0.coords.w as i128) * (s0 as i128);
        let p1 = (v1.coords.w as i128) * (s1 as i128);
        let p2 = (v2.coords.w as i128) * (s2 as i128);
        let d = p0 + p1 + p2;
        if d == 0 {
            return Vec2 { x: 0, y: 0 };
        }
        let (q0, q1, q2) = if d > 0 {
            (p0, p1, p2)
        } else {
            (-p0, -p1, -p2)
        };
        let x = extrapolate3(v0.uv.x, v1.uv.x, v2.uv.x, q0, q1, q2);
        let y = extrapolate3(v0.uv.y, v1.uv.y, v2.uv.y, q0, q1, q2);
        Vec2 { x: x - here.uv.x, y: y - here.uv.y }
    }
}

/// The weighted average under weights of any sign with a positive sum,
/// clamped to the attribute range.
fn extrapolate3(a0: i64, a1: i64, a2: i64, p0: i128, p1: i128, p2: i128) -> (r: i64)
    requires
        attr_in_range(a0 as int),
        attr_in_range(a1 as int),
        attr_in_range(a2 as int),
        -0x4000_0000_0000_0000_0000 <= p0 <= 0x4000_0000_0000_0000_0000,
        -0x4000_0000_0000_0000_0000 <= p1 <= 0x4000_0000_0000_0000_0000,
        -0x4000_0000_0000_0000_0000 <= p2 <= 0x4000_0000_0000_0000_0000,
        p0 + p1 + p2 > 0,
    ensures
        r == crate::fixed::clamp_spec(
            weighted(a0 as int, a1 as int, a2 as int, p0 as int, p1 as int, p2 as int),
            -ATTR_LIMIT as int,
            ATTR_LIMIT as int,
        ),
        attr_in_range(r as int),
{
    proof {
        lemma_signed_product_bound(a0 as int, p0 as int);
        lemma_signed_product_bound(a1 as int, p1 as int);
        lemma_signed_product_bound(a2 as int, p2 as int);
    }
    let n: i128 = p0 * (a0 as i128) + p1 * (a1 as i128) + p2 * (a2 as i128);
    let q = floor_div_wide(n, p0 + p1 + p2);
    if q < -(ATTR_LIMIT as i128) {
        -ATTR_LIMIT
    } else if q > ATTR_LIMIT as i128 {
        ATTR_LIMIT
    } else {
        q as i64
    }
}

proof fn lemma_signed_product_bound(a: int, p: int)
    requires
        -ATTR_LIMIT <= a <= ATTR_LIMIT,
        -0x4000_0000_0000_0000_0000 <= p <= 0x4000_0000_0000_0000_0000,
    ensures
        -0x8_0000_0000_0000_0000_0000_0000_0000 <= p * a <= 0x8_0000_0000_0000_0000_0000_0000_0000,
{
    assert(-0x8_0000_0000_0000_0000_0000_0000_0000 <= p * a <= 0x8_0000_0000_0000_0000_0000_0000_0000)
        by (nonlinear_arith)
        requires
            -0x2000_0000 <= a <= 0x2000_0000,
            -0x4000_0000_0000_0000_0000 <= p <= 0x4000_0000_0000_0000_0000;
}

/// `a + (b - a) * t`, `t` fixed point in `[0, ONE]`, rounded down.
pub open spec fn lerp_scalar(a: int, b: int, t: int) -> int {
    a + (b - a) * t / (ONE as int)
}

pub open spec fn lerp_spec(x: Vertex, y: Vertex, t: int) -> Vertex {
    Vertex {
        coords: Vec4 {
            x: lerp_scalar(x.coords.x as int, y.coords.x as int, t) as i64,
            y: lerp_scalar(x.coords.y as int, y.coords.y as int, t) as i64,
            z: lerp_scalar(x.coords.z as int, y.coords.z as int, t) as i64,
            w: lerp_scalar(x.coords.w as int, y.coords.w as int, t) as i64,
        },
        color: Color {
            r: lerp_scalar(x.color.r as int, y.color.r as int, t) as i64,
            g: lerp_scalar(x.color.g as int, y.color.g as int, t) as i64,
            b: lerp_scalar(x.color.b as int, y.color.b as int, t) as i64,
        },
        uv: Vec2 {
            x: lerp_scalar(x.uv.x as int, y.uv.x as int, t) as i64,
            y: lerp_scalar(x.uv.y as int, y.uv.y as int, t) as i64,
        },
    }
}

proof fn lemma_lerp_bound(a: int, b: int, t: int)
    requires
        -CLIP_LIMIT <= a <= CLIP_LIMIT,
        -CLIP_LIMIT <= b <= CLIP_LIMIT,
        0 <= t <= ONE,
    ensures
        -CLIP_LIMIT <= lerp_scalar(a, b, t) <= CLIP_LIMIT,
        min3(a, a, b) <= lerp_scalar(a, b, t) <= max3(a, a, b),
        -0x8000_0000_0000 <= (b - a) * t <= 0x8000_0000_0000,
{
    let d = b - a;
    assert(-0x8000_0000_0000 <= d * t <= 0x8000_0000_0000) by (nonlinear_arith)
        requires -0x8000_0000 <= d <= 0x8000_0000, 0 <= t <= 65536;
    if d >= 0 {
        assert(0 <= d * t / 65536 <= d) by (nonlinear_arith)
            requires 0 <= d, 0 <= t <= 65536;
    } else {
        assert(d <= d * t / 65536 <= 0) by (nonlinear_arith)
            requires d < 0, 0 <= t <= 65536;
    }
}

fn lerp_exec(a: i64, b: i64, t: i64) -> (r: i64)
    requires
        -CLIP_LIMIT <= a <= CLIP_LIMIT,
        -CLIP_LIMIT <= b <= CLIP_LIMIT,
        0 <= t <= ONE,
    ensures
        r == lerp_scalar(a as int, b as int, t as int),
        min3(a as int, a as int, b as int) <= r <= max3(a as int, a as int, b as int),
{
    proof {
        lemma_lerp_bound(a as int, b as int, t as int);
    }
    a + crate::fixed::floor_div((b - a) * t, ONE)
}

impl Vertex {
    /// The vertex a fraction `a` (fixed point, `0 <= a <= ONE`) of the way
    /// from `self` to `y`, every component interpolated linearly and
    /// rounded down.
    pub fn lerp(&self, y: &Self, a: i64) -> (r: Self)
        requires
            position_in_range(self.coords),
            position_in_range(y.coords),
            attrs_in_range(*self),
            attrs_in_range(*y),
            0 <= a <= ONE,
        ensures
            r == lerp_spec(*self, *y, a as int),
            position_in_range(r.coords),
            attrs_in_range(r),
    {
        Self {
            coords: Vec4 {
                x: lerp_exec(self.coords.x, y.coords.x, a),
                y: lerp_exec(self.coords.y, y.coords.y, a),
                z: lerp_exec(self.coords.z, y.coords.z, a),
                w: lerp_exec(self.coords.w, y.coords.w, a),
            },
            color: Color {
                r: lerp_exec(self.color.r, y.color.r, a),
                g: lerp_exec(self.color.g, y.color.g, a),
                b: lerp_exec(self.color.b, y.color.b, a),
            },
            uv: Vec2 {
                x: lerp_exec(self.uv.x, y.uv.x, a),
                y: lerp_exec(self.uv.y, y.uv.y, a),
            },
        }
    }
}

/// A 4 by 4 fixed-point matrix, row-major: entry `(r, c)` is `m[4 * r + c]`.
#[derive(Debug, Clone, Copy)]
pub struct Mat4 {
    pub m: [i64; 16],
}

impl Mat4 {
    pub fn identity() -> (r: Self)
        ensures
            r.m == [ONE, 0, 0, 0, 0, ONE, 0, 0, 0, 0, ONE, 0, 0, 0, 0, ONE],
            mat_ok(r),
    {
        Mat4 { m: [ONE, 0, 0, 0, 0, ONE, 0, 0, 0, 0, ONE, 0, 0, 0, 0, ONE] }
    }
}

/// Largest magnitude of a matrix entry or of a transformed coordinate.
pub const TRANSFORM_LIMIT: i64 = 0x8000_0000;

pub open spec fn mat_ok(m: Mat4) -> bool {
    forall|i: int| 0 <= i < 16 ==> -TRANSFORM_LIMIT <= #[trigger] m.m[i] <= TRANSFORM_LIMIT
}

pub open spec fn point_ok(p: Vec4) -> bool {
    &&& -TRANSFORM_LIMIT <= p.x <= TRANSFORM_LIMIT
    &&& -TRANSFORM_LIMIT <= p.y <= TRANSFORM_LIMIT
    &&& -TRANSFORM_LIMIT <= p.z <= TRANSFORM_LIMIT
    &&& -TRANSFORM_LIMIT <= p.w <= TRANSFORM_LIMIT
}

/// Row `r` of `m` times `p`, divided by `ONE` and rounded down.
pub open spec fn row_times(m: Mat4, r: int, p: Vec4) -> int {
    (m.m[4 * r] * p.x + m.m[4 * r + 1] * p.y + m.m[4 * r + 2] * p.z + m.m[4 * r + 3] * p.w) / (ONE as int)
}

pub open spec fn transform_spec(m: Mat4, p: Vec4) -> Vec4 {
    Vec4 {
        x: row_times(m, 0, p) as i64,
        y: row_times(m, 1, p) as i64,
        z: row_times(m, 2, p) as i64,
        w: row_times(m, 3, p) as i64,
    }
}

fn row_times_exec(m: &Mat4, r: usize, p: Vec4) -> (q: i64)
    requires
        mat_ok(*m),
        point_ok(p),
        r < 4,
    ensures
        q == row_times(*m, r as int, p),
{
    let a = m.m[4 * r] as i128;
    let b = m.m[4 * r + 1] as i128;
    let c = m.m[4 * r + 2] as i128;
    let d = m.m[4 * r + 3] as i128;
    proof {
        assert(-TRANSFORM_LIMIT <= m.m[4 * r as int] <= TRANSFORM_LIMIT);
        assert(-TRANSFORM_LIMIT <= m.m[4 * r + 1] <= TRANSFORM_LIMIT);
        assert(-TRANSFORM_LIMIT <= m.m[4 * r + 2] <= TRANSFORM_LIMIT);
        assert(-TRANSFORM_LIMIT <= m.m[4 * r + 3] <= TRANSFORM_LIMIT);
        lemma_entry_product(a as int, p.x as int);
        lemma_entry_product(b as int, p.y as int);
        lemma_entry_product(c as int, p.z as int);
        lemma_entry_product(d as int, p.w as int);
    }
    let n = a * (p.x as i128) + b * (p.y as i128) + c * (p.z as i128) + d * (p.w as i128);
    let q = floor_div_wide(n, ONE as i128);
    proof {
        assert(-0x1_0000_0000_0000 <= (n as int) / 65536 <= 0x1_0000_0000_0000) by (nonlinear_arith)
            requires -0x1_0000_0000_0000_0000 <= n <= 0x1_0000_0000_0000_0000;
    }
    q as i64
}

proof fn lemma_entry_product(a: int, b: int)
    requires
        -TRANSFORM_LIMIT <= a <= TRANSFORM_LIMIT,
        -TRANSFORM_LIMIT <= b <= TRANSFORM_LIMIT,
    ensures
        -0x4000_0000_0000_0000 <= a * b <= 0x4000_0000_0000_0000,
{
    assert(-0x4000_0000_0000_0000 <= a * b <= 0x4000_0000_0000_0000) by (nonlinear_arith)
        requires -0x8000_0000 <= a <= 0x8000_0000, -0x8000_0000 <= b <= 0x8000_0000;
}

impl Vertex {
    /// The vertex with its position multiplied by `transform`; the
    /// attributes are kept.
    pub fn transform(self, transform: &Mat4) -> (r: Self)
        requires
            mat_ok(*transform),
            point_ok(self.coords),
        ensures
            r == (Vertex { coords: transform_spec(*transform, self.coords), ..self }),
    {
        let p = self.coords;
        Self {
            coords: Vec4 {
                x: row_times_exec(transform, 0, p),
                y: row_times_exec(transform, 1, p),
                z: row_times_exec(transform, 2, p),
                w: row_times_exec(transform, 3, p),
            },
            ..self
        }
    }
}

proof fn lemma_weighted_constant(a: int, p0: int, p1: int, p2: int)
    requires
        p0 + p1 + p2 != 0,
    ensures
        signed_weighted(a, a, a, p0, p1, p2) == a,
        p0 + p1 + p2 > 0 ==> weighted(a, a, a, p0, p1, p2) == a,
{
    let d = p0 + p1 + p2;
    assert(p0 * a + p1 * a + p2 * a == d * a) by (nonlinear_arith)
        requires d == p0 + p1 + p2;
    assert((-p0) * a + (-p1) * a + (-p2) * a == (-d) * a) by (nonlinear_arith)
        requires d == p0 + p1 + p2;
    if d > 0 {
        vstd::arithmetic::div_mod::lemma_div_multiples_vanish(a, d);
    } else {
        vstd::arithmetic::div_mod::lemma_div_multiples_vanish(a, -d);
    }
}

/// Where the three vertices share their texture coordinates, those
/// coordinates do not change from pixel to pixel.
pub proof fn lemma_duv_constant_uv(v0: Vertex, v1: Vertex, v2: Vertex, t: Vec3, dt: Vec3)
    requires
        homogenized_ok(v0),
        homogenized_ok(v1),
        homogenized_ok(v2),
        weights_ok(t),
        v0.uv == v1.uv,
        v1.uv == v2.uv,
    ensures
        duv_spec(v0, v1, v2, t, dt) == (Vec2 { x: 0, y: 0 }),
{
    let (p0, p1, p2) = perspective_weights(v0, v1, v2, t);
    assert(p0 >= 0 && p1 >= 0 && p2 >= 0 && p0 + p1 + p2 > 0) by {
        lemma_perspective_weight(v0.coords.w as int, t.x as int);
        lemma_perspective_weight(v1.coords.w as int, t.y as int);
        lemma_perspective_weight(v2.coords.w as int, t.z as int);
        assert(p0 + p1 + p2 > 0) by (nonlinear_arith)
            requires
                p0 == v0.coords.w * t.x,
                p1 == v1.coords.w * t.y,
                p2 == v2.coords.w * t.z,
                v0.coords.w > 0,
                v1.coords.w > 0,
                v2.coords.w > 0,
                t.x >= 0,
                t.y >= 0,
                t.z >= 0,
                t.x + t.y + t.z > 0;
    }
    lemma_weighted_constant(v0.uv.x as int, p0, p1, p2);
    lemma_weighted_constant(v0.uv.y as int, p0, p1, p2);
    let (s0, s1, s2) = (t.x + dt.x, t.y + dt.y, t.z + dt.z);
    let (q0, q1, q2) = (v0.coords.w * s0, v1.coords.w * s1, v2.coords.w * s2);
    if q0 + q1 + q2 != 0 {
        lemma_weighted_constant(v0.uv.x as int, q0, q1, q2);
        lemma_weighted_constant(v0.uv.y as int, q0, q1, q2);
    }
}

proof fn lemma_ndc_bound(c: int, w: int)
    requires
        -CLIP_LIMIT <= c <= CLIP_LIMIT,
        0 < w <= CLIP_LIMIT,
    ensures
        -NDC_LIMIT <= trunc_div_spec(c * ONE, w) <= NDC_LIMIT,
        -0x4000_0000_0000 <= c * ONE <= 0x4000_0000_0000,
{
    assert(-0x4000_0000_0000 <= c * 65536 <= 0x4000_0000_0000) by (nonlinear_arith)
        requires -0x4000_0000 <= c <= 0x4000_0000;
    let n = c * 65536;
    if n >= 0 {
        assert(n / w <= 0x4000_0000_0000) by (nonlinear_arith)
            requires 0 <= n <= 0x4000_0000_0000, w >= 1;
        assert(n / w >= 0) by (nonlinear_arith)
            requires 0 <= n, w >= 1;
    } else {
        assert((-n) / w <= 0x4000_0000_0000) by (nonlinear_arith)
            requires 0 <= -n <= 0x4000_0000_0000, w >= 1;
        assert((-n) / w >= 0) by (nonlinear_arith)
            requires 0 <= -n, w >= 1;
    }
}

proof fn lemma_perspective_weight(iw: int, t: int)
    requires
        0 < iw <= INV_W_LIMIT,
        -2 * WEIGHT_LIMIT <= t <= 2 * WEIGHT_LIMIT,
    ensures
        -0x4000_0000_0000_0000_0000 <= iw * t <= 0x4000_0000_0000_0000_0000,
        t >= 0 ==> iw * t >= 0,
{
    assert(-0x4000_0000_0000_0000_0000 <= iw * t <= 0x4000_0000_0000_0000_0000) by (nonlinear_arith)
        requires 0 < iw <= 0x1_0000_0000, -0x2000_0000_0000 <= t <= 0x2000_0000_0000;
    assert(t >= 0 ==> iw * t >= 0) by (nonlinear_arith)
        requires 0 < iw;
}

} // verus!
