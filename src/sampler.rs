//! Texture lookup with per-axis addressing and nearest, bilinear or
//! anisotropic filtering.
//!
//! Texture coordinates are fixed point, `ONE` spanning the whole texture;
//! texel-space positions are fixed point too, `ONE` per texel.
use vstd::arithmetic::power2::pow2;
use vstd::prelude::*;

use crate::color::{from_raw_spec, Color};
use crate::fixed::{ceil_div, ceil_div_spec, clamp_spec, floor_div, floor_div_spec, floor_mod, ONE};
use crate::image::{texel_index, Image};
use crate::vector::Vec2;

verus! {

/// Largest width or height of a sampled texture.
pub const IMAGE_LIMIT: usize = 32768;

/// Largest magnitude of a texture coordinate or of its derivative.
pub const UV_LIMIT: i64 = 1073741824;

/// Largest anisotropic detail level.
pub const MAX_LEVEL: i32 = 14;

/// Smallest anisotropic detail level.
pub const MIN_LEVEL: i32 = -16;

/// How a texel index outside `[0, size)` is brought back into range.
#[derive(Debug, Clone, Copy, PartialEq, Eq, Structural)]
pub enum AddressMode {
    /// The index wraps around modulo the size.
    Repeat,
    /// The index saturates at the nearest edge.
    Clamp,
}

pub open spec fn convert_spec(mode: AddressMode, src: int, size: int) -> int {
    match mode {
        AddressMode::Repeat => src % size,
        AddressMode::Clamp => clamp_spec(src, 0, size - 1),
    }
}

impl AddressMode {
    /// The in-range texel index for `src` in a dimension of `size` texels.
    pub fn convert(&self, src: i64, size: usize) -> (r: usize)
        requires
            0 < size <= i64::MAX,
        ensures
            r == convert_spec(*self, src as int, size as int),
            r < size,
    {
        match self {
            AddressMode::Repeat => {
                let d = size as i64;
                if src == i64::MIN {
                    proof {
                        vstd::arithmetic::div_mod::lemma_mod_add_multiples_vanish(src as int, d as int);
                    }
                    floor_mod(src + d, d) as usize
                } else {
                    floor_mod(src, d) as usize
                }
            },
            AddressMode::Clamp => {
                if src < 0 {
                    0
                } else if src > (size - 1) as i64 {
                    size - 1
                } else {
                    src as usize
                }
            },
        }
    }
}

#[derive(Debug, Clone, Copy, PartialEq, Eq, Structural)]
pub enum Filter {
    /// The texel under the sample point.
    Nearest,
    /// The four texels around the sample point, weighted by distance.
    Linear,
    /// A grid of bilinear samples over the pixel's footprint, at most
    /// `2^level` texels wide per axis.
    Anisotropic(i32),
}

#[derive(Debug, Clone, Copy, PartialEq, Eq, Structural)]
pub struct Sampler {
    pub u_address_mode: AddressMode,
    pub v_address_mode: AddressMode,
    pub filter: Filter,
}

/// A texture that can be sampled: well formed and of a size in range.
pub open spec fn image_ok(image: &Image) -> bool {
    &&& image.wf()
    &&& 0 < image.width_spec() <= IMAGE_LIMIT
    &&& 0 < image.height_spec() <= IMAGE_LIMIT
}

pub open spec fn uv_in_range(v: Vec2) -> bool {
    -UV_LIMIT <= v.x <= UV_LIMIT && -UV_LIMIT <= v.y <= UV_LIMIT
}

/// The color of texel `(i, j)` after addressing.
pub open spec fn texel_color(s: Sampler, image: &Image, i: int, j: int) -> Color {
    let x = convert_spec(s.u_address_mode, i, image.width_spec() as int);
    let y = convert_spec(s.v_address_mode, j, image.height_spec() as int);
    from_raw_spec(image.texels()[texel_index((x as usize, y as usize), image.width_spec())] as int)
}

/// Nearest filtering at texel-space position `(x, y)`.
pub open spec fn nearest_spec(s: Sampler, image: &Image, x: int, y: int) -> Color {
    texel_color(s, image, floor_div_spec(x, ONE as int), floor_div_spec(y, ONE as int))
}

/// The bilinear blend of four channel values with fractional offsets
/// `ax`, `ay` (in `[0, ONE)`), rounded down.
pub open spec fn blend(c00: int, c10: int, c01: int, c11: int, ax: int, ay: int) -> int {
    ((ONE - ax) * (ONE - ay) * c00 + ax * (ONE - ay) * c10 + (ONE - ax) * ay * c01 + ax * ay * c11)
        / (ONE * ONE)
}

/// Bilinear filtering at texel-space position `(x, y)`: the four texels
/// around `(x - 1/2, y - 1/2)`, weighted by its fractional offsets.
pub open spec fn linear_spec(s: Sampler, image: &Image, x: int, y: int) -> Color {
    let (x0, y0) = (x - ONE / 2, y - ONE / 2);
    let (i, j) = (floor_div_spec(x0, ONE as int), floor_div_spec(y0, ONE as int));
    let (ax, ay) = (x0 - i * ONE, y0 - j * ONE);
    let c00 = texel_color(s, image, i, j);
    let c10 = texel_color(s, image, i + 1, j);
    let c01 = texel_color(s, image, i, j + 1);
    let c11 = texel_color(s, image, i + 1, j + 1);
    Color {
        r: blend(c00.r as int, c10.r as int, c01.r as int, c11.r as int, ax, ay) as i64,
        g: blend(c00.g as int, c10.g as int, c01.g as int, c11.g as int, ax, ay) as i64,
        b: blend(c00.b as int, c10.b as int, c01.b as int, c11.b as int, ax, ay) as i64,
    }
}

pub open spec fn channel_ok(c: int) -> bool {
    0 <= c <= ONE
}

pub open spec fn color_ok(c: Color) -> bool {
    channel_ok(c.r as int) && channel_ok(c.g as int) && channel_ok(c.b as int)
}

proof fn lemma_blend_range(c00: int, c10: int, c01: int, c11: int, ax: int, ay: int)
    requires
        channel_ok(c00),
        channel_ok(c10),
        channel_ok(c01),
        channel_ok(c11),
        0 <= ax < ONE,
        0 <= ay < ONE,
    ensures
        channel_ok(blend(c00, c10, c01, c11, ax, ay)),
        0 <= (ONE - ax) * (ONE - ay) * c00 <= 0x1000000000000,
        0 <= ax * (ONE - ay) * c10 <= 0x1000000000000,
        0 <= (ONE - ax) * ay * c01 <= 0x1000000000000,
        0 <= ax * ay * c11 <= 0x1000000000000,
        (ONE - ax) * (ONE - ay) + ax * (ONE - ay) + (ONE - ax) * ay + ax * ay == ONE * ONE,
{
    let (bx, by) = (ONE - ax, ONE - ay);
    assert(0 <= bx * by * c00 <= bx * by * ONE) by (nonlinear_arith)
        requires 0 <= bx, 0 <= by, 0 <= c00 <= 65536;
    assert(0 <= ax * by * c10 <= ax * by * ONE) by (nonlinear_arith)
        requires 0 <= ax, 0 <= by, 0 <= c10 <= 65536;
    assert(0 <= bx * ay * c01 <= bx * ay * ONE) by (nonlinear_arith)
        requires 0 <= bx, 0 <= ay, 0 <= c01 <= 65536;
    assert(0 <= ax * ay * c11 <= ax * ay * ONE) by (nonlinear_arith)
        requires 0 <= ax, 0 <= ay, 0 <= c11 <= 65536;
    assert(bx * by + ax * by + bx * ay + ax * ay == 65536 * 65536) by (nonlinear_arith)
        requires bx == 65536 - ax, by == 65536 - ay;
    assert(bx * by * 65536 + ax * by * 65536 + bx * ay * 65536 + ax * ay * 65536 == 65536 * 65536
        * 65536) by (nonlinear_arith)
        requires bx * by + ax * by + bx * ay + ax * ay == 65536 * 65536;
    assert(bx * by <= 65536 * 65536 && ax * by <= 65536 * 65536 && bx * ay <= 65536 * 65536 && ax
        * ay <= 65536 * 65536) by (nonlinear_arith)
        requires 0 <= ax <= 65536, 0 <= ay <= 65536, bx == 65536 - ax, by == 65536 - ay;
    assert(bx * by * 65536 <= 0x1000000000000) by (nonlinear_arith)
        requires 0 <= bx * by <= 65536 * 65536;
    assert(ax * by * 65536 <= 0x1000000000000) by (nonlinear_arith)
        requires 0 <= ax * by <= 65536 * 65536;
    assert(bx * ay * 65536 <= 0x1000000000000) by (nonlinear_arith)
        requires 0 <= bx * ay <= 65536 * 65536;
    assert(ax * ay * 65536 <= 0x1000000000000) by (nonlinear_arith)
        requires 0 <= ax * ay <= 65536 * 65536;
    let sum = bx * by * c00 + ax * by * c10 + bx * ay * c01 + ax * ay * c11;
    assert(0 <= sum / (65536 * 65536int) <= 65536) by (nonlinear_arith)
        requires 0 <= sum <= 65536 * 65536 * 65536;
}

fn blend_exec(c00: i64, c10: i64, c01: i64, c11: i64, ax: i64, ay: i64) -> (r: i64)
    requires
        channel_ok(c00 as int),
        channel_ok(c10 as int),
        channel_ok(c01 as int),
        channel_ok(c11 as int),
        0 <= ax < ONE,
        0 <= ay < ONE,
    ensures
        r == blend(c00 as int, c10 as int, c01 as int, c11 as int, ax as int, ay as int),
        channel_ok(r as int),
{
    proof {
        lemma_blend_range(c00 as int, c10 as int, c01 as int, c11 as int, ax as int, ay as int);
    }
    let (bx, by) = (ONE - ax, ONE - ay);
    (bx * by * c00 + ax * by * c10 + bx * ay * c01 + ax * ay * c11) / (ONE * ONE)
}

/// Whether `r` is the integer square root of `n`.
pub open spec fn is_isqrt(n: int, r: int) -> bool {
    0 <= r && r * r <= n < (r + 1) * (r + 1)
}

/// The integer square root of `n >= 0`, rounded down.
pub open spec fn isqrt_spec(n: int) -> int {
    choose|r: int| is_isqrt(n, r)
}

proof fn lemma_isqrt_unique(n: int, r1: int, r2: int)
    requires
        is_isqrt(n, r1),
        is_isqrt(n, r2),
    ensures
        r1 == r2,
{
    if r1 < r2 {
        assert((r1 + 1) * (r1 + 1) <= r2 * r2) by (nonlinear_arith)
            requires 0 <= r1, r1 + 1 <= r2;
    } else if r2 < r1 {
        assert((r2 + 1) * (r2 + 1) <= r1 * r1) by (nonlinear_arith)
            requires 0 <= r2, r2 + 1 <= r1;
    }
}

/// The integer square root of `n`, by bisection.
fn isqrt(n: i64) -> (r: i64)
    requires
        0 <= n < 0x4000_0000_0000_0000,
    ensures
        r == isqrt_spec(n as int),
        is_isqrt(n as int, r as int),
{
    let mut lo: i64 = 0;
    let mut hi: i64 = 0x8000_0000;
    while hi - lo > 1
        invariant
            0 <= lo < hi <= 0x8000_0000,
            lo * lo <= n,
            n < hi * hi,
        decreases hi - lo,
    {
        let mid = lo + (hi - lo) / 2;
        assert(mid * mid <= 0x4000_0000_0000_0000) by (nonlinear_arith)
            requires 0 <= mid <= 0x8000_0000;
        if mid * mid <= n {
            lo = mid;
        } else {
            hi = mid;
        }
    }
    proof {
        assert(is_isqrt(n as int, lo as int));
        let c = choose|r: int| is_isqrt(n as int, r);
        lemma_isqrt_unique(n as int, lo as int, c);
    }
    lo
}

/// The widest footprint of detail level `level`: `2^level` texels.
pub open spec fn level_cap(level: int) -> int {
    if level >= 0 {
        ONE * pow2(level as nat)
    } else {
        (ONE as int) / (pow2((-level) as nat) as int)
    }
}

pub open spec fn min_spec(a: int, b: int) -> int {
    if a <= b {
        a
    } else {
        b
    }
}

/// The extent along one screen axis of a pixel's footprint in texel space
/// (the length of `(a, b)`, rounded down), capped at `cap`.
pub open spec fn footprint(a: int, b: int, cap: int) -> int {
    min_spec(isqrt_spec(a * a + b * b), cap)
}

/// Bilinear samples per axis for a footprint: one per whole texel it
/// spans, at least one.
pub open spec fn sample_count(extent: int) -> int {
    if extent <= 0 {
        1
    } else {
        ceil_div_spec(extent, ONE as int)
    }
}

pub open spec fn add_color(sum: (int, int, int), c: Color) -> (int, int, int) {
    (sum.0 + c.r, sum.1 + c.g, sum.2 + c.b)
}

/// Channel sums of the bilinear samples at `(x0 + k * ONE, y)`, `k < n`.
pub open spec fn row_sum(s: Sampler, image: &Image, x0: int, y: int, n: nat) -> (int, int, int)
    decreases n,
{
    if n == 0 {
        (0, 0, 0)
    } else {
        add_color(row_sum(s, image, x0, y, (n - 1) as nat), linear_spec(s, image, x0 + (n - 1) * ONE, y))
    }
}

/// Channel sums of the grid of `nx` by `ny` bilinear samples, one texel
/// apart, starting at `(x0, y0)`.
pub open spec fn grid_sum(s: Sampler, image: &Image, x0: int, y0: int, nx: nat, ny: nat) -> (int, int, int)
    decreases ny,
{
    if ny == 0 {
        (0, 0, 0)
    } else {
        let a = grid_sum(s, image, x0, y0, nx, (ny - 1) as nat);
        let b = row_sum(s, image, x0, y0 + (ny - 1) * ONE, nx);
        (a.0 + b.0, a.1 + b.1, a.2 + b.2)
    }
}

/// Anisotropic filtering at texel-space position `(x, y)`: the average of
/// a grid of bilinear samples covering the footprint spanned by the
/// texel-space derivatives `(dxa, dxb)` and `(dya, dyb)`, centered on the
/// position.
pub open spec fn anisotropic_spec(
    s: Sampler,
    image: &Image,
    x: int,
    y: int,
    dxa: int,
    dxb: int,
    dya: int,
    dyb: int,
    level: int,
) -> Color {
    let fx = footprint(dxa, dxb, level_cap(level));
    let fy = footprint(dya, dyb, level_cap(level));
    let (nx, ny) = (sample_count(fx), sample_count(fy));
    let sum = grid_sum(s, image, x - fx / 2, y - fy / 2, nx as nat, ny as nat);
    Color {
        r: (sum.0 / (nx * ny)) as i64,
        g: (sum.1 / (nx * ny)) as i64,
        b: (sum.2 / (nx * ny)) as i64,
    }
}

/// What `Sampler::sample` returns.
pub open spec fn sample_spec(s: Sampler, image: &Image, uv: Vec2, duv_dx: Vec2, duv_dy: Vec2) -> Color {
    let (w, h) = (image.width_spec() as int, image.height_spec() as int);
    let (x, y) = (uv.x * w, uv.y * h);
    match s.filter {
        Filter::Nearest => nearest_spec(s, image, x, y),
        Filter::Linear => linear_spec(s, image, x, y),
        Filter::Anisotropic(level) => anisotropic_spec(
            s,
            image,
            x,
            y,
            duv_dx.x * w,
            duv_dx.y * h,
            duv_dy.x * w,
            duv_dy.y * h,
            level as int,
        ),
    }
}

/// The filter's level, where it has one, is in range.
pub open spec fn filter_ok(f: Filter) -> bool {
    match f {
        Filter::Anisotropic(level) => MIN_LEVEL <= level <= MAX_LEVEL,
        _ => true,
    }
}

fn level_cap_exec(level: i32) -> (r: i64)
    requires
        MIN_LEVEL <= level <= MAX_LEVEL,
    ensures
        r == level_cap(level as int),
        0 <= r <= 0x4000_0000,
{
    let e: i32 = if level >= 0 {
        level
    } else {
        -level
    };
    let mut p: i64 = 1;
    let mut k: i32 = 0;
    proof {
        vstd::arithmetic::power2::lemma2_to64();
    }
    while k < e
        invariant
            0 <= k <= e <= 16,
            p == pow2(k as nat),
            p <= 0x10000,
        decreases e - k,
    {
        proof {
            vstd::arithmetic::power2::lemma_pow2_unfold((k + 1) as nat);
            vstd::arithmetic::power2::lemma2_to64();
            if k + 1 < 16 {
                vstd::arithmetic::power2::lemma_pow2_strictly_increases((k + 1) as nat, 16);
            }
        }
        p = p * 2;
        k = k + 1;
    }
    proof {
        vstd::arithmetic::power2::lemma_pow2_pos(e as nat);
    }
    if level >= 0 {
        assert(p <= 0x4000) by {
            if e < 14 {
                vstd::arithmetic::power2::lemma_pow2_strictly_increases(e as nat, 14);
            }
        }
        ONE * p
    } else {
        assert(ONE / p <= ONE) by (nonlinear_arith)
            requires p >= 1;
        ONE / p
    }
}

fn abs_i64(a: i64) -> (r: i64)
    requires
        a > i64::MIN,
    ensures
        r == if a >= 0 {
            a as int
        } else {
            -a
        },
{
    if a >= 0 {
        a
    } else {
        -a
    }
}

fn footprint_exec(a: i64, b: i64, cap: i64) -> (r: i64)
    requires
        a > i64::MIN,
        b > i64::MIN,
        0 <= cap <= 0x4000_0000,
    ensures
        r == footprint(a as int, b as int, cap as int),
        0 <= r <= cap,
{
    let ghost n2: int = a * a + b * b;
    assert(n2 >= 0) by (nonlinear_arith)
        requires n2 == a * a + b * b;
    let (aa, ab) = (abs_i64(a), abs_i64(b));
    assert(aa * aa == a * a && ab * ab == b * b) by (nonlinear_arith)
        requires aa == a || aa == -a, ab == b || ab == -b;
    if aa >= cap || ab >= cap {
        proof {
            let r = choose|r: int| is_isqrt(n2, r);
            lemma_isqrt_exists(n2);
            assert(is_isqrt(n2, r));
            assert(cap <= r) by (nonlinear_arith)
                requires
                    is_isqrt(n2, r),
                    n2 == a * a + b * b,
                    0 <= cap,
                    aa >= cap || ab >= cap,
                    aa * aa == a * a,
                    ab * ab == b * b;
        }
        cap
    } else {
        assert(aa * aa < 0x1000_0000_0000_0000 && ab * ab < 0x1000_0000_0000_0000) by (nonlinear_arith)
            requires 0 <= aa < 0x4000_0000, 0 <= ab < 0x4000_0000;
        let root = isqrt(aa * aa + ab * ab);
        if root <= cap {
            root
        } else {
            cap
        }
    }
}

proof fn lemma_isqrt_exists(n: int)
    requires
        n >= 0,
    ensures
        is_isqrt(n, isqrt_spec(n)),
{
    let r = lemma_isqrt_witness(n);
    assert(is_isqrt(n, r));
}

proof fn lemma_isqrt_witness(n: int) -> (r: int)
    requires
        n >= 0,
    ensures
        is_isqrt(n, r),
    decreases n,
{
    if n == 0 {
        0
    } else {
        let p = lemma_isqrt_witness(n - 1);
        let q = p + 1;
        if q * q <= n {
            assert(n < (q + 1) * (q + 1)) by (nonlinear_arith)
                requires n - 1 < q * q, q >= 1;
            assert(is_isqrt(n, q));
            q
        } else {
            assert(is_isqrt(n, p));
            p
        }
    }
}

/// Repeat addressing is periodic: indices a whole number of sizes apart
/// address the same texel.
pub proof fn lemma_repeat_periodic(src: int, k: int, size: int)
    requires
        size > 0,
    ensures
        convert_spec(AddressMode::Repeat, src + k * size, size) == convert_spec(AddressMode::Repeat, src, size),
        0 <= convert_spec(AddressMode::Repeat, src, size) < size,
{
    assert(src + k * size == size * k + src) by (nonlinear_arith);
    vstd::arithmetic::div_mod::lemma_mod_multiples_vanish(k, src, size);
}

/// Clamp addressing keeps indices in range and saturates those outside at
/// the nearest edge.
pub proof fn lemma_clamp_saturates(src: int, size: int)
    requires
        size > 0,
    ensures
        0 <= src < size ==> convert_spec(AddressMode::Clamp, src, size) == src,
        src < 0 ==> convert_spec(AddressMode::Clamp, src, size) == 0,
        src >= size ==> convert_spec(AddressMode::Clamp, src, size) == size - 1,
{
}

/// With Repeat on both axes, nearest sampling is periodic: moving the
/// texture coordinates by whole textures (`k` across, `m` down) samples the
/// same texel.
pub proof fn lemma_nearest_repeat_periodic(s: Sampler, image: &Image, x: int, y: int, k: int, m: int)
    requires
        s.u_address_mode == AddressMode::Repeat,
        s.v_address_mode == AddressMode::Repeat,
        image.width_spec() > 0,
        image.height_spec() > 0,
    ensures
        nearest_spec(
            s,
            image,
            x + k * ONE * image.width_spec(),
            y + m * ONE * image.height_spec(),
        ) == nearest_spec(s, image, x, y),
{
    let (w, h) = (image.width_spec() as int, image.height_spec() as int);
    assert(x + k * ONE * w == x + (k * w) * ONE) by (nonlinear_arith);
    assert(y + m * ONE * h == y + (m * h) * ONE) by (nonlinear_arith);
    vstd::arithmetic::div_mod::lemma_hoist_over_denominator(x, k * w, ONE as nat);
    vstd::arithmetic::div_mod::lemma_hoist_over_denominator(y, m * h, ONE as nat);
    lemma_repeat_periodic(x / (ONE as int), k, w);
    lemma_repeat_periodic(y / (ONE as int), m, h);
}

impl Sampler {
    pub fn new(u_address_mode: AddressMode, v_address_mode: AddressMode, filter: Filter) -> (r: Self)
        ensures
            r == (Sampler { u_address_mode, v_address_mode, filter }),
    {
        Self { u_address_mode, v_address_mode, filter }
    }

    fn sample_texel(&self, image: &Image, i: i64, j: i64) -> (r: Color)
        requires
            image_ok(image),
            i > i64::MIN,
            j > i64::MIN,
        ensures
            r == texel_color(*self, image, i as int, j as int),
            color_ok(r),
    {
        let x = self.u_address_mode.convert(i, image.width());
        let y = self.v_address_mode.convert(j, image.height());
        image.get_color((x, y))
    }

    fn nearest_sample(&self, image: &Image, rs: Vec2) -> (r: Color)
        requires
            image_ok(image),
            rs.x > i64::MIN,
            rs.y > i64::MIN,
        ensures
            r == nearest_spec(*self, image, rs.x as int, rs.y as int),
            color_ok(r),
    {
        let i = floor_div(rs.x, ONE);
        let j = floor_div(rs.y, ONE);
        self.sample_texel(image, i, j)
    }

    fn linear_sample(&self, image: &Image, rs: Vec2) -> (r: Color)
        requires
            image_ok(image),
            -0x4000_0000_0000_0000 <= rs.x <= 0x4000_0000_0000_0000,
            -0x4000_0000_0000_0000 <= rs.y <= 0x4000_0000_0000_0000,
        ensures
            r == linear_spec(*self, image, rs.x as int, rs.y as int),
            color_ok(r),
    {
        let x0 = rs.x - ONE / 2;
        let y0 = rs.y - ONE / 2;
        let i = floor_div(x0, ONE);
        let j = floor_div(y0, ONE);
        proof {
            vstd::arithmetic::div_mod::lemma_fundamental_div_mod(x0 as int, ONE as int);
            vstd::arithmetic::div_mod::lemma_fundamental_div_mod(y0 as int, ONE as int);
        }
        let ax = x0 - i * ONE;
        let ay = y0 - j * ONE;
        let c00 = self.sample_texel(image, i, j);
        let c10 = self.sample_texel(image, i + 1, j);
        let c01 = self.sample_texel(image, i, j + 1);
        let c11 = self.sample_texel(image, i + 1, j + 1);
        Color {
            r: blend_exec(c00.r, c10.r, c01.r, c11.r, ax, ay),
            g: blend_exec(c00.g, c10.g, c01.g, c11.g, ax, ay),
            b: blend_exec(c00.b, c10.b, c01.b, c11.b, ax, ay),
        }
    }

    fn anisotropic_sample(&self, image: &Image, rs: Vec2, dx: Vec2, dy: Vec2, level: i32) -> (r: Color)
        requires
            image_ok(image),
            -0x4000_0000_0000 <= rs.x <= 0x4000_0000_0000,
            -0x4000_0000_0000 <= rs.y <= 0x4000_0000_0000,
            -0x4000_0000_0000 <= dx.x <= 0x4000_0000_0000,
            -0x4000_0000_0000 <= dx.y <= 0x4000_0000_0000,
            -0x4000_0000_0000 <= dy.x <= 0x4000_0000_0000,
            -0x4000_0000_0000 <= dy.y <= 0x4000_0000_0000,
            MIN_LEVEL <= level <= MAX_LEVEL,
        ensures
            r == anisotropic_spec(
                *self,
                image,
                rs.x as int,
                rs.y as int,
                dx.x as int,
                dx.y as int,
                dy.x as int,
                dy.y as int,
                level as int,
            ),
    {
        let cap = level_cap_exec(level);
        let fx = footprint_exec(dx.x, dx.y, cap);
        let fy = footprint_exec(dy.x, dy.y, cap);
        let nx: i64 = if fx <= 0 {
            1
        } else {
            ceil_div(fx, ONE)
        };
        let ny: i64 = if fy <= 0 {
            1
        } else {
            ceil_div(fy, ONE)
        };
        assert(1 <= nx <= 0x4000 && 1 <= ny <= 0x4000) by {
            assert(fx > 0 ==> 1 <= -((-fx) / 65536) <= 0x4000);
            assert(fy > 0 ==> 1 <= -((-fy) / 65536) <= 0x4000);
        }
        let x0 = rs.x - fx / 2;
        let y0 = rs.y - fy / 2;
        let mut sum_r: i64 = 0;
        let mut sum_g: i64 = 0;
        let mut sum_b: i64 = 0;
        let mut ky: i64 = 0;
        while ky < ny
            invariant
                image_ok(image),
                1 <= nx <= 0x4000,
                1 <= ny <= 0x4000,
                0 <= ky <= ny,
                -0x8000_0000_0000 <= x0 <= 0x8000_0000_0000,
                -0x8000_0000_0000 <= y0 <= 0x8000_0000_0000,
                (sum_r as int, sum_g as int, sum_b as int) == grid_sum(
                    *self,
                    image,
                    x0 as int,
                    y0 as int,
                    nx as nat,
                    ky as nat,
                ),
                0 <= sum_r <= ky * 0x4000_0000,
                0 <= sum_g <= ky * 0x4000_0000,
                0 <= sum_b <= ky * 0x4000_0000,
            decreases ny - ky,
        {
            let mut row_r: i64 = 0;
            let mut row_g: i64 = 0;
            let mut row_b: i64 = 0;
            let mut kx: i64 = 0;
            let y = y0 + ky * ONE;
            while kx < nx
                invariant
                    image_ok(image),
                    1 <= nx <= 0x4000,
                    0 <= kx <= nx,
                    -0x8000_0000_0000 <= x0 <= 0x8000_0000_0000,
                    -0x1_0000_0000_0000 <= y <= 0x1_0000_0000_0000,
                    (row_r as int, row_g as int, row_b as int) == row_sum(
                        *self,
                        image,
                        x0 as int,
                        y as int,
                        kx as nat,
                    ),
                    0 <= row_r <= kx * ONE,
                    0 <= row_g <= kx * ONE,
                    0 <= row_b <= kx * ONE,
                decreases nx - kx,
            {
                let c = self.linear_sample(image, Vec2 { x: x0 + kx * ONE, y });
                row_r = row_r + c.r;
                row_g = row_g + c.g;
                row_b = row_b + c.b;
                kx = kx + 1;
            }
            sum_r = sum_r + row_r;
            sum_g = sum_g + row_g;
            sum_b = sum_b + row_b;
            ky = ky + 1;
        }
        assert(1 <= nx * ny <= 0x1000_0000) by (nonlinear_arith)
            requires 1 <= nx <= 0x4000, 1 <= ny <= 0x4000;
        let n = nx * ny;
        Color { r: sum_r / n, g: sum_g / n, b: sum_b / n }
    }

    /// Samples `image` at texture coordinates `uv` with this sampler's
    /// filter and address modes; `duv_dx` and `duv_dy` are the change of
    /// `uv` per pixel step, which sizes the anisotropic footprint.
    pub fn sample(&self, image: &Image, uv: Vec2, duv_dx: Vec2, duv_dy: Vec2) -> (r: Color)
        requires
            image_ok(image),
            uv_in_range(uv),
            uv_in_range(duv_dx),
            uv_in_range(duv_dy),
            filter_ok(self.filter),
        ensures
            r == sample_spec(*self, image, uv, duv_dx, duv_dy),
    {
        let w = image.width() as i64;
        let h = image.height() as i64;
        proof {
            assert(-0x4000_0000_0000 <= uv.x * w <= 0x4000_0000_0000) by (nonlinear_arith)
                requires -0x4000_0000 <= uv.x <= 0x4000_0000, 0 < w <= 0x8000;
            assert(-0x4000_0000_0000 <= uv.y * h <= 0x4000_0000_0000) by (nonlinear_arith)
                requires -0x4000_0000 <= uv.y <= 0x4000_0000, 0 < h <= 0x8000;
            assert(-0x4000_0000_0000 <= duv_dx.x * w <= 0x4000_0000_0000) by (nonlinear_arith)
                requires -0x4000_0000 <= duv_dx.x <= 0x4000_0000, 0 < w <= 0x8000;
            assert(-0x4000_0000_0000 <= duv_dx.y * h <= 0x4000_0000_0000) by (nonlinear_arith)
                requires -0x4000_0000 <= duv_dx.y <= 0x4000_0000, 0 < h <= 0x8000;
            assert(-0x4000_0000_0000 <= duv_dy.x * w <= 0x4000_0000_0000) by (nonlinear_arith)
                requires -0x4000_0000 <= duv_dy.x <= 0x4000_0000, 0 < w <= 0x8000;
            assert(-0x4000_0000_0000 <= duv_dy.y * h <= 0x4000_0000_0000) by (nonlinear_arith)
                requires -0x4000_0000 <= duv_dy.y <= 0x4000_0000, 0 < h <= 0x8000;
        }
        let rs = Vec2 { x: uv.x * w, y: uv.y * h };
        match self.filter {
            Filter::Nearest => self.nearest_sample(image, rs),
            Filter::Linear => self.linear_sample(image, rs),
            Filter::Anisotropic(level) => {
                let dx = Vec2 { x: duv_dx.x * w, y: duv_dx.y * h };
                let dy = Vec2 { x: duv_dy.x * w, y: duv_dy.y * h };
                self.anisotropic_sample(image, rs, dx, dy, level)
            },
        }
    }
}

} // verus!
