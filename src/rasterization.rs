//! Edge-function rasterization of screen-space triangles with the top-left
//! fill rule.
//!
//! Corners are given in sixteenths of a pixel, so every coverage decision is
//! made on exact integers. Edge-function values are in 1/256 of a square
//! pixel; the barycentric weights of a fragment are its three edge values
//! divided by the triangle's doubled signed area, also reported.
use vstd::prelude::*;

use crate::fixed::{ceil_div, ceil_div_spec, floor_div, floor_div_spec};
use crate::vector::{Vec2, Vec3};

verus! {

/// Sub-pixel steps per pixel.
pub const SUBPIXEL: i64 = 16;

/// Largest magnitude of a corner coordinate (in sixteenths of a pixel).
pub const COORD_LIMIT: i64 = 524288;

/// A covered pixel.
#[derive(Debug, Clone, Copy, PartialEq, Eq, Structural)]
pub struct Fragment {
    /// Pixel column and row.
    pub coords: Vec2,
    /// Numerators of the barycentric weights; they sum to `area`.
    pub t: Vec3,
    /// Numerators of the weights' change per pixel step in x.
    pub dt_dx: Vec3,
    /// Numerators of the weights' change per pixel step in y.
    pub dt_dy: Vec3,
    /// The common denominator of `t`, `dt_dx` and `dt_dy` (positive).
    pub area: i64,
}

pub open spec fn point_in_range(p: Vec2) -> bool {
    -COORD_LIMIT <= p.x <= COORD_LIMIT && -COORD_LIMIT <= p.y <= COORD_LIMIT
}

pub open spec fn triangle_in_range(v: [Vec2; 3]) -> bool {
    point_in_range(v[0]) && point_in_range(v[1]) && point_in_range(v[2])
}

/// `perp(p - a, b - a)`: positive on one side of the line through `a` and
/// `b`, zero on it.
pub open spec fn edge_spec(a: Vec2, b: Vec2, p: Vec2) -> int {
    (p.x - a.x) * (b.y - a.y) - (p.y - a.y) * (b.x - a.x)
}

/// A left edge points down the screen (`dy > 0`); a top edge is horizontal
/// and points left.
pub open spec fn is_left_or_top(start: Vec2, end: Vec2) -> bool {
    end.y - start.y > 0 || (end.y - start.y == 0 && end.x - start.x < 0)
}

/// Points exactly on a left or top edge count as inside; on other edges
/// they are pushed out by one unit.
pub open spec fn bias_spec(start: Vec2, end: Vec2) -> int {
    if is_left_or_top(start, end) {
        0
    } else {
        -1
    }
}

/// Doubled signed area, in 1/256 of a square pixel.
pub open spec fn area_spec(v: [Vec2; 3]) -> int {
    edge_spec(v[0], v[1], v[2])
}

/// The center of pixel `(px, py)`, in sixteenths of a pixel.
pub open spec fn center(px: int, py: int) -> Vec2 {
    Vec2 { x: (SUBPIXEL * px + SUBPIXEL / 2) as i64, y: (SUBPIXEL * py + SUBPIXEL / 2) as i64 }
}

/// The three (unbiased) edge values at `p`: one per edge opposite a corner.
pub open spec fn weights_at(v: [Vec2; 3], p: Vec2) -> Vec3 {
    Vec3 {
        x: edge_spec(v[1], v[2], p) as i64,
        y: edge_spec(v[2], v[0], p) as i64,
        z: edge_spec(v[0], v[1], p) as i64,
    }
}

/// Whether the center of pixel `(px, py)` is covered by `v`.
pub open spec fn covers(v: [Vec2; 3], px: int, py: int) -> bool {
    let p = center(px, py);
    &&& edge_spec(v[1], v[2], p) + bias_spec(v[1], v[2]) >= 0
    &&& edge_spec(v[2], v[0], p) + bias_spec(v[2], v[0]) >= 0
    &&& edge_spec(v[0], v[1], p) + bias_spec(v[0], v[1]) >= 0
}

pub open spec fn dt_dx_spec(v: [Vec2; 3]) -> Vec3 {
    Vec3 {
        x: (SUBPIXEL * (v[2].y - v[1].y)) as i64,
        y: (SUBPIXEL * (v[0].y - v[2].y)) as i64,
        z: (SUBPIXEL * (v[1].y - v[0].y)) as i64,
    }
}

pub open spec fn dt_dy_spec(v: [Vec2; 3]) -> Vec3 {
    Vec3 {
        x: (SUBPIXEL * (v[1].x - v[2].x)) as i64,
        y: (SUBPIXEL * (v[2].x - v[0].x)) as i64,
        z: (SUBPIXEL * (v[0].x - v[1].x)) as i64,
    }
}

pub open spec fn fragment_spec(v: [Vec2; 3], px: int, py: int) -> Fragment {
    Fragment {
        coords: Vec2 { x: px as i64, y: py as i64 },
        t: weights_at(v, center(px, py)),
        dt_dx: dt_dx_spec(v),
        dt_dy: dt_dy_spec(v),
        area: area_spec(v) as i64,
    }
}

/// The fragments of the covered pixels among columns `x0 .. x0 + n` of row
/// `py`, left to right.
pub open spec fn scan_row(v: [Vec2; 3], py: int, x0: int, n: nat) -> Seq<Fragment>
    decreases n,
{
    if n == 0 {
        Seq::empty()
    } else {
        let rest = scan_row(v, py, x0, (n - 1) as nat);
        let px = x0 + n - 1;
        if covers(v, px, py) {
            rest.push(fragment_spec(v, px, py))
        } else {
            rest
        }
    }
}

/// The fragments of rows `y0 .. y0 + rows` over columns `x0 .. x0 + cols`,
/// in row-major order.
pub open spec fn scan_rows(v: [Vec2; 3], y0: int, rows: nat, x0: int, cols: nat) -> Seq<Fragment>
    decreases rows,
{
    if rows == 0 {
        Seq::empty()
    } else {
        scan_rows(v, y0, (rows - 1) as nat, x0, cols) + scan_row(v, y0 + rows - 1, x0, cols)
    }
}

pub open spec fn min3(a: int, b: int, c: int) -> int {
    if a <= b && a <= c {
        a
    } else if b <= c {
        b
    } else {
        c
    }
}

pub open spec fn max3(a: int, b: int, c: int) -> int {
    if a >= b && a >= c {
        a
    } else if b >= c {
        b
    } else {
        c
    }
}

/// The pixel bounding box: from the floor of the least corner to the
/// ceiling of the greatest, both ends included.
pub open spec fn box_min_x(v: [Vec2; 3]) -> int {
    floor_div_spec(min3(v[0].x as int, v[1].x as int, v[2].x as int), SUBPIXEL as int)
}

pub open spec fn box_max_x(v: [Vec2; 3]) -> int {
    ceil_div_spec(max3(v[0].x as int, v[1].x as int, v[2].x as int), SUBPIXEL as int)
}

pub open spec fn box_min_y(v: [Vec2; 3]) -> int {
    floor_div_spec(min3(v[0].y as int, v[1].y as int, v[2].y as int), SUBPIXEL as int)
}

pub open spec fn box_max_y(v: [Vec2; 3]) -> int {
    ceil_div_spec(max3(v[0].y as int, v[1].y as int, v[2].y as int), SUBPIXEL as int)
}

/// Everything `rasterize_solid_triangle` emits, in order.
pub open spec fn rasterize_spec(v: [Vec2; 3]) -> Seq<Fragment> {
    if area_spec(v) <= 0 {
        Seq::empty()
    } else {
        scan_rows(
            v,
            box_min_y(v),
            (box_max_y(v) - box_min_y(v) + 1) as nat,
            box_min_x(v),
            (box_max_x(v) - box_min_x(v) + 1) as nat,
        )
    }
}

/// The fields of a fragment of `v` that are the same at every pixel, the
/// range of its pixel, and that `v` covers that pixel.
pub open spec fn fragment_of(v: [Vec2; 3], f: Fragment) -> bool {
    &&& f.dt_dx == dt_dx_spec(v)
    &&& f.dt_dy == dt_dy_spec(v)
    &&& f.area == area_spec(v)
    &&& pixel_in_range(f.coords.x as int)
    &&& pixel_in_range(f.coords.y as int)
    &&& covers(v, f.coords.x as int, f.coords.y as int)
}

/// The weights of a fragment are non-negative and sum to its denominator.
pub open spec fn weights_are_barycentric(f: Fragment) -> bool {
    &&& f.area > 0
    &&& f.t.x >= 0
    &&& f.t.y >= 0
    &&& f.t.z >= 0
    &&& f.t.x + f.t.y + f.t.z == f.area
}

proof fn lemma_product_bound(a: int, b: int)
    requires
        -2097152 <= a <= 2097152,
        -2097152 <= b <= 2097152,
    ensures
        -4398046511104 <= a * b <= 4398046511104,
{
    assert(-4398046511104 <= a * b <= 4398046511104) by (nonlinear_arith)
        requires -2097152 <= a <= 2097152, -2097152 <= b <= 2097152;
}

proof fn lemma_expand(p: int, q: int, r: int, s: int)
    ensures
        (p - q) * (r - s) == p * r - p * s - q * r + q * s,
{
    assert((p - q) * (r - s) == p * r - p * s - q * r + q * s) by (nonlinear_arith);
}

/// The edge function of a segment and a point in `[-2^20, 2^20]` squared.
fn edge_function(v0: Vec2, v1: Vec2, v2: Vec2) -> (r: i64)
    requires
        -2 * COORD_LIMIT <= v0.x <= 2 * COORD_LIMIT,
        -2 * COORD_LIMIT <= v0.y <= 2 * COORD_LIMIT,
        -2 * COORD_LIMIT <= v1.x <= 2 * COORD_LIMIT,
        -2 * COORD_LIMIT <= v1.y <= 2 * COORD_LIMIT,
        -2 * COORD_LIMIT <= v2.x <= 2 * COORD_LIMIT,
        -2 * COORD_LIMIT <= v2.y <= 2 * COORD_LIMIT,
    ensures
        r == edge_spec(v0, v1, v2),
        -8796093022208 <= r <= 8796093022208,
{
    proof {
        lemma_product_bound(v2.x - v0.x, v1.y - v0.y);
        lemma_product_bound(v2.y - v0.y, v1.x - v0.x);
    }
    (v2.x - v0.x) * (v1.y - v0.y) - (v2.y - v0.y) * (v1.x - v0.x)
}

/// 0 for a left or top edge, -1 otherwise.
fn left_or_top_edge_bias(start: Vec2, end: Vec2) -> (r: i64)
    requires
        point_in_range(start),
        point_in_range(end),
    ensures
        r == bias_spec(start, end),
{
    let dx = end.x - start.x;
    let dy = end.y - start.y;
    let is_left_edge = dy > 0;
    let is_top_edge = dy == 0 && dx < 0;
    if is_left_edge || is_top_edge {
        0
    } else {
        -1
    }
}

fn min3_exec(a: i64, b: i64, c: i64) -> (r: i64)
    ensures
        r == min3(a as int, b as int, c as int),
{
    if a <= b && a <= c {
        a
    } else if b <= c {
        b
    } else {
        c
    }
}

fn max3_exec(a: i64, b: i64, c: i64) -> (r: i64)
    ensures
        r == max3(a as int, b as int, c as int),
{
    if a >= b && a >= c {
        a
    } else if b >= c {
        b
    } else {
        c
    }
}

/// The edge values at a covered pixel are the barycentric numerators: each
/// is non-negative and together they make up the area.
pub proof fn lemma_covered_weights(v: [Vec2; 3], px: int, py: int)
    requires
        area_spec(v) > 0,
        covers(v, px, py),
    ensures
        edge_spec(v[1], v[2], center(px, py)) >= 0,
        edge_spec(v[2], v[0], center(px, py)) >= 0,
        edge_spec(v[0], v[1], center(px, py)) >= 0,
        edge_spec(v[1], v[2], center(px, py)) + edge_spec(v[2], v[0], center(px, py))
            + edge_spec(v[0], v[1], center(px, py)) == area_spec(v),
{
    lemma_edge_sum(v[0], v[1], v[2], center(px, py));
}

/// The three edge functions of a triangle add up to its doubled area at
/// every point.
pub proof fn lemma_edge_sum(a: Vec2, b: Vec2, c: Vec2, p: Vec2)
    ensures
        edge_spec(b, c, p) + edge_spec(c, a, p) + edge_spec(a, b, p) == edge_spec(a, b, c),
{
    let (ax, ay, bx, by, cx, cy, px, py) = (
        a.x as int,
        a.y as int,
        b.x as int,
        b.y as int,
        c.x as int,
        c.y as int,
        p.x as int,
        p.y as int,
    );
    lemma_expand(px, bx, cy, by);
    lemma_expand(py, by, cx, bx);
    lemma_expand(px, cx, ay, cy);
    lemma_expand(py, cy, ax, cx);
    lemma_expand(px, ax, by, ay);
    lemma_expand(py, ay, bx, ax);
    lemma_expand(cx, ax, by, ay);
    lemma_expand(cy, ay, bx, ax);
}

proof fn lemma_edge_bound(a: Vec2, b: Vec2, p: Vec2)
    requires
        -2 * COORD_LIMIT <= a.x <= 2 * COORD_LIMIT,
        -2 * COORD_LIMIT <= a.y <= 2 * COORD_LIMIT,
        -2 * COORD_LIMIT <= b.x <= 2 * COORD_LIMIT,
        -2 * COORD_LIMIT <= b.y <= 2 * COORD_LIMIT,
        -2 * COORD_LIMIT <= p.x <= 2 * COORD_LIMIT,
        -2 * COORD_LIMIT <= p.y <= 2 * COORD_LIMIT,
    ensures
        -8796093022208 <= edge_spec(a, b, p) <= 8796093022208,
{
    lemma_product_bound(p.x - a.x, b.y - a.y);
    lemma_product_bound(p.y - a.y, b.x - a.x);
}

/// Pixel rows and columns that a triangle in range can touch.
pub open spec fn pixel_in_range(px: int) -> bool {
    -32769 <= px <= 32769
}

proof fn lemma_center_in_range(px: int, py: int)
    requires
        pixel_in_range(px),
        pixel_in_range(py),
    ensures
        -2 * COORD_LIMIT <= center(px, py).x <= 2 * COORD_LIMIT,
        -2 * COORD_LIMIT <= center(px, py).y <= 2 * COORD_LIMIT,
        center(px, py).x == SUBPIXEL * px + SUBPIXEL / 2,
        center(px, py).y == SUBPIXEL * py + SUBPIXEL / 2,
{
}

proof fn lemma_fragment_barycentric(v: [Vec2; 3], px: int, py: int)
    requires
        triangle_in_range(v),
        area_spec(v) > 0,
        covers(v, px, py),
        pixel_in_range(px),
        pixel_in_range(py),
    ensures
        weights_are_barycentric(fragment_spec(v, px, py)),
        fragment_of(v, fragment_spec(v, px, py)),
{
    let p = center(px, py);
    lemma_center_in_range(px, py);
    lemma_covered_weights(v, px, py);
    lemma_edge_bound(v[1], v[2], p);
    lemma_edge_bound(v[2], v[0], p);
    lemma_edge_bound(v[0], v[1], p);
    lemma_edge_bound(v[0], v[1], v[2]);
}

proof fn lemma_scan_row_barycentric(v: [Vec2; 3], py: int, x0: int, n: nat)
    requires
        triangle_in_range(v),
        area_spec(v) > 0,
        pixel_in_range(py),
        pixel_in_range(x0),
        pixel_in_range(x0 + n - 1),
    ensures
        forall|i: int|
            0 <= i < scan_row(v, py, x0, n).len() ==> weights_are_barycentric(
                #[trigger] scan_row(v, py, x0, n)[i],
            ) && fragment_of(v, scan_row(v, py, x0, n)[i]),
    decreases n,
{
    if n > 0 {
        if n > 1 {
            lemma_scan_row_barycentric(v, py, x0, (n - 1) as nat);
        }
        let px = x0 + n - 1;
        let rest = scan_row(v, py, x0, (n - 1) as nat);
        if covers(v, px, py) {
            lemma_fragment_barycentric(v, px, py);
            assert forall|i: int| 0 <= i < rest.len() + 1 implies weights_are_barycentric(
                #[trigger] rest.push(fragment_spec(v, px, py))[i],
            ) && fragment_of(v, rest.push(fragment_spec(v, px, py))[i]) by {
                if i < rest.len() {
                    assert(rest.push(fragment_spec(v, px, py))[i] == rest[i]);
                }
            }
        }
    }
}

proof fn lemma_scan_rows_barycentric(v: [Vec2; 3], y0: int, rows: nat, x0: int, cols: nat)
    requires
        triangle_in_range(v),
        area_spec(v) > 0,
        pixel_in_range(y0),
        pixel_in_range(y0 + rows - 1),
        pixel_in_range(x0),
        pixel_in_range(x0 + cols - 1),
    ensures
        forall|i: int|
            0 <= i < scan_rows(v, y0, rows, x0, cols).len() ==> weights_are_barycentric(
                #[trigger] scan_rows(v, y0, rows, x0, cols)[i],
            ) && fragment_of(v, scan_rows(v, y0, rows, x0, cols)[i]),
    decreases rows,
{
    if rows > 0 {
        if rows > 1 {
            lemma_scan_rows_barycentric(v, y0, (rows - 1) as nat, x0, cols);
        }
        let a = scan_rows(v, y0, (rows - 1) as nat, x0, cols);
        let b = scan_row(v, y0 + rows - 1, x0, cols);
        if cols > 0 {
            lemma_scan_row_barycentric(v, y0 + rows - 1, x0, cols);
        }
        assert forall|i: int| 0 <= i < (a + b).len() implies weights_are_barycentric(
            #[trigger] (a + b)[i],
        ) && fragment_of(v, (a + b)[i]) by {
            if i >= a.len() {
                assert((a + b)[i] == b[i - a.len()]);
            }
        }
    }
}

proof fn lemma_box_in_range(v: [Vec2; 3])
    requires
        triangle_in_range(v),
    ensures
        pixel_in_range(box_min_x(v)),
        pixel_in_range(box_max_x(v)),
        pixel_in_range(box_min_y(v)),
        pixel_in_range(box_max_y(v)),
        box_min_x(v) <= box_max_x(v),
        box_min_y(v) <= box_max_y(v),
{
    let (lx, hx) = (min3(v[0].x as int, v[1].x as int, v[2].x as int), max3(v[0].x as int, v[1].x as int, v[2].x as int));
    let (ly, hy) = (min3(v[0].y as int, v[1].y as int, v[2].y as int), max3(v[0].y as int, v[1].y as int, v[2].y as int));
    assert(lx <= hx && ly <= hy);
    assert(-32768 <= lx / 16 <= hx / 16 <= 32768);
    assert(-32768 <= ly / 16 <= hy / 16 <= 32768);
    assert(-32768 <= -((-hx) / 16) <= 32768);
    assert(-32768 <= -((-hy) / 16) <= 32768);
    assert(lx / 16 <= -((-hx) / 16));
    assert(ly / 16 <= -((-hy) / 16));
}

/// Emits the fragment of every pixel whose center the triangle covers, row
/// by row (y ascending), each row left to right, within the triangle's pixel
/// bounding box. A triangle whose signed area is not positive (back-facing
/// or degenerate) emits nothing.
pub fn rasterize_solid_triangle(vertices: &[Vec2; 3]) -> (r: Vec<Fragment>)
    requires
        triangle_in_range(*vertices),
    ensures
        r@ == rasterize_spec(*vertices),
        forall|i: int| 0 <= i < r@.len() ==> weights_are_barycentric(#[trigger] r@[i]),
        forall|i: int| 0 <= i < r@.len() ==> fragment_of(*vertices, #[trigger] r@[i]),
        -8796093022208 <= area_spec(*vertices) <= 8796093022208,
{
    let ghost v = *vertices;
    let c0 = vertices[0];
    let c1 = vertices[1];
    let c2 = vertices[2];
    let signed_area = edge_function(c0, c1, c2);
    proof {
        lemma_edge_bound(c0, c1, c2);
    }
    let mut out: Vec<Fragment> = Vec::new();
    if signed_area <= 0 {
        return out;
    }
    proof {
        lemma_box_in_range(v);
    }
    let min_x = floor_div(min3_exec(c0.x, c1.x, c2.x), SUBPIXEL);
    let max_x = ceil_div(max3_exec(c0.x, c1.x, c2.x), SUBPIXEL);
    let min_y = floor_div(min3_exec(c0.y, c1.y, c2.y), SUBPIXEL);
    let max_y = ceil_div(max3_exec(c0.y, c1.y, c2.y), SUBPIXEL);
    let bias0 = left_or_top_edge_bias(c1, c2);
    let bias1 = left_or_top_edge_bias(c2, c0);
    let bias2 = left_or_top_edge_bias(c0, c1);
    let dt_dx = Vec3 {
        x: SUBPIXEL * (c2.y - c1.y),
        y: SUBPIXEL * (c0.y - c2.y),
        z: SUBPIXEL * (c1.y - c0.y),
    };
    let dt_dy = Vec3 {
        x: SUBPIXEL * (c1.x - c2.x),
        y: SUBPIXEL * (c2.x - c0.x),
        z: SUBPIXEL * (c0.x - c1.x),
    };
    let ghost cols: nat = (max_x - min_x + 1) as nat;
    let mut y = min_y;
    while y <= max_y
        invariant
            v == *vertices,
            c0 == v[0],
            c1 == v[1],
            c2 == v[2],
            triangle_in_range(v),
            signed_area == area_spec(v),
            signed_area > 0,
            min_x == box_min_x(v),
            max_x == box_max_x(v),
            min_y == box_min_y(v),
            max_y == box_max_y(v),
            pixel_in_range(min_x as int),
            pixel_in_range(max_x as int),
            pixel_in_range(min_y as int),
            pixel_in_range(max_y as int),
            min_x <= max_x,
            cols == max_x - min_x + 1,
            min_y <= y <= max_y + 1,
            bias0 == bias_spec(v[1], v[2]),
            bias1 == bias_spec(v[2], v[0]),
            bias2 == bias_spec(v[0], v[1]),
            dt_dx == dt_dx_spec(v),
            dt_dy == dt_dy_spec(v),
            out@ == scan_rows(v, min_y as int, (y - min_y) as nat, min_x as int, cols),
        decreases max_y + 1 - y,
    {
        let mut x = min_x;
        while x <= max_x
            invariant
                v == *vertices,
                c0 == v[0],
                c1 == v[1],
                c2 == v[2],
                triangle_in_range(v),
                signed_area == area_spec(v),
                signed_area > 0,
                min_x == box_min_x(v),
                max_x == box_max_x(v),
                pixel_in_range(min_x as int),
                pixel_in_range(max_x as int),
                pixel_in_range(y as int),
                min_x <= x <= max_x + 1,
                min_y <= y <= max_y,
                bias0 == bias_spec(v[1], v[2]),
                bias1 == bias_spec(v[2], v[0]),
                bias2 == bias_spec(v[0], v[1]),
                dt_dx == dt_dx_spec(v),
                dt_dy == dt_dy_spec(v),
                out@ == scan_rows(v, min_y as int, (y - min_y) as nat, min_x as int, cols)
                    + scan_row(v, y as int, min_x as int, (x - min_x) as nat),
            decreases max_x + 1 - x,
        {
            proof {
                lemma_center_in_range(x as int, y as int);
            }
            let p = Vec2 { x: SUBPIXEL * x + SUBPIXEL / 2, y: SUBPIXEL * y + SUBPIXEL / 2 };
            assert(p == center(x as int, y as int));
            let w0 = edge_function(c1, c2, p);
            let w1 = edge_function(c2, c0, p);
            let w2 = edge_function(c0, c1, p);
            let ghost before = out@;
            if w0 + bias0 >= 0 && w1 + bias1 >= 0 && w2 + bias2 >= 0 {
                out.push(
                    Fragment {
                        coords: Vec2 { x, y },
                        t: Vec3 { x: w0, y: w1, z: w2 },
                        dt_dx,
                        dt_dy,
                        area: signed_area,
                    },
                );
                assert(out@ =~= scan_rows(v, min_y as int, (y - min_y) as nat, min_x as int, cols)
                    + scan_row(v, y as int, min_x as int, (x + 1 - min_x) as nat));
            } else {
                assert(out@ =~= scan_rows(v, min_y as int, (y - min_y) as nat, min_x as int, cols)
                    + scan_row(v, y as int, min_x as int, (x + 1 - min_x) as nat));
            }
            x = x + 1;
        }
        assert(out@ =~= scan_rows(v, min_y as int, (y + 1 - min_y) as nat, min_x as int, cols));
        y = y + 1;
    }
    proof {
        lemma_scan_rows_barycentric(v, min_y as int, (max_y - min_y + 1) as nat, min_x as int, cols);
    }
    out
}

/// A point is inside exactly one of the two biased half-planes of an edge
/// and of the same edge walked the other way. Two triangles that share an
/// edge with opposite windings therefore never both cover, nor both miss, a
/// pixel center on their common line.
pub proof fn lemma_shared_edge_exclusive(a: Vec2, b: Vec2, p: Vec2)
    requires
        a != b,
    ensures
        (edge_spec(a, b, p) + bias_spec(a, b) >= 0) != (edge_spec(b, a, p) + bias_spec(b, a) >= 0),
{
    assert(edge_spec(b, a, p) == -edge_spec(a, b, p)) by {
        lemma_expand(p.x as int, b.x as int, a.y as int, b.y as int);
        lemma_expand(p.y as int, b.y as int, a.x as int, b.x as int);
        lemma_expand(p.x as int, a.x as int, b.y as int, a.y as int);
        lemma_expand(p.y as int, a.y as int, b.x as int, a.x as int);
    }
}

/// Two triangles that share the edge `a`-`b`, walked in opposite
/// directions, never cover the same pixel.
pub proof fn lemma_shared_edge_no_overlap(a: Vec2, b: Vec2, c: Vec2, d: Vec2, px: int, py: int)
    requires
        a != b,
    ensures
        !(covers([a, b, c], px, py) && covers([b, a, d], px, py)),
{
    lemma_shared_edge_exclusive(a, b, center(px, py));
}

proof fn lemma_rasterize_fragments(v: [Vec2; 3])
    requires
        triangle_in_range(v),
    ensures
        forall|i: int|
            0 <= i < rasterize_spec(v).len() ==> fragment_of(v, #[trigger] rasterize_spec(v)[i]),
{
    if area_spec(v) > 0 {
        lemma_box_in_range(v);
        lemma_scan_rows_barycentric(
            v,
            box_min_y(v),
            (box_max_y(v) - box_min_y(v) + 1) as nat,
            box_min_x(v),
            (box_max_x(v) - box_min_x(v) + 1) as nat,
        );
    }
}

/// Two triangles that share an edge, walked in opposite directions
/// (`t1` from corner 0 to corner 1, `t2` back), emit no pixel in common.
pub proof fn lemma_shared_edge_disjoint_fragments(t1: [Vec2; 3], t2: [Vec2; 3])
    requires
        t1[0] != t1[1],
        t2[0] == t1[1],
        t2[1] == t1[0],
        triangle_in_range(t1),
        triangle_in_range(t2),
    ensures
        forall|i: int, j: int|
            0 <= i < rasterize_spec(t1).len() && 0 <= j < rasterize_spec(t2).len()
                ==> #[trigger] rasterize_spec(t1)[i].coords != #[trigger] rasterize_spec(t2)[j].coords,
{
    lemma_rasterize_fragments(t1);
    lemma_rasterize_fragments(t2);
    assert forall|i: int, j: int|
        0 <= i < rasterize_spec(t1).len() && 0 <= j < rasterize_spec(t2).len()
            implies #[trigger] rasterize_spec(t1)[i].coords != #[trigger] rasterize_spec(t2)[j].coords by {
        let f = rasterize_spec(t1)[i];
        assert(fragment_of(t1, f));
        assert(fragment_of(t2, rasterize_spec(t2)[j]));
        lemma_shared_edge_no_overlap(t1[0], t1[1], t1[2], t2[2], f.coords.x as int, f.coords.y as int);
    }
}

} // verus!
