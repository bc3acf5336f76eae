//! Sutherland-Hodgman clipping of a clip-space triangle against the six
//! canonical planes `-w <= x <= w`, `-w <= y <= w`, `0 <= z <= w`.
//!
//! Each output vertex carries its barycentric weights relative to the three
//! input corners, so attributes can be re-derived after clipping.
use vstd::arithmetic::power2::pow2;
use vstd::prelude::*;

use crate::fixed::{floor_div_spec, trunc_div, trunc_div_spec, ONE};
use crate::vector::{Vec3, Vec4};

verus! {

/// Largest magnitude of a clip-space coordinate (fixed point).
pub const CLIP_LIMIT: i64 = 1073741824;

/// Number of clip planes.
pub const PLANE_COUNT: usize = 6;

/// A vertex of a clipped polygon: its clip-space position and its weights
/// relative to the corners of the triangle it was cut from.
#[derive(Debug, Clone, Copy, PartialEq, Eq, Structural)]
pub struct ClipVertex {
    pub coords: Vec4,
    pub weights: Vec3,
}

pub open spec fn coord_in_range(c: int) -> bool {
    -CLIP_LIMIT <= c <= CLIP_LIMIT
}

pub open spec fn position_in_range(p: Vec4) -> bool {
    coord_in_range(p.x as int) && coord_in_range(p.y as int) && coord_in_range(p.z as int)
        && coord_in_range(p.w as int)
}

/// Non-negative weights that sum to `ONE`.
pub open spec fn weights_valid(w: Vec3) -> bool {
    w.x >= 0 && w.y >= 0 && w.z >= 0 && w.x + w.y + w.z == ONE
}

pub open spec fn clip_vertex_valid(v: ClipVertex) -> bool {
    position_in_range(v.coords) && weights_valid(v.weights)
}

pub open spec fn polygon_valid(p: Seq<ClipVertex>) -> bool {
    forall|i: int| 0 <= i < p.len() ==> clip_vertex_valid(#[trigger] p[i])
}

/// Signed distance of `p` to clip plane `plane`; `p` is on the inner side
/// when it is non-negative.
pub open spec fn distance(p: Vec4, plane: int) -> int {
    if plane == 0 {
        p.x + p.w
    } else if plane == 1 {
        p.w - p.x
    } else if plane == 2 {
        p.y + p.w
    } else if plane == 3 {
        p.w - p.y
    } else if plane == 4 {
        p.z as int
    } else {
        p.w - p.z
    }
}

/// The point where the segment from `a_in` (distance `d_in >= 0`) to
/// `a_out` (distance `d_out < 0`) meets the plane, one coordinate at a time,
/// rounded toward zero.
pub open spec fn cut_coord(d_in: int, d_out: int, a_in: int, a_out: int) -> int {
    trunc_div_spec(d_in * a_out - d_out * a_in, d_in - d_out)
}

/// The same for a weight, rounded down.
pub open spec fn cut_weight(d_in: int, d_out: int, a_in: int, a_out: int) -> int {
    floor_div_spec(d_in * a_out - d_out * a_in, d_in - d_out)
}

/// Where the edge from `inside` to `outside` crosses `plane`. The first two
/// weights are interpolated and the third completes them to `ONE`.
pub open spec fn intersection(inside: ClipVertex, outside: ClipVertex, plane: int) -> ClipVertex {
    let d_in = distance(inside.coords, plane);
    let d_out = distance(outside.coords, plane);
    let (i, o) = (inside.coords, outside.coords);
    let wx = cut_weight(d_in, d_out, inside.weights.x as int, outside.weights.x as int);
    let wy = cut_weight(d_in, d_out, inside.weights.y as int, outside.weights.y as int);
    ClipVertex {
        coords: Vec4 {
            x: cut_coord(d_in, d_out, i.x as int, o.x as int) as i64,
            y: cut_coord(d_in, d_out, i.y as int, o.y as int) as i64,
            z: cut_coord(d_in, d_out, i.z as int, o.z as int) as i64,
            w: cut_coord(d_in, d_out, i.w as int, o.w as int) as i64,
        },
        weights: Vec3 { x: wx as i64, y: wy as i64, z: (ONE - wx - wy) as i64 },
    }
}

/// What the edge ending at vertex `i` (and starting at the vertex before it,
/// cyclically) contributes to the polygon clipped against `plane`.
pub open spec fn clip_edge(poly: Seq<ClipVertex>, plane: int, i: int) -> Seq<ClipVertex> {
    let j = if i == 0 {
        poly.len() - 1
    } else {
        i - 1
    };
    let (vi, vj) = (poly[i], poly[j]);
    let (di, dj) = (distance(vi.coords, plane), distance(vj.coords, plane));
    if di >= 0 {
        if dj < 0 {
            seq![intersection(vi, vj, plane), vi]
        } else {
            seq![vi]
        }
    } else if dj >= 0 {
        seq![intersection(vj, vi, plane)]
    } else {
        Seq::empty()
    }
}

/// The contributions of the edges ending at vertices `0 .. n`.
pub open spec fn clip_plane_prefix(poly: Seq<ClipVertex>, plane: int, n: nat) -> Seq<ClipVertex>
    decreases n,
{
    if n == 0 {
        Seq::empty()
    } else {
        clip_plane_prefix(poly, plane, (n - 1) as nat) + clip_edge(poly, plane, n - 1)
    }
}

/// `poly` clipped against one plane.
pub open spec fn clip_plane(poly: Seq<ClipVertex>, plane: int) -> Seq<ClipVertex> {
    clip_plane_prefix(poly, plane, poly.len())
}

/// `poly` clipped against planes `0 .. k` in turn.
pub open spec fn clip_planes(poly: Seq<ClipVertex>, k: nat) -> Seq<ClipVertex>
    decreases k,
{
    if k == 0 {
        poly
    } else {
        clip_plane(clip_planes(poly, (k - 1) as nat), k - 1)
    }
}

/// The triangle as a polygon, each corner with its one-hot weights.
pub open spec fn corners(t: [Vec4; 3]) -> Seq<ClipVertex> {
    seq![
        ClipVertex { coords: t[0], weights: Vec3 { x: ONE, y: 0, z: 0 } },
        ClipVertex { coords: t[1], weights: Vec3 { x: 0, y: ONE, z: 0 } },
        ClipVertex { coords: t[2], weights: Vec3 { x: 0, y: 0, z: ONE } },
    ]
}

/// Whether every corner of `t` is strictly beyond `plane`.
pub open spec fn outside_plane(t: [Vec4; 3], plane: int) -> bool {
    distance(t[0], plane) < 0 && distance(t[1], plane) < 0 && distance(t[2], plane) < 0
}

/// Whether `t` lies wholly beyond one of the clip planes.
pub open spec fn rejected(t: [Vec4; 3]) -> bool {
    exists|plane: int| 0 <= plane < PLANE_COUNT && #[trigger] outside_plane(t, plane)
}

/// What `clip_triangle` returns: nothing for a triangle wholly beyond one
/// plane, otherwise its corners clipped against every plane in turn.
pub open spec fn clip_spec(t: [Vec4; 3]) -> Seq<ClipVertex> {
    if rejected(t) {
        Seq::empty()
    } else {
        clip_planes(corners(t), PLANE_COUNT as nat)
    }
}

/// Whether `p` is on the inner side of every plane.
pub open spec fn inside_all_planes(p: Vec4) -> bool {
    forall|plane: int| 0 <= plane < PLANE_COUNT ==> distance(p, plane) >= 0
}

proof fn lemma_cut_coord(d_in: int, d_out: int, a_in: int, a_out: int)
    requires
        0 <= d_in <= 2 * CLIP_LIMIT,
        -2 * CLIP_LIMIT <= d_out < 0,
        coord_in_range(a_in),
        coord_in_range(a_out),
    ensures
        coord_in_range(cut_coord(d_in, d_out, a_in, a_out)),
        -0x2000000000000000 <= d_in * a_out <= 0x2000000000000000,
        -0x2000000000000000 <= d_out * a_in <= 0x2000000000000000,
{
    let n = d_in * a_out - d_out * a_in;
    let d = d_in - d_out;
    let l = CLIP_LIMIT as int;
    assert(-(d * l) <= n <= d * l) by (nonlinear_arith)
        requires
            n == d_in * a_out - d_out * a_in,
            d == d_in - d_out,
            0 <= d_in,
            d_out < 0,
            -l <= a_in <= l,
            -l <= a_out <= l;
    assert(-0x2000000000000000 <= d_in * a_out <= 0x2000000000000000) by (nonlinear_arith)
        requires 0 <= d_in <= 2147483648, -1073741824 <= a_out <= 1073741824;
    assert(-0x2000000000000000 <= d_out * a_in <= 0x2000000000000000) by (nonlinear_arith)
        requires -2147483648 <= d_out < 0, -1073741824 <= a_in <= 1073741824;
    if n >= 0 {
        assert(n / d <= l) by (nonlinear_arith)
            requires 0 <= n <= d * l, d > 0, l > 0;
        assert(n / d >= 0) by (nonlinear_arith)
            requires 0 <= n, d > 0;
    } else {
        assert((-n) / d <= l) by (nonlinear_arith)
            requires 0 <= -n <= d * l, d > 0, l > 0;
        assert((-n) / d >= 0) by (nonlinear_arith)
            requires 0 <= -n, d > 0;
    }
}

proof fn lemma_cut_weights(d_in: int, d_out: int, wi: Vec3, wo: Vec3)
    requires
        0 <= d_in <= 2 * CLIP_LIMIT,
        -2 * CLIP_LIMIT <= d_out < 0,
        weights_valid(wi),
        weights_valid(wo),
    ensures
        cut_weight(d_in, d_out, wi.x as int, wo.x as int) >= 0,
        cut_weight(d_in, d_out, wi.y as int, wo.y as int) >= 0,
        cut_weight(d_in, d_out, wi.x as int, wo.x as int) + cut_weight(
            d_in,
            d_out,
            wi.y as int,
            wo.y as int,
        ) <= ONE,
        0 <= d_in * wo.x <= 0x1000000000000,
        0 <= d_in * wo.y <= 0x1000000000000,
        -0x1000000000000 <= d_out * wi.x <= 0,
        -0x1000000000000 <= d_out * wi.y <= 0,
{
    assert(0 <= d_in * wo.x <= 0x1000000000000 && 0 <= d_in * wo.y <= 0x1000000000000)
        by (nonlinear_arith)
        requires 0 <= d_in <= 2147483648, 0 <= wo.x <= 65536, 0 <= wo.y <= 65536;
    assert(-0x1000000000000 <= d_out * wi.x <= 0 && -0x1000000000000 <= d_out * wi.y <= 0)
        by (nonlinear_arith)
        requires -2147483648 <= d_out < 0, 0 <= wi.x <= 65536, 0 <= wi.y <= 65536;
    let d = d_in - d_out;
    let nx = d_in * wo.x - d_out * wi.x;
    let ny = d_in * wo.y - d_out * wi.y;
    let nz = d_in * wo.z - d_out * wi.z;
    assert(nx >= 0 && ny >= 0 && nz >= 0) by (nonlinear_arith)
        requires
            nx == d_in * wo.x - d_out * wi.x,
            ny == d_in * wo.y - d_out * wi.y,
            nz == d_in * wo.z - d_out * wi.z,
            d_in >= 0,
            d_out < 0,
            wo.x >= 0,
            wo.y >= 0,
            wo.z >= 0,
            wi.x >= 0,
            wi.y >= 0,
            wi.z >= 0;
    assert(nx + ny + nz == d * ONE) by (nonlinear_arith)
        requires
            nx == d_in * wo.x - d_out * wi.x,
            ny == d_in * wo.y - d_out * wi.y,
            nz == d_in * wo.z - d_out * wi.z,
            d == d_in - d_out,
            wo.x + wo.y + wo.z == 65536,
            wi.x + wi.y + wi.z == 65536;
    assert(nx / d >= 0 && ny / d >= 0 && nx / d + ny / d <= 65536) by (nonlinear_arith)
        requires nx >= 0, ny >= 0, nz >= 0, nx + ny + nz == d * 65536, d > 0;
}

proof fn lemma_intersection_valid(inside: ClipVertex, outside: ClipVertex, plane: int)
    requires
        clip_vertex_valid(inside),
        clip_vertex_valid(outside),
        0 <= plane < PLANE_COUNT,
        distance(inside.coords, plane) >= 0,
        distance(outside.coords, plane) < 0,
    ensures
        clip_vertex_valid(intersection(inside, outside, plane)),
{
    let d_in = distance(inside.coords, plane);
    let d_out = distance(outside.coords, plane);
    let (i, o) = (inside.coords, outside.coords);
    lemma_cut_coord(d_in, d_out, i.x as int, o.x as int);
    lemma_cut_coord(d_in, d_out, i.y as int, o.y as int);
    lemma_cut_coord(d_in, d_out, i.z as int, o.z as int);
    lemma_cut_coord(d_in, d_out, i.w as int, o.w as int);
    lemma_cut_weights(d_in, d_out, inside.weights, outside.weights);
}

proof fn lemma_trunc_div_neg(n: int, d: int)
    requires
        d > 0,
    ensures
        trunc_div_spec(-n, d) == -trunc_div_spec(n, d),
{
}

/// The point where an edge is cut lies exactly on the cutting plane.
pub proof fn lemma_intersection_on_plane(inside: ClipVertex, outside: ClipVertex, plane: int)
    requires
        0 <= plane < PLANE_COUNT,
        distance(inside.coords, plane) >= 0,
        distance(outside.coords, plane) < 0,
        clip_vertex_valid(inside),
        clip_vertex_valid(outside),
    ensures
        distance(intersection(inside, outside, plane).coords, plane) == 0,
{
    let d_in = distance(inside.coords, plane);
    let d_out = distance(outside.coords, plane);
    let d = d_in - d_out;
    let (i, o) = (inside.coords, outside.coords);
    lemma_intersection_valid(inside, outside, plane);
    let nx = d_in * o.x - d_out * i.x;
    let ny = d_in * o.y - d_out * i.y;
    let nz = d_in * o.z - d_out * i.z;
    let nw = d_in * o.w - d_out * i.w;
    let r = intersection(inside, outside, plane).coords;
    lemma_cut_coord(d_in, d_out, i.x as int, o.x as int);
    lemma_cut_coord(d_in, d_out, i.y as int, o.y as int);
    lemma_cut_coord(d_in, d_out, i.w as int, o.w as int);
    if plane == 0 {
        assert(nw == -nx) by (nonlinear_arith)
            requires nx == d_in * o.x - d_out * i.x, nw == d_in * o.w - d_out * i.w,
                d_in == i.x + i.w, d_out == o.x + o.w;
        lemma_trunc_div_neg(nx, d);
        assert(cut_coord(d_in, d_out, i.w as int, o.w as int) == -cut_coord(d_in, d_out, i.x as int, o.x as int));
        assert(r.x + r.w == 0);
    } else if plane == 1 {
        assert(nw == nx) by (nonlinear_arith)
            requires nx == d_in * o.x - d_out * i.x, nw == d_in * o.w - d_out * i.w,
                d_in == i.w - i.x, d_out == o.w - o.x;
        assert(r.w - r.x == 0);
    } else if plane == 2 {
        assert(nw == -ny) by (nonlinear_arith)
            requires ny == d_in * o.y - d_out * i.y, nw == d_in * o.w - d_out * i.w,
                d_in == i.y + i.w, d_out == o.y + o.w;
        lemma_trunc_div_neg(ny, d);
        assert(cut_coord(d_in, d_out, i.w as int, o.w as int) == -cut_coord(d_in, d_out, i.y as int, o.y as int));
        assert(r.y + r.w == 0);
    } else if plane == 3 {
        assert(nw == ny) by (nonlinear_arith)
            requires ny == d_in * o.y - d_out * i.y, nw == d_in * o.w - d_out * i.w,
                d_in == i.w - i.y, d_out == o.w - o.y;
        assert(r.w - r.y == 0);
    } else if plane == 4 {
        assert(nz == 0) by (nonlinear_arith)
            requires nz == d_in * o.z - d_out * i.z, d_in == i.z, d_out == o.z;
        assert(r.z == 0);
    } else {
        assert(nw == nz) by (nonlinear_arith)
            requires nz == d_in * o.z - d_out * i.z, nw == d_in * o.w - d_out * i.w,
                d_in == i.w - i.z, d_out == o.w - o.z;
        assert(r.w - r.z == 0);
    }
}

fn plane_distance(p: Vec4, plane: usize) -> (r: i64)
    requires
        position_in_range(p),
        plane < PLANE_COUNT,
    ensures
        r == distance(p, plane as int),
        -2 * CLIP_LIMIT <= r <= 2 * CLIP_LIMIT,
{
    if plane == 0 {
        p.x + p.w
    } else if plane == 1 {
        p.w - p.x
    } else if plane == 2 {
        p.y + p.w
    } else if plane == 3 {
        p.w - p.y
    } else if plane == 4 {
        p.z
    } else {
        p.w - p.z
    }
}

fn cut(d_in: i64, d_out: i64, a_in: i64, a_out: i64) -> (r: i64)
    requires
        0 <= d_in <= 2 * CLIP_LIMIT,
        -2 * CLIP_LIMIT <= d_out < 0,
        coord_in_range(a_in as int),
        coord_in_range(a_out as int),
    ensures
        r == cut_coord(d_in as int, d_out as int, a_in as int, a_out as int),
{
    proof {
        lemma_cut_coord(d_in as int, d_out as int, a_in as int, a_out as int);
    }
    trunc_div(d_in * a_out - d_out * a_in, d_in - d_out)
}

fn intersect(inside: ClipVertex, outside: ClipVertex, plane: usize) -> (r: ClipVertex)
    requires
        clip_vertex_valid(inside),
        clip_vertex_valid(outside),
        plane < PLANE_COUNT,
        distance(inside.coords, plane as int) >= 0,
        distance(outside.coords, plane as int) < 0,
    ensures
        r == intersection(inside, outside, plane as int),
        clip_vertex_valid(r),
{
    proof {
        lemma_intersection_valid(inside, outside, plane as int);
        lemma_cut_weights(
            distance(inside.coords, plane as int),
            distance(outside.coords, plane as int),
            inside.weights,
            outside.weights,
        );
    }
    let d_in = plane_distance(inside.coords, plane);
    let d_out = plane_distance(outside.coords, plane);
    let (i, o) = (inside.coords, outside.coords);
    let (wi, wo) = (inside.weights, outside.weights);
    let wx = (d_in * wo.x - d_out * wi.x) / (d_in - d_out);
    let wy = (d_in * wo.y - d_out * wi.y) / (d_in - d_out);
    ClipVertex {
        coords: Vec4 {
            x: cut(d_in, d_out, i.x, o.x),
            y: cut(d_in, d_out, i.y, o.y),
            z: cut(d_in, d_out, i.z, o.z),
            w: cut(d_in, d_out, i.w, o.w),
        },
        weights: Vec3 { x: wx, y: wy, z: ONE - wx - wy },
    }
}

proof fn lemma_clip_edge_valid(poly: Seq<ClipVertex>, plane: int, i: int)
    requires
        polygon_valid(poly),
        0 <= plane < PLANE_COUNT,
        0 <= i < poly.len(),
    ensures
        polygon_valid(clip_edge(poly, plane, i)),
{
    let j = if i == 0 {
        poly.len() - 1
    } else {
        i - 1
    };
    assert(clip_vertex_valid(poly[i]));
    assert(clip_vertex_valid(poly[j]));
    let (di, dj) = (distance(poly[i].coords, plane), distance(poly[j].coords, plane));
    if di >= 0 && dj < 0 {
        lemma_intersection_valid(poly[i], poly[j], plane);
    } else if di < 0 && dj >= 0 {
        lemma_intersection_valid(poly[j], poly[i], plane);
    }
}

/// Clips a polygon against one plane.
fn clip_polygon_against_plane(input: &Vec<ClipVertex>, plane: usize) -> (r: Vec<ClipVertex>)
    requires
        polygon_valid(input@),
        plane < PLANE_COUNT,
        input@.len() > 0,
        input@.len() <= 1000,
    ensures
        r@ == clip_plane(input@, plane as int),
        polygon_valid(r@),
        r@.len() <= 2 * input@.len(),
{
    let n = input.len();
    let mut output: Vec<ClipVertex> = Vec::new();
    let mut j: usize = n - 1;
    let mut i: usize = 0;
    while i < n
        invariant
            n == input@.len(),
            0 < n <= 1000,
            plane < PLANE_COUNT,
            polygon_valid(input@),
            0 <= i <= n,
            j == if i == 0 {
                n - 1
            } else {
                i - 1
            },
            output@ == clip_plane_prefix(input@, plane as int, i as nat),
            polygon_valid(output@),
            output@.len() <= 2 * i,
        decreases n - i,
    {
        let vertex_j = input[j];
        let vertex_i = input[i];
        proof {
            assert(clip_vertex_valid(input@[i as int]));
            assert(clip_vertex_valid(input@[j as int]));
            lemma_clip_edge_valid(input@, plane as int, i as int);
        }
        let distance_j = plane_distance(vertex_j.coords, plane);
        let distance_i = plane_distance(vertex_i.coords, plane);
        let ghost before = output@;
        if distance_i >= 0 {
            if distance_j < 0 {
                output.push(intersect(vertex_i, vertex_j, plane));
            }
            output.push(vertex_i);
        } else if distance_j >= 0 {
            output.push(intersect(vertex_j, vertex_i, plane));
        }
        proof {
            let edge = clip_edge(input@, plane as int, i as int);
            assert(output@ =~= before + edge);
            assert forall|k: int| 0 <= k < output@.len() implies clip_vertex_valid(
                #[trigger] output@[k],
            ) by {
                if k >= before.len() {
                    assert(output@[k] == edge[k - before.len()]);
                }
            }
        }
        j = i;
        i = i + 1;
    }
    output
}

proof fn lemma_clip_empty(poly: Seq<ClipVertex>, k: nat, m: nat)
    requires
        k <= m,
        clip_planes(poly, k).len() == 0,
    ensures
        clip_planes(poly, m).len() == 0,
    decreases m - k,
{
    if k < m {
        lemma_clip_empty(poly, k, (m - 1) as nat);
        assert(clip_plane_prefix(clip_planes(poly, (m - 1) as nat), m - 1, 0) =~= Seq::empty());
    }
}

/// Clips a clip-space triangle against the six canonical planes. Returns
/// the clipped convex polygon in the triangle's winding order, each vertex
/// with its barycentric weights relative to the three corners; it is empty
/// when the triangle lies wholly outside some plane. Every cut vertex lies
/// exactly on the plane that cut it.
pub fn clip_triangle(input_vertices: &[Vec4; 3]) -> (r: Vec<ClipVertex>)
    requires
        position_in_range(input_vertices[0]),
        position_in_range(input_vertices[1]),
        position_in_range(input_vertices[2]),
    ensures
        r@ == clip_spec(*input_vertices),
        polygon_valid(r@),
        r@.len() <= 192,
        rejected(*input_vertices) ==> r@.len() == 0,
{
    let ghost t = *input_vertices;
    let mut k: usize = 0;
    while k < PLANE_COUNT
        invariant
            t == *input_vertices,
            position_in_range(t[0]),
            position_in_range(t[1]),
            position_in_range(t[2]),
            k <= PLANE_COUNT,
            forall|p: int| 0 <= p < k ==> !#[trigger] outside_plane(t, p),
        decreases PLANE_COUNT - k,
    {
        if plane_distance(input_vertices[0], k) < 0 && plane_distance(input_vertices[1], k) < 0
            && plane_distance(input_vertices[2], k) < 0 {
            assert(outside_plane(t, k as int));
            return Vec::new();
        }
        k = k + 1;
    }
    assert(!rejected(t));
    let mut buffer_vertices: Vec<ClipVertex> = Vec::new();
    buffer_vertices.push(ClipVertex { coords: input_vertices[0], weights: Vec3 { x: ONE, y: 0, z: 0 } });
    buffer_vertices.push(ClipVertex { coords: input_vertices[1], weights: Vec3 { x: 0, y: ONE, z: 0 } });
    buffer_vertices.push(ClipVertex { coords: input_vertices[2], weights: Vec3 { x: 0, y: 0, z: ONE } });
    assert(buffer_vertices@ =~= corners(t));
    proof {
        vstd::arithmetic::power2::lemma2_to64();
    }
    let mut plane: usize = 0;
    while plane < PLANE_COUNT
        invariant
            t == *input_vertices,
            plane <= PLANE_COUNT,
            buffer_vertices@ == clip_planes(corners(t), plane as nat),
            polygon_valid(buffer_vertices@),
            buffer_vertices@.len() <= 3 * pow2(plane as nat),
        decreases PLANE_COUNT - plane,
    {
        if buffer_vertices.len() == 0 {
            proof {
                lemma_clip_empty(corners(t), plane as nat, PLANE_COUNT as nat);
            }
            return Vec::new();
        }
        proof {
            assert(pow2(plane as nat) <= 32) by {
                vstd::arithmetic::power2::lemma2_to64();
            }
        }
        let input_vertices = buffer_vertices;
        buffer_vertices = clip_polygon_against_plane(&input_vertices, plane);
        proof {
            vstd::arithmetic::power2::lemma_pow2_unfold((plane + 1) as nat);
        }
        plane = plane + 1;
    }
    proof {
        vstd::arithmetic::power2::lemma2_to64();
    }
    buffer_vertices
}

proof fn lemma_clip_plane_inside(poly: Seq<ClipVertex>, plane: int, n: nat)
    requires
        n <= poly.len(),
        forall|i: int| 0 <= i < poly.len() ==> distance(#[trigger] poly[i].coords, plane) >= 0,
    ensures
        clip_plane_prefix(poly, plane, n) == poly.take(n as int),
    decreases n,
{
    if n > 0 {
        lemma_clip_plane_inside(poly, plane, (n - 1) as nat);
        let j = if n - 1 == 0 {
            poly.len() - 1
        } else {
            n - 2
        };
        assert(distance(poly[n - 1].coords, plane) >= 0);
        assert(distance(poly[j].coords, plane) >= 0);
        assert(poly.take(n - 1) + seq![poly[n - 1]] =~= poly.take(n as int));
    }
}

proof fn lemma_clip_planes_inside(poly: Seq<ClipVertex>, k: nat)
    requires
        k <= PLANE_COUNT,
        forall|i: int| 0 <= i < poly.len() ==> inside_all_planes(#[trigger] poly[i].coords),
    ensures
        clip_planes(poly, k) == poly,
    decreases k,
{
    if k > 0 {
        lemma_clip_planes_inside(poly, (k - 1) as nat);
        assert forall|i: int| 0 <= i < poly.len() implies distance(
            #[trigger] poly[i].coords,
            k - 1,
        ) >= 0 by {
            assert(inside_all_planes(poly[i].coords));
        }
        lemma_clip_plane_inside(poly, k - 1, poly.len());
        assert(poly.take(poly.len() as int) =~= poly);
    }
}

/// A triangle inside every clip plane comes back from the clipper as it
/// went in: its three corners, in order, with weights (1,0,0), (0,1,0) and
/// (0,0,1).
pub proof fn lemma_clip_inside_unchanged(t: [Vec4; 3])
    requires
        inside_all_planes(t[0]),
        inside_all_planes(t[1]),
        inside_all_planes(t[2]),
    ensures
        clip_spec(t) == corners(t),
{
    assert forall|plane: int| 0 <= plane < PLANE_COUNT implies !#[trigger] outside_plane(t, plane) by {
        assert(distance(t[0], plane) >= 0);
    }
    let c = corners(t);
    assert forall|i: int| 0 <= i < c.len() implies inside_all_planes(#[trigger] c[i].coords) by {
        assert(c[i].coords == t[i]);
    }
    lemma_clip_planes_inside(c, PLANE_COUNT as nat);
}

/// A triangle with exactly one vertex beyond a plane is cut by it into a
/// quadrilateral: the two other vertices stay as they were, and the two new
/// vertices are where the edges towards the outer vertex cross the plane,
/// with weights interpolated along those edges, at distance 0 from it.
pub proof fn lemma_clip_one_vertex_outside(tri: Seq<ClipVertex>, plane: int, k: int)
    requires
        tri.len() == 3,
        polygon_valid(tri),
        0 <= plane < PLANE_COUNT,
        0 <= k < 3,
        distance(tri[k].coords, plane) < 0,
        forall|i: int| 0 <= i < 3 && i != k ==> distance(#[trigger] tri[i].coords, plane) >= 0,
    ensures
        clip_plane(tri, plane).len() == 4,
        k == 0 ==> clip_plane(tri, plane) == seq![
            intersection(tri[2], tri[0], plane),
            intersection(tri[1], tri[0], plane),
            tri[1],
            tri[2],
        ],
        k == 1 ==> clip_plane(tri, plane) == seq![
            tri[0],
            intersection(tri[0], tri[1], plane),
            intersection(tri[2], tri[1], plane),
            tri[2],
        ],
        k == 2 ==> clip_plane(tri, plane) == seq![
            intersection(tri[0], tri[2], plane),
            tri[0],
            tri[1],
            intersection(tri[1], tri[2], plane),
        ],
        forall|i: int|
            0 <= i < 3 && i != k ==> distance(
                #[trigger] intersection(tri[i], tri[k], plane).coords,
                plane,
            ) == 0,
{
    assert(clip_vertex_valid(tri[0]));
    assert(clip_vertex_valid(tri[1]));
    assert(clip_vertex_valid(tri[2]));
    assert(distance(tri[0].coords, plane) >= 0 || k == 0);
    assert(distance(tri[1].coords, plane) >= 0 || k == 1);
    assert(distance(tri[2].coords, plane) >= 0 || k == 2);
    let p1 = clip_plane_prefix(tri, plane, 1);
    let p2 = clip_plane_prefix(tri, plane, 2);
    let p3 = clip_plane_prefix(tri, plane, 3);
    let p0 = clip_plane_prefix(tri, plane, 0);
    assert(p1 == p0 + clip_edge(tri, plane, 0));
    assert(p0 =~= Seq::empty());
    assert(p2 == p1 + clip_edge(tri, plane, 1));
    assert(p3 == p2 + clip_edge(tri, plane, 2));
    if k == 0 {
        assert(p3 =~= seq![
            intersection(tri[2], tri[0], plane),
            intersection(tri[1], tri[0], plane),
            tri[1],
            tri[2],
        ]);
    } else if k == 1 {
        assert(p3 =~= seq![
            tri[0],
            intersection(tri[0], tri[1], plane),
            intersection(tri[2], tri[1], plane),
            tri[2],
        ]);
    } else {
        assert(p3 =~= seq![
            intersection(tri[0], tri[2], plane),
            tri[0],
            tri[1],
            intersection(tri[1], tri[2], plane),
        ]);
    }
    assert forall|i: int| 0 <= i < 3 && i != k implies distance(
        #[trigger] intersection(tri[i], tri[k], plane).coords,
        plane,
    ) == 0 by {
        lemma_intersection_on_plane(tri[i], tri[k], plane);
    }
}

proof fn lemma_trunc_div_monotone(n1: int, n2: int, d: int)
    requires
        d > 0,
        n1 <= n2,
    ensures
        trunc_div_spec(n1, d) <= trunc_div_spec(n2, d),
{
    if n1 >= 0 {
        vstd::arithmetic::div_mod::lemma_div_is_ordered(n1, n2, d);
    } else if n2 < 0 {
        vstd::arithmetic::div_mod::lemma_div_is_ordered(-n2, -n1, d);
    } else {
        vstd::arithmetic::div_mod::lemma_div_pos_is_pos(-n1, d);
        vstd::arithmetic::div_mod::lemma_div_pos_is_pos(n2, d);
    }
}

/// The point where an edge is cut by one plane stays inside every other
/// plane that both ends of the edge are inside.
pub proof fn lemma_intersection_inside(inside: ClipVertex, outside: ClipVertex, k: int, j: int)
    requires
        clip_vertex_valid(inside),
        clip_vertex_valid(outside),
        0 <= k < PLANE_COUNT,
        0 <= j < PLANE_COUNT,
        distance(inside.coords, k) >= 0,
        distance(outside.coords, k) < 0,
        distance(inside.coords, j) >= 0,
        distance(outside.coords, j) >= 0,
    ensures
        distance(intersection(inside, outside, k).coords, j) >= 0,
{
    let d_in = distance(inside.coords, k);
    let d_out = distance(outside.coords, k);
    let d = d_in - d_out;
    let (i, o) = (inside.coords, outside.coords);
    lemma_cut_coord(d_in, d_out, i.x as int, o.x as int);
    lemma_cut_coord(d_in, d_out, i.y as int, o.y as int);
    lemma_cut_coord(d_in, d_out, i.z as int, o.z as int);
    lemma_cut_coord(d_in, d_out, i.w as int, o.w as int);
    let nx = d_in * o.x - d_out * i.x;
    let ny = d_in * o.y - d_out * i.y;
    let nz = d_in * o.z - d_out * i.z;
    let nw = d_in * o.w - d_out * i.w;
    let (ej, fj) = (distance(i, j), distance(o, j));
    assert(d_in * fj - d_out * ej >= 0) by (nonlinear_arith)
        requires d_in >= 0, d_out < 0, ej >= 0, fj >= 0;
    if j == 0 {
        assert(nx + nw == d_in * fj - d_out * ej) by (nonlinear_arith)
            requires nx == d_in * o.x - d_out * i.x, nw == d_in * o.w - d_out * i.w,
                ej == i.x + i.w, fj == o.x + o.w;
        lemma_trunc_div_monotone(-nx, nw, d);
        lemma_trunc_div_neg(nx, d);
    } else if j == 1 {
        assert(nw - nx == d_in * fj - d_out * ej) by (nonlinear_arith)
            requires nx == d_in * o.x - d_out * i.x, nw == d_in * o.w - d_out * i.w,
                ej == i.w - i.x, fj == o.w - o.x;
        lemma_trunc_div_monotone(nx, nw, d);
    } else if j == 2 {
        assert(ny + nw == d_in * fj - d_out * ej) by (nonlinear_arith)
            requires ny == d_in * o.y - d_out * i.y, nw == d_in * o.w - d_out * i.w,
                ej == i.y + i.w, fj == o.y + o.w;
        lemma_trunc_div_monotone(-ny, nw, d);
        lemma_trunc_div_neg(ny, d);
    } else if j == 3 {
        assert(nw - ny == d_in * fj - d_out * ej) by (nonlinear_arith)
            requires ny == d_in * o.y - d_out * i.y, nw == d_in * o.w - d_out * i.w,
                ej == i.w - i.y, fj == o.w - o.y;
        lemma_trunc_div_monotone(ny, nw, d);
    } else if j == 4 {
        assert(nz == d_in * fj - d_out * ej) by (nonlinear_arith)
            requires nz == d_in * o.z - d_out * i.z, ej == i.z, fj == o.z;
        lemma_trunc_div_monotone(0, nz, d);
    } else {
        assert(nw - nz == d_in * fj - d_out * ej) by (nonlinear_arith)
            requires nz == d_in * o.z - d_out * i.z, nw == d_in * o.w - d_out * i.w,
                ej == i.w - i.z, fj == o.w - o.z;
        lemma_trunc_div_monotone(nz, nw, d);
    }
}

/// Clipping changes nothing further once a polygon is inside planes
/// `k .. m`.
proof fn lemma_clip_planes_stable(poly: Seq<ClipVertex>, k: nat, m: nat)
    requires
        k <= m <= PLANE_COUNT,
        forall|i: int, p: int|
            0 <= i < clip_planes(poly, k).len() && k <= p < m ==> #[trigger] distance(clip_planes(poly, k)[i].coords, p) >= 0,
    ensures
        clip_planes(poly, m) == clip_planes(poly, k),
    decreases m - k,
{
    if m > k {
        lemma_clip_planes_stable(poly, k, (m - 1) as nat);
        let q = clip_planes(poly, k);
        assert forall|i: int| 0 <= i < q.len() implies distance(#[trigger] q[i].coords, m - 1) >= 0 by {
            assert(distance(q[i].coords, m - 1) >= 0);
        }
        lemma_clip_plane_inside(q, m - 1, q.len());
        assert(q.take(q.len() as int) =~= q);
    }
}

proof fn lemma_quad_inside(t: [Vec4; 3], k: int, o: int, p: int)
    requires
        position_in_range(t[0]),
        position_in_range(t[1]),
        position_in_range(t[2]),
        0 <= k < PLANE_COUNT,
        0 <= p < PLANE_COUNT,
        p != k,
        0 <= o < 3,
        distance(t[o], k) < 0,
        forall|i: int| 0 <= i < 3 && i != o ==> distance(#[trigger] t[i], k) >= 0,
        distance(t[0], p) >= 0,
        distance(t[1], p) >= 0,
        distance(t[2], p) >= 0,
    ensures
        forall|i: int|
            0 <= i < clip_plane(corners(t), k).len() ==> #[trigger] distance(
                clip_plane(corners(t), k)[i].coords,
                p,
            ) >= 0,
{
    let c = corners(t);
    assert(c[0].coords == t[0] && c[1].coords == t[1] && c[2].coords == t[2]);
    assert(polygon_valid(c));
    lemma_clip_one_vertex_outside(c, k, o);
    let q = clip_plane(c, k);
    if o == 0 {
        lemma_intersection_inside(c[2], c[0], k, p);
        lemma_intersection_inside(c[1], c[0], k, p);
    } else if o == 1 {
        lemma_intersection_inside(c[0], c[1], k, p);
        lemma_intersection_inside(c[2], c[1], k, p);
    } else {
        lemma_intersection_inside(c[0], c[2], k, p);
        lemma_intersection_inside(c[1], c[2], k, p);
    }
    assert forall|i: int| 0 <= i < q.len() implies #[trigger] distance(q[i].coords, p) >= 0 by {
        if o == 0 {
            assert(q[i] == seq![intersection(c[2], c[0], k), intersection(c[1], c[0], k), c[1], c[2]][i]);
        } else if o == 1 {
            assert(q[i] == seq![c[0], intersection(c[0], c[1], k), intersection(c[2], c[1], k), c[2]][i]);
        } else {
            assert(q[i] == seq![intersection(c[0], c[2], k), c[0], c[1], intersection(c[1], c[2], k)][i]);
        }
    }
}

/// A triangle with one vertex beyond exactly one plane, and everything
/// else inside every plane, clips to a quadrilateral: the two inner corners
/// unchanged, in order, and the two points where the edges towards the
/// outer corner cross that plane, with weights interpolated along those
/// edges and at distance 0 from the plane.
pub proof fn lemma_clip_triangle_one_vertex_outside(t: [Vec4; 3], k: int, o: int)
    requires
        position_in_range(t[0]),
        position_in_range(t[1]),
        position_in_range(t[2]),
        0 <= k < PLANE_COUNT,
        0 <= o < 3,
        distance(t[o], k) < 0,
        forall|i: int| 0 <= i < 3 && i != o ==> distance(#[trigger] t[i], k) >= 0,
        forall|i: int, j: int|
            0 <= i < 3 && 0 <= j < PLANE_COUNT && j != k ==> #[trigger] distance(t[i], j) >= 0,
    ensures
        clip_spec(t) == clip_plane(corners(t), k),
        clip_spec(t).len() == 4,
        o == 0 ==> clip_spec(t) == seq![
            intersection(corners(t)[2], corners(t)[0], k),
            intersection(corners(t)[1], corners(t)[0], k),
            corners(t)[1],
            corners(t)[2],
        ],
        o == 1 ==> clip_spec(t) == seq![
            corners(t)[0],
            intersection(corners(t)[0], corners(t)[1], k),
            intersection(corners(t)[2], corners(t)[1], k),
            corners(t)[2],
        ],
        o == 2 ==> clip_spec(t) == seq![
            intersection(corners(t)[0], corners(t)[2], k),
            corners(t)[0],
            corners(t)[1],
            intersection(corners(t)[1], corners(t)[2], k),
        ],
        forall|i: int|
            0 <= i < 3 && i != o ==> distance(
                #[trigger] intersection(corners(t)[i], corners(t)[o], k).coords,
                k,
            ) == 0,
{
    let c = corners(t);
    assert(c[0].coords == t[0] && c[1].coords == t[1] && c[2].coords == t[2]);
    assert(polygon_valid(c));
    let i1 = if o == 0 { 1int } else { 0int };
    assert(distance(t[i1], k) >= 0);
    assert forall|p: int| 0 <= p < PLANE_COUNT implies !#[trigger] outside_plane(t, p) by {
        if p != k {
            assert(distance(t[0], p) >= 0);
        } else {
            assert(distance(t[i1], k) >= 0);
        }
    }
    assert forall|i: int, p: int| 0 <= i < c.len() && 0 <= p < k implies #[trigger] distance(clip_planes(c, 0)[i].coords, p) >= 0 by {
        assert(distance(t[i], p) >= 0);
    }
    lemma_clip_planes_stable(c, 0, k as nat);
    assert forall|i: int| 0 <= i < 3 && i != o implies distance(#[trigger] c[i].coords, k) >= 0 by {
        assert(distance(t[i], k) >= 0);
    }
    lemma_clip_one_vertex_outside(c, k, o);
    let q = clip_plane(c, k);
    assert(clip_planes(c, (k + 1) as nat) == q);
    assert forall|i: int| 0 <= i < 3 && i != o implies distance(
        #[trigger] intersection(c[i], c[o], k).coords,
        k,
    ) == 0 by {
        lemma_intersection_on_plane(c[i], c[o], k);
    }
    assert forall|i: int, p: int| 0 <= i < q.len() && k + 1 <= p < PLANE_COUNT implies #[trigger] distance(
        clip_planes(c, (k + 1) as nat)[i].coords,
        p,
    ) >= 0 by {
        lemma_quad_inside(t, k, o, p);
    }
    lemma_clip_planes_stable(c, (k + 1) as nat, PLANE_COUNT as nat);
}

} // verus!
