//! Fan triangulation of convex polygons.
use vstd::prelude::*;

verus! {

/// The fan of `p`: for each `k < len - 2` the triangle
/// `(p[0], p[k + 1], p[k + 2])`, flattened; empty below three vertices.
pub open spec fn fan_spec<T>(p: Seq<T>) -> Seq<T> {
    if p.len() < 3 {
        Seq::empty()
    } else {
        Seq::new(
            (3 * (p.len() - 2)) as nat,
            |i: int|
                if i % 3 == 0 {
                    p[0]
                } else if i % 3 == 1 {
                    p[i / 3 + 1]
                } else {
                    p[i / 3 + 2]
                },
        )
    }
}

/// Splits a convex polygon into triangles that all share its first vertex,
/// keeping its winding. Returns `3 * (len - 2)` vertices, or none for fewer
/// than three.
pub fn fan_triangulate<T: Copy>(vertices: &[T]) -> (r: Vec<T>)
    requires
        vertices@.len() <= usize::MAX / 3,
    ensures
        r@ == fan_spec(vertices@),
        vertices@.len() >= 3 ==> r@.len() == 3 * (vertices@.len() - 2),
        vertices@.len() < 3 ==> r@.len() == 0,
{
    let mut output_vertices: Vec<T> = Vec::new();
    if vertices.len() < 3 {
        return output_vertices;
    }
    let n = vertices.len();
    let base: usize = 0;
    let mut i: usize = 1;
    while i < n - 1
        invariant
            n == vertices@.len(),
            base == 0,
            3 <= n <= usize::MAX / 3,
            1 <= i <= n - 1,
            output_vertices@.len() == 3 * (i - 1),
            forall|k: int|
                0 <= k < output_vertices@.len() ==> #[trigger] output_vertices@[k] == fan_spec(
                    vertices@,
                )[k],
        decreases n - i,
    {
        let v0 = vertices[base];
        let v1 = vertices[i];
        let v2 = vertices[i + 1];
        let ghost before = output_vertices@;
        output_vertices.push(v0);
        output_vertices.push(v1);
        output_vertices.push(v2);
        proof {
            let f = fan_spec(vertices@);
            let m = 3 * (i - 1);
            assert(m / 3 == i - 1 && m % 3 == 0);
            assert((m + 1) / 3 == i - 1 && (m + 1) % 3 == 1);
            assert((m + 2) / 3 == i - 1 && (m + 2) % 3 == 2);
            assert forall|k: int| 0 <= k < output_vertices@.len() implies #[trigger] output_vertices@[k]
                == f[k] by {
                if k == m {
                    assert(f[k] == vertices@[0]);
                } else if k == m + 1 {
                    assert(f[k] == vertices@[i as int]);
                } else if k == m + 2 {
                    assert(f[k] == vertices@[i + 1]);
                } else {
                    assert(output_vertices@[k] == before[k]);
                }
            }
        }
        i = i + 1;
    }
    assert(output_vertices@ =~= fan_spec(vertices@));
    output_vertices
}

} // verus!
