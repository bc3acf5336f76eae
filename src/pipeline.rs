//! The rendering pipeline: clip, triangulate, divide, map to the viewport,
//! rasterize, depth test, shade and write.
use vstd::prelude::*;

use crate::clipping::{
    clip_spec, clip_triangle, clip_vertex_valid, polygon_valid, ClipVertex, CLIP_LIMIT,
};
use crate::color::to_raw_spec;
use crate::framebuffer::Framebuffer;
use crate::rasterization::{
    area_spec, fragment_of, point_in_range, rasterize_solid_triangle,
    rasterize_spec, triangle_in_range, weights_are_barycentric, Fragment, COORD_LIMIT,
};
use crate::shaders::{FragmentShader, Varying, VertexShader};
use crate::triangulation::{fan_spec, fan_triangulate};
use crate::vector::Vec2;
use crate::vertex::{
    bary_lerp_spec, clip_lerp_spec, duv_spec, homogenize_spec, homogenized_ok, vertex_ok, Vertex,
    ATTR_LIMIT,
};
use crate::viewport::{ndc_in_range, ndc_to_framebuffer_spec, viewport_ok, Viewport, NDC_MAP_LIMIT};

verus! {

/// Colors and depths of a framebuffer, row-major.
pub type FrameState = (Seq<u32>, Seq<i64>);

/// The depth and color that fragment `f` of the homogenized triangle `h`
/// would write.
pub open spec fn shade<U, S: FragmentShader<U>>(h: [Vertex; 3], f: Fragment, shader: S, uniforms: &U) -> (i64, int) {
    let v = bary_lerp_spec(h[0], h[1], h[2], f.t);
    let duv_dx = duv_spec(h[0], h[1], h[2], f.t, f.dt_dx);
    let duv_dy = duv_spec(h[0], h[1], h[2], f.t, f.dt_dy);
    (v.coords.z, to_raw_spec(shader.fs_spec(Varying { vertex: v, duv_dx, duv_dy }, uniforms)))
}

/// The framebuffer after fragment `f`: written when its pixel is inside the
/// framebuffer and its depth is less than the stored one, unchanged
/// otherwise.
pub open spec fn write_fragment<U, S: FragmentShader<U>>(
    st: FrameState,
    width: int,
    height: int,
    h: [Vertex; 3],
    f: Fragment,
    shader: S,
    uniforms: &U,
) -> FrameState {
    let (x, y) = (f.coords.x as int, f.coords.y as int);
    if 0 <= x < width && 0 <= y < height {
        let index = y * width + x;
        let (depth, color) = shade(h, f, shader, uniforms);
        if depth < st.1[index] {
            (st.0.update(index, color as u32), st.1.update(index, depth))
        } else {
            st
        }
    } else {
        st
    }
}

/// The framebuffer after the first `n` fragments of `frags`, in order.
pub open spec fn write_fragments<U, S: FragmentShader<U>>(
    st: FrameState,
    width: int,
    height: int,
    h: [Vertex; 3],
    frags: Seq<Fragment>,
    n: nat,
    shader: S,
    uniforms: &U,
) -> FrameState
    decreases n,
{
    if n == 0 {
        st
    } else {
        write_fragment(
            write_fragments(st, width, height, h, frags, (n - 1) as nat, shader, uniforms),
            width,
            height,
            h,
            frags[n - 1],
            shader,
            uniforms,
        )
    }
}

/// Whether a clip-space triangle can be divided and mapped: every `w` is
/// positive and the divided positions are in the viewport map's range.
pub open spec fn mappable(t: [Vertex; 3]) -> bool {
    &&& t[0].coords.w > 0
    &&& t[1].coords.w > 0
    &&& t[2].coords.w > 0
    &&& ndc_in_range(ndc_xy(homogenize_spec(t[0])))
    &&& ndc_in_range(ndc_xy(homogenize_spec(t[1])))
    &&& ndc_in_range(ndc_xy(homogenize_spec(t[2])))
}

pub open spec fn ndc_xy(v: Vertex) -> Vec2 {
    Vec2 { x: v.coords.x, y: v.coords.y }
}

pub open spec fn screen_triangle(vp: Viewport, h: [Vertex; 3]) -> [Vec2; 3] {
    [
        ndc_to_framebuffer_spec(vp, ndc_xy(h[0])),
        ndc_to_framebuffer_spec(vp, ndc_xy(h[1])),
        ndc_to_framebuffer_spec(vp, ndc_xy(h[2])),
    ]
}

pub open spec fn homogenize3(t: [Vertex; 3]) -> [Vertex; 3] {
    [homogenize_spec(t[0]), homogenize_spec(t[1]), homogenize_spec(t[2])]
}

/// The framebuffer after one clipped clip-space triangle. A triangle that
/// cannot be divided or mapped, or whose screen position is out of the
/// rasterizer's range, is skipped.
pub open spec fn draw_subtriangle<U, S: FragmentShader<U>>(
    st: FrameState,
    width: int,
    height: int,
    vp: Viewport,
    t: [Vertex; 3],
    shader: S,
    uniforms: &U,
) -> FrameState {
    if !mappable(t) {
        st
    } else {
        let h = homogenize3(t);
        let screen = screen_triangle(vp, h);
        if !triangle_in_range(screen) {
            st
        } else {
            let frags = rasterize_spec(screen);
            write_fragments(st, width, height, h, frags, frags.len(), shader, uniforms)
        }
    }
}

/// The `k`-th triangle of a flattened triangle list.
pub open spec fn triangle_at(list: Seq<Vertex>, k: int) -> [Vertex; 3] {
    [list[3 * k], list[3 * k + 1], list[3 * k + 2]]
}

/// The framebuffer after the first `n` triangles of a flattened list.
pub open spec fn draw_list<U, S: FragmentShader<U>>(
    st: FrameState,
    width: int,
    height: int,
    vp: Viewport,
    list: Seq<Vertex>,
    n: nat,
    shader: S,
    uniforms: &U,
) -> FrameState
    decreases n,
{
    if n == 0 {
        st
    } else {
        draw_subtriangle(
            draw_list(st, width, height, vp, list, (n - 1) as nat, shader, uniforms),
            width,
            height,
            vp,
            triangle_at(list, n - 1),
            shader,
            uniforms,
        )
    }
}

/// The clipped polygon of a clip-space triangle, each vertex with its
/// attributes re-derived from the corners by its clip weights.
pub open spec fn clipped_polygon(t: [Vertex; 3]) -> Seq<Vertex> {
    clip_spec([t[0].coords, t[1].coords, t[2].coords]).map_values(
        |c: ClipVertex| clip_lerp_spec(t[0], t[1], t[2], c.coords, c.weights),
    )
}

/// The framebuffer after one clip-space triangle: clipped,
/// fan-triangulated, and each resulting triangle drawn in turn. A triangle
/// with a vertex outside the fixed-point range is skipped.
pub open spec fn draw_triangle<U, S: FragmentShader<U>>(
    st: FrameState,
    width: int,
    height: int,
    vp: Viewport,
    t: [Vertex; 3],
    shader: S,
    uniforms: &U,
) -> FrameState {
    if !(vertex_ok(t[0]) && vertex_ok(t[1]) && vertex_ok(t[2])) {
        st
    } else {
        let fan = fan_spec(clipped_polygon(t));
        draw_list(st, width, height, vp, fan, fan.len() / 3, shader, uniforms)
    }
}

/// The clip-space vertices that `vertex_shader` makes of `inputs`.
pub open spec fn shade_inputs<In, VU, V: VertexShader<In, VU>>(
    vertex_shader: V,
    uniforms: &VU,
    inputs: Seq<In>,
) -> Seq<Vertex> {
    inputs.map_values(|i: In| vertex_shader.vs_spec(i, uniforms))
}

/// The framebuffer after the first `n` input triangles.
pub open spec fn draw_triangles_spec<U, S: FragmentShader<U>>(
    st: FrameState,
    width: int,
    height: int,
    vp: Viewport,
    vertices: Seq<Vertex>,
    n: nat,
    shader: S,
    uniforms: &U,
) -> FrameState
    decreases n,
{
    if n == 0 {
        st
    } else {
        draw_triangle(
            draw_triangles_spec(st, width, height, vp, vertices, (n - 1) as nat, shader, uniforms),
            width,
            height,
            vp,
            triangle_at(vertices, n - 1),
            shader,
            uniforms,
        )
    }
}

/// A fragment as the rasterizer emits it for a triangle in range.
pub open spec fn fragment_ok(f: Fragment) -> bool {
    &&& weights_are_barycentric(f)
    &&& f.area <= 8796093022208
    &&& -0x1000_0000 <= f.dt_dx.x <= 0x1000_0000
    &&& -0x1000_0000 <= f.dt_dx.y <= 0x1000_0000
    &&& -0x1000_0000 <= f.dt_dx.z <= 0x1000_0000
    &&& -0x1000_0000 <= f.dt_dy.x <= 0x1000_0000
    &&& -0x1000_0000 <= f.dt_dy.y <= 0x1000_0000
    &&& -0x1000_0000 <= f.dt_dy.z <= 0x1000_0000
}

fn ndc_check(p: Vec2) -> (r: bool)
    ensures
        r == ndc_in_range(p),
{
    -NDC_MAP_LIMIT <= p.x && p.x <= NDC_MAP_LIMIT && -NDC_MAP_LIMIT <= p.y && p.y <= NDC_MAP_LIMIT
}

fn screen_check(p: Vec2) -> (r: bool)
    ensures
        r == point_in_range(p),
{
    -COORD_LIMIT <= p.x && p.x <= COORD_LIMIT && -COORD_LIMIT <= p.y && p.y <= COORD_LIMIT
}

proof fn lemma_fragment_ok(v: [Vec2; 3], f: Fragment)
    requires
        triangle_in_range(v),
        weights_are_barycentric(f),
        fragment_of(v, f),
        area_spec(v) <= 8796093022208,
    ensures
        fragment_ok(f),
{
}

proof fn lemma_fan_vertex_ok(p: Seq<Vertex>, i: int)
    requires
        0 <= i < fan_spec(p).len(),
        forall|q: int| 0 <= q < p.len() ==> vertex_ok(#[trigger] p[q]),
    ensures
        vertex_ok(fan_spec(p)[i]),
{
    assert(p.len() >= 3);
    assert(i / 3 + 2 < p.len());
    if i % 3 == 0 {
        assert(vertex_ok(p[0]));
    } else if i % 3 == 1 {
        assert(vertex_ok(p[i / 3 + 1]));
    } else {
        assert(vertex_ok(p[i / 3 + 2]));
    }
}

fn vertex_check(v: &Vertex) -> (r: bool)
    ensures
        r == vertex_ok(*v),
{
    let c = v.coords;
    let in_clip = |x: i64| -> (r: bool)
        ensures
            r == (-CLIP_LIMIT <= x <= CLIP_LIMIT),
        { -CLIP_LIMIT <= x && x <= CLIP_LIMIT };
    let in_attr = |x: i64| -> (r: bool)
        ensures
            r == (-ATTR_LIMIT <= x <= ATTR_LIMIT),
        { -ATTR_LIMIT <= x && x <= ATTR_LIMIT };
    in_clip(c.x) && in_clip(c.y) && in_clip(c.z) && in_clip(c.w) && in_attr(v.color.r) && in_attr(
        v.color.g,
    ) && in_attr(v.color.b) && in_attr(v.uv.x) && in_attr(v.uv.y)
}

pub struct RasterizationPipeline {
    viewport: Viewport,
}

impl RasterizationPipeline {
    pub closed spec fn viewport_spec(&self) -> Viewport {
        self.viewport
    }

    pub fn new(viewport: Viewport) -> (r: Self)
        ensures
            r.viewport_spec() == viewport,
    {
        Self { viewport }
    }

    /// Shades fragment `f` of the homogenized triangle `h` and writes it
    /// where it passes the depth test.
    fn draw_fragment<U, S: FragmentShader<U>>(
        &self,
        framebuffer: &mut Framebuffer,
        h: &[Vertex; 3],
        f: &Fragment,
        shader: &S,
        uniforms: &U,
    )
        requires
            old(framebuffer).wf(),
            homogenized_ok(h[0]),
            homogenized_ok(h[1]),
            homogenized_ok(h[2]),
            fragment_ok(*f),
            -0x1_0000 <= f.coords.x <= 0x1_0000,
            -0x1_0000 <= f.coords.y <= 0x1_0000,
            shader.ready(uniforms),
        ensures
            final(framebuffer).wf(),
            final(framebuffer).width_spec() == old(framebuffer).width_spec(),
            final(framebuffer).height_spec() == old(framebuffer).height_spec(),
            (final(framebuffer).colors(), final(framebuffer).depths()) == write_fragment(
                (old(framebuffer).colors(), old(framebuffer).depths()),
                old(framebuffer).width_spec() as int,
                old(framebuffer).height_spec() as int,
                *h,
                *f,
                *shader,
                uniforms,
            ),
    {
        proof {
            old(framebuffer).lemma_wf();
        }
        let v = h[0].bary_lerp(&h[1], &h[2], f.t);
        let duv_dx = h[0].duv(&h[1], &h[2], f.t, f.dt_dx);
        let duv_dy = h[0].duv(&h[1], &h[2], f.t, f.dt_dy);
        if f.coords.x >= 0 && f.coords.y >= 0 {
            let coords = (f.coords.x as usize, f.coords.y as usize);
            if framebuffer.test_and_set_depth_safe(coords, v.coords.z) {
                let color = shader.fs(&Varying { vertex: v, duv_dx, duv_dy }, uniforms);
                framebuffer.set_color(coords, color);
            }
        }
    }

    /// Draws one clip-space triangle that lies inside the clip volume.
    fn draw_clipped_triangle<U, S: FragmentShader<U>>(
        &self,
        framebuffer: &mut Framebuffer,
        t: &[Vertex; 3],
        shader: &S,
        uniforms: &U,
    )
        requires
            old(framebuffer).wf(),
            vertex_ok(t[0]),
            vertex_ok(t[1]),
            vertex_ok(t[2]),
            viewport_ok(self.viewport_spec()),
            shader.ready(uniforms),
        ensures
            final(framebuffer).wf(),
            final(framebuffer).width_spec() == old(framebuffer).width_spec(),
            final(framebuffer).height_spec() == old(framebuffer).height_spec(),
            (final(framebuffer).colors(), final(framebuffer).depths()) == draw_subtriangle(
                (old(framebuffer).colors(), old(framebuffer).depths()),
                old(framebuffer).width_spec() as int,
                old(framebuffer).height_spec() as int,
                self.viewport_spec(),
                *t,
                *shader,
                uniforms,
            ),
    {
        if t[0].coords.w <= 0 || t[1].coords.w <= 0 || t[2].coords.w <= 0 {
            return;
        }
        let h = [t[0].homogenize(), t[1].homogenize(), t[2].homogenize()];
        assert(h == homogenize3(*t));
        let n0 = Vec2 { x: h[0].coords.x, y: h[0].coords.y };
        let n1 = Vec2 { x: h[1].coords.x, y: h[1].coords.y };
        let n2 = Vec2 { x: h[2].coords.x, y: h[2].coords.y };
        if !(ndc_check(n0) && ndc_check(n1) && ndc_check(n2)) {
            return;
        }
        let screen = [
            self.viewport.ndc_to_framebuffer(n0),
            self.viewport.ndc_to_framebuffer(n1),
            self.viewport.ndc_to_framebuffer(n2),
        ];
        assert(screen == screen_triangle(self.viewport, h));
        if !(screen_check(screen[0]) && screen_check(screen[1]) && screen_check(screen[2])) {
            return;
        }
        let fragments = rasterize_solid_triangle(&screen);
        let ghost st0 = (framebuffer.colors(), framebuffer.depths());
        let ghost width = framebuffer.width_spec() as int;
        let ghost height = framebuffer.height_spec() as int;
        let mut i: usize = 0;
        while i < fragments.len()
            invariant
                framebuffer.wf(),
                framebuffer.width_spec() == width,
                framebuffer.height_spec() == height,
                0 <= i <= fragments@.len(),
                fragments@ == rasterize_spec(screen),
                triangle_in_range(screen),
                homogenized_ok(h[0]),
                homogenized_ok(h[1]),
                homogenized_ok(h[2]),
                shader.ready(uniforms),
                -8796093022208 <= area_spec(screen) <= 8796093022208,
                forall|k: int|
                    0 <= k < fragments@.len() ==> weights_are_barycentric(#[trigger] fragments@[k]),
                forall|k: int| 0 <= k < fragments@.len() ==> fragment_of(screen, #[trigger] fragments@[k]),
                (framebuffer.colors(), framebuffer.depths()) == write_fragments(
                    st0,
                    width,
                    height,
                    h,
                    fragments@,
                    i as nat,
                    *shader,
                    uniforms,
                ),
            decreases fragments@.len() - i,
        {
            let f = &fragments[i];
            proof {
                assert(weights_are_barycentric(fragments@[i as int]));
                assert(fragment_of(screen, fragments@[i as int]));
                lemma_fragment_ok(screen, *f);
            }
            self.draw_fragment(framebuffer, &h, f, shader, uniforms);
            i = i + 1;
        }
    }

    /// Draws the triangles `inputs[3k], inputs[3k + 1], inputs[3k + 2]` (a
    /// trailing incomplete triangle is ignored): each input is shaded into
    /// clip space by `vertex_shader`; each triangle is clipped to the
    /// canonical volume, fan-triangulated, divided, mapped through the
    /// viewport and rasterized; each covered pixel inside the framebuffer
    /// whose depth is nearer than the stored one gets that depth and the
    /// color `fragment_shader` gives the vertex data interpolated there (the
    /// position linearly, the color and texture coordinates
    /// perspective-correctly).
    pub fn draw_triangles<In, VU, FU, V: VertexShader<In, VU>, S: FragmentShader<FU>>(
        &self,
        framebuffer: &mut Framebuffer,
        vertex_shader: &V,
        vertex_uniforms: &VU,
        fragment_shader: &S,
        fragment_uniforms: &FU,
        inputs: &Vec<In>,
    )
        requires
            old(framebuffer).wf(),
            viewport_ok(self.viewport_spec()),
            fragment_shader.ready(fragment_uniforms),
            forall|k: int|
                0 <= k < inputs@.len() ==> vertex_shader.vs_ready(#[trigger] inputs@[k], vertex_uniforms),
        ensures
            final(framebuffer).wf(),
            final(framebuffer).width_spec() == old(framebuffer).width_spec(),
            final(framebuffer).height_spec() == old(framebuffer).height_spec(),
            (final(framebuffer).colors(), final(framebuffer).depths()) == draw_triangles_spec(
                (old(framebuffer).colors(), old(framebuffer).depths()),
                old(framebuffer).width_spec() as int,
                old(framebuffer).height_spec() as int,
                self.viewport_spec(),
                shade_inputs(*vertex_shader, vertex_uniforms, inputs@),
                inputs@.len() / 3,
                *fragment_shader,
                fragment_uniforms,
            ),
    {
        let ghost st0 = (framebuffer.colors(), framebuffer.depths());
        let ghost width = framebuffer.width_spec() as int;
        let ghost height = framebuffer.height_spec() as int;
        let ghost shaded = shade_inputs(*vertex_shader, vertex_uniforms, inputs@);
        let primitive_count = inputs.len() / 3;
        let mut i: usize = 0;
        while i < primitive_count
            invariant
                framebuffer.wf(),
                framebuffer.width_spec() == width,
                framebuffer.height_spec() == height,
                primitive_count == inputs@.len() / 3,
                inputs@.len() <= usize::MAX,
                shaded == shade_inputs(*vertex_shader, vertex_uniforms, inputs@),
                0 <= i <= primitive_count,
                viewport_ok(self.viewport_spec()),
                fragment_shader.ready(fragment_uniforms),
                forall|k: int|
                    0 <= k < inputs@.len() ==> vertex_shader.vs_ready(#[trigger] inputs@[k], vertex_uniforms),
                (framebuffer.colors(), framebuffer.depths()) == draw_triangles_spec(
                    st0,
                    width,
                    height,
                    self.viewport_spec(),
                    shaded,
                    i as nat,
                    *fragment_shader,
                    fragment_uniforms,
                ),
            decreases primitive_count - i,
        {
            let triangle = [
                vertex_shader.vs(&inputs[3 * i], vertex_uniforms),
                vertex_shader.vs(&inputs[3 * i + 1], vertex_uniforms),
                vertex_shader.vs(&inputs[3 * i + 2], vertex_uniforms),
            ];
            assert(triangle == triangle_at(shaded, i as int));
            if vertex_check(&triangle[0]) && vertex_check(&triangle[1]) && vertex_check(&triangle[2]) {
                self.draw_triangle(framebuffer, &triangle, fragment_shader, fragment_uniforms);
            }
            i = i + 1;
        }
    }

    /// Clips, triangulates and draws one clip-space triangle in range.
    fn draw_triangle<U, S: FragmentShader<U>>(&self, framebuffer: &mut Framebuffer, t: &[Vertex; 3], shader: &S, uniforms: &U)
        requires
            old(framebuffer).wf(),
            vertex_ok(t[0]),
            vertex_ok(t[1]),
            vertex_ok(t[2]),
            viewport_ok(self.viewport_spec()),
            shader.ready(uniforms),
        ensures
            final(framebuffer).wf(),
            final(framebuffer).width_spec() == old(framebuffer).width_spec(),
            final(framebuffer).height_spec() == old(framebuffer).height_spec(),
            (final(framebuffer).colors(), final(framebuffer).depths()) == draw_triangle(
                (old(framebuffer).colors(), old(framebuffer).depths()),
                old(framebuffer).width_spec() as int,
                old(framebuffer).height_spec() as int,
                self.viewport_spec(),
                *t,
                *shader,
                uniforms,
            ),
    {
        let positions = [t[0].coords, t[1].coords, t[2].coords];
        let clipped = clip_triangle(&positions);
        let ghost f = |c: ClipVertex| clip_lerp_spec(t[0], t[1], t[2], c.coords, c.weights);
        let mut polygon: Vec<Vertex> = Vec::new();
        let mut k: usize = 0;
        while k < clipped.len()
            invariant
                0 <= k <= clipped@.len(),
                clipped@.len() <= 192,
                polygon_valid(clipped@),
                vertex_ok(t[0]),
                vertex_ok(t[1]),
                vertex_ok(t[2]),
                f == (|c: ClipVertex| clip_lerp_spec(t[0], t[1], t[2], c.coords, c.weights)),
                polygon@ == clipped@.take(k as int).map_values(f),
                forall|j: int| 0 <= j < polygon@.len() ==> vertex_ok(#[trigger] polygon@[j]),
            decreases clipped@.len() - k,
        {
            let c = clipped[k];
            assert(clip_vertex_valid(clipped@[k as int]));
            let v = t[0].clip_lerp(&t[1], &t[2], c.coords, c.weights);
            polygon.push(v);
            assert(clipped@.take(k + 1).map_values(f) =~= clipped@.take(k as int).map_values(f).push(v));
            k = k + 1;
        }
        assert(clipped@.take(clipped@.len() as int) =~= clipped@);
        assert(polygon@ =~= clipped_polygon(*t));
        let fan = fan_triangulate(polygon.as_slice());
        let ghost st0 = (framebuffer.colors(), framebuffer.depths());
        let ghost width = framebuffer.width_spec() as int;
        let ghost height = framebuffer.height_spec() as int;
        let count = fan.len() / 3;
        let mut j: usize = 0;
        while j < count
            invariant
                framebuffer.wf(),
                framebuffer.width_spec() == width,
                framebuffer.height_spec() == height,
                count == fan@.len() / 3,
                fan@ == fan_spec(polygon@),
                polygon@.len() <= 192,
                0 <= j <= count,
                viewport_ok(self.viewport_spec()),
                shader.ready(uniforms),
                forall|q: int| 0 <= q < polygon@.len() ==> vertex_ok(#[trigger] polygon@[q]),
                (framebuffer.colors(), framebuffer.depths()) == draw_list(
                    st0,
                    width,
                    height,
                    self.viewport_spec(),
                    fan@,
                    j as nat,
                    *shader,
                    uniforms,
                ),
            decreases count - j,
        {
            let sub = [fan[3 * j], fan[3 * j + 1], fan[3 * j + 2]];
            assert(sub == triangle_at(fan@, j as int));
            proof {
                lemma_fan_vertex_ok(polygon@, 3 * j as int);
                lemma_fan_vertex_ok(polygon@, 3 * j + 1);
                lemma_fan_vertex_ok(polygon@, 3 * j + 2);
            }
            self.draw_clipped_triangle(framebuffer, &sub, shader, uniforms);
            j = j + 1;
        }
    }
}

} // verus!
