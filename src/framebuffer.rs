//! The render target: packed colors and depths, row-major.
use vstd::prelude::*;

use crate::color::{from_raw_color, from_raw_spec, to_raw_color, to_raw_spec, Color};

verus! {

/// The depth of a pixel that nothing has been drawn to.
pub const DEPTH_INFINITY: i64 = 0x7fff_ffff_ffff_ffff;

/// `width` by `height` pixels, each with a packed `0xRRGGBB` color and a
/// fixed-point depth.
pub struct Framebuffer {
    color_attachment: Vec<u32>,
    depth_attachment: Vec<i64>,
    width: usize,
    height: usize,
}

/// Row-major index of pixel `(x, y)`.
pub open spec fn index_of(coords: (usize, usize), width: usize) -> int {
    coords.1 * width + coords.0
}

fn coords_to_index(coords: (usize, usize), width: usize, height: usize) -> (r: usize)
    requires
        coords.0 < width,
        coords.1 < height,
        width * height <= usize::MAX,
    ensures
        r == index_of(coords, width),
        r < width * height,
{
    proof {
        assert(coords.1 * width + coords.0 < width * height) by (nonlinear_arith)
            requires coords.0 < width, coords.1 < height;
    }
    coords.1 * width + coords.0
}

impl Framebuffer {
    pub closed spec fn colors(&self) -> Seq<u32> {
        self.color_attachment@
    }

    pub closed spec fn depths(&self) -> Seq<i64> {
        self.depth_attachment@
    }

    pub closed spec fn width_spec(&self) -> usize {
        self.width
    }

    pub closed spec fn height_spec(&self) -> usize {
        self.height
    }

    /// Both attachments hold one entry per pixel.
    pub closed spec fn wf(&self) -> bool {
        &&& self.width * self.height <= usize::MAX
        &&& self.color_attachment@.len() == self.width * self.height
        &&& self.depth_attachment@.len() == self.width * self.height
    }

    pub open spec fn contains_spec(&self, coords: (usize, usize)) -> bool {
        coords.0 < self.width_spec() && coords.1 < self.height_spec()
    }

    pub proof fn lemma_wf(&self)
        requires
            self.wf(),
        ensures
            self.colors().len() == self.width_spec() * self.height_spec(),
            self.depths().len() == self.width_spec() * self.height_spec(),
            self.width_spec() * self.height_spec() <= usize::MAX,
    {
    }

    /// A black framebuffer whose depths are all `DEPTH_INFINITY`.
    pub fn new(width: usize, height: usize) -> (r: Self)
        requires
            width * height <= usize::MAX,
        ensures
            r.wf(),
            r.width_spec() == width,
            r.height_spec() == height,
            forall|i: int| 0 <= i < width * height ==> #[trigger] r.colors()[i] == 0,
            forall|i: int| 0 <= i < width * height ==> #[trigger] r.depths()[i] == DEPTH_INFINITY,
    {
        let n = width * height;
        Self {
            color_attachment: vec![0u32; n],
            depth_attachment: vec![DEPTH_INFINITY; n],
            width,
            height,
        }
    }

    /// Sets every pixel to `color` and every depth to `depth`.
    pub fn clear(&mut self, color: Color, depth: i64)
        requires
            old(self).wf(),
        ensures
            final(self).wf(),
            final(self).width_spec() == old(self).width_spec(),
            final(self).height_spec() == old(self).height_spec(),
            forall|i: int|
                0 <= i < final(self).colors().len() ==> #[trigger] final(self).colors()[i]
                    == to_raw_spec(color),
            forall|i: int|
                0 <= i < final(self).depths().len() ==> #[trigger] final(self).depths()[i] == depth,
    {
        let raw = to_raw_color(color);
        let n = self.color_attachment.len();
        let mut i: usize = 0;
        while i < n
            invariant
                n == self.color_attachment@.len(),
                n == self.depth_attachment@.len(),
                self.width == old(self).width,
                self.height == old(self).height,
                n == self.width * self.height,
                self.width * self.height <= usize::MAX,
                0 <= i <= n,
                forall|k: int| 0 <= k < i ==> #[trigger] self.color_attachment@[k] == raw,
                forall|k: int| 0 <= k < i ==> #[trigger] self.depth_attachment@[k] == depth,
            decreases n - i,
        {
            self.color_attachment[i] = raw;
            self.depth_attachment[i] = depth;
            i = i + 1;
        }
    }

    /// Outside the framebuffer nothing is tested or written and the result is
    /// `false`; inside, as `test_and_set_depth`.
    pub fn test_and_set_depth_safe(&mut self, coords: (usize, usize), depth: i64) -> (r: bool)
        requires
            old(self).wf(),
        ensures
            final(self).wf(),
            final(self).width_spec() == old(self).width_spec(),
            final(self).height_spec() == old(self).height_spec(),
            final(self).colors() == old(self).colors(),
            !old(self).contains_spec(coords) ==> !r && final(self).depths() == old(self).depths(),
            old(self).contains_spec(coords) ==> r == (depth < old(self).depths()[index_of(
                coords,
                old(self).width_spec(),
            )]),
            r ==> final(self).depths() == old(self).depths().update(
                index_of(coords, old(self).width_spec()),
                depth,
            ),
            !r ==> final(self).depths() == old(self).depths(),
    {
        if !self.contains(coords) {
            return false;
        }
        self.test_and_set_depth(coords, depth)
    }

    /// The depth test: when `depth` is nearer (smaller) than the stored
    /// depth of the pixel, stores it and returns `true`; otherwise changes
    /// nothing and returns `false`.
    pub fn test_and_set_depth(&mut self, coords: (usize, usize), depth: i64) -> (r: bool)
        requires
            old(self).wf(),
            old(self).contains_spec(coords),
        ensures
            final(self).wf(),
            final(self).width_spec() == old(self).width_spec(),
            final(self).height_spec() == old(self).height_spec(),
            final(self).colors() == old(self).colors(),
            r == (depth < old(self).depths()[index_of(coords, old(self).width_spec())]),
            r ==> final(self).depths() == old(self).depths().update(
                index_of(coords, old(self).width_spec()),
                depth,
            ),
            !r ==> final(self).depths() == old(self).depths(),
    {
        let index = coords_to_index(coords, self.width, self.height);
        if depth < self.depth_attachment[index] {
            self.depth_attachment[index] = depth;
            return true;
        }
        false
    }

    /// Stores the packed form of `color` at `coords`.
    pub fn set_color(&mut self, coords: (usize, usize), color: Color)
        requires
            old(self).wf(),
            old(self).contains_spec(coords),
        ensures
            final(self).wf(),
            final(self).width_spec() == old(self).width_spec(),
            final(self).height_spec() == old(self).height_spec(),
            final(self).depths() == old(self).depths(),
            final(self).colors() == old(self).colors().update(
                index_of(coords, old(self).width_spec()),
                to_raw_spec(color) as u32,
            ),
    {
        let index = coords_to_index(coords, self.width, self.height);
        self.color_attachment[index] = to_raw_color(color);
    }

    /// As `set_color` inside the framebuffer; outside, does nothing.
    pub fn set_color_safe(&mut self, coords: (usize, usize), color: Color)
        requires
            old(self).wf(),
        ensures
            final(self).wf(),
            final(self).width_spec() == old(self).width_spec(),
            final(self).height_spec() == old(self).height_spec(),
            final(self).depths() == old(self).depths(),
            old(self).contains_spec(coords) ==> final(self).colors() == old(self).colors().update(
                index_of(coords, old(self).width_spec()),
                to_raw_spec(color) as u32,
            ),
            !old(self).contains_spec(coords) ==> final(self).colors() == old(self).colors(),
    {
        if !self.contains(coords) {
            return;
        }
        self.set_color(coords, color);
    }

    /// The color stored at `coords`.
    pub fn get_color(&self, coords: (usize, usize)) -> (r: Color)
        requires
            self.wf(),
            self.contains_spec(coords),
        ensures
            r == from_raw_spec(self.colors()[index_of(coords, self.width_spec())] as int),
    {
        from_raw_color(self.color_attachment[coords_to_index(coords, self.width, self.height)])
    }

    /// The packed colors, row-major, as a display expects them.
    pub fn color_attachment(&self) -> (r: &Vec<u32>)
        ensures
            r@ == self.colors(),
    {
        &self.color_attachment
    }

    /// The depth stored at `coords`.
    pub fn get_depth(&self, coords: (usize, usize)) -> (r: i64)
        requires
            self.wf(),
            self.contains_spec(coords),
        ensures
            r == self.depths()[index_of(coords, self.width_spec())],
    {
        self.depth_attachment[coords_to_index(coords, self.width, self.height)]
    }

    pub fn width(&self) -> (r: usize)
        ensures
            r == self.width_spec(),
    {
        self.width
    }

    pub fn height(&self) -> (r: usize)
        ensures
            r == self.height_spec(),
    {
        self.height
    }

    pub fn contains(&self, coords: (usize, usize)) -> (r: bool)
        ensures
            r == self.contains_spec(coords),
    {
        coords.0 < self.width && coords.1 < self.height
    }
}

} // verus!
