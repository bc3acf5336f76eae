//! Read-only textures of packed colors.
use vstd::prelude::*;

use crate::color::{from_raw_color, from_raw_spec, Color};

verus! {

pub type Coords2D = (usize, usize);

/// `width` by `height` packed `0xAARRGGBB` texels, row-major.
pub struct Image {
    buffer: Vec<u32>,
    width: usize,
    height: usize,
}

/// Row-major index of `coords` in rows of `width`.
pub open spec fn texel_index(coords: Coords2D, width: usize) -> int {
    coords.1 * width + coords.0
}

/// The packed texel of the RGBA bytes starting at `4 * k`.
pub open spec fn rgba_texel(bytes: Seq<u8>, k: int) -> int {
    bytes[4 * k + 3] * 0x1000000 + bytes[4 * k] * 0x10000 + bytes[4 * k + 1] * 0x100 + bytes[4 * k + 2]
}

pub fn map_coords_to_index(coords: Coords2D, width: usize) -> (r: usize)
    requires
        coords.1 * width + coords.0 <= usize::MAX,
    ensures
        r == texel_index(coords, width),
{
    coords.1 * width + coords.0
}

impl Image {
    pub closed spec fn texels(&self) -> Seq<u32> {
        self.buffer@
    }

    pub closed spec fn width_spec(&self) -> usize {
        self.width
    }

    pub closed spec fn height_spec(&self) -> usize {
        self.height
    }

    /// One texel per coordinate pair.
    pub closed spec fn wf(&self) -> bool {
        self.buffer@.len() == self.width * self.height && self.width * self.height <= usize::MAX
    }

    pub open spec fn contains_spec(&self, coords: Coords2D) -> bool {
        coords.0 < self.width_spec() && coords.1 < self.height_spec()
    }

    /// An image over `buffer`, which holds exactly `width * height` texels.
    pub fn from_buffer(buffer: Vec<u32>, width: usize, height: usize) -> (r: Self)
        requires
            width * height == buffer@.len(),
        ensures
            r.wf(),
            r.texels() == buffer@,
            r.width_spec() == width,
            r.height_spec() == height,
    {
        let ghost len = buffer.len();
        Self { buffer, width, height }
    }

    /// An image from 8-bit RGBA samples, four per texel, row-major: each
    /// texel packs as `(a << 24) | (r << 16) | (g << 8) | b`.
    pub fn from_rgba8(bytes: &Vec<u8>, width: usize, height: usize) -> (r: Self)
        requires
            bytes@.len() == 4 * (width * height),
        ensures
            r.wf(),
            r.width_spec() == width,
            r.height_spec() == height,
            forall|k: int|
                0 <= k < width * height ==> #[trigger] r.texels()[k] == rgba_texel(bytes@, k),
    {
        let n = bytes.len() / 4;
        assert(bytes@.len() <= usize::MAX);
        let mut buffer: Vec<u32> = Vec::new();
        let mut k: usize = 0;
        while k < n
            invariant
                n == width * height,
                bytes@.len() == 4 * n,
                4 * n <= usize::MAX,
                0 <= k <= n,
                buffer@.len() == k,
                forall|j: int| 0 <= j < k ==> #[trigger] buffer@[j] == rgba_texel(bytes@, j),
            decreases n - k,
        {
            let r = bytes[4 * k] as u32;
            let g = bytes[4 * k + 1] as u32;
            let b = bytes[4 * k + 2] as u32;
            let a = bytes[4 * k + 3] as u32;
            buffer.push(a * 0x1000000 + r * 0x10000 + g * 0x100 + b);
            k = k + 1;
        }
        Self { buffer, width, height }
    }

    /// The color of the texel at `coords`, which must lie in the image.
    pub fn get_color(&self, coords: Coords2D) -> (r: Color)
        requires
            self.wf(),
            self.contains_spec(coords),
        ensures
            r == from_raw_spec(self.texels()[texel_index(coords, self.width_spec())] as int),
    {
        proof {
            assert(coords.1 * self.width + coords.0 < self.width * self.height) by (nonlinear_arith)
                requires coords.0 < self.width, coords.1 < self.height;
        }
        from_raw_color(self.buffer[map_coords_to_index(coords, self.width)])
    }

    pub fn width(&self) -> (r: usize)
        ensures
            r == self.width_spec(),
    {
        self.width
    }

    pub fn height(&self) -> (r: usize)
        ensures
            r == self.height_spec(),
    {
        self.height
    }

    pub fn contains(&self, coords: Coords2D) -> (r: bool)
        ensures
            r == self.contains_spec(coords),
    {
        coords.0 < self.width && coords.1 < self.height
    }
}

} // verus!
