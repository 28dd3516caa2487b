//! The image buffer: one colour per pixel, row-major.
//!
//! Colours are held as byte triples, already mapped out of the shading
//! stage's working range; writing the buffer to a file is the caller's
//! business.

use vstd::prelude::*;

verus! {

/// A rendered image: its resolution and one RGB byte triple per pixel,
/// row-major (all pixels of the first row, then the second, and so on).
#[derive(Debug)]
pub struct Image {
    /// The resolution of the image, width x height.
    pub resolution: (usize, usize),
    /// Colour of each pixel, row-major.
    pub pixels: Vec<[u8; 3]>,
}

impl Image {
    /// The buffer holds exactly one pixel per raster coordinate.
    pub open spec fn wf(self) -> bool {
        self.pixels.len() == self.resolution.0 * self.resolution.1
    }

    /// A black image of the given resolution.
    pub fn new(resolution: (usize, usize)) -> (r: Image)
        requires
            resolution.0 * resolution.1 <= 0x1000_0000,
        ensures
            r.wf(),
            r.resolution == resolution,
            forall|i: int| 0 <= i < r.pixels@.len() ==> r.pixels@[i] == [0u8, 0u8, 0u8],
    {
        proof {
            crate::arith::lemma_mul_bounds(
                resolution.0 as int,
                resolution.1 as int,
                0x1_0000_0000_0000_0000,
                0x1_0000_0000_0000_0000,
            );
        }
        let count = resolution.0 * resolution.1;
        let mut pixels: Vec<[u8; 3]> = Vec::new();
        let mut i: usize = 0;
        while i < count
            invariant
                i <= count,
                pixels@.len() == i,
                forall|j: int| 0 <= j < i ==> pixels@[j] == [0u8, 0u8, 0u8],
            decreases count - i,
        {
            pixels.push([0, 0, 0]);
            i = i + 1;
        }
        Image { resolution, pixels }
    }

    /// Writes the colour of the pixel at raster coordinate `(x, y)`; the
    /// coordinate must lie inside the resolution.
    pub fn set_colour(&mut self, pixel: (usize, usize), colour: [u8; 3])
        requires
            old(self).wf(),
            pixel.0 < old(self).resolution.0,
            pixel.1 < old(self).resolution.1,
        ensures
            final(self).wf(),
            final(self).resolution == old(self).resolution,
            final(self).pixels@ == old(self).pixels@.update(
                pixel.1 * old(self).resolution.0 + pixel.0,
                colour,
            ),
    {
        proof {
            lemma_row_major_index(
                pixel.0 as int,
                pixel.1 as int,
                self.resolution.0 as int,
                self.resolution.1 as int,
            );
        }
        let idx = pixel.1 * self.resolution.0 + pixel.0;
        self.pixels[idx] = colour;
    }
}

/// The row-major index of an in-range raster coordinate is in range.
proof fn lemma_row_major_index(x: int, y: int, w: int, h: int) by (nonlinear_arith)
    requires
        0 <= x < w,
        0 <= y < h,
    ensures
        0 <= y * w + x < w * h,
{
}

} // verus!
