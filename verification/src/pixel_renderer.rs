//! The render target: a color cell and a depth cell per pixel, cleared,
//! written directly, or written through the depth test whose nearest-wins,
//! ties-keep-first rule the whole renderer depends on.

use vstd::prelude::*;
use crate::fx::lemma_mul_bound2;

verus! {

/// A flat color with one byte per channel.
#[derive(Clone, Copy, PartialEq, Eq, Structural, Debug)]
pub struct Color {
    pub r: u8,
    pub g: u8,
    pub b: u8,
}

impl Color {
    pub fn rgb(r: u8, g: u8, b: u8) -> (c: Color)
        ensures
            c.r == r,
            c.g == g,
            c.b == b,
    {
        Color { r, g, b }
    }
}

/// The render target: one color cell and one depth cell per pixel. A depth
/// cell holds the smallest (nearest) fixed-point depth written so far;
/// `i64::MAX` stands for the cleared state, farther than everything.
pub struct PixelRenderer {
    pub width: u32,
    pub height: u32,
    pub color_buffer: Vec<Color>,
    pub z_buffer: Vec<i64>,
}

/// The index of pixel `(x, y)` in the row-major buffers.
pub open spec fn pix(pr: PixelRenderer, x: int, y: int) -> int {
    y * pr.width + x
}

/// Both buffers hold exactly one cell per pixel.
pub open spec fn pr_wf(pr: PixelRenderer) -> bool {
    &&& pr.color_buffer@.len() == pr.width * pr.height
    &&& pr.z_buffer@.len() == pr.width * pr.height
    &&& pr.width * pr.height <= 0xffff_ffff
}

/// Row-major indices of distinct in-range pixels stay inside the buffer and
/// collide only for equal pixels.
pub proof fn lemma_pix_bound(x: int, y: int, w: int, h: int)
    by (nonlinear_arith)
    requires
        0 <= x < w,
        0 <= y < h,
    ensures
        0 <= y * w + x < w * h,
{
}

/// Distinct pixel coordinates give distinct row-major indices.
pub proof fn lemma_pix_injective(x0: int, y0: int, x1: int, y1: int, w: int)
    by (nonlinear_arith)
    requires
        0 <= x0 < w,
        0 <= x1 < w,
        0 <= y0,
        0 <= y1,
        y0 * w + x0 == y1 * w + x1,
    ensures
        x0 == x1 && y0 == y1,
{
}

impl PixelRenderer {
    /// A target of the given size, cleared to black and to the far depth.
    pub fn new(width: u32, height: u32) -> (pr: PixelRenderer)
        requires
            width * height <= 0xffff_ffff,
        ensures
            pr.width == width,
            pr.height == height,
            pr_wf(pr),
            forall|i: int|
                0 <= i < width * height ==> pr.color_buffer@[i] == (Color { r: 0, g: 0, b: 0 }),
            forall|i: int| 0 <= i < width * height ==> pr.z_buffer@[i] == i64::MAX,
    {
        proof {
            lemma_mul_bound2(width as int, height as int, 0xffff_ffff_u32 as int, 0xffff_ffff_u32 as int);
        }
        let count: usize = (width as usize) * (height as usize);
        let mut color_buffer: Vec<Color> = Vec::new();
        let mut z_buffer: Vec<i64> = Vec::new();
        let mut i: usize = 0;
        while i < count
            invariant
                i <= count,
                color_buffer@.len() == i,
                z_buffer@.len() == i,
                forall|j: int| 0 <= j < i ==> color_buffer@[j] == (Color { r: 0, g: 0, b: 0 }),
                forall|j: int| 0 <= j < i ==> z_buffer@[j] == i64::MAX,
            decreases count - i,
        {
            color_buffer.push(Color { r: 0, g: 0, b: 0 });
            z_buffer.push(i64::MAX);
            i = i + 1;
        }
        PixelRenderer { width, height, color_buffer, z_buffer }
    }

    /// Write a color without a depth test. Out-of-range coordinates are
    /// ignored; the depth buffer is never touched.
    pub fn set_pixel(&mut self, x: u32, y: u32, color: Color)
        requires
            pr_wf(*old(self)),
        ensures
            pr_wf(*final(self)),
            final(self).width == old(self).width,
            final(self).height == old(self).height,
            final(self).z_buffer@ == old(self).z_buffer@,
            x < old(self).width && y < old(self).height ==> final(self).color_buffer@
                == old(self).color_buffer@.update(pix(*old(self), x as int, y as int), color),
            !(x < old(self).width && y < old(self).height) ==> final(self).color_buffer@
                == old(self).color_buffer@,
    {
        if x >= self.width || y >= self.height {
            return ;
        }
        proof {
            lemma_pix_bound(x as int, y as int, self.width as int, self.height as int);
        }
        let i: usize = (y as usize) * (self.width as usize) + (x as usize);
        self.color_buffer[i] = color;
    }

    /// Write a color and its depth, but only where the new depth is strictly
    /// nearer than what the cell holds: a tie keeps the first writer, and
    /// out-of-range coordinates are ignored.
    pub fn set_pixel_z(&mut self, x: u32, y: u32, z: i64, color: Color)
        requires
            pr_wf(*old(self)),
        ensures
            pr_wf(*final(self)),
            final(self).width == old(self).width,
            final(self).height == old(self).height,
            x < old(self).width && y < old(self).height && z < old(self).z_buffer@[pix(
                *old(self),
                x as int,
                y as int,
            )] ==> {
                &&& final(self).color_buffer@ == old(self).color_buffer@.update(
                    pix(*old(self), x as int, y as int),
                    color,
                )
                &&& final(self).z_buffer@ == old(self).z_buffer@.update(
                    pix(*old(self), x as int, y as int),
                    z,
                )
            },
            !(x < old(self).width && y < old(self).height && z < old(self).z_buffer@[pix(
                *old(self),
                x as int,
                y as int,
            )]) ==> {
                &&& final(self).color_buffer@ == old(self).color_buffer@
                &&& final(self).z_buffer@ == old(self).z_buffer@
            },
    {
        if x >= self.width || y >= self.height {
            return ;
        }
        proof {
            lemma_pix_bound(x as int, y as int, self.width as int, self.height as int);
        }
        let i: usize = (y as usize) * (self.width as usize) + (x as usize);
        if z >= self.z_buffer[i] {
            return ;
        }
        self.z_buffer[i] = z;
        self.color_buffer[i] = color;
    }

    /// Reset every color cell to the given color and every depth cell to the
    /// far depth.
    pub fn clear_pixels(&mut self, color: Color)
        requires
            pr_wf(*old(self)),
        ensures
            pr_wf(*final(self)),
            final(self).width == old(self).width,
            final(self).height == old(self).height,
            forall|i: int|
                0 <= i < final(self).color_buffer@.len() ==> final(self).color_buffer@[i] == color,
            forall|i: int| 0 <= i < final(self).z_buffer@.len() ==> final(self).z_buffer@[i] == i64::MAX,
    {
        let count: usize = self.color_buffer.len();
        let mut i: usize = 0;
        while i < count
            invariant
                i <= count,
                self.color_buffer@.len() == count,
                self.z_buffer@.len() == count,
                self.width == old(self).width,
                self.height == old(self).height,
                pr_wf(*self),
                forall|j: int| 0 <= j < i ==> self.color_buffer@[j] == color,
                forall|j: int| 0 <= j < i ==> self.z_buffer@[j] == i64::MAX,
            decreases count - i,
        {
            self.color_buffer[i] = color;
            self.z_buffer[i] = i64::MAX;
            i = i + 1;
        }
    }

    /// The color of one in-range pixel.
    pub fn get_pixel(&self, x: u32, y: u32) -> (c: Color)
        requires
            pr_wf(*self),
            x < self.width,
            y < self.height,
        ensures
            c == self.color_buffer@[pix(*self, x as int, y as int)],
    {
        proof {
            lemma_pix_bound(x as int, y as int, self.width as int, self.height as int);
        }
        let i: usize = (y as usize) * (self.width as usize) + (x as usize);
        self.color_buffer[i]
    }

    /// The depth of one in-range pixel.
    pub fn get_depth(&self, x: u32, y: u32) -> (z: i64)
        requires
            pr_wf(*self),
            x < self.width,
            y < self.height,
        ensures
            z == self.z_buffer@[pix(*self, x as int, y as int)],
    {
        proof {
            lemma_pix_bound(x as int, y as int, self.width as int, self.height as int);
        }
        let i: usize = (y as usize) * (self.width as usize) + (x as usize);
        self.z_buffer[i]
    }
}

} // verus!
