//! RGB pixel buffer: the render target, mutated in place by grid drawing and
//! glyph blending, read out by the surrounding application for encoding.

use vstd::prelude::*;

verus! {

/// One pixel, 8 bits per channel.
#[derive(Clone, Copy, PartialEq, Eq, Structural, Debug)]
pub struct Rgb {
    pub r: u8,
    pub g: u8,
    pub b: u8,
}

/// Row-major grid of `width * height` RGB pixels, fixed size after allocation.
pub struct PixelBuffer {
    width: u32,
    height: u32,
    data: Vec<Rgb>,
}

/// Row-major index of pixel `(x, y)` in a buffer `w` pixels wide.
pub open spec fn row_major(w: int, x: int, y: int) -> int {
    y * w + x
}

proof fn lemma_row_major_in_range(w: int, h: int, x: int, y: int)
    by (nonlinear_arith)
    requires
        0 <= x < w <= 65535,
        0 <= y < h <= 65535,
    ensures
        0 <= row_major(w, x, y) < w * h,
        w * h <= 65535 * 65535,
        forall|x2: int, y2: int|
            0 <= x2 < w && 0 <= y2 < h && row_major(w, x2, y2) == row_major(w, x, y)
                ==> x2 == x && y2 == y,
{
}

impl PixelBuffer {
    /// The buffer is consistent: storage holds exactly one pixel per coordinate,
    /// and each dimension is at most 65535 pixels.
    pub closed spec fn wf(&self) -> bool {
        &&& self.data@.len() == self.width as int * self.height as int
        &&& self.width <= 65535
        &&& self.height <= 65535
    }

    pub closed spec fn spec_width(&self) -> u32 {
        self.width
    }

    pub closed spec fn spec_height(&self) -> u32 {
        self.height
    }

    /// The pixel stored at `(x, y)`.
    pub closed spec fn pixel(&self, x: int, y: int) -> Rgb {
        self.data@[row_major(self.width as int, x, y)]
    }

    pub fn width(&self) -> (r: u32)
        ensures
            r == self.spec_width(),
    {
        self.width
    }

    pub fn height(&self) -> (r: u32)
        ensures
            r == self.spec_height(),
    {
        self.height
    }

    /// Allocate a `w` by `h` buffer with every pixel set to `bg`.
    pub fn new(w: u32, h: u32, bg: Rgb) -> (r: PixelBuffer)
        requires
            w <= 65535,
            h <= 65535,
        ensures
            r.wf(),
            r.spec_width() == w,
            r.spec_height() == h,
            forall|x: int, y: int| 0 <= x < w && 0 <= y < h ==> r.pixel(x, y) == bg,
    {
        proof {
            assert(w as int * h as int <= 65535 * 65535) by (nonlinear_arith)
                requires
                    w <= 65535,
                    h <= 65535,
            ;
        }
        let n: usize = (w as usize) * (h as usize);
        let mut data: Vec<Rgb> = Vec::new();
        let mut i: usize = 0;
        while i < n
            invariant
                i <= n,
                n == w as int * h as int,
                data@.len() == i,
                forall|k: int| 0 <= k < i ==> data@[k] == bg,
            decreases n - i,
        {
            data.push(bg);
            i = i + 1;
        }
        proof {
            assert forall|x: int, y: int| 0 <= x < w && 0 <= y < h implies
                data@[row_major(w as int, x, y)] == bg by {
                lemma_row_major_in_range(w as int, h as int, x, y);
            }
        }
        PixelBuffer { width: w, height: h, data }
    }

    /// Read the pixel at `(x, y)`.
    pub fn get_pixel(&self, x: u32, y: u32) -> (r: Rgb)
        requires
            self.wf(),
            x < self.spec_width(),
            y < self.spec_height(),
        ensures
            r == self.pixel(x as int, y as int),
    {
        proof {
            lemma_row_major_in_range(
                self.width as int,
                self.height as int,
                x as int,
                y as int,
            );
        }
        let idx: usize = (y as usize) * (self.width as usize) + (x as usize);
        self.data[idx]
    }

    /// Overwrite the pixel at `(x, y)`; every other pixel keeps its value.
    pub fn put_pixel(&mut self, x: u32, y: u32, c: Rgb)
        requires
            old(self).wf(),
            x < old(self).spec_width(),
            y < old(self).spec_height(),
        ensures
            final(self).wf(),
            final(self).spec_width() == old(self).spec_width(),
            final(self).spec_height() == old(self).spec_height(),
            final(self).pixel(x as int, y as int) == c,
            forall|x2: int, y2: int|
                0 <= x2 < old(self).spec_width() && 0 <= y2 < old(self).spec_height()
                    && !(x2 == x && y2 == y)
                    ==> final(self).pixel(x2, y2) == old(self).pixel(x2, y2),
    {
        proof {
            lemma_row_major_in_range(
                self.width as int,
                self.height as int,
                x as int,
                y as int,
            );
        }
        let idx: usize = (y as usize) * (self.width as usize) + (x as usize);
        self.data.set(idx, c);
        proof {
            assert forall|x2: int, y2: int|
                0 <= x2 < self.spec_width() && 0 <= y2 < self.spec_height()
                    && !(x2 == x && y2 == y) implies
                final(self).pixel(x2, y2) == old(self).pixel(x2, y2) by {
                lemma_row_major_in_range(
                    self.width as int,
                    self.height as int,
                    x2,
                    y2,
                );
                lemma_row_major_in_range(
                    self.width as int,
                    self.height as int,
                    x as int,
                    y as int,
                );
            }
        }
    }
}

} // verus!
