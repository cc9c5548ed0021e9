//! Glyph compositing: alpha-blends integer coverage masks onto the pixel
//! buffer, clipping per pixel to the buffer bounds. A mask's bounding box may
//! lie partly or wholly outside the buffer (glyphs at cell edges); pixels
//! outside are simply not written.

use crate::pixel::PixelBuffer;
use crate::pixel::Rgb;
use vstd::prelude::*;

verus! {

/// Coverage below this (out of 255) is skipped, so near-invisible
/// antialiasing fringes paint nothing.
pub const COVERAGE_THRESHOLD: u8 = 13;

/// One rasterized glyph: a bounding box placed relative to a text origin
/// (its corner may be negative or reach past the buffer), and one coverage
/// value per box pixel, row-major, 0 (transparent) to 255 (opaque).
pub struct GlyphMask {
    pub min_x: i32,
    pub min_y: i32,
    pub w: u32,
    pub h: u32,
    pub coverage: Vec<u8>,
}

impl GlyphMask {
    /// One coverage value per box pixel, box no larger than a buffer can be.
    pub open spec fn wf(&self) -> bool {
        &&& self.coverage@.len() == self.w as int * self.h as int
        &&& self.w <= 65535
        &&& self.h <= 65535
    }

    /// Coverage of the box pixel at `(x, y)`, relative to the box corner.
    pub open spec fn cov(&self, x: int, y: int) -> u8 {
        self.coverage@[y * self.w as int + x]
    }
}

/// One channel of `dst = dst*(1 - a) + src*a` with coverage `a` out of 255,
/// in integer arithmetic, rounding down.
pub open spec fn blend_channel(dst: u8, src: u8, a: u8) -> u8 {
    (((dst as int) * (255 - a as int) + (src as int) * (a as int)) / 255) as u8
}

/// Alpha-blend `src` over `dst` with coverage `a` out of 255, per channel.
pub open spec fn blend_rgb(dst: Rgb, src: Rgb, a: u8) -> Rgb {
    Rgb {
        r: blend_channel(dst.r, src.r, a),
        g: blend_channel(dst.g, src.g, a),
        b: blend_channel(dst.b, src.b, a),
    }
}

/// What blending a mask at origin `(left, top)` leaves at buffer pixel
/// `(px, py)` whose previous value is `prev`: blended where the pixel falls
/// under a mask pixel with coverage at or above the threshold, else untouched.
pub open spec fn blit_pixel(
    prev: Rgb,
    mask: GlyphMask,
    left: int,
    top: int,
    color: Rgb,
    px: int,
    py: int,
) -> Rgb {
    let mx = px - (left + mask.min_x);
    let my = py - (top + mask.min_y);
    if 0 <= mx < mask.w && 0 <= my < mask.h && mask.cov(mx, my) >= COVERAGE_THRESHOLD {
        blend_rgb(prev, color, mask.cov(mx, my))
    } else {
        prev
    }
}

fn blend_channel_exec(dst: u8, src: u8, a: u8) -> (r: u8)
    ensures
        r == blend_channel(dst, src, a),
{
    proof {
        assert((dst as int) * (255 - a as int) + (src as int) * (a as int) <= 255 * 255
            && 0 <= (dst as int) * (255 - a as int) + (src as int) * (a as int))
            by (nonlinear_arith)
            requires
                dst <= 255,
                src <= 255,
                a <= 255,
        ;
    }
    let num: u32 = (dst as u32) * (255 - a as u32) + (src as u32) * (a as u32);
    (num / 255) as u8
}

/// Blend one glyph mask onto the buffer with the given text color. Mask pixel
/// `(x, y)` lands on buffer pixel `(left + min_x + x, top + min_y + y)`; every
/// landing spot outside the buffer is skipped, so a box partly or fully
/// outside the buffer is safe and leaves those pixels untouched.
pub fn blend_glyph(buf: &mut PixelBuffer, mask: &GlyphMask, left: u32, top: u32, color: Rgb)
    requires
        old(buf).wf(),
        mask.wf(),
    ensures
        final(buf).wf(),
        final(buf).spec_width() == old(buf).spec_width(),
        final(buf).spec_height() == old(buf).spec_height(),
        forall|px: int, py: int|
            0 <= px < old(buf).spec_width() && 0 <= py < old(buf).spec_height()
                ==> final(buf).pixel(px, py) == blit_pixel(
                old(buf).pixel(px, py),
                *mask,
                left as int,
                top as int,
                color,
                px,
                py,
            ),
{
    let bw: u32 = buf.width();
    let bh: u32 = buf.height();
    let ox: i64 = left as i64 + mask.min_x as i64;
    let oy: i64 = top as i64 + mask.min_y as i64;
    let mut y: u32 = 0;
    while y < mask.h
        invariant
            0 <= y <= mask.h,
            buf.wf(),
            mask.wf(),
            buf.spec_width() == old(buf).spec_width() == bw,
            buf.spec_height() == old(buf).spec_height() == bh,
            ox == left + mask.min_x,
            oy == top + mask.min_y,
            forall|px: int, py: int|
                0 <= px < bw && 0 <= py < bh ==> #[trigger] buf.pixel(px, py) == (if py - oy
                    < y {
                    blit_pixel(old(buf).pixel(px, py), *mask, left as int, top as int, color,
                        px, py)
                } else {
                    old(buf).pixel(px, py)
                }),
        decreases mask.h - y,
    {
        let mut x: u32 = 0;
        while x < mask.w
            invariant
                0 <= y < mask.h,
                0 <= x <= mask.w,
                buf.wf(),
                mask.wf(),
                buf.spec_width() == old(buf).spec_width() == bw,
                buf.spec_height() == old(buf).spec_height() == bh,
                ox == left + mask.min_x,
                oy == top + mask.min_y,
                forall|px: int, py: int|
                    0 <= px < bw && 0 <= py < bh ==> #[trigger] buf.pixel(px, py) == (if py
                        - oy < y || (py - oy == y && px - ox < x) {
                        blit_pixel(old(buf).pixel(px, py), *mask, left as int, top as int,
                            color, px, py)
                    } else {
                        old(buf).pixel(px, py)
                    }),
            decreases mask.w - x,
        {
            proof {
                assert(0 <= y * mask.w as int + x < mask.w as int * mask.h as int
                    && mask.w as int * mask.h as int <= 65535 * 65535) by (nonlinear_arith)
                    requires
                        0 <= x < mask.w,
                        0 <= y < mask.h,
                        mask.w <= 65535,
                        mask.h <= 65535,
                ;
            }
            let idx: usize = (y as usize) * (mask.w as usize) + (x as usize);
            let a: u8 = mask.coverage[idx];
            let gx: i64 = ox + x as i64;
            let gy: i64 = oy + y as i64;
            if a >= COVERAGE_THRESHOLD && gx >= 0 && gy >= 0 && gx < bw as i64 && gy
                < bh as i64 {
                let prev = buf.get_pixel(gx as u32, gy as u32);
                let blended = Rgb {
                    r: blend_channel_exec(prev.r, color.r, a),
                    g: blend_channel_exec(prev.g, color.g, a),
                    b: blend_channel_exec(prev.b, color.b, a),
                };
                buf.put_pixel(gx as u32, gy as u32, blended);
            }
            x = x + 1;
        }
        y = y + 1;
    }
}

} // verus!
