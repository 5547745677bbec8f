//! The stride-aware pixel buffer and its two primitive writes: the
//! alpha-blended single-pixel write and the whole-buffer clear.
//!
//! The buffer stores one `0xAARRGGBB` word per pixel in row-major order. A
//! row occupies `stride` words, of which the first `width` are visible
//! pixels; the rest is padding that the drawing routines never touch. The
//! stride may exceed the width, never the reverse.

use vstd::prelude::*;

use crate::color::spec_alpha;
use crate::color::spec_blend;
use crate::color::blend_color;

verus! {

/// A pre-allocated output surface: `height` rows of `stride` words each, of
/// which the first `width` per row are visible pixels.
pub struct PixelBuffer {
    /// The packed words, row-major, `stride` words per row.
    pub pixels: Vec<u32>,
    /// Visible pixels per row.
    pub width: u32,
    /// Number of rows.
    pub height: u32,
    /// Words per row, at least `width`; the words beyond `width` are padding.
    pub stride: u32,
}

impl PixelBuffer {
    /// Well-formed: the stride covers the visible width and the storage holds
    /// exactly `stride * height` words.
    pub open spec fn wf(self) -> bool {
        &&& self.width <= self.stride
        &&& self.pixels@.len() == self.stride * self.height
    }

    /// The word index of column `x` in row `y`.
    pub open spec fn spec_idx(self, x: int, y: int) -> int {
        y * self.stride + x
    }

    /// The stored word at column `x` of row `y`; columns at `width` and
    /// beyond are row padding.
    pub open spec fn spec_pixel(self, x: int, y: int) -> u32 {
        self.pixels@[self.spec_idx(x, y)]
    }

    /// The three dimension fields, unchanged between two buffer values.
    pub open spec fn same_dims(self, other: PixelBuffer) -> bool {
        &&& self.width == other.width
        &&& self.height == other.height
        &&& self.stride == other.stride
    }

    /// Allocate an all-zero buffer of the given dimensions. The word count
    /// must fit the address space.
    pub fn new(width: u32, height: u32, stride: u32) -> (r: PixelBuffer)
        requires
            width <= stride,
            stride * height <= usize::MAX,
        ensures
            r.wf(),
            r.width == width,
            r.height == height,
            r.stride == stride,
            forall|i: int| 0 <= i < r.pixels@.len() ==> r.pixels@[i] == 0u32,
    {
        proof {
            assert(stride * height <= usize::MAX ==> (stride as usize) * (height as usize)
                == stride * height) by (nonlinear_arith);
        }
        let n: usize = (stride as usize) * (height as usize);
        let mut pixels: Vec<u32> = Vec::new();
        let mut i: usize = 0;
        while i < n
            invariant
                i <= n,
                pixels@.len() == i,
                forall|j: int| 0 <= j < i ==> pixels@[j] == 0u32,
            decreases n - i,
        {
            pixels.push(0);
            i = i + 1;
        }
        PixelBuffer { pixels, width, height, stride }
    }

    /// Read the visible pixel at `(x, y)`.
    pub fn pixel_at(&self, x: u32, y: u32) -> (r: u32)
        requires
            self.wf(),
            x < self.width,
            y < self.height,
        ensures
            r == self.spec_pixel(x as int, y as int),
    {
        proof {
            lemma_idx_bound(x as int, y as int, self.width as int, self.height as int,
                self.stride as int);
        }
        // the length call puts the storage size within address-space bounds
        let n = self.pixels.len();
        let i: usize = (y as usize) * (self.stride as usize) + (x as usize);
        self.pixels[i]
    }
}

/// A word index `y * stride + x` of a column inside the row lies inside the
/// storage.
pub proof fn lemma_idx_bound(x: int, y: int, width: int, height: int, stride: int)
    requires
        0 <= x < width,
        0 <= y < height,
        width <= stride,
    ensures
        0 <= y * stride + x < stride * height,
{
    assert(0 <= y * stride + x < stride * height) by (nonlinear_arith)
        requires 0 <= x < width, 0 <= y < height, width <= stride;
}

/// Distinct in-row coordinates address distinct words.
pub proof fn lemma_idx_unique(x1: int, y1: int, x2: int, y2: int, stride: int)
    requires
        0 <= x1 < stride,
        0 <= x2 < stride,
        0 <= y1,
        0 <= y2,
        x1 != x2 || y1 != y2,
    ensures
        y1 * stride + x1 != y2 * stride + x2,
{
    assert(y1 * stride + x1 != y2 * stride + x2) by (nonlinear_arith)
        requires 0 <= x1 < stride, 0 <= x2 < stride, 0 <= y1, 0 <= y2, x1 != x2 || y1 != y2;
}

/// After one word is stored at in-row coordinates `(x, y)`, that coordinate
/// reads back the stored word and every other coordinate is untouched.
pub proof fn lemma_write_one(prev: PixelBuffer, cur: PixelBuffer, x: int, y: int, v: u32)
    requires
        prev.wf(),
        prev.same_dims(cur),
        0 <= x < prev.width,
        0 <= y < prev.height,
        cur.pixels@ == prev.pixels@.update(prev.spec_idx(x, y), v),
    ensures
        cur.wf(),
        cur.spec_pixel(x, y) == v,
        forall|a: int, b: int|
            0 <= a < prev.stride && 0 <= b < prev.height && (a != x || b != y)
                ==> #[trigger] cur.spec_pixel(a, b) == prev.spec_pixel(a, b),
{
    lemma_idx_bound(x, y, prev.width as int, prev.height as int, prev.stride as int);
    assert forall|a: int, b: int|
        0 <= a < prev.stride && 0 <= b < prev.height && (a != x || b != y)
        implies #[trigger] cur.spec_pixel(a, b) == prev.spec_pixel(a, b) by {
        lemma_idx_unique(a, b, x, y, prev.stride as int);
        lemma_idx_bound(a, b, prev.stride as int, prev.height as int, prev.stride as int);
    }
}

/// Composite `color` onto the pixel at `(x, y)`. Staying in bounds is the
/// caller's contract: this primitive checks nothing.
///
/// A fully opaque color replaces the stored word; a fully transparent one
/// leaves the whole buffer untouched; anything in between blends each RGB
/// channel and zeroes the stored alpha byte.
pub fn draw_pixel_to_buffer(buffer: &mut PixelBuffer, x: u32, y: u32, color: u32)
    requires
        old(buffer).wf(),
        x < old(buffer).width,
        y < old(buffer).height,
    ensures
        final(buffer).wf(),
        old(buffer).same_dims(*final(buffer)),
        final(buffer).pixels@ == old(buffer).pixels@.update(
            old(buffer).spec_idx(x as int, y as int),
            spec_blend(old(buffer).spec_pixel(x as int, y as int), color),
        ),
        spec_alpha(color) == 255 ==> final(buffer).spec_pixel(x as int, y as int) == color,
        spec_alpha(color) == 0 ==> final(buffer).pixels@ == old(buffer).pixels@,
{
    proof {
        lemma_idx_bound(x as int, y as int, buffer.width as int, buffer.height as int,
            buffer.stride as int);
    }
    // the length call puts the storage size within address-space bounds
    let n = buffer.pixels.len();
    let i: usize = (y as usize) * (buffer.stride as usize) + (x as usize);
    let dst = buffer.pixels[i];
    let blended = blend_color(dst, color);
    buffer.pixels[i] = blended;
    proof {
        if spec_alpha(color) == 0 {
            assert(buffer.pixels@ =~= old(buffer).pixels@);
        }
    }
}

/// `post` is `pre` after a whole-buffer clear with `color`: every visible
/// pixel holds `color`, every padding word is untouched, the dimensions and
/// the storage length are unchanged.
pub open spec fn spec_cleared(pre: PixelBuffer, post: PixelBuffer, color: u32) -> bool {
    &&& pre.same_dims(post)
    &&& post.pixels@.len() == pre.pixels@.len()
    &&& forall|x: int, y: int|
        0 <= x < pre.width && 0 <= y < pre.height ==> post.spec_pixel(x, y) == color
    &&& forall|x: int, y: int|
        pre.width <= x < pre.stride && 0 <= y < pre.height ==> post.spec_pixel(x, y)
            == pre.spec_pixel(x, y)
}

/// Overwrite every visible pixel with `color`, row by row, leaving row
/// padding alone.
pub fn clear_buffer(buffer: &mut PixelBuffer, color: u32)
    requires
        old(buffer).wf(),
    ensures
        final(buffer).wf(),
        spec_cleared(*old(buffer), *final(buffer), color),
{
    let width = buffer.width;
    let height = buffer.height;
    let stride = buffer.stride;
    let n = buffer.pixels.len();
    let mut y: u32 = 0;
    while y < height
        invariant
            buffer.wf(),
            old(buffer).same_dims(*buffer),
            width == buffer.width,
            height == buffer.height,
            stride == buffer.stride,
            n == buffer.pixels@.len(),
            y <= height,
            forall|a: int, b: int|
                0 <= a < width && 0 <= b < y ==> buffer.spec_pixel(a, b) == color,
            forall|a: int, b: int|
                0 <= a < stride && y <= b < height ==> buffer.spec_pixel(a, b) == old(
                    buffer,
                ).spec_pixel(a, b),
            forall|a: int, b: int|
                width <= a < stride && 0 <= b < height ==> buffer.spec_pixel(a, b) == old(
                    buffer,
                ).spec_pixel(a, b),
        decreases height - y,
    {
        let mut x: u32 = 0;
        while x < width
            invariant
                buffer.wf(),
                old(buffer).same_dims(*buffer),
                width == buffer.width,
                height == buffer.height,
                stride == buffer.stride,
                n == buffer.pixels@.len(),
                y < height,
                x <= width,
                forall|a: int, b: int|
                    0 <= a < width && 0 <= b < y ==> buffer.spec_pixel(a, b) == color,
                forall|a: int| 0 <= a < x ==> buffer.spec_pixel(a, y as int) == color,
                forall|a: int, b: int|
                    0 <= a < stride && y < b < height ==> buffer.spec_pixel(a, b) == old(
                        buffer,
                    ).spec_pixel(a, b),
                forall|a: int|
                    x <= a < stride ==> buffer.spec_pixel(a, y as int) == old(buffer).spec_pixel(
                        a,
                        y as int,
                    ),
                forall|a: int, b: int|
                    width <= a < stride && 0 <= b < height ==> buffer.spec_pixel(a, b) == old(
                        buffer,
                    ).spec_pixel(a, b),
            decreases width - x,
        {
            proof {
                lemma_idx_bound(x as int, y as int, width as int, height as int, stride as int);
            }
            let i: usize = (y as usize) * (stride as usize) + (x as usize);
            let ghost prev = *buffer;
            buffer.pixels[i] = color;
            proof {
                lemma_write_one(prev, *buffer, x as int, y as int, color);
            }
            x = x + 1;
        }
        y = y + 1;
    }
}

/// Two well-formed buffers of the same dimensions that agree on every word of
/// every row hold equal storage.
pub proof fn lemma_contents_determined(a: PixelBuffer, b: PixelBuffer)
    requires
        a.wf(),
        b.wf(),
        a.same_dims(b),
        forall|x: int, y: int|
            0 <= x < a.stride && 0 <= y < a.height ==> a.spec_pixel(x, y) == b.spec_pixel(x, y),
    ensures
        a.pixels@ == b.pixels@,
{
    let stride = a.stride as int;
    let height = a.height as int;
    assert forall|i: int| 0 <= i < a.pixels@.len() implies a.pixels@[i] == b.pixels@[i] by {
        if stride > 0 {
            let y = i / stride;
            let x = i % stride;
            vstd::arithmetic::div_mod::lemma_fundamental_div_mod(i, stride);
            vstd::arithmetic::div_mod::lemma_mod_bound(i, stride);
            assert(i < stride * height);
            vstd::arithmetic::div_mod::lemma_multiply_divide_lt(i, stride, height);
            assert(i == y * stride + x) by (nonlinear_arith)
                requires i == stride * (i / stride) + i % stride, y == i / stride, x == i % stride;
            assert(a.spec_pixel(x, y) == b.spec_pixel(x, y));
        } else {
            assert(stride * height == 0) by (nonlinear_arith) requires stride == 0;
        }
    }
    assert(a.pixels@ =~= b.pixels@);
}

/// Clearing is idempotent: clearing a buffer that was just cleared with the
/// same color leaves its stored contents exactly as they were after the
/// first clear.
pub proof fn lemma_clear_idempotent(b0: PixelBuffer, b1: PixelBuffer, b2: PixelBuffer, color: u32)
    requires
        b0.wf(),
        b1.wf(),
        b2.wf(),
        spec_cleared(b0, b1, color),
        spec_cleared(b1, b2, color),
    ensures
        b2.pixels@ == b1.pixels@,
{
    lemma_contents_determined(b1, b2);
}

} // verus!
