//! Region rasterization: clamped rectangle fills and antialiased circles,
//! both built on the alpha-blended pixel write.

use vstd::prelude::*;

use crate::buffer::PixelBuffer;
use crate::buffer::draw_pixel_to_buffer;
use crate::buffer::lemma_idx_bound;
use crate::buffer::lemma_write_one;
use crate::color::spec_alpha;
use crate::color::spec_blend;

verus! {

/// The squared Euclidean distance between the pixels `(x, y)` and `(cx, cy)`.
pub open spec fn spec_dist2(x: int, y: int, cx: int, cy: int) -> int {
    (x - cx) * (x - cx) + (y - cy) * (y - cy)
}

/// The screen-space bounding square of a circle of radius `r` around
/// `(cx, cy)` lies fully inside a `width` by `height` buffer.
pub open spec fn spec_circle_fits(cx: int, cy: int, r: int, width: int, height: int) -> bool {
    &&& r <= cx
    &&& r <= cy
    &&& cx + r < width
    &&& cy + r < height
}

/// `k` is the least non-negative integer whose square reaches `n`.
pub open spec fn spec_is_ceil_sqrt(n: int, k: int) -> bool {
    &&& 0 <= k
    &&& n <= k * k
    &&& (k == 0 || (k - 1) * (k - 1) < n)
}

/// The least non-negative integer whose square reaches `n`: the square root
/// of `n`, rounded up.
pub open spec fn spec_ceil_sqrt(n: int) -> int {
    choose|k: int| spec_is_ceil_sqrt(n, k)
}

/// The antialiasing alpha of an edge-band pixel whose squared distance from
/// the center is `d2`, with `r * r < d2 <= (r + 1) * (r + 1)`: one minus the
/// fractional part of the true distance `sqrt(d2)`, scaled to the byte range
/// and truncated. In the band the distance lies in `(r, r + 1]`, so this is
/// `255 * (r + 1) - ceil(255 * sqrt(d2))`, with `ceil(255 * sqrt(d2))` the
/// least integer whose square reaches `65025 * d2`; at exact integer
/// distance `r + 1` the fractional part is zero and the band is fully
/// opaque.
pub open spec fn spec_circle_alpha(d2: int, r: int) -> int {
    if d2 == (r + 1) * (r + 1) {
        255
    } else {
        255 * (r + 1) - spec_ceil_sqrt(65025 * d2)
    }
}

/// `color` with its alpha byte replaced by `alpha`.
pub open spec fn spec_with_alpha(color: u32, alpha: u32) -> u32 {
    (color & 0x00FFFFFF) | (alpha << 24)
}

/// A witness of `spec_is_ceil_sqrt` is the one value `spec_ceil_sqrt` names.
pub proof fn lemma_ceil_sqrt_unique(n: int, k: int)
    requires
        spec_is_ceil_sqrt(n, k),
    ensures
        spec_ceil_sqrt(n) == k,
{
    assert(spec_is_ceil_sqrt(n, k));
    assert(exists|j: int| spec_is_ceil_sqrt(n, j));
    let j = spec_ceil_sqrt(n);
    assert(spec_is_ceil_sqrt(n, j));
    assert(j == k) by (nonlinear_arith)
        requires
            0 <= j,
            n <= j * j,
            j == 0 || (j - 1) * (j - 1) < n,
            0 <= k,
            n <= k * k,
            k == 0 || (k - 1) * (k - 1) < n,
    ;
}

/// The square root of `n`, rounded up, by binary search. The bound on `n`
/// keeps every squared probe within the word.
fn ceil_sqrt_u128(n: u128) -> (k: u128)
    requires
        n <= 0x4000_0000_0000_0000_0000_0000_0000_0000u128,
    ensures
        spec_is_ceil_sqrt(n as int, k as int),
        k == spec_ceil_sqrt(n as int),
{
    let mut lo: u128 = 0;
    let mut hi: u128 = 0x8000_0000_0000_0000;
    proof {
        assert(0x8000_0000_0000_0000 * 0x8000_0000_0000_0000
            == 0x4000_0000_0000_0000_0000_0000_0000_0000) by (nonlinear_arith);
    }
    while lo < hi
        invariant
            lo <= hi,
            hi <= 0x8000_0000_0000_0000u128,
            n <= hi * hi,
            lo == 0 || (lo - 1) * (lo - 1) < n,
        decreases hi - lo,
    {
        let mid = lo + (hi - lo) / 2;
        proof {
            assert(mid * mid <= 0x4000_0000_0000_0000_0000_0000_0000_0000) by (nonlinear_arith)
                requires 0 <= mid <= 0x8000_0000_0000_0000u128;
        }
        let sq = mid * mid;
        if sq >= n {
            hi = mid;
        } else {
            lo = mid + 1;
        }
    }
    proof {
        lemma_ceil_sqrt_unique(n as int, lo as int);
    }
    lo
}

/// What a pixel previously holding `pre` holds after a circle of radius `r`
/// around `(cx, cy)` is drawn with `color`: within distance `r` of the center
/// the color is composited as it stands; in the one-pixel edge band beyond
/// (clipped to the circle's bounding square) it is composited with the
/// antialiasing alpha instead; farther out the pixel keeps `pre`.
pub open spec fn spec_circle_pixel(
    pre: u32,
    x: int,
    y: int,
    cx: int,
    cy: int,
    r: int,
    color: u32,
) -> u32 {
    let d2 = spec_dist2(x, y, cx, cy);
    if d2 <= r * r {
        spec_blend(pre, color)
    } else if d2 <= (r + 1) * (r + 1) && cx - r <= x <= cx + r && cy - r <= y <= cy + r {
        spec_blend(pre, spec_with_alpha(color, spec_circle_alpha(d2, r) as u32))
    } else {
        pre
    }
}

/// Composite `color` onto every visible pixel of the half-open screen
/// rectangle `[x0, x1) x [y0, y1)`, clamped to the buffer: pixels at or past
/// the right or bottom edge are skipped, and an empty or inverted range draws
/// nothing. Every covered pixel is blended exactly once; everything else,
/// row padding included, is untouched.
pub fn fill_rectangle(buffer: &mut PixelBuffer, x0: u32, y0: u32, x1: u32, y1: u32, color: u32)
    requires
        old(buffer).wf(),
    ensures
        final(buffer).wf(),
        old(buffer).same_dims(*final(buffer)),
        forall|x: int, y: int|
            0 <= x < old(buffer).width && 0 <= y < old(buffer).height && x0 <= x < x1 && y0 <= y
                < y1 ==> final(buffer).spec_pixel(x, y) == spec_blend(
                old(buffer).spec_pixel(x, y),
                color,
            ),
        forall|x: int, y: int|
            0 <= x < old(buffer).stride && 0 <= y < old(buffer).height && !(x0 <= x < x1 && y0 <= y
                < y1 && x < old(buffer).width) ==> final(buffer).spec_pixel(x, y) == old(
                buffer,
            ).spec_pixel(x, y),
        spec_alpha(color) == 255 ==> forall|x: int, y: int|
            0 <= x < old(buffer).width && 0 <= y < old(buffer).height && x0 <= x < x1 && y0 <= y
                < y1 ==> #[trigger] final(buffer).spec_pixel(x, y) == color,
{
    let width = buffer.width;
    let height = buffer.height;
    let stride = buffer.stride;
    let end_x = if x1 < width { x1 } else { width };
    let end_y = if y1 < height { y1 } else { height };
    if x0 >= end_x || y0 >= end_y {
        return;
    }
    let mut x = x0;
    while x < end_x
        invariant
            buffer.wf(),
            old(buffer).same_dims(*buffer),
            width == buffer.width,
            height == buffer.height,
            stride == buffer.stride,
            x0 <= x <= end_x,
            y0 < end_y,
            end_x <= width,
            end_x <= x1,
            end_y <= height,
            end_y <= y1,
            x1 < width ==> end_x == x1,
            y1 < height ==> end_y == y1,
            forall|a: int, b: int|
                x0 <= a < x && y0 <= b < end_y ==> #[trigger] buffer.spec_pixel(a, b)
                    == spec_blend(old(buffer).spec_pixel(a, b), color),
            forall|a: int, b: int|
                0 <= a < stride && 0 <= b < height && !(x0 <= a < x && y0 <= b < end_y)
                    ==> #[trigger] buffer.spec_pixel(a, b) == old(buffer).spec_pixel(a, b),
        decreases end_x - x,
    {
        let mut yy = y0;
        while yy < end_y
            invariant
                buffer.wf(),
                old(buffer).same_dims(*buffer),
                width == buffer.width,
                height == buffer.height,
                stride == buffer.stride,
                x0 <= x < end_x,
                y0 <= yy <= end_y,
                end_x <= width,
                end_y <= height,
                forall|a: int, b: int|
                    x0 <= a < x && y0 <= b < end_y ==> #[trigger] buffer.spec_pixel(a, b)
                        == spec_blend(old(buffer).spec_pixel(a, b), color),
                forall|b: int|
                    y0 <= b < yy ==> #[trigger] buffer.spec_pixel(x as int, b) == spec_blend(
                        old(buffer).spec_pixel(x as int, b),
                        color,
                    ),
                forall|a: int, b: int|
                    0 <= a < stride && 0 <= b < height && !(x0 <= a < x && y0 <= b < end_y) && !(a
                        == x && y0 <= b < yy) ==> #[trigger] buffer.spec_pixel(a, b) == old(
                        buffer,
                    ).spec_pixel(a, b),
            decreases end_y - yy,
        {
            let ghost prev = *buffer;
            draw_pixel_to_buffer(buffer, x, yy, color);
            proof {
                lemma_write_one(
                    prev,
                    *buffer,
                    x as int,
                    yy as int,
                    spec_blend(prev.spec_pixel(x as int, yy as int), color),
                );
            }
            yy = yy + 1;
        }
        x = x + 1;
    }
}

/// Draw a circle of `radius` pixels around screen position `(cx, cy)` with a
/// one-pixel antialiased edge band. A circle whose bounding square would
/// extend outside the buffer on any side is skipped entirely rather than
/// clipped. Otherwise every pixel within distance `radius` of the center is
/// composited with `color` as it stands; every bounding-square pixel within
/// distance `radius + 1` is composited with the band alpha in place of the
/// color's own — one minus the fractional overshoot of its distance beyond
/// the rim, scaled to the byte range, so the band fades outward and is fully
/// opaque at exact integer distance `radius + 1`; no other pixel is touched.
pub fn draw_circle(buffer: &mut PixelBuffer, cx: u32, cy: u32, radius: u32, color: u32)
    requires
        old(buffer).wf(),
    ensures
        final(buffer).wf(),
        old(buffer).same_dims(*final(buffer)),
        !spec_circle_fits(
            cx as int,
            cy as int,
            radius as int,
            old(buffer).width as int,
            old(buffer).height as int,
        ) ==> final(buffer).pixels@ == old(buffer).pixels@,
        spec_circle_fits(
            cx as int,
            cy as int,
            radius as int,
            old(buffer).width as int,
            old(buffer).height as int,
        ) ==> forall|x: int, y: int|
            0 <= x < old(buffer).stride && 0 <= y < old(buffer).height
                ==> #[trigger] final(buffer).spec_pixel(x, y) == spec_circle_pixel(
                old(buffer).spec_pixel(x, y),
                x,
                y,
                cx as int,
                cy as int,
                radius as int,
                color,
            ),
        spec_circle_fits(
            cx as int,
            cy as int,
            radius as int,
            old(buffer).width as int,
            old(buffer).height as int,
        ) && spec_alpha(color) == 255 ==> forall|x: int, y: int|
            0 <= x < old(buffer).stride && 0 <= y < old(buffer).height && spec_dist2(
                x,
                y,
                cx as int,
                cy as int,
            ) <= radius * radius ==> #[trigger] final(buffer).spec_pixel(x, y) == color,
        spec_circle_fits(
            cx as int,
            cy as int,
            radius as int,
            old(buffer).width as int,
            old(buffer).height as int,
        ) ==> forall|x: int, y: int|
            0 <= x < old(buffer).stride && 0 <= y < old(buffer).height && spec_dist2(
                x,
                y,
                cx as int,
                cy as int,
            ) > (radius + 1) * (radius + 1) ==> #[trigger] final(buffer).spec_pixel(x, y) == old(
                buffer,
            ).spec_pixel(x, y),
{
    let width = buffer.width;
    let height = buffer.height;
    let stride = buffer.stride;
    if radius > cx || radius > cy || (cx as u64) + (radius as u64) >= (width as u64) || (cy as u64)
        + (radius as u64) >= (height as u64) {
        return;
    }
    let x_lo = cx - radius;
    let x_hi = cx + radius;
    let y_lo = cy - radius;
    let y_hi = cy + radius;
    let ghost r = radius as int;
    let mut x = x_lo;
    while x <= x_hi
        invariant
            buffer.wf(),
            old(buffer).same_dims(*buffer),
            width == buffer.width,
            height == buffer.height,
            stride == buffer.stride,
            x_lo == cx - r,
            x_hi == cx + r,
            y_lo == cy - r,
            y_hi == cy + r,
            r == radius,
            radius <= cx,
            radius <= cy,
            cx + r < width,
            cy + r < height,
            x_lo <= x <= x_hi + 1,
            forall|a: int, b: int|
                x_lo <= a < x && y_lo <= b <= y_hi ==> #[trigger] buffer.spec_pixel(a, b)
                    == spec_circle_pixel(
                    old(buffer).spec_pixel(a, b),
                    a,
                    b,
                    cx as int,
                    cy as int,
                    r,
                    color,
                ),
            forall|a: int, b: int|
                0 <= a < stride && 0 <= b < height && !(x_lo <= a < x && y_lo <= b <= y_hi)
                    ==> #[trigger] buffer.spec_pixel(a, b) == old(buffer).spec_pixel(a, b),
        decreases x_hi + 1 - x,
    {
        let mut yy = y_lo;
        while yy <= y_hi
            invariant
                buffer.wf(),
                old(buffer).same_dims(*buffer),
                width == buffer.width,
                height == buffer.height,
                stride == buffer.stride,
                x_lo == cx - r,
                x_hi == cx + r,
                y_lo == cy - r,
                y_hi == cy + r,
                r == radius,
                radius <= cx,
                radius <= cy,
                cx + r < width,
                cy + r < height,
                x_lo <= x <= x_hi,
                y_lo <= yy <= y_hi + 1,
                forall|a: int, b: int|
                    x_lo <= a < x && y_lo <= b <= y_hi ==> #[trigger] buffer.spec_pixel(a, b)
                        == spec_circle_pixel(
                        old(buffer).spec_pixel(a, b),
                        a,
                        b,
                        cx as int,
                        cy as int,
                        r,
                        color,
                    ),
                forall|b: int|
                    y_lo <= b < yy ==> #[trigger] buffer.spec_pixel(x as int, b)
                        == spec_circle_pixel(
                        old(buffer).spec_pixel(x as int, b),
                        x as int,
                        b,
                        cx as int,
                        cy as int,
                        r,
                        color,
                    ),
                forall|a: int, b: int|
                    0 <= a < stride && 0 <= b < height && !(x_lo <= a < x && y_lo <= b <= y_hi)
                        && !(a == x && y_lo <= b < yy) ==> #[trigger] buffer.spec_pixel(a, b)
                        == old(buffer).spec_pixel(a, b),
            decreases y_hi + 1 - yy,
        {
            let dx = if x >= cx { x - cx } else { cx - x };
            let dy = if yy >= cy { yy - cy } else { cy - yy };
            proof {
                assert((dx as int) * (dx as int) <= 0xFFFF_FFFF * 0xFFFF_FFFF && (dy as int) * (
                dy as int) <= 0xFFFF_FFFF * 0xFFFF_FFFF) by (nonlinear_arith)
                    requires
                        0 <= dx < 0x1_0000_0000,
                        0 <= dy < 0x1_0000_0000,
                ;
            }
            let d2: u128 = (dx as u128) * (dx as u128) + (dy as u128) * (dy as u128);
            proof {
                assert((radius as int) * (radius as int) <= 0x1_0000_0000 * 0x1_0000_0000 && ((
                radius as int) + 1) * ((radius as int) + 1) <= 0x1_0000_0000
                    * 0x1_0000_0000) by (nonlinear_arith)
                    requires
                        0 <= radius < 0x1_0000_0000,
                ;
            }
            let r2: u128 = (radius as u128) * (radius as u128);
            let r1sq: u128 = ((radius as u128) + 1) * ((radius as u128) + 1);
            proof {
                assert(d2 == spec_dist2(x as int, yy as int, cx as int, cy as int)
                    && r2 == r * r && r1sq == (r + 1) * (r + 1)) by (nonlinear_arith)
                    requires
                        dx == if x >= cx { x - cx } else { cx - x },
                        dy == if yy >= cy { yy - cy } else { cy - yy },
                        d2 == dx * dx + dy * dy,
                        r2 == radius * radius,
                        r1sq == (radius + 1) * (radius + 1),
                        r == radius,
                        spec_dist2(x as int, yy as int, cx as int, cy as int) == (x - cx) * (x - cx)
                            + (yy - cy) * (yy - cy),
                ;
            }
            if d2 <= r2 {
                let ghost prev = *buffer;
                draw_pixel_to_buffer(buffer, x, yy, color);
                proof {
                    lemma_write_one(
                        prev,
                        *buffer,
                        x as int,
                        yy as int,
                        spec_blend(prev.spec_pixel(x as int, yy as int), color),
                    );
                }
            } else if d2 <= r1sq {
                let alpha: u32;
                if d2 == r1sq {
                    alpha = 255;
                } else {
                    let n128: u128 = 65025 * d2;
                    let k = ceil_sqrt_u128(n128);
                    proof {
                        assert(65025 * d2 > (255 * r) * (255 * r) && 65025 * d2 < (255 * (r + 1))
                            * (255 * (r + 1))) by (nonlinear_arith)
                            requires
                                d2 > r * r,
                                d2 < (r + 1) * (r + 1),
                                r >= 0,
                        ;
                        assert(k > 255 * r) by (nonlinear_arith)
                            requires
                                k * k >= 65025 * d2,
                                65025 * d2 > (255 * r) * (255 * r),
                                k >= 0,
                                r >= 0,
                        ;
                        assert(k - 1 < 255 * (r + 1)) by (nonlinear_arith)
                            requires
                                (k - 1) * (k - 1) < 65025 * d2,
                                65025 * d2 < (255 * (r + 1)) * (255 * (r + 1)),
                                k - 1 >= 0,
                                r >= 0,
                        ;
                    }
                    let a128: u128 = 255 * ((radius as u128) + 1) - k;
                    alpha = a128 as u32;
                }
                proof {
                    assert(alpha == spec_circle_alpha(d2 as int, r));
                }
                let aa = (color & 0x00FFFFFF) | (alpha << 24);
                let ghost prev = *buffer;
                draw_pixel_to_buffer(buffer, x, yy, aa);
                proof {
                    lemma_write_one(
                        prev,
                        *buffer,
                        x as int,
                        yy as int,
                        spec_blend(prev.spec_pixel(x as int, yy as int), aa),
                    );
                    assert(aa == spec_with_alpha(color, spec_circle_alpha(d2 as int, r) as u32));
                }
            }
            yy = yy + 1;
        }
        x = x + 1;
    }
    proof {
        assert forall|a: int, b: int| 0 <= a < stride && 0 <= b < height implies #[trigger] buffer
            .spec_pixel(a, b) == spec_circle_pixel(
            old(buffer).spec_pixel(a, b),
            a,
            b,
            cx as int,
            cy as int,
            r,
            color,
        ) by {
            if !(cx - r <= a <= cx + r && cy - r <= b <= cy + r) {
                assert(spec_dist2(a, b, cx as int, cy as int) > r * r) by (nonlinear_arith)
                    requires
                        r >= 0,
                        !(cx - r <= a <= cx + r && cy - r <= b <= cy + r),
                        spec_dist2(a, b, cx as int, cy as int) == (a - cx) * (a - cx) + (b - cy) * (
                        b - cy),
                ;
            }
        }
        assert forall|a: int, b: int|
            0 <= a < stride && 0 <= b < height && spec_dist2(a, b, cx as int, cy as int) > (r + 1)
                * (r + 1) implies #[trigger] buffer.spec_pixel(a, b) == old(buffer).spec_pixel(
            a,
            b,
        ) by {
            assert(r * r <= (r + 1) * (r + 1)) by (nonlinear_arith)
                requires r >= 0;
        }
        if spec_alpha(color) == 255 {
            assert forall|a: int, b: int|
                0 <= a < stride && 0 <= b < height && spec_dist2(a, b, cx as int, cy as int) <= r
                    * r implies #[trigger] buffer.spec_pixel(a, b) == color by {}
        }
    }
}

} // verus!
