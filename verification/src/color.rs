//! Packed `0xAARRGGBB` colors and alpha compositing.
//!
//! A color is a 32-bit word: alpha in the top byte, then red, green, blue.
//! Blending a source color into a destination pixel interpolates each RGB
//! channel between destination and source in proportion to the source alpha,
//! in exact integer arithmetic: `(dst * (255 - a) + src * a) / 255`, rounded
//! down. A fully opaque source (alpha 255) replaces the destination word
//! outright; a fully transparent source (alpha 0) leaves it untouched. In the
//! remaining cases the stored word carries a zero alpha byte: the source
//! alpha is discarded rather than accumulated across layers.

use vstd::prelude::*;

verus! {

/// The alpha byte of a packed color.
pub open spec fn spec_alpha(c: u32) -> u32 {
    c >> 24
}

/// The red byte of a packed color.
pub open spec fn spec_red(c: u32) -> u32 {
    (c >> 16) & 0xFF
}

/// The green byte of a packed color.
pub open spec fn spec_green(c: u32) -> u32 {
    (c >> 8) & 0xFF
}

/// The blue byte of a packed color.
pub open spec fn spec_blue(c: u32) -> u32 {
    c & 0xFF
}

/// One channel interpolated from `dst` toward `src` by `alpha / 255`,
/// rounded down. For channel values up to 255 the result is again a channel
/// value: `alpha == 0` gives `dst` exactly and `alpha == 255` gives `src`
/// exactly.
pub open spec fn spec_mix(dst: u32, src: u32, alpha: u32) -> int {
    (dst * (255 - alpha) + src * alpha) / 255
}

/// The word stored when `src` is composited onto `dst`: `src` itself when
/// fully opaque, `dst` untouched when fully transparent, otherwise the three
/// RGB channels mixed by the source alpha and the stored alpha byte zeroed.
pub open spec fn spec_blend(dst: u32, src: u32) -> u32 {
    let a = spec_alpha(src);
    if a == 255 {
        src
    } else if a == 0 {
        dst
    } else {
        ((spec_mix(spec_red(dst), spec_red(src), a) as u32) << 16) | (
        (spec_mix(spec_green(dst), spec_green(src), a) as u32) << 8) | (spec_mix(
            spec_blue(dst),
            spec_blue(src),
            a,
        ) as u32)
    }
}

/// Composite `src` over `dst` and return the stored word.
pub fn blend_color(dst: u32, src: u32) -> (r: u32)
    ensures
        r == spec_blend(dst, src),
{
    let a = src >> 24;
    if a == 255 {
        src
    } else if a == 0 {
        dst
    } else {
        proof {
            assert(src >> 24 < 256 && (dst >> 16) & 0xFF < 256 && (src >> 16) & 0xFF < 256 && (dst
                >> 8) & 0xFF < 256 && (src >> 8) & 0xFF < 256 && dst & 0xFF < 256 && src & 0xFF
                < 256) by (bit_vector);
        }
        let dr = (dst >> 16) & 0xFF;
        let dg = (dst >> 8) & 0xFF;
        let db = dst & 0xFF;
        let sr = (src >> 16) & 0xFF;
        let sg = (src >> 8) & 0xFF;
        let sb = src & 0xFF;
        proof {
            assert(dr * (255 - a) + sr * a <= 65025) by (nonlinear_arith)
                requires dr < 256, sr < 256, a < 256;
            assert(dg * (255 - a) + sg * a <= 65025) by (nonlinear_arith)
                requires dg < 256, sg < 256, a < 256;
            assert(db * (255 - a) + sb * a <= 65025) by (nonlinear_arith)
                requires db < 256, sb < 256, a < 256;
        }
        let r = (dr * (255 - a) + sr * a) / 255;
        let g = (dg * (255 - a) + sg * a) / 255;
        let b = (db * (255 - a) + sb * a) / 255;
        (r << 16) | (g << 8) | b
    }
}

} // verus!
