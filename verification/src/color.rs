//! Colours with eight bits per channel, and the fixed-point arithmetic that
//! blends them.
//!
//! A channel value `v` stands for the intensity `v / 255`. A premultiplied
//! channel is the product of a channel and an opacity, both on that scale, so
//! it stands for `value / (255 * 255)`. Every operation here is exact on these
//! scales; the only rounding is the truncation in [`PreAlpha::color`].

use vstd::prelude::*;

verus! {

/// The largest value of a premultiplied channel: full intensity at full opacity.
pub const PREMULTIPLIED_MAX: u32 = 65025;

/// An RGB colour, eight bits per channel.
#[derive(Clone, Copy, Debug, PartialEq, Eq, Structural)]
pub struct Rgb {
    pub red: u8,
    pub green: u8,
    pub blue: u8,
}

/// A colour whose channels have been multiplied by its opacity.
///
/// `alpha` runs from 0 (transparent) to 255 (opaque); each channel holds
/// `colour * alpha` and so runs from 0 to `255 * alpha`.
#[derive(Clone, Copy, Debug, PartialEq, Eq, Structural)]
pub struct PreAlpha {
    pub red: u32,
    pub green: u32,
    pub blue: u32,
    pub alpha: u8,
}

/// One channel of `color` at opacity `alpha`, premultiplied.
pub open spec fn premultiplied_channel(channel: u8, alpha: u8) -> int {
    channel as int * alpha as int
}

/// One channel of the source-over blend: the source plus what the source
/// lets through of the destination.
pub open spec fn blended_channel(src: u32, src_alpha: u8, dst: u32) -> int {
    src as int + dst as int * (255 - src_alpha as int) / 255
}

/// A premultiplied channel brought back to eight bits, rounding down.
pub open spec fn quantized_channel(value: u32) -> int {
    if value as int / 255 > 255 {
        255
    } else {
        value as int / 255
    }
}

/// The luma-weighted squared distance between two colours, scaled by 10 000
/// so that the channel weights 0.30, 0.59 and 0.11 are the integers 30, 59
/// and 11.
pub open spec fn weighted_dist(a: Rgb, b: Rgb) -> int {
    let dr = 30 * (a.red as int - b.red as int);
    let dg = 59 * (a.green as int - b.green as int);
    let db = 11 * (a.blue as int - b.blue as int);
    dr * dr + dg * dg + db * db
}

impl Rgb {
    /// The colour `self` at opacity `alpha`, as a premultiplied colour.
    pub open spec fn premultiplied(self, alpha: u8) -> PreAlpha {
        PreAlpha {
            red: premultiplied_channel(self.red, alpha) as u32,
            green: premultiplied_channel(self.green, alpha) as u32,
            blue: premultiplied_channel(self.blue, alpha) as u32,
            alpha,
        }
    }

    /// Gives the colour the opacity `alpha` and multiplies its channels by it.
    pub fn premultiply(self, alpha: u8) -> (out: PreAlpha)
        ensures
            out == self.premultiplied(alpha),
            out.well_formed(),
    {
        proof {
            lemma_product_bound(self.red as int, alpha as int);
            lemma_product_bound(self.green as int, alpha as int);
            lemma_product_bound(self.blue as int, alpha as int);
        }
        let a: u32 = alpha as u32;
        PreAlpha {
            red: self.red as u32 * a,
            green: self.green as u32 * a,
            blue: self.blue as u32 * a,
            alpha,
        }
    }
}

impl PreAlpha {
    /// No channel exceeds what the opacity allows.
    pub open spec fn well_formed(self) -> bool {
        &&& self.red <= 255 * self.alpha
        &&& self.green <= 255 * self.alpha
        &&& self.blue <= 255 * self.alpha
    }

    /// The stored channels read as an eight-bit colour.
    pub open spec fn quantized(self) -> Rgb {
        Rgb {
            red: quantized_channel(self.red) as u8,
            green: quantized_channel(self.green) as u8,
            blue: quantized_channel(self.blue) as u8,
        }
    }

    /// Reads the stored channels as an eight-bit colour, rounding each down
    /// and capping it at full intensity. The opacity is not divided out.
    pub fn color(self) -> (out: Rgb)
        ensures
            out == self.quantized(),
    {
        Rgb {
            red: quantize_channel(self.red),
            green: quantize_channel(self.green),
            blue: quantize_channel(self.blue),
        }
    }
}

/// The blend of `src` over `dst`, channel by channel, with the opacity of
/// `dst`.
pub open spec fn blended(src: PreAlpha, dst: PreAlpha) -> PreAlpha {
    PreAlpha {
        red: blended_channel(src.red, src.alpha, dst.red) as u32,
        green: blended_channel(src.green, src.alpha, dst.green) as u32,
        blue: blended_channel(src.blue, src.alpha, dst.blue) as u32,
        alpha: dst.alpha,
    }
}

fn quantize_channel(value: u32) -> (out: u8)
    ensures
        out as int == quantized_channel(value),
{
    let q: u32 = value / 255;
    if q > 255 {
        255
    } else {
        q as u8
    }
}

fn blend_channel(src: u32, src_alpha: u8, dst: u32) -> (out: u32)
    requires
        src <= 255 * src_alpha,
        dst <= PREMULTIPLIED_MAX,
    ensures
        out as int == blended_channel(src, src_alpha, dst),
        out <= PREMULTIPLIED_MAX,
{
    let through: u32 = 255 - src_alpha as u32;
    proof {
        lemma_share_bound(dst as int, through as int);
    }
    src + dst * through / 255
}

/// Source-over blending of two premultiplied colours onto an opaque
/// destination: each channel is `src + dst * (1 - src.alpha)`, and the result
/// keeps the opacity of `dst`.
pub fn blend_mode(src: PreAlpha, dst: PreAlpha) -> (out: PreAlpha)
    requires
        src.well_formed(),
        dst.well_formed(),
    ensures
        out == blended(src, dst),
        out.red <= PREMULTIPLIED_MAX,
        out.green <= PREMULTIPLIED_MAX,
        out.blue <= PREMULTIPLIED_MAX,
{
    PreAlpha {
        red: blend_channel(src.red, src.alpha, dst.red),
        green: blend_channel(src.green, src.alpha, dst.green),
        blue: blend_channel(src.blue, src.alpha, dst.blue),
        alpha: dst.alpha,
    }
}

fn weighted_square(a: u8, b: u8, weight: u32) -> (out: u32)
    requires
        weight <= 59,
    ensures
        out as int == (weight as int * (a as int - b as int)) * (weight as int * (a as int - b as int)),
        out <= 226352025,
{
    let gap: u32 = if a >= b {
        (a - b) as u32
    } else {
        (b - a) as u32
    };
    let ghost d: int = a as int - b as int;
    assert(weight * gap <= 15045) by (nonlinear_arith)
        requires
            weight <= 59,
            gap <= 255,
    ;
    let side: u32 = weight * gap;
    assert(side * side <= 226352025) by (nonlinear_arith)
        requires
            side <= 15045,
    ;
    assert(side as int * side as int == (weight as int * d) * (weight as int * d)) by (nonlinear_arith)
        requires
            side as int == weight as int * gap as int,
            gap as int == d || gap as int == -d,
    ;
    side * side
}

/// The luma-weighted squared distance between two colours.
pub fn color_dist(rgb1: Rgb, rgb2: Rgb) -> (out: u32)
    ensures
        out as int == weighted_dist(rgb1, rgb2),
{
    let dx: u32 = weighted_square(rgb1.red, rgb2.red, 30);
    let dy: u32 = weighted_square(rgb1.green, rgb2.green, 59);
    let dz: u32 = weighted_square(rgb1.blue, rgb2.blue, 11);
    dx + dy + dz
}

proof fn lemma_product_bound(channel: int, alpha: int)
    requires
        0 <= channel <= 255,
        0 <= alpha <= 255,
    ensures
        0 <= channel * alpha <= 255 * alpha,
        channel * alpha <= 65025,
{
    assert(0 <= channel * alpha <= 255 * alpha) by (nonlinear_arith)
        requires
            0 <= channel <= 255,
            0 <= alpha,
    ;
}

proof fn lemma_share_bound(dst: int, through: int)
    requires
        0 <= dst <= 65025,
        0 <= through <= 255,
    ensures
        0 <= dst * through <= 65025 * 255,
        0 <= dst * through / 255 <= 255 * through,
{
    assert(0 <= dst * through <= 65025 * through) by (nonlinear_arith)
        requires
            0 <= dst <= 65025,
            0 <= through,
    ;
    assert(dst * through / 255 <= 255 * through) by (nonlinear_arith)
        requires
            0 <= dst * through <= (255 * through) * 255,
    ;
}

/// Two colours are at distance zero exactly when they are the same colour.
pub proof fn lemma_dist_zero_iff_same(a: Rgb, b: Rgb)
    ensures
        weighted_dist(a, b) >= 0,
        weighted_dist(a, b) == 0 <==> a == b,
{
    let dr = 30 * (a.red as int - b.red as int);
    let dg = 59 * (a.green as int - b.green as int);
    let db = 11 * (a.blue as int - b.blue as int);
    assert(dr * dr >= 0 && (dr * dr == 0 ==> dr == 0)) by (nonlinear_arith);
    assert(dg * dg >= 0 && (dg * dg == 0 ==> dg == 0)) by (nonlinear_arith);
    assert(db * db >= 0 && (db * db == 0 ==> db == 0)) by (nonlinear_arith);
}

} // verus!
