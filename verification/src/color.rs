use vstd::prelude::*;

verus! {

/// A color with premultiplied alpha, 8 bits per channel.
#[derive(Clone, Copy, Debug, PartialEq, Eq, Structural)]
pub struct PremulRgba8 {
    pub r: u8,
    pub g: u8,
    pub b: u8,
    pub a: u8,
}

impl PremulRgba8 {
    /// In a premultiplied color every color channel is scaled by the alpha
    /// channel, so no channel exceeds it. Integer source-over compositing
    /// relies on this bound to stay within 16 bits.
    pub open spec fn premultiplied(self) -> bool {
        self.r <= self.a && self.g <= self.a && self.b <= self.a
    }

    /// Transparent black, the initial value of every scratch pixel.
    pub fn transparent() -> (c: Self)
        ensures
            c == transparent_color(),
    {
        PremulRgba8 { r: 0, g: 0, b: 0, a: 0 }
    }
}

/// Transparent black.
pub open spec fn transparent_color() -> PremulRgba8 {
    PremulRgba8 { r: 0, g: 0, b: 0, a: 0 }
}

/// One channel scaled by a coverage value in `[0, 255]`, biased down.
pub open spec fn scale_channel(c: u8, alpha: u8) -> u8 {
    ((c * alpha) / 255) as u8
}

/// A color modulated by a coverage value: every channel, alpha included,
/// is scaled by `alpha / 255`.
pub open spec fn mul_alpha_spec(color: PremulRgba8, alpha: u8) -> PremulRgba8 {
    PremulRgba8 {
        r: scale_channel(color.r, alpha),
        g: scale_channel(color.g, alpha),
        b: scale_channel(color.b, alpha),
        a: scale_channel(color.a, alpha),
    }
}

/// One channel of `above` composited over one channel of `under`:
/// `(above * 255 + under * (255 - above_alpha)) / 255`.
pub open spec fn over_channel(above: u8, under: u8, above_alpha: u8) -> u8 {
    ((above * 255 + under * (255 - above_alpha)) / 255) as u8
}

/// Source-over compositing of premultiplied colors, channel by channel.
pub open spec fn over_spec(under: PremulRgba8, above: PremulRgba8) -> PremulRgba8 {
    PremulRgba8 {
        r: over_channel(above.r, under.r, above.a),
        g: over_channel(above.g, under.g, above.a),
        b: over_channel(above.b, under.b, above.a),
        a: over_channel(above.a, under.a, above.a),
    }
}

/// Multiply the alpha over a color.
pub fn mul_alpha(color: PremulRgba8, alpha: u8) -> (result: PremulRgba8)
    ensures
        result == mul_alpha_spec(color, alpha),
        color.premultiplied() ==> result.premultiplied(),
{
    proof {
        lemma_scale_channel_fits(color.r, alpha);
        lemma_scale_channel_fits(color.g, alpha);
        lemma_scale_channel_fits(color.b, alpha);
        lemma_scale_channel_fits(color.a, alpha);
        if color.premultiplied() {
            lemma_scale_channel_le(color.r, color.a, alpha);
            lemma_scale_channel_le(color.g, color.a, alpha);
            lemma_scale_channel_le(color.b, color.a, alpha);
        }
    }
    PremulRgba8 {
        r: ((color.r as u16 * alpha as u16) / 255) as u8,
        g: ((color.g as u16 * alpha as u16) / 255) as u8,
        b: ((color.b as u16 * alpha as u16) / 255) as u8,
        a: ((color.a as u16 * alpha as u16) / 255) as u8,
    }
}

/// Composite one color over another.
///
/// Both colors must be premultiplied: the 16-bit blend
/// `above * 255 + under * (255 - above.a)` fits only because every color
/// channel is bounded by its alpha channel.
pub fn over(under: PremulRgba8, above: PremulRgba8) -> (result: PremulRgba8)
    requires
        under.premultiplied(),
        above.premultiplied(),
    ensures
        result == over_spec(under, above),
        result.premultiplied(),
{
    proof {
        lemma_over_channel_bound(above.r, under.r, above.a, under.a);
        lemma_over_channel_bound(above.g, under.g, above.a, under.a);
        lemma_over_channel_bound(above.b, under.b, above.a, under.a);
        lemma_over_channel_bound(above.a, under.a, above.a, under.a);
    }
    PremulRgba8 {
        r: ((above.r as u16 * 255 + under.r as u16 * (255 - above.a) as u16) / 255) as u8,
        g: ((above.g as u16 * 255 + under.g as u16 * (255 - above.a) as u16) / 255) as u8,
        b: ((above.b as u16 * 255 + under.b as u16 * (255 - above.a) as u16) / 255) as u8,
        a: ((above.a as u16 * 255 + under.a as u16 * (255 - above.a) as u16) / 255) as u8,
    }
}

/// The product of two channel values fits in 16 bits, and its biased-down
/// division by 255 fits in one byte.
proof fn lemma_scale_channel_fits(c: u8, alpha: u8)
    ensures
        c * alpha <= 255 * 255,
        (c * alpha) / 255 <= 255,
{
    assert(c * alpha <= 255 * 255) by (nonlinear_arith)
        requires
            c <= 255,
            alpha <= 255,
    ;
}

/// A scaled channel never exceeds the equally scaled alpha channel.
proof fn lemma_scale_channel_le(c: u8, a: u8, alpha: u8)
    requires
        c <= a,
    ensures
        (c * alpha) / 255 <= (a * alpha) / 255,
{
    assert(c * alpha <= a * alpha) by (nonlinear_arith)
        requires
            c <= a,
    ;
    assert((c * alpha) / 255 <= (a * alpha) / 255) by (nonlinear_arith)
        requires
            c * alpha <= a * alpha,
    ;
}

/// The blended channel stays within one byte and below the blended alpha,
/// provided each input channel is bounded by its own alpha.
proof fn lemma_over_channel_bound(above_c: u8, under_c: u8, above_a: u8, under_a: u8)
    requires
        above_c <= above_a,
        under_c <= under_a,
    ensures
        above_c * 255 + under_c * (255 - above_a) <= 255 * 255,
        (above_c * 255 + under_c * (255 - above_a)) / 255
            <= (above_a * 255 + under_a * (255 - above_a)) / 255,
        (above_a * 255 + under_a * (255 - above_a)) / 255 <= 255,
{
    assert(above_c * 255 + under_c * (255 - above_a) <= above_a * 255 + under_a * (255
        - above_a)) by (nonlinear_arith)
        requires
            above_c <= above_a,
            under_c <= under_a,
            above_a <= 255,
    ;
    assert(above_a * 255 + under_a * (255 - above_a) <= 255 * 255) by (nonlinear_arith)
        requires
            under_a <= 255,
            above_a <= 255,
    ;
    assert((above_c * 255 + under_c * (255 - above_a)) / 255 <= (above_a * 255 + under_a * (255
        - above_a)) / 255) by (nonlinear_arith)
        requires
            above_c * 255 + under_c * (255 - above_a) <= above_a * 255 + under_a * (255 - above_a),
    ;
}

/// Law: compositing an opaque color over any color yields exactly that
/// color: opaque fills need no blending.
pub proof fn lemma_over_opaque(under: PremulRgba8, above: PremulRgba8)
    requires
        above.a == 255,
    ensures
        over_spec(under, above) == above,
{
    assert(over_channel(above.r, under.r, 255) == above.r) by (nonlinear_arith);
    assert(over_channel(above.g, under.g, 255) == above.g) by (nonlinear_arith);
    assert(over_channel(above.b, under.b, 255) == above.b) by (nonlinear_arith);
    assert(over_channel(above.a, under.a, 255) == above.a) by (nonlinear_arith);
}

/// Law: compositing transparent black over a color leaves the color
/// unchanged: pixels a path does not touch keep their value.
pub proof fn lemma_over_transparent(under: PremulRgba8)
    ensures
        over_spec(under, transparent_color()) == under,
{
    assert(over_channel(0, under.r, 0) == under.r) by (nonlinear_arith);
    assert(over_channel(0, under.g, 0) == under.g) by (nonlinear_arith);
    assert(over_channel(0, under.b, 0) == under.b) by (nonlinear_arith);
    assert(over_channel(0, under.a, 0) == under.a) by (nonlinear_arith);
}

/// Law: a full coverage byte leaves a color exactly unchanged.
pub proof fn lemma_mul_alpha_full(color: PremulRgba8)
    ensures
        mul_alpha_spec(color, 255) == color,
{
    assert(scale_channel(color.r, 255) == color.r) by (nonlinear_arith);
    assert(scale_channel(color.g, 255) == color.g) by (nonlinear_arith);
    assert(scale_channel(color.b, 255) == color.b) by (nonlinear_arith);
    assert(scale_channel(color.a, 255) == color.a) by (nonlinear_arith);
}

/// Law: a zero coverage byte yields transparent black exactly.
pub proof fn lemma_mul_alpha_zero(color: PremulRgba8)
    ensures
        mul_alpha_spec(color, 0) == transparent_color(),
{
}

} // verus!
