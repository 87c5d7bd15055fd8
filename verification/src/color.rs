//! Linear colour values in 16-bit fixed point.
//!
//! A channel value of `CHANNEL_MAX` stands for full intensity (1.0 in the
//! usual floating-point convention); `0` is black.  Alpha is straight (not
//! premultiplied).  Blending weights are fractions `num / den` of integers.

use vstd::prelude::*;

use crate::srgb::{srgb_quantize, srgb_u8};

verus! {

/// Full intensity of one colour channel.
pub const CHANNEL_MAX: u16 = 65535;

/// One RGBA pixel, linear colour, straight alpha.
#[derive(Clone, Copy, Debug, PartialEq, Eq, Structural)]
pub struct Rgba {
    pub red: u16,
    pub green: u16,
    pub blue: u16,
    pub alpha: u16,
}

impl Default for Rgba {
    /// Transparent black.
    fn default() -> (c: Rgba)
        ensures
            c == Rgba::black(),
    {
        Rgba { red: 0, green: 0, blue: 0, alpha: 0 }
    }
}

impl Rgba {
    pub open spec fn black() -> Rgba {
        Rgba { red: 0, green: 0, blue: 0, alpha: 0 }
    }

    pub fn new(red: u16, green: u16, blue: u16, alpha: u16) -> (c: Rgba)
        ensures
            c == (Rgba { red, green, blue, alpha }),
    {
        Rgba { red, green, blue, alpha }
    }

    /// Linear interpolation of every channel from `self` toward `to` by the
    /// fraction `num / den`.
    pub fn mix(&self, to: &Rgba, num: u16, den: u16) -> (c: Rgba)
        requires
            0 < den,
            num <= den,
        ensures
            c == mix_rgba(*self, *to, num as int, den as int),
    {
        Rgba {
            red: mix_channel(self.red, to.red, num, den),
            green: mix_channel(self.green, to.green, num, den),
            blue: mix_channel(self.blue, to.blue, num, den),
            alpha: mix_channel(self.alpha, to.alpha, num, den),
        }
    }
}

/// Weighted average `(a * (den - num) + b * num) / den`, the integer form of
/// `a + (b - a) * (num / den)`.
pub open spec fn mix_ch(a: int, b: int, num: int, den: int) -> int {
    (a * (den - num) + b * num) / den
}

pub open spec fn mix_rgba(from: Rgba, to: Rgba, num: int, den: int) -> Rgba {
    Rgba {
        red: mix_ch(from.red as int, to.red as int, num, den) as u16,
        green: mix_ch(from.green as int, to.green as int, num, den) as u16,
        blue: mix_ch(from.blue as int, to.blue as int, num, den) as u16,
        alpha: mix_ch(from.alpha as int, to.alpha as int, num, den) as u16,
    }
}

/// A weighted average of two channel values stays on the channel scale.
pub proof fn lemma_mix_ch_bounds(a: int, b: int, num: int, den: int)
    requires
        0 <= a <= CHANNEL_MAX,
        0 <= b <= CHANNEL_MAX,
        0 < den,
        0 <= num <= den,
    ensures
        0 <= mix_ch(a, b, num, den) <= CHANNEL_MAX,
        a == b ==> mix_ch(a, b, num, den) == a,
{
    assert(0 <= a * (den - num) + b * num <= CHANNEL_MAX * den) by (nonlinear_arith)
        requires
            0 <= a <= CHANNEL_MAX,
            0 <= b <= CHANNEL_MAX,
            0 < den,
            0 <= num <= den,
    ;
    assert(0 <= (a * (den - num) + b * num) / den <= CHANNEL_MAX) by (nonlinear_arith)
        requires
            0 < den,
            0 <= a * (den - num) + b * num <= CHANNEL_MAX * den,
    ;
    assert(a == b ==> a * (den - num) + b * num == a * den) by (nonlinear_arith);
    assert(a * den / den == a) by (nonlinear_arith)
        requires
            0 < den,
    ;
}

pub fn mix_channel(a: u16, b: u16, num: u16, den: u16) -> (r: u16)
    requires
        0 < den,
        num <= den,
    ensures
        r == mix_ch(a as int, b as int, num as int, den as int),
{
    proof {
        lemma_mix_ch_bounds(a as int, b as int, num as int, den as int);
        assert(a * (den - num) <= 65535 * 65535) by (nonlinear_arith)
            requires
                a <= 65535,
                den - num <= 65535,
                0 <= num <= den,
        ;
        assert(b * num <= 65535 * 65535) by (nonlinear_arith)
            requires
                b <= 65535,
                num <= 65535,
                0 <= num,
        ;
    }
    let v: u64 = (a as u64) * ((den - num) as u64) + (b as u64) * (num as u64);
    (v / (den as u64)) as u16
}

/// Channel values at or below this are extinguished outright by `fade`
/// (one twenty-fifth of a percent of full scale, the tail end of a decay).
pub const FADE_FLOOR: u16 = 2570;

/// One decay step of a channel toward black: a value at or below the floor
/// goes out; above it, the value loses `fade_value / 256` of itself, never
/// dropping below zero.
pub open spec fn fade_spec(val: int, fade_value: int) -> int {
    if val <= FADE_FLOOR {
        0
    } else {
        let d = (val * fade_value) / 256;
        if d >= val {
            0
        } else {
            val - d
        }
    }
}

pub fn fade(val: u16, fade_value: u16) -> (r: u16)
    ensures
        r == fade_spec(val as int, fade_value as int),
{
    if val <= FADE_FLOOR {
        return 0;
    }
    proof {
        assert(val * fade_value <= 65535 * 65535) by (nonlinear_arith)
            requires
                val <= 65535,
                fade_value <= 65535,
                0 <= val,
                0 <= fade_value,
        ;
        assert(0 <= (val as int * fade_value as int) / 256) by (nonlinear_arith)
            requires
                0 <= val * fade_value,
        ;
    }
    let d: u64 = ((val as u64) * (fade_value as u64)) / 256;
    if d >= val as u64 {
        0
    } else {
        val - (d as u16)
    }
}

/// Decay the colour channels of one pixel toward black, each by its own
/// rate; the alpha channel is left alone.
pub fn fade_to_black_col(led: &mut Rgba, fade_r: u16, fade_g: u16, fade_b: u16)
    ensures
        final(led).red == fade_spec(old(led).red as int, fade_r as int),
        final(led).green == fade_spec(old(led).green as int, fade_g as int),
        final(led).blue == fade_spec(old(led).blue as int, fade_b as int),
        final(led).alpha == old(led).alpha,
{
    led.red = fade(led.red, fade_r);
    led.green = fade(led.green, fade_g);
    led.blue = fade(led.blue, fade_b);
}

/// Scale a channel by the factor `f / CHANNEL_MAX`.
pub open spec fn scale_ch(c: int, f: int) -> int {
    (c * f) / (CHANNEL_MAX as int)
}

/// Scaling by a factor on the channel scale stays on the channel scale.
pub proof fn lemma_scale_ch_bounds(c: int, f: int)
    requires
        0 <= c <= CHANNEL_MAX,
        0 <= f <= CHANNEL_MAX,
    ensures
        0 <= scale_ch(c, f) <= CHANNEL_MAX,
{
    assert(0 <= c * f <= CHANNEL_MAX * CHANNEL_MAX) by (nonlinear_arith)
        requires
            0 <= c <= CHANNEL_MAX,
            0 <= f <= CHANNEL_MAX,
    ;
    assert(0 <= (c * f) / (CHANNEL_MAX as int) <= CHANNEL_MAX) by (nonlinear_arith)
        requires
            0 <= c * f <= CHANNEL_MAX * CHANNEL_MAX,
    ;
}

/// What one channel of a stored pixel becomes in the transport frame:
/// composite onto black by the straight alpha, scale by the global
/// brightness, then quantize to 8 bits — through the sRGB transfer function
/// when `as_srgb` is set, linearly otherwise.
pub open spec fn encode_ch(ch: int, alpha: int, brightness: int, as_srgb: bool) -> int {
    let f = scale_ch(alpha, brightness);
    let lin = scale_ch(ch, f);
    if as_srgb {
        srgb_u8(lin)
    } else {
        lin / 257
    }
}

pub proof fn lemma_encode_ch_bounds(ch: int, alpha: int, brightness: int, as_srgb: bool)
    requires
        0 <= ch <= CHANNEL_MAX,
        0 <= alpha <= CHANNEL_MAX,
        0 <= brightness <= CHANNEL_MAX,
    ensures
        0 <= encode_ch(ch, alpha, brightness, as_srgb) <= 255,
{
    lemma_scale_ch_bounds(alpha, brightness);
    let f = scale_ch(alpha, brightness);
    lemma_scale_ch_bounds(ch, f);
    let lin = scale_ch(ch, f);
    if as_srgb {
        assert(0 <= srgb_u8(lin) <= 255);
    }
}

pub fn encode_channel(ch: u16, alpha: u16, brightness: u16, as_srgb: bool) -> (r: u8)
    ensures
        r == encode_ch(ch as int, alpha as int, brightness as int, as_srgb),
{
    proof {
        lemma_scale_ch_bounds(alpha as int, brightness as int);
        lemma_scale_ch_bounds(ch as int, scale_ch(alpha as int, brightness as int));
        lemma_encode_ch_bounds(ch as int, alpha as int, brightness as int, as_srgb);
        assert((alpha as int) * (brightness as int) <= CHANNEL_MAX * CHANNEL_MAX) by (nonlinear_arith)
            requires
                alpha <= CHANNEL_MAX,
                brightness <= CHANNEL_MAX,
        ;
    }
    let f: u32 = ((alpha as u32) * (brightness as u32)) / 65535;
    proof {
        assert((ch as int) * (f as int) <= CHANNEL_MAX * CHANNEL_MAX) by (nonlinear_arith)
            requires
                ch <= CHANNEL_MAX,
                0 <= f <= CHANNEL_MAX,
        ;
    }
    let lin: u32 = ((ch as u32) * f) / 65535;
    if as_srgb {
        srgb_quantize(lin)
    } else {
        (lin / 257) as u8
    }
}

} // verus!
