//! Pixels and the per-channel arithmetic behind every colour operation.

use vstd::prelude::*;

verus! {

/// A single pixel: three independent 8-bit colour channels and no alpha
/// channel. Transparency is handled at the operation level through
/// chroma-key tolerances, never stored. Equality is exact per channel.
#[derive(Clone, Copy, Debug, PartialEq, Eq, Structural)]
pub struct Pixel {
    /// Red component of the pixel.
    pub r: u8,
    /// Green component of the pixel.
    pub g: u8,
    /// Blue component of the pixel.
    pub b: u8,
}

/// The value `current + (target - current) * (num/den)` as a real number,
/// truncated to an integer: one channel moved toward `target` by the
/// strength `num/den`.
pub open spec fn lerp_channel(current: u8, target: u8, num: int, den: int) -> int
    recommends
        0 < den,
        0 <= num <= den,
{
    (current * (den - num) + target * num) / den
}

/// A truncated interpolation between two channel values stays within the
/// 8-bit channel range.
pub proof fn lemma_lerp_channel_bounds(current: u8, target: u8, num: int, den: int)
    requires
        0 < den,
        0 <= num <= den,
    ensures
        0 <= lerp_channel(current, target, num, den) <= 255,
{
    let numer = current * (den - num) + target * num;
    assert(0 <= current * (den - num) <= 255 * (den - num)) by (nonlinear_arith)
        requires
            0 <= current <= 255,
            0 <= den - num,
    ;
    assert(0 <= target * num <= 255 * num) by (nonlinear_arith)
        requires
            0 <= target <= 255,
            0 <= num,
    ;
    assert(numer <= den * 255) by (nonlinear_arith)
        requires
            numer <= 255 * (den - num) + 255 * num,
    ;
    vstd::arithmetic::div_mod::lemma_div_pos_is_pos(numer, den);
    vstd::arithmetic::div_mod::lemma_multiply_divide_le(numer, den, 255);
}

/// The pixel obtained by interpolating every channel of `p` toward the
/// corresponding channel of `color` by the strength `num/den`.
pub open spec fn tint_pixel(p: Pixel, color: Pixel, num: int, den: int) -> Pixel {
    Pixel {
        r: lerp_channel(p.r, color.r, num, den) as u8,
        g: lerp_channel(p.g, color.g, num, den) as u8,
        b: lerp_channel(p.b, color.b, num, den) as u8,
    }
}

/// The integer-truncated average of the three channels of `p`.
pub open spec fn mono_channel(p: Pixel) -> int {
    (p.r + p.g + p.b) / 3
}

/// The monochrome image of `p`: every channel replaced by the truncated
/// average of the original three channels (not a luminance-weighted
/// average).
pub open spec fn mono_pixel(p: Pixel) -> Pixel {
    Pixel {
        r: mono_channel(p) as u8,
        g: mono_channel(p) as u8,
        b: mono_channel(p) as u8,
    }
}

/// The absolute difference of two channel values.
pub open spec fn channel_diff(a: u8, b: u8) -> int {
    if a >= b {
        a - b
    } else {
        b - a
    }
}

/// Whether `p` counts as transparent against the chroma key `key`: every
/// channel's absolute difference from the key is at most `tolerance`.
pub open spec fn chroma_matches(p: Pixel, key: Pixel, tolerance: u8) -> bool {
    channel_diff(p.r, key.r) <= tolerance && channel_diff(p.g, key.g) <= tolerance
        && channel_diff(p.b, key.b) <= tolerance
}

fn lerp_channel_exec(current: u8, target: u8, num: u64, den: u64) -> (res: u8)
    requires
        0 < den,
        num <= den,
    ensures
        res == lerp_channel(current, target, num as int, den as int),
{
    proof {
        lemma_lerp_channel_bounds(current, target, num as int, den as int);
        vstd::arithmetic::mul::lemma_mul_upper_bound(
            current as int,
            255,
            (den - num) as int,
            u64::MAX as int,
        );
        vstd::arithmetic::mul::lemma_mul_upper_bound(target as int, 255, num as int, u64::MAX as int);
    }
    let numer: u128 = (current as u128) * ((den - num) as u128) + (target as u128) * (num as u128);
    (numer / (den as u128)) as u8
}

impl Pixel {
    /// Builds a pixel from its three channels.
    pub fn new(r: u8, g: u8, b: u8) -> (p: Pixel)
        ensures
            p == (Pixel { r, g, b }),
    {
        Pixel { r, g, b }
    }

    /// This pixel interpolated toward `color` by the strength `num/den`,
    /// with the arithmetic of each channel truncated to an integer.
    pub fn tinted(self, color: Pixel, num: u64, den: u64) -> (q: Pixel)
        requires
            0 < den,
            num <= den,
        ensures
            q == tint_pixel(self, color, num as int, den as int),
    {
        Pixel {
            r: lerp_channel_exec(self.r, color.r, num, den),
            g: lerp_channel_exec(self.g, color.g, num, den),
            b: lerp_channel_exec(self.b, color.b, num, den),
        }
    }

    /// The monochrome image of this pixel: all three channels set to the
    /// truncated average of the original channels.
    pub fn monochromed(self) -> (q: Pixel)
        ensures
            q == mono_pixel(self),
    {
        let sum: u32 = self.r as u32 + self.g as u32 + self.b as u32;
        let avg: u8 = (sum / 3) as u8;
        Pixel { r: avg, g: avg, b: avg }
    }

    /// Whether this pixel counts as transparent against the chroma key
    /// `key` with the per-channel threshold `tolerance`.
    pub fn matches_chroma_key(self, key: Pixel, tolerance: u8) -> (m: bool)
        ensures
            m == chroma_matches(self, key, tolerance),
    {
        let dr: u8 = if self.r >= key.r {
            self.r - key.r
        } else {
            key.r - self.r
        };
        let dg: u8 = if self.g >= key.g {
            self.g - key.g
        } else {
            key.g - self.g
        };
        let db: u8 = if self.b >= key.b {
            self.b - key.b
        } else {
            key.b - self.b
        };
        dr <= tolerance && dg <= tolerance && db <= tolerance
    }
}

/// Tinting with strength 0 leaves a pixel unchanged.
pub proof fn lemma_tint_pixel_zero(p: Pixel, color: Pixel, den: int)
    requires
        0 < den,
    ensures
        tint_pixel(p, color, 0, den) == p,
{
    vstd::arithmetic::div_mod::lemma_div_by_multiple(p.r as int, den);
    vstd::arithmetic::div_mod::lemma_div_by_multiple(p.g as int, den);
    vstd::arithmetic::div_mod::lemma_div_by_multiple(p.b as int, den);
}

/// Tinting with strength 1 replaces every channel exactly by the target
/// colour's channel.
pub proof fn lemma_tint_pixel_full(p: Pixel, color: Pixel, den: int)
    requires
        0 < den,
    ensures
        tint_pixel(p, color, den, den) == color,
{
    vstd::arithmetic::div_mod::lemma_div_by_multiple(color.r as int, den);
    vstd::arithmetic::div_mod::lemma_div_by_multiple(color.g as int, den);
    vstd::arithmetic::div_mod::lemma_div_by_multiple(color.b as int, den);
}

/// Turning a pixel monochrome twice gives the same pixel as doing it once.
pub proof fn lemma_mono_pixel_idempotent(p: Pixel)
    ensures
        mono_pixel(mono_pixel(p)) == mono_pixel(p),
{
    let a = mono_channel(p);
    assert(0 <= a <= 255);
    vstd::arithmetic::div_mod::lemma_div_by_multiple(a, 3);
    assert(a * 3 == a + a + a) by (nonlinear_arith);
}

} // verus!
