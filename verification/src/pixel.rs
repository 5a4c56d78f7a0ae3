//! Pixels and the per-channel arithmetic of the format: every channel is an
//! 8-bit unsigned value and every delta is added with wraparound (modulo
//! 256, no clamping), as well as the content hash that addresses the
//! 64-slot running cache.

use vstd::prelude::*;

verus! {

/// One pixel: four 8-bit channels.
#[derive(Clone, Copy, Debug, PartialEq, Eq, Structural)]
pub struct Pixel {
    pub r: u8,
    pub g: u8,
    pub b: u8,
    pub a: u8,
}

impl Pixel {
    /// Fully transparent black: the decoder's starting pixel and the content
    /// of a cache slot that was never populated.
    pub open spec fn zero() -> Pixel {
        Pixel { r: 0, g: 0, b: 0, a: 0 }
    }
}

/// `v` reduced modulo 256: the wraparound that every channel-level addition
/// or subtraction of the format performs.
pub open spec fn wrap(v: int) -> u8 {
    (v % 256) as u8
}

/// The cache slot addressed by a pixel: a fixed-coefficient content hash of
/// its four channels, always in `0..64`.
pub open spec fn pixel_hash(p: Pixel) -> int {
    (p.r * 3 + p.g * 5 + p.b * 7 + p.a * 11) % 64
}

/// The pixel produced by a small-diff chunk: three 2-bit fields of the tag
/// byte (bits 5-4, 3-2, 1-0), each biased by -2, are added to the previous
/// pixel's red, green and blue channels with wraparound. Alpha is unchanged.
pub open spec fn diff_pixel(prev: Pixel, tag: u8) -> Pixel {
    Pixel {
        r: wrap(prev.r + ((tag >> 4) & 3) - 2),
        g: wrap(prev.g + ((tag >> 2) & 3) - 2),
        b: wrap(prev.b + (tag & 3) - 2),
        a: prev.a,
    }
}

/// The pixel produced by a luma chunk: the tag byte's low 6 bits give a
/// green delta biased by -32; the second byte's high and low nibbles give
/// red-minus-green and blue-minus-green deltas biased by -8. All additions
/// wrap. Alpha is unchanged.
pub open spec fn luma_pixel(prev: Pixel, b0: u8, b1: u8) -> Pixel {
    let dg: int = (b0 & 0x3F) - 32;
    Pixel {
        r: wrap(prev.r + dg + ((b1 >> 4) & 0x0F) - 8),
        g: wrap(prev.g + dg),
        b: wrap(prev.b + dg + (b1 & 0x0F) - 8),
        a: prev.a,
    }
}

/// The output samples of one pixel at the given channel stride: red, green,
/// blue, and the alpha channel only when four channels are stored.
pub open spec fn pixel_bytes(p: Pixel, channels: int) -> Seq<u8> {
    if channels == 4 {
        seq![p.r, p.g, p.b, p.a]
    } else {
        seq![p.r, p.g, p.b]
    }
}

/// The raster bytes of a whole pixel sequence at the given channel stride.
pub open spec fn samples_of(ps: Seq<Pixel>, channels: int) -> Seq<u8>
    decreases ps.len(),
{
    if ps.len() == 0 {
        Seq::empty()
    } else {
        samples_of(ps.drop_last(), channels) + pixel_bytes(ps.last(), channels)
    }
}

pub proof fn lemma_samples_of_len(ps: Seq<Pixel>, channels: int)
    requires
        channels == 3 || channels == 4,
    ensures
        samples_of(ps, channels).len() == ps.len() * channels,
    decreases ps.len(),
{
    if ps.len() > 0 {
        lemma_samples_of_len(ps.drop_last(), channels);
    }
}

pub proof fn lemma_samples_of_push(ps: Seq<Pixel>, p: Pixel, channels: int)
    ensures
        samples_of(ps.push(p), channels) == samples_of(ps, channels) + pixel_bytes(p, channels),
{
    assert(ps.push(p).drop_last() =~= ps);
    assert(ps.push(p).last() == p);
}

/// A pixel's cache slot lies in the cache's 64 entries.
pub proof fn lemma_pixel_hash_bound(p: Pixel)
    ensures
        0 <= pixel_hash(p) < 64,
{
    vstd::arithmetic::div_mod::lemma_mod_bound(
        p.r * 3 + p.g * 5 + p.b * 7 + p.a * 11,
        64,
    );
}

/// Wrapping a value already in channel range leaves it unchanged.
pub proof fn lemma_wrap_identity(x: u8)
    ensures
        wrap(x as int) == x,
{
    vstd::arithmetic::div_mod::lemma_small_mod(x as nat, 256);
}

/// Adds a biased delta to one channel with 8-bit wraparound: the result is
/// `x + d - bias` reduced modulo 256.
pub(crate) fn add_delta(x: u8, d: u16, bias: u16) -> (r: u8)
    requires
        d <= 512,
        bias <= 512,
    ensures
        r == wrap(x + d - bias),
{
    let v: u32 = x as u32 + d as u32 + 512 - bias as u32;
    proof {
        vstd::arithmetic::div_mod::lemma_mod_multiples_vanish(2, x + d - bias, 256);
    }
    (v % 256) as u8
}

/// The running cache's slot for a pixel.
pub(crate) fn hash(p: Pixel) -> (h: usize)
    ensures
        h == pixel_hash(p),
        h < 64,
{
    (p.r as usize * 3 + p.g as usize * 5 + p.b as usize * 7 + p.a as usize * 11) % 64
}

} // verus!
