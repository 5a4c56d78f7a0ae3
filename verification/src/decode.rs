//! The executable decoder: header parsing and the chunk-stream loop, proved
//! to return exactly what the model in `stream` says for every input buffer.

use vstd::prelude::*;

use crate::pixel::{
    add_delta, diff_pixel, hash, lemma_samples_of_len, lemma_samples_of_push, luma_pixel,
    pixel_bytes, samples_of, Pixel,
};
use crate::stream::{
    be32_at, chunk_pixel, decode_chunks, decode_pixels, decode_result, header_channels,
    header_fmt, header_height, header_ok, header_width, init_cache, lemma_chunks_full,
    lemma_chunks_missing, lemma_chunks_missing_tail, lemma_chunks_step_pixel,
    lemma_chunks_step_run, optag_of, run_len, Optag,
};

verus! {

/// A decoded raster image: `data` holds `width * height` pixels, each as 3
/// or 4 consecutive sample bytes depending on `fmt`.
#[derive(Debug)]
pub struct Img {
    pub width: u32,
    pub height: u32,
    pub fmt: ImgFmt,
    pub data: Vec<u8>,
}

/// Why a decode failed. All three are terminal: no partial image is ever
/// returned.
#[derive(Clone, Copy, Debug, PartialEq, Eq, Structural)]
pub enum DecodeError {
    /// The header is structurally invalid or declares unsupported fields.
    MalformedHeader,
    /// The declared dimensions imply more chunk bytes than are present.
    MissingData,
    /// The source path could not be read; produced by the I/O layer that
    /// hands the decoder its buffer, never by the decoder itself.
    FailedToReadFile,
}

/// The four pixel formats: a color-space flag (sRGB/gamma or linear)
/// crossed with a channel count (3 or 4).
#[derive(Clone, Copy, Debug, PartialEq, Eq, Structural)]
pub enum ImgFmt {
    SRGB,
    SRGBA,
    LinearRGB,
    LinearRGBA,
}

/// `Ok` exactly when byte `i` exists, else the stream is truncated.
fn assert_capacity(bytes: &Vec<u8>, i: usize) -> (r: Result<(), DecodeError>)
    ensures
        match r {
            Ok(_) => i < bytes@.len(),
            Err(e) => i >= bytes@.len() && e == DecodeError::MissingData,
        },
{
    if i >= bytes.len() {
        Err(DecodeError::MissingData)
    } else {
        Ok(())
    }
}

/// Reads the big-endian 32-bit integer at offset `i`.
fn pop_u32(bytes: &Vec<u8>, i: usize) -> (v: u32)
    requires
        i + 4 <= bytes.len(),
    ensures
        v == be32_at(bytes@, i as int),
{
    (bytes[i] as u32) * 0x1000000 + (bytes[i + 1] as u32) * 0x10000 + (bytes[i + 2] as u32) * 0x100
        + (bytes[i + 3] as u32)
}

/// Appends one pixel's samples to the raster at the given stride.
fn push_pixel(data: &mut Vec<u8>, p: Pixel, channels: u8)
    requires
        channels == 3 || channels == 4,
    ensures
        final(data)@ == old(data)@ + pixel_bytes(p, channels as int),
{
    data.push(p.r);
    data.push(p.g);
    data.push(p.b);
    if channels == 4 {
        data.push(p.a);
    }
    proof {
        assert(data@ =~= old(data)@ + pixel_bytes(p, channels as int));
    }
}

impl Img {
    /// Decodes a whole byte buffer: the header, then the chunk stream until
    /// the raster is full. Returns the image the model assigns to the
    /// buffer, or its exact error: `MalformedHeader` iff the header is
    /// invalid or oversized, `MissingData` iff the stream ends early.
    #[verifier::rlimit(100)]
    pub fn from_bytes(bytes: Vec<u8>) -> (r: Result<Img, DecodeError>)
        ensures
            match r {
                Ok(img) => {
                    &&& decode_result(bytes@) == Ok::<Seq<u8>, DecodeError>(img.data@)
                    &&& img.width == header_width(bytes@)
                    &&& img.height == header_height(bytes@)
                    &&& img.fmt == header_fmt(bytes@)
                    &&& img.data@.len() == header_width(bytes@) * header_height(bytes@)
                        * header_channels(bytes@)
                },
                Err(e) => decode_result(bytes@) == Err::<Seq<u8>, DecodeError>(e),
            },
    {
        if bytes.len() < 14 {
            return Err(DecodeError::MalformedHeader);
        }
        if !(bytes[0] == 0x71 && bytes[1] == 0x6F && bytes[2] == 0x69 && bytes[3] == 0x66) {
            return Err(DecodeError::MalformedHeader);
        }
        let width = pop_u32(&bytes, 4);
        let height = pop_u32(&bytes, 8);
        let (fmt, channels): (ImgFmt, u8) = match (bytes[12], bytes[13]) {
            (3, 0) => (ImgFmt::SRGB, 3),
            (4, 0) => (ImgFmt::SRGBA, 4),
            (3, 1) => (ImgFmt::LinearRGB, 3),
            (4, 1) => (ImgFmt::LinearRGBA, 4),
            _ => {
                return Err(DecodeError::MalformedHeader);
            },
        };
        proof {
            assert(header_ok(bytes@));
            assert(channels == header_channels(bytes@));
            assert(fmt == header_fmt(bytes@));
        }

        proof {
            vstd::arithmetic::mul::lemma_mul_upper_bound(
                width as int,
                u32::MAX as int,
                height as int,
                u32::MAX as int,
            );
        }
        let px_wide: u128 = (width as u128) * (height as u128);
        proof {
            vstd::arithmetic::mul::lemma_mul_upper_bound(
                px_wide as int,
                u32::MAX as int * u32::MAX as int,
                channels as int,
                4,
            );
        }
        if px_wide * (channels as u128) > usize::MAX as u128 {
            return Err(DecodeError::MalformedHeader);
        }
        proof {
            assert(px_wide <= px_wide * (channels as u128)) by (nonlinear_arith)
                requires
                    channels >= 1,
            ;
        }
        let total_px: usize = px_wide as usize;

        let mut cache: Vec<Pixel> = Vec::new();
        let mut ci: usize = 0;
        while ci < 64
            invariant
                ci <= 64,
                cache@.len() == ci,
                forall|j: int| 0 <= j < ci ==> cache@[j] == Pixel::zero(),
            decreases 64 - ci,
        {
            cache.push(Pixel { r: 0, g: 0, b: 0, a: 0 });
            ci += 1;
        }
        proof {
            assert(cache@ =~= init_cache());
        }

        let mut data: Vec<u8> = Vec::new();
        let mut prev = Pixel { r: 0, g: 0, b: 0, a: 0 };
        let ghost mut pxs: Seq<Pixel> = Seq::empty();
        let mut px: usize = 0;
        let mut bi: usize = 14;

        while px < total_px
            invariant
                14 <= bi <= bytes@.len(),
                bytes@.len() <= usize::MAX,
                channels == 3 || channels == 4,
                header_ok(bytes@),
                channels == header_channels(bytes@),
                px == pxs.len(),
                px <= total_px,
                total_px == header_width(bytes@) * header_height(bytes@),
                header_width(bytes@) * header_height(bytes@) * header_channels(bytes@)
                    <= usize::MAX,
                data@ == samples_of(pxs, channels as int),
                cache@.len() == 64,
                decode_chunks(bytes@, bi as int, cache@, prev, pxs, total_px as int)
                    == decode_chunks(
                    bytes@,
                    14,
                    init_cache(),
                    Pixel::zero(),
                    Seq::empty(),
                    total_px as int,
                ),
            decreases bytes@.len() - bi,
        {
            let ghost bi0 = bi as int;
            let ghost cache0 = cache@;
            let ghost prev0 = prev;
            let ghost pxs0 = pxs;

            if let Err(e) = assert_capacity(&bytes, bi) {
                proof {
                    lemma_chunks_missing(bytes@, bi0, cache0, prev0, pxs0, total_px as int);
                }
                return Err(e);
            }
            let t = bytes[bi];
            let tag = Optag::from(t);
            proof {
                assert(tag == optag_of(t));
            }
            match tag {
                Optag::RGB => {
                    if bytes.len() - bi < 4 {
                        proof {
                            lemma_chunks_missing_tail(
                                bytes@,
                                bi0,
                                cache0,
                                prev0,
                                pxs0,
                                total_px as int,
                            );
                        }
                        return Err(DecodeError::MissingData);
                    }
                    let p = Pixel { r: bytes[bi + 1], g: bytes[bi + 2], b: bytes[bi + 3], a: prev.a };
                    let h = hash(p);
                    cache[h] = p;
                    push_pixel(&mut data, p, channels);
                    prev = p;
                    bi += 4;
                    px += 1;
                    proof {
                        assert(p == chunk_pixel(bytes@, bi0, cache0, prev0));
                        lemma_chunks_step_pixel(bytes@, bi0, cache0, prev0, pxs0, total_px as int);
                        lemma_samples_of_push(pxs0, p, channels as int);
                        pxs = pxs0.push(p);
                    }
                },
                Optag::RGBA => {
                    if bytes.len() - bi < 5 {
                        proof {
                            lemma_chunks_missing_tail(
                                bytes@,
                                bi0,
                                cache0,
                                prev0,
                                pxs0,
                                total_px as int,
                            );
                        }
                        return Err(DecodeError::MissingData);
                    }
                    let p = Pixel {
                        r: bytes[bi + 1],
                        g: bytes[bi + 2],
                        b: bytes[bi + 3],
                        a: bytes[bi + 4],
                    };
                    let h = hash(p);
                    cache[h] = p;
                    push_pixel(&mut data, p, channels);
                    prev = p;
                    bi += 5;
                    px += 1;
                    proof {
                        assert(p == chunk_pixel(bytes@, bi0, cache0, prev0));
                        lemma_chunks_step_pixel(bytes@, bi0, cache0, prev0, pxs0, total_px as int);
                        lemma_samples_of_push(pxs0, p, channels as int);
                        pxs = pxs0.push(p);
                    }
                },
                Optag::INDEX => {
                    proof {
                        assert(t < 64) by (bit_vector)
                            requires
                                t >> 6 == 0,
                        ;
                    }
                    let p = cache[t as usize];
                    let h = hash(p);
                    cache[h] = p;
                    push_pixel(&mut data, p, channels);
                    prev = p;
                    bi += 1;
                    px += 1;
                    proof {
                        assert(p == chunk_pixel(bytes@, bi0, cache0, prev0));
                        lemma_chunks_step_pixel(bytes@, bi0, cache0, prev0, pxs0, total_px as int);
                        lemma_samples_of_push(pxs0, p, channels as int);
                        pxs = pxs0.push(p);
                    }
                },
                Optag::DIFF => {
                    let p = Pixel {
                        r: add_delta(prev.r, ((t >> 4) & 3) as u16, 2),
                        g: add_delta(prev.g, ((t >> 2) & 3) as u16, 2),
                        b: add_delta(prev.b, (t & 3) as u16, 2),
                        a: prev.a,
                    };
                    let h = hash(p);
                    cache[h] = p;
                    push_pixel(&mut data, p, channels);
                    prev = p;
                    bi += 1;
                    px += 1;
                    proof {
                        assert(p == diff_pixel(prev0, t));
                        assert(p == chunk_pixel(bytes@, bi0, cache0, prev0));
                        lemma_chunks_step_pixel(bytes@, bi0, cache0, prev0, pxs0, total_px as int);
                        lemma_samples_of_push(pxs0, p, channels as int);
                        pxs = pxs0.push(p);
                    }
                },
                Optag::LUMA => {
                    if bytes.len() - bi < 2 {
                        proof {
                            lemma_chunks_missing_tail(
                                bytes@,
                                bi0,
                                cache0,
                                prev0,
                                pxs0,
                                total_px as int,
                            );
                        }
                        return Err(DecodeError::MissingData);
                    }
                    let b1 = bytes[bi + 1];
                    let dg: u16 = (t & 0x3F) as u16;
                    let p = Pixel {
                        r: add_delta(prev.r, dg + (((b1 >> 4) & 0x0F) as u16), 40),
                        g: add_delta(prev.g, dg, 32),
                        b: add_delta(prev.b, dg + ((b1 & 0x0F) as u16), 40),
                        a: prev.a,
                    };
                    let h = hash(p);
                    cache[h] = p;
                    push_pixel(&mut data, p, channels);
                    prev = p;
                    bi += 2;
                    px += 1;
                    proof {
                        assert(p == luma_pixel(prev0, t, b1));
                        assert(p == chunk_pixel(bytes@, bi0, cache0, prev0));
                        lemma_chunks_step_pixel(bytes@, bi0, cache0, prev0, pxs0, total_px as int);
                        lemma_samples_of_push(pxs0, p, channels as int);
                        pxs = pxs0.push(p);
                    }
                },
                Optag::RUN => {
                    let k: usize = (t & 0x3F) as usize;
                    let ghost n: int = run_len(k as int, total_px - px);
                    let mut j: usize = 0;
                    while j < k && px < total_px
                        invariant
                            j <= k,
                            channels == 3 || channels == 4,
                            px == pxs.len(),
                            px <= total_px,
                            px == pxs0.len() + j,
                            pxs =~= pxs0 + Seq::new(j as nat, |i: int| prev0),
                            prev == prev0,
                            data@ == samples_of(pxs, channels as int),
                        decreases k - j,
                    {
                        push_pixel(&mut data, prev, channels);
                        proof {
                            lemma_samples_of_push(pxs, prev, channels as int);
                            pxs = pxs.push(prev);
                            assert(pxs =~= pxs0 + Seq::new((j + 1) as nat, |i: int| prev0));
                        }
                        px += 1;
                        j += 1;
                    }
                    bi += 1;
                    proof {
                        assert(j == n);
                        lemma_chunks_step_run(bytes@, bi0, cache0, prev0, pxs0, total_px as int);
                        assert(pxs =~= pxs0 + Seq::new(n as nat, |i: int| prev0));
                    }
                },
            }
        }

        proof {
            lemma_chunks_full(bytes@, bi as int, cache@, prev, pxs, total_px as int);
            assert(decode_pixels(bytes@) == Ok::<Seq<Pixel>, DecodeError>(pxs));
            assert(decode_result(bytes@) == Ok::<Seq<u8>, DecodeError>(data@));
            lemma_samples_of_len(pxs, channels as int);
        }
        Ok(Img { width, height, fmt, data })
    }
}

} // verus!
