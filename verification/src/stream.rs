//! The mathematical model of the format: header validation and the
//! chunk-by-chunk meaning of the compressed stream.
//!
//! `decode_chunks` is the reference semantics that the executable decoder is
//! proved against: from a byte offset, a running cache, a previous pixel and
//! the pixels already produced, it gives the full pixel sequence of the
//! image, or `MissingData` when the stream ends before the raster is full.

use vstd::prelude::*;

use crate::decode::{DecodeError, ImgFmt};
use crate::pixel::{diff_pixel, luma_pixel, pixel_hash, samples_of, Pixel};

verus! {

/// The six chunk kinds, decoded from a chunk's lead byte.
#[derive(Clone, Copy, Debug, PartialEq, Eq, Structural)]
pub enum Optag {
    RGB,
    RGBA,
    INDEX,
    DIFF,
    LUMA,
    RUN,
}

/// The chunk kind selected by a tag byte. The two literal tags 0xFE and 0xFF
/// take priority over the top-two-bit classes, since a top-bit pattern of 11
/// would otherwise collide with them.
pub open spec fn optag_of(val: u8) -> Optag {
    if val == 0xFE {
        Optag::RGB
    } else if val == 0xFF {
        Optag::RGBA
    } else if val >> 6 == 0 {
        Optag::INDEX
    } else if val >> 6 == 1 {
        Optag::DIFF
    } else if val >> 6 == 2 {
        Optag::LUMA
    } else {
        Optag::RUN
    }
}

impl From<u8> for Optag {
    fn from(val: u8) -> Self {
        match val {
            0xFE => Optag::RGB,
            0xFF => Optag::RGBA,
            _ => match val >> 6 {
                0 => Optag::INDEX,
                1 => Optag::DIFF,
                2 => Optag::LUMA,
                _ => Optag::RUN,
            },
        }
    }
}

impl vstd::std_specs::convert::FromSpecImpl<u8> for Optag {
    open spec fn obeys_from_spec() -> bool {
        true
    }

    open spec fn from_spec(val: u8) -> Optag {
        optag_of(val)
    }
}

/// The four magic bytes "qoif" at the start of a valid header.
pub open spec fn magic_ok(bytes: Seq<u8>) -> bool {
    &&& bytes.len() >= 4
    &&& bytes[0] == 0x71
    &&& bytes[1] == 0x6F
    &&& bytes[2] == 0x69
    &&& bytes[3] == 0x66
}

/// A structurally valid 14-byte header: the magic, big-endian dimensions,
/// a channel byte of 3 or 4, and a colorspace byte of 0 or 1.
pub open spec fn header_ok(bytes: Seq<u8>) -> bool {
    &&& bytes.len() >= 14
    &&& magic_ok(bytes)
    &&& (bytes[12] == 3 || bytes[12] == 4)
    &&& (bytes[13] == 0 || bytes[13] == 1)
}

/// The big-endian 32-bit value held at offset `i`.
pub open spec fn be32_at(bytes: Seq<u8>, i: int) -> int {
    bytes[i] * 0x1000000 + bytes[i + 1] * 0x10000 + bytes[i + 2] * 0x100 + bytes[i + 3]
}

/// The image width a header declares.
pub open spec fn header_width(bytes: Seq<u8>) -> int {
    be32_at(bytes, 4)
}

/// The image height a header declares.
pub open spec fn header_height(bytes: Seq<u8>) -> int {
    be32_at(bytes, 8)
}

/// The output stride in bytes per pixel: the channel byte's value, 3 or 4.
pub open spec fn header_channels(bytes: Seq<u8>) -> int {
    bytes[12] as int
}

/// The pixel format named by the channel byte and the colorspace byte.
pub open spec fn header_fmt(bytes: Seq<u8>) -> ImgFmt {
    if bytes[13] == 0 {
        if bytes[12] == 3 {
            ImgFmt::SRGB
        } else {
            ImgFmt::SRGBA
        }
    } else {
        if bytes[12] == 3 {
            ImgFmt::LinearRGB
        } else {
            ImgFmt::LinearRGBA
        }
    }
}

/// The running cache before any pixel was decoded: 64 slots of transparent
/// black.
pub open spec fn init_cache() -> Seq<Pixel> {
    Seq::new(64, |i: int| Pixel::zero())
}

/// The running-cache invariant of a decode state: the slot addressed by the
/// previous pixel's hash holds that pixel. It holds of the initial state and
/// after every chunk, because every non-run chunk stores the pixel it
/// produced at that pixel's own slot.
pub open spec fn cache_tracks_prev(cache: Seq<Pixel>, prev: Pixel) -> bool {
    &&& cache.len() == 64
    &&& cache[pixel_hash(prev)] == prev
}

/// The number of bytes the chunk at offset `bi` occupies, its tag byte
/// included: a literal carries its component bytes, a luma chunk one
/// trailing byte, every other chunk only its tag.
pub open spec fn chunk_len(bytes: Seq<u8>, bi: int) -> int {
    match optag_of(bytes[bi]) {
        Optag::RGB => 4,
        Optag::RGBA => 5,
        Optag::LUMA => 2,
        _ => 1,
    }
}

/// The pixel a non-run chunk at offset `bi` produces: a literal carries its
/// channels (an RGB literal inherits alpha from the previous pixel), an
/// index chunk names a cache slot, a diff or luma chunk shifts the previous
/// pixel.
pub open spec fn chunk_pixel(bytes: Seq<u8>, bi: int, cache: Seq<Pixel>, prev: Pixel) -> Pixel
    recommends
        cache.len() == 64,
{
    match optag_of(bytes[bi]) {
        Optag::RGB => Pixel { r: bytes[bi + 1], g: bytes[bi + 2], b: bytes[bi + 3], a: prev.a },
        Optag::RGBA => Pixel { r: bytes[bi + 1], g: bytes[bi + 2], b: bytes[bi + 3], a: bytes[bi + 4] },
        Optag::INDEX => cache[bytes[bi] as int],
        Optag::DIFF => diff_pixel(prev, bytes[bi]),
        Optag::LUMA => luma_pixel(prev, bytes[bi], bytes[bi + 1]),
        Optag::RUN => prev,
    }
}

/// How many pixels a run chunk of count `k` writes when `room` pixels are
/// still missing: the count, clamped to the space left.
pub open spec fn run_len(k: int, room: int) -> int {
    if room < k {
        room
    } else {
        k
    }
}

/// The meaning of the chunk stream from byte offset `bi` on, given the
/// running cache, the previous pixel and the pixels already produced:
/// the pixel sequence of the finished image, or `MissingData` when the
/// stream ends first. A run chunk repeats the previous pixel and leaves the
/// cache alone; one longer than the space left only fills the raster, since
/// decoding stops at buffer-full and reads no further. Every other chunk
/// produces one pixel and stores it in the cache slot of its own hash.
#[verifier::opaque]
pub open spec fn decode_chunks(
    bytes: Seq<u8>,
    bi: int,
    cache: Seq<Pixel>,
    prev: Pixel,
    out: Seq<Pixel>,
    total: int,
) -> Result<Seq<Pixel>, DecodeError>
    recommends
        cache.len() == 64,
    decreases bytes.len() - bi,
{
    if out.len() >= total {
        Ok(out)
    } else if !(0 <= bi < bytes.len()) {
        Err(DecodeError::MissingData)
    } else if optag_of(bytes[bi]) == Optag::RUN {
        let n = run_len((bytes[bi] & 0x3F) as int, total - out.len());
        decode_chunks(bytes, bi + 1, cache, prev, out + Seq::new(n as nat, |i: int| prev), total)
    } else if bi + chunk_len(bytes, bi) > bytes.len() {
        Err(DecodeError::MissingData)
    } else {
        let p = chunk_pixel(bytes, bi, cache, prev);
        decode_chunks(
            bytes,
            bi + chunk_len(bytes, bi),
            cache.update(pixel_hash(p), p),
            p,
            out.push(p),
            total,
        )
    }
}

/// Unfolds `decode_chunks` at a full raster: nothing more is read.
pub proof fn lemma_chunks_full(
    bytes: Seq<u8>,
    bi: int,
    cache: Seq<Pixel>,
    prev: Pixel,
    out: Seq<Pixel>,
    total: int,
)
    requires
        out.len() >= total,
    ensures
        decode_chunks(bytes, bi, cache, prev, out, total) == Ok::<Seq<Pixel>, DecodeError>(out),
{
    reveal_with_fuel(decode_chunks, 1);
}

/// Unfolds `decode_chunks` at an exhausted stream: the raster is not full
/// and no tag byte is left.
pub proof fn lemma_chunks_missing(
    bytes: Seq<u8>,
    bi: int,
    cache: Seq<Pixel>,
    prev: Pixel,
    out: Seq<Pixel>,
    total: int,
)
    requires
        out.len() < total,
        bi >= bytes.len(),
    ensures
        decode_chunks(bytes, bi, cache, prev, out, total) == Err::<Seq<Pixel>, DecodeError>(
            DecodeError::MissingData,
        ),
{
    reveal_with_fuel(decode_chunks, 1);
}

/// Unfolds `decode_chunks` at a non-run chunk whose trailing bytes are cut
/// off by the end of the stream.
pub proof fn lemma_chunks_missing_tail(
    bytes: Seq<u8>,
    bi: int,
    cache: Seq<Pixel>,
    prev: Pixel,
    out: Seq<Pixel>,
    total: int,
)
    requires
        out.len() < total,
        0 <= bi < bytes.len(),
        optag_of(bytes[bi]) != Optag::RUN,
        bi + chunk_len(bytes, bi) > bytes.len(),
    ensures
        decode_chunks(bytes, bi, cache, prev, out, total) == Err::<Seq<Pixel>, DecodeError>(
            DecodeError::MissingData,
        ),
{
    reveal_with_fuel(decode_chunks, 1);
}

/// Unfolds `decode_chunks` over one complete non-run chunk: its pixel is
/// appended and stored in the cache slot of its hash.
pub proof fn lemma_chunks_step_pixel(
    bytes: Seq<u8>,
    bi: int,
    cache: Seq<Pixel>,
    prev: Pixel,
    out: Seq<Pixel>,
    total: int,
)
    requires
        out.len() < total,
        0 <= bi < bytes.len(),
        optag_of(bytes[bi]) != Optag::RUN,
        bi + chunk_len(bytes, bi) <= bytes.len(),
    ensures
        decode_chunks(bytes, bi, cache, prev, out, total) == decode_chunks(
            bytes,
            bi + chunk_len(bytes, bi),
            cache.update(
                pixel_hash(chunk_pixel(bytes, bi, cache, prev)),
                chunk_pixel(bytes, bi, cache, prev),
            ),
            chunk_pixel(bytes, bi, cache, prev),
            out.push(chunk_pixel(bytes, bi, cache, prev)),
            total,
        ),
{
    reveal_with_fuel(decode_chunks, 1);
}

/// Unfolds `decode_chunks` over one run chunk: the previous pixel is
/// repeated up to its count, clamped to the space left, and the cache is
/// untouched.
pub proof fn lemma_chunks_step_run(
    bytes: Seq<u8>,
    bi: int,
    cache: Seq<Pixel>,
    prev: Pixel,
    out: Seq<Pixel>,
    total: int,
)
    requires
        out.len() < total,
        0 <= bi < bytes.len(),
        optag_of(bytes[bi]) == Optag::RUN,
    ensures
        decode_chunks(bytes, bi, cache, prev, out, total) == decode_chunks(
            bytes,
            bi + 1,
            cache,
            prev,
            out + Seq::new(run_len((bytes[bi] & 0x3F) as int, total - out.len()) as nat, |i: int| prev),
            total,
        ),
{
    reveal_with_fuel(decode_chunks, 1);
}

/// The whole decode of a byte buffer, as pixels: `MalformedHeader` for a
/// structurally invalid header or one whose raster would not fit the host's
/// address space, then the chunk stream from offset 14 on.
pub open spec fn decode_pixels(bytes: Seq<u8>) -> Result<Seq<Pixel>, DecodeError> {
    if !header_ok(bytes) {
        Err(DecodeError::MalformedHeader)
    } else if header_width(bytes) * header_height(bytes) * header_channels(bytes) > usize::MAX {
        Err(DecodeError::MalformedHeader)
    } else {
        decode_chunks(
            bytes,
            14,
            init_cache(),
            Pixel::zero(),
            Seq::empty(),
            header_width(bytes) * header_height(bytes),
        )
    }
}

/// The whole decode of a byte buffer, as raster bytes at the header's
/// stride.
pub open spec fn decode_result(bytes: Seq<u8>) -> Result<Seq<u8>, DecodeError> {
    match decode_pixels(bytes) {
        Ok(ps) => Ok(samples_of(ps, header_channels(bytes))),
        Err(e) => Err(e),
    }
}

} // verus!
