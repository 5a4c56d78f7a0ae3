//! Properties of the decoder that hold over all inputs: the size of every
//! successful decode, the equivalence of a run chunk with repeated index
//! chunks, and the bias identities of diff and luma reconstruction.

use vstd::prelude::*;

use crate::pixel::{
    diff_pixel, lemma_samples_of_len, luma_pixel, pixel_hash, Pixel,
};
use crate::stream::{
    cache_tracks_prev, chunk_len, chunk_pixel, decode_chunks, decode_pixels, decode_result,
    header_channels, header_height, header_ok, header_width, init_cache, optag_of, run_len, Optag,
};

verus! {

/// A finished chunk decode has exactly `total` pixels: each step stays
/// within the raster, and decoding only ends once it is full.
proof fn lemma_chunks_ok_len(
    bytes: Seq<u8>,
    bi: int,
    cache: Seq<Pixel>,
    prev: Pixel,
    out: Seq<Pixel>,
    total: int,
)
    requires
        out.len() <= total,
        decode_chunks(bytes, bi, cache, prev, out, total) is Ok,
    ensures
        decode_chunks(bytes, bi, cache, prev, out, total)->Ok_0.len() == total,
    decreases bytes.len() - bi,
{
    reveal_with_fuel(decode_chunks, 1);
    if out.len() >= total {
    } else if !(0 <= bi < bytes.len()) {
    } else if optag_of(bytes[bi]) == Optag::RUN {
        let n = run_len((bytes[bi] & 0x3F) as int, total - out.len());
        lemma_chunks_ok_len(
            bytes,
            bi + 1,
            cache,
            prev,
            out + Seq::new(n as nat, |i: int| prev),
            total,
        );
    } else if bi + chunk_len(bytes, bi) > bytes.len() {
    } else {
        let p = chunk_pixel(bytes, bi, cache, prev);
        lemma_chunks_ok_len(
            bytes,
            bi + chunk_len(bytes, bi),
            cache.update(pixel_hash(p), p),
            p,
            out.push(p),
            total,
        );
    }
}

/// For every buffer, a successful decode returns exactly
/// `width * height * stride` sample bytes; every other outcome is a typed
/// error, never a partial raster.
pub proof fn lemma_decode_ok_len(bytes: Seq<u8>)
    requires
        decode_result(bytes) is Ok,
    ensures
        header_ok(bytes),
        decode_result(bytes)->Ok_0.len() == header_width(bytes) * header_height(bytes)
            * header_channels(bytes),
{
    let total = header_width(bytes) * header_height(bytes);
    lemma_chunks_ok_len(bytes, 14, init_cache(), Pixel::zero(), Seq::empty(), total);
    let ps = decode_pixels(bytes)->Ok_0;
    lemma_samples_of_len(ps, header_channels(bytes));
}

/// Decoding depends only on the bytes at and after the cursor: two streams
/// whose suffixes agree decode alike from the same state.
proof fn lemma_decode_suffix(
    b1: Seq<u8>,
    i1: int,
    b2: Seq<u8>,
    i2: int,
    cache: Seq<Pixel>,
    prev: Pixel,
    out: Seq<Pixel>,
    total: int,
)
    requires
        0 <= i1 <= b1.len(),
        0 <= i2 <= b2.len(),
        b1.subrange(i1, b1.len() as int) == b2.subrange(i2, b2.len() as int),
    ensures
        decode_chunks(b1, i1, cache, prev, out, total) == decode_chunks(
            b2,
            i2,
            cache,
            prev,
            out,
            total,
        ),
    decreases b1.len() - i1,
{
    reveal_with_fuel(decode_chunks, 1);
    let s1 = b1.subrange(i1, b1.len() as int);
    let s2 = b2.subrange(i2, b2.len() as int);
    assert(b1.len() - i1 == b2.len() - i2) by {
        assert(s1.len() == s2.len());
    }
    if out.len() >= total {
    } else if i1 >= b1.len() {
    } else {
        assert forall|x: int| i1 <= x < b1.len() implies b1[x] == b2[x - i1 + i2] by {
            assert(b1[x] == s1[x - i1]);
            assert(b2[x - i1 + i2] == s2[x - i1]);
        }
        let t = b1[i1];
        assert(b2[i2] == t);
        let step = if optag_of(t) == Optag::RUN {
            1
        } else {
            chunk_len(b1, i1)
        };
        if i1 + step <= b1.len() {
            assert(b1.subrange(i1 + step, b1.len() as int) =~= b2.subrange(
                i2 + step,
                b2.len() as int,
            ));
        }
        if optag_of(t) == Optag::RUN {
            let n = run_len((t & 0x3F) as int, total - out.len());
            lemma_decode_suffix(
                b1,
                i1 + 1,
                b2,
                i2 + 1,
                cache,
                prev,
                out + Seq::new(n as nat, |i: int| prev),
                total,
            );
        } else if i1 + chunk_len(b1, i1) > b1.len() {
        } else {
            let p = chunk_pixel(b1, i1, cache, prev);
            assert(p == chunk_pixel(b2, i2, cache, prev));
            lemma_decode_suffix(
                b1,
                i1 + chunk_len(b1, i1),
                b2,
                i2 + chunk_len(b2, i2),
                cache.update(pixel_hash(p), p),
                p,
                out.push(p),
                total,
            );
        }
    }
}

/// `k` consecutive index chunks that name the previous pixel's own cache
/// slot each reproduce that pixel and leave the whole state unchanged, so
/// together they append up to `k` copies of it, clamped to the space left.
proof fn lemma_index_steps(
    bytes: Seq<u8>,
    bi: int,
    k: int,
    cache: Seq<Pixel>,
    prev: Pixel,
    out: Seq<Pixel>,
    total: int,
)
    requires
        cache_tracks_prev(cache, prev),
        out.len() <= total,
        0 <= k,
        0 <= bi,
        bi + k <= bytes.len(),
        forall|j: int| 0 <= j < k ==> #[trigger] bytes[bi + j] == pixel_hash(prev),
    ensures
        decode_chunks(bytes, bi, cache, prev, out, total) == decode_chunks(
            bytes,
            bi + k,
            cache,
            prev,
            out + Seq::new(run_len(k, total - out.len()) as nat, |i: int| prev),
            total,
        ),
    decreases k,
{
    reveal_with_fuel(decode_chunks, 1);
    if k == 0 {
        assert(out + Seq::new(0, |i: int| prev) =~= out);
    } else if out.len() == total {
        assert(out + Seq::new(run_len(k, 0) as nat, |i: int| prev) =~= out);
    } else {
        let t = bytes[bi];
        assert(bytes[bi + 0] == pixel_hash(prev));
        assert(t == pixel_hash(prev));
        assert(0 <= pixel_hash(prev) < 64) by {
            crate::pixel::lemma_pixel_hash_bound(prev);
        }
        assert(optag_of(t) == Optag::INDEX) by {
            assert(t >> 6 == 0) by (bit_vector)
                requires
                    t < 64,
            ;
        }
        let p = chunk_pixel(bytes, bi, cache, prev);
        assert(p == prev);
        assert(cache.update(pixel_hash(prev), prev) =~= cache);
        assert(decode_chunks(bytes, bi, cache, prev, out, total) == decode_chunks(
            bytes,
            bi + 1,
            cache,
            prev,
            out.push(prev),
            total,
        ));
        assert forall|j: int| 0 <= j < k - 1 implies #[trigger] bytes[bi + 1 + j] == pixel_hash(prev) by {
            assert(bytes[bi + (j + 1)] == pixel_hash(prev));
        }
        lemma_index_steps(bytes, bi + 1, k - 1, cache, prev, out.push(prev), total);
        assert(run_len(k - 1, total - (out.len() + 1)) + 1 == run_len(k, total - out.len()));
        assert(out.push(prev) + Seq::new(
            run_len(k - 1, total - (out.len() + 1)) as nat,
            |i: int| prev,
        ) =~= out + Seq::new(run_len(k, total - out.len()) as nat, |i: int| prev));
    }
}

/// Run-length expansion is equivalent to repeated cache references: when
/// the running cache holds the previous pixel in its own slot — true of the
/// initial state and after every chunk — a run chunk of count `k` decodes
/// to exactly the same result as `k` consecutive index chunks naming that
/// slot, the two streams being equal afterwards.
pub proof fn lemma_run_as_indices(
    b1: Seq<u8>,
    i1: int,
    b2: Seq<u8>,
    i2: int,
    cache: Seq<Pixel>,
    prev: Pixel,
    out: Seq<Pixel>,
    total: int,
    k: int,
)
    requires
        cache_tracks_prev(cache, prev),
        out.len() <= total,
        0 <= i1 < b1.len(),
        optag_of(b1[i1]) == Optag::RUN,
        b1[i1] & 0x3F == k,
        0 <= i2,
        i2 + k <= b2.len(),
        forall|j: int| 0 <= j < k ==> #[trigger] b2[i2 + j] == pixel_hash(prev),
        b1.subrange(i1 + 1, b1.len() as int) == b2.subrange(i2 + k, b2.len() as int),
    ensures
        decode_chunks(b1, i1, cache, prev, out, total) == decode_chunks(
            b2,
            i2,
            cache,
            prev,
            out,
            total,
        ),
{
    reveal_with_fuel(decode_chunks, 1);
    if out.len() >= total {
    } else {
        let n = run_len(k, total - out.len());
        crate::stream::lemma_chunks_step_run(b1, i1, cache, prev, out, total);
        lemma_index_steps(b2, i2, k, cache, prev, out, total);
        lemma_decode_suffix(
            b1,
            i1 + 1,
            b2,
            i2 + k,
            cache,
            prev,
            out + Seq::new(n as nat, |i: int| prev),
            total,
        );
    }
}

/// The initial decode state satisfies the running-cache invariant: the
/// starting pixel, transparent black, hashes to slot 0, and every slot of
/// the fresh cache holds transparent black.
pub proof fn lemma_init_cache_tracks()
    ensures
        cache_tracks_prev(init_cache(), Pixel::zero()),
{
    assert(pixel_hash(Pixel::zero()) == 0);
}

/// Every non-run chunk re-establishes the running-cache invariant: the
/// pixel it commits is stored in the slot of its own hash. A run chunk
/// keeps the invariant trivially, changing neither cache nor previous
/// pixel.
pub proof fn lemma_commit_keeps_cache(cache: Seq<Pixel>, p: Pixel)
    requires
        cache.len() == 64,
    ensures
        cache_tracks_prev(cache.update(pixel_hash(p), p), p),
{
    crate::pixel::lemma_pixel_hash_bound(p);
}

/// Diff reconstruction inverts the encoder's bias: a diff chunk whose three
/// 2-bit fields all hold 2 — bias -2, so every delta is 0 — reproduces the
/// previous pixel unchanged, whatever it is.
pub proof fn lemma_diff_identity(prev: Pixel)
    ensures
        diff_pixel(prev, 0x6A) == prev,
{
    assert((0x6Au8 >> 4) & 3 == 2) by (bit_vector);
    assert((0x6Au8 >> 2) & 3 == 2) by (bit_vector);
    assert(0x6Au8 & 3 == 2) by (bit_vector);
    crate::pixel::lemma_wrap_identity(prev.r);
    crate::pixel::lemma_wrap_identity(prev.g);
    crate::pixel::lemma_wrap_identity(prev.b);
}

/// Luma reconstruction inverts the encoder's bias: a luma chunk whose low
/// six tag bits hold 32 (bias -32) and whose second byte is 0x88 (both
/// nibbles 8, bias -8) has every delta 0 and reproduces the previous pixel
/// unchanged, whatever it is.
pub proof fn lemma_luma_identity(prev: Pixel)
    ensures
        luma_pixel(prev, 0xA0, 0x88) == prev,
{
    assert(0xA0u8 & 0x3F == 32) by (bit_vector);
    assert((0x88u8 >> 4) & 0x0F == 8) by (bit_vector);
    assert(0x88u8 & 0x0F == 8) by (bit_vector);
    crate::pixel::lemma_wrap_identity(prev.r);
    crate::pixel::lemma_wrap_identity(prev.g);
    crate::pixel::lemma_wrap_identity(prev.b);
}

} // verus!

