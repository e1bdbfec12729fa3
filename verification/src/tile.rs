//! Decoding a tile's stored bytes into its raw 32-bit samples.
//!
//! A tile holds 256 x 256 little-endian IEEE 754 single-precision samples,
//! stored either as-is or zlib-compressed. Decoding yields each sample's bit
//! pattern; turning bits into a float is left to the caller.

use vstd::prelude::*;

use crate::tiff::{le32, TILE_PIXELS};

verus! {

/// Bytes in a decoded tile: four per pixel.
pub const TILE_BYTES: usize = 262144;

/// Declares `miniz_oxide::inflate::DecompressError`, the error of a failed
/// inflation; its contents stay opaque.
#[verifier::external_type_specification]
#[verifier::external_body]
pub struct ExDecompressError(miniz_oxide::inflate::DecompressError);

/// What zlib inflation of `input` yields when the output is capped at `limit`
/// bytes: the inflated bytes, or `None` when `input` is not a complete, valid
/// zlib stream or inflates to more than `limit` bytes.
pub uninterp spec fn zlib_inflated(input: Seq<u8>, limit: usize) -> Option<Seq<u8>>;

/// Inflates the zlib stream `input`, producing at most `limit` bytes.
///
/// Calls `miniz_oxide::inflate::decompress_to_vec_zlib_with_limit`. Its
/// result is taken to be a function of `input` and `limit` alone, named
/// `zlib_inflated`; on success the output holds at most `limit` bytes, as the
/// function documents ("the vector is grown to at most `max_size` bytes").
/// What a successful inflation contains is not stated beyond that name.
#[verifier::external_body]
fn inflate_zlib(input: &[u8], limit: usize) -> (r: Result<Vec<u8>, miniz_oxide::inflate::DecompressError>)
    ensures
        match r {
            Ok(v) => zlib_inflated(input@, limit) == Some(v@) && v@.len() <= limit,
            Err(_) => zlib_inflated(input@, limit) is None,
        },
{
    miniz_oxide::inflate::decompress_to_vec_zlib_with_limit(input, limit)
}

/// The samples of a tile whose uncompressed bytes are `b`, if `b` has the
/// length of exactly one tile.
pub open spec fn samples_of(b: Seq<u8>) -> Option<Seq<u32>> {
    if b.len() == TILE_BYTES {
        Some(Seq::new(TILE_PIXELS as nat, |i: int| le32(b, 4 * i) as u32))
    } else {
        None
    }
}

/// The samples of a tile stored as `raw` with TIFF compression `compression`
/// (`8` is zlib, anything else is stored as-is).
pub open spec fn decoded_tile(compression: u16, raw: Seq<u8>) -> Option<Seq<u32>> {
    if compression == 8 {
        match zlib_inflated(raw, (TILE_BYTES + 1) as usize) {
            Some(b) => samples_of(b),
            None => None,
        }
    } else {
        samples_of(raw)
    }
}

/// The view of an optional vector of samples.
pub open spec fn samples_view(r: Option<Vec<u32>>) -> Option<Seq<u32>> {
    match r {
        Some(v) => Some(v@),
        None => None,
    }
}

/// Splits one tile's uncompressed bytes into its little-endian 32-bit
/// samples; `None` unless `bytes` holds exactly one tile.
pub fn tile_samples(bytes: &[u8]) -> (r: Option<Vec<u32>>)
    ensures
        samples_view(r) == samples_of(bytes@),
{
    if bytes.len() != TILE_BYTES {
        return None;
    }
    let mut out: Vec<u32> = Vec::with_capacity(TILE_PIXELS);
    let mut i: usize = 0;
    while i < TILE_PIXELS
        invariant
            bytes@.len() == TILE_BYTES,
            i <= TILE_PIXELS,
            out@.len() == i,
            forall|j: int| 0 <= j < i ==> out@[j] == le32(bytes@, 4 * j) as u32,
        decreases TILE_PIXELS - i,
    {
        let at = 4 * i;
        let sample = (bytes[at] as u32) + (bytes[at + 1] as u32) * 256 + (bytes[at + 2] as u32)
            * 65536 + (bytes[at + 3] as u32) * 16777216;
        out.push(sample);
        i += 1;
    }
    assert(out@ =~= Seq::new(TILE_PIXELS as nat, |j: int| le32(bytes@, 4 * j) as u32));
    Some(out)
}

/// Decodes a tile stored as `raw` under TIFF compression `compression` into
/// its samples, or `None` if it does not decode to exactly one tile.
///
/// Inflation is capped at one byte more than a tile, so a small crafted blob
/// cannot inflate to gigabytes before the length check rejects it.
pub fn decode_tile(compression: u16, raw: &[u8]) -> (r: Option<Vec<u32>>)
    ensures
        samples_view(r) == decoded_tile(compression, raw@),
{
    if compression == 8 {
        match inflate_zlib(raw, TILE_BYTES + 1) {
            Ok(bytes) => tile_samples(bytes.as_slice()),
            Err(_) => None,
        }
    } else {
        tile_samples(raw)
    }
}

/// A tile's bytes hold exactly one tile's samples, each the little-endian
/// value of four consecutive bytes, in pixel order; any other length holds no
/// tile.
pub proof fn law_samples_are_little_endian_words(b: Seq<u8>)
    ensures
        b.len() == TILE_BYTES ==> samples_of(b) is Some,
        b.len() != TILE_BYTES ==> samples_of(b) is None,
        samples_of(b) matches Some(t) ==> {
            &&& t.len() == TILE_PIXELS
            &&& forall|i: int|
                0 <= i < TILE_PIXELS ==> #[trigger] t[i] == b[4 * i] + 256 * b[4 * i + 1] + 65536
                    * b[4 * i + 2] + 16777216 * b[4 * i + 3]
        },
{
}

/// A tile stored without compression decodes straight from its bytes, and a
/// zlib-compressed one from what inflating it, capped one byte past a tile,
/// gives.
pub proof fn law_decoding_reads_the_stored_bytes(compression: u16, raw: Seq<u8>)
    ensures
        compression != 8 ==> decoded_tile(compression, raw) == samples_of(raw),
        compression == 8 ==> decoded_tile(compression, raw) == match zlib_inflated(
            raw,
            262145,
        ) {
            Some(b) => samples_of(b),
            None => None,
        },
{
}

} // verus!
