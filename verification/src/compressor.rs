//! Per-file compressor: wraps one file's raw bytes in a compression frame at
//! the highest ratio, and unwraps them again. Every file is compressed
//! independently, so replacing or removing one entry never touches another
//! entry's payload.

use vstd::prelude::*;

verus! {

/// Compression level handed to the stream encoder.
pub const COMPRESSION_LEVEL: i32 = 21;

/// The compressed frame the encoder produces for the given raw bytes.
pub uninterp spec fn zstd_compress(raw: Seq<u8>) -> Seq<u8>;

/// What the decoder recovers from the given bytes: `None` when they are not
/// a valid compressed stream.
pub uninterp spec fn zstd_decompress(compressed: Seq<u8>) -> Option<Seq<u8>>;

/// Relies on zstd::stream::encode_all at the fixed level above: the frame is
/// a deterministic function of the input bytes, and decoding the frame yields
/// the input back (the codec is lossless).
#[verifier::external_body]
pub fn compress_bytes(data: &[u8]) -> (r: Vec<u8>)
    ensures
        r@ == zstd_compress(data@),
        zstd_decompress(r@) == Some(data@),
{
    zstd::stream::encode_all(data, COMPRESSION_LEVEL).unwrap()
}

/// Relies on zstd::stream::decode_all: deterministic in the input bytes, and
/// it fails exactly when they are not a valid compressed stream.
#[verifier::external_body]
pub fn decompress_bytes(data: &[u8]) -> (r: Option<Vec<u8>>)
    ensures
        match zstd_decompress(data@) {
            Some(raw) => r matches Some(v) && v@ == raw,
            None => r is None,
        },
{
    zstd::stream::decode_all(data).ok()
}

} // verus!
