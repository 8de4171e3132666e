use vstd::prelude::*;

use lz4_flex::block::DecompressError;

verus! {

/// An error that `lz4_flex` reports for bytes that are not a valid
/// compressed block.
#[verifier::external_type_specification]
#[verifier::external_body]
pub struct ExDecompressError(DecompressError);

/// The bytes that `lz4_flex::compress_prepend_size` makes of `input`.
pub uninterp spec fn lz4_compress_prepend_size(input: Seq<u8>) -> Seq<u8>;

/// What `lz4_flex::decompress_size_prepended` makes of `input`: the
/// decompressed bytes, or nothing when `input` is not a valid block.
pub uninterp spec fn lz4_decompress_size_prepended(input: Seq<u8>) -> Option<Seq<u8>>;

/// The four little-endian bytes of `n`.
pub open spec fn le_u32_bytes(n: u32) -> Seq<u8> {
    seq![(n & 0xff) as u8, ((n >> 8u32) & 0xff) as u8, ((n >> 16u32) & 0xff) as u8, ((n >> 24u32) & 0xff) as u8]
}

/// Calls `lz4_flex::compress_prepend_size`. Its source writes the input's
/// length (as a `u32`) in four little-endian bytes and then the compressed
/// block; the block itself is named, not described.
#[verifier::external_body]
fn lz4_compress(input: &[u8]) -> (out: Vec<u8>)
    ensures
        out@ == lz4_compress_prepend_size(input@),
        out@.len() >= 4,
        out@.subrange(0, 4) == le_u32_bytes((input@.len() % 0x1_0000_0000) as u32),
{
    lz4_flex::compress_prepend_size(input)
}

/// Longest input, in bytes, that the decompressor takes. The decoder adds
/// up runs of length bytes in a `u32`; input of at most this length cannot
/// overflow it.
pub const MAX_COMPRESSED_LEN: usize = 16_777_216;

/// Calls `lz4_flex::decompress_size_prepended`, built with the crate's
/// `checked-decode` feature, under which the decoder checks every literal
/// and match against the output's bounds and reports bytes that are not a
/// valid block as an error instead of panicking. Its result is named; as
/// the crate documents, it undoes `compress_prepend_size` for any input
/// whose length fits the four-byte prefix, and its source refuses input
/// shorter than that prefix. The decoder first allocates as many bytes as
/// the prefix announces.
#[verifier::external_body]
fn lz4_decompress(input: &[u8]) -> (out: Result<Vec<u8>, DecompressError>)
    requires
        input@.len() <= MAX_COMPRESSED_LEN,
    ensures
        out matches Ok(v) ==> lz4_decompress_size_prepended(input@) == Some(v@),
        out is Err ==> lz4_decompress_size_prepended(input@) is None,
        forall|d: Seq<u8>|
            d.len() <= u32::MAX && #[trigger] lz4_compress_prepend_size(d) == input@ ==> out is Ok
                && out->Ok_0@ == d,
        input@.len() < 4 ==> out is Err,
{
    lz4_flex::decompress_size_prepended(input)
}

/// Compresses the serialized bytes of a chunk for sending or saving: the
/// byte length first, as four little-endian bytes, then the compressed
/// block.
pub fn compress_chunk_bytes(serialized: &[u8]) -> (out: Vec<u8>)
    ensures
        out@ == lz4_compress_prepend_size(serialized@),
        out@.subrange(0, 4) == le_u32_bytes((serialized@.len() % 0x1_0000_0000) as u32),
{
    lz4_compress(serialized)
}

/// The serialized bytes of a chunk, recovered from what
/// `compress_chunk_bytes` made of them; `None` for bytes that are not a
/// compressed chunk (among them anything shorter than the length prefix).
pub fn decompress_chunk_bytes(bytes: &[u8]) -> (out: Option<Vec<u8>>)
    requires
        bytes@.len() <= MAX_COMPRESSED_LEN,
    ensures
        out matches Some(v) ==> lz4_decompress_size_prepended(bytes@) == Some(v@),
        out is None ==> lz4_decompress_size_prepended(bytes@) is None,
        forall|d: Seq<u8>|
            d.len() <= u32::MAX && #[trigger] lz4_compress_prepend_size(d) == bytes@ ==> (out matches Some(
                v,
            ) && v@ == d),
        bytes@.len() < 4 ==> out is None,
{
    match lz4_decompress(bytes) {
        Ok(v) => Some(v),
        Err(_) => None,
    }
}

} // verus!
