use vstd::prelude::*;

verus! {

/// Why a chunk payload could not be compressed or decompressed.
#[derive(PartialEq, Eq, Structural, Debug, Clone, Copy)]
pub enum PayloadError {
    /// The compressor refused the input (too long for LZ4).
    Compression,
    /// The payload is not a valid size-prefixed LZ4 block.
    Decompression,
}

/// The error type of the `lz4` block functions.
#[verifier::external_type_specification]
#[verifier::external_body]
pub struct ExIoError(std::io::Error);

/// Longest input the LZ4 block format compresses (`LZ4_MAX_INPUT_SIZE`).
pub const LZ4_MAX_INPUT_SIZE: usize = 0x7E00_0000;

/// The byte strings that LZ4 can compress.
pub open spec fn lz4_compressible(x: Seq<u8>) -> bool {
    x.len() <= LZ4_MAX_INPUT_SIZE
}

/// The bytes a size-prefixed LZ4 block decompresses to, when it is valid.
/// The block format fixes them: they do not depend on the machine.
pub uninterp spec fn spec_lz4_decompress(payload: Seq<u8>) -> Option<Seq<u8>>;

/// Calls `lz4::block::compress(payload, None, true)`: default mode, with the
/// uncompressed length prepended. The crate refuses an input longer than the
/// C library's bound (`LZ4_compressBound` is 0 there) and otherwise
/// compresses into a buffer of `LZ4_compressBound` bytes, which the C library
/// documents as always enough. The contract claims success precisely on
/// inputs of at most `LZ4_MAX_INPUT_SIZE` bytes, and that the block it makes
/// decompresses to the input (the crate's documented round trip). Which
/// block it makes is left unsaid: LZ4 picks its match-finding hash by word
/// size and byte order, so the bytes differ between machines.
#[verifier::external_body]
fn lz4_compress(payload: &[u8]) -> (r: Result<Vec<u8>, std::io::Error>)
    ensures
        r is Ok <==> lz4_compressible(payload@),
        r matches Ok(v) ==> spec_lz4_decompress(v@) == Some(payload@),
{
    lz4::block::compress(payload, None, true)
}

/// Calls `lz4::block::decompress(payload, None)`, reading the length from
/// the 4-byte prefix. The contract claims that the result is the named
/// decompression of the input, and that an input shorter than the size
/// prefix is refused.
#[verifier::external_body]
fn lz4_decompress(payload: &[u8]) -> (r: Result<Vec<u8>, std::io::Error>)
    ensures
        payload@.len() < 4 ==> r is Err,
        match r {
            Ok(v) => spec_lz4_decompress(payload@) == Some(v@),
            Err(_) => spec_lz4_decompress(payload@) is None,
        },
{
    lz4::block::decompress(payload, None)
}

/// Compresses a serialized chunk message for transmission; fails exactly
/// when the message is too long for LZ4. The payload decompresses back to
/// the message.
pub fn compress_chunk_payload(payload: &[u8]) -> (r: Result<Vec<u8>, PayloadError>)
    ensures
        match r {
            Ok(v) => lz4_compressible(payload@) && spec_lz4_decompress(v@) == Some(payload@),
            Err(e) => !lz4_compressible(payload@) && e == PayloadError::Compression,
        },
{
    match lz4_compress(payload) {
        Ok(v) => Ok(v),
        Err(_) => Err(PayloadError::Compression),
    }
}

/// Decompresses a received chunk payload into the serialized message; a
/// payload made by `compress_chunk_payload` gives back the bytes it was made
/// from.
pub fn decompress_chunk_payload(payload: &[u8]) -> (r: Result<Vec<u8>, PayloadError>)
    ensures
        match r {
            Ok(v) => spec_lz4_decompress(payload@) == Some(v@),
            Err(e) => spec_lz4_decompress(payload@) is None && e == PayloadError::Decompression,
        },
        payload@.len() < 4 ==> r is Err,
{
    match lz4_decompress(payload) {
        Ok(v) => Ok(v),
        Err(_) => Err(PayloadError::Decompression),
    }
}

/// A chunk payload round-trips: when `compress_chunk_payload` turns `x`
/// into `block`, `decompress_chunk_payload` turns `block` back into `x`.
pub proof fn lemma_payload_round_trip(x: Seq<u8>, block: Seq<u8>, back: Result<Seq<u8>, PayloadError>)
    requires
        spec_lz4_decompress(block) == Some(x),
        match back {
            Ok(v) => spec_lz4_decompress(block) == Some(v),
            Err(_) => spec_lz4_decompress(block) is None,
        },
    ensures
        back == Ok::<Seq<u8>, PayloadError>(x),
{
}

} // verus!
