//! The LZMA compressor of the value block.
//!
//! Compression and decompression are done by the `gmod_lzma` crate. A
//! compressed block starts with five bytes of coder properties and the size
//! of its contents as eight little-endian bytes. Both directions are
//! functions of their input alone.

use vstd::bytes::spec_u64_from_le_bytes;
use vstd::prelude::*;

verus! {

/// What `gmod_lzma::decompress` returns for a block: the contents, or the
/// error code of the LZMA decoder. Nothing more is known of it than what the
/// contracts of the two calls below say.
pub uninterp spec fn lzma_unpacked(packed: Seq<u8>) -> Result<Seq<u8>, u64>;

/// What `gmod_lzma::compress` returns for some bytes and an effort: the
/// compressed block, or the error code of the LZMA encoder. Nothing more is
/// known of it than what the contract of the call below says.
pub uninterp spec fn lzma_packed(data: Seq<u8>, level: int) -> Result<Seq<u8>, u64>;

/// The number of bytes in front of the compressed stream of a block.
pub const LZMA_HEADER_LEN: usize = 13;

/// The size that a block of at least [`LZMA_HEADER_LEN`] bytes declares for
/// its contents.
pub open spec fn declared_size(packed: Seq<u8>) -> u64 {
    spec_u64_from_le_bytes(packed.subrange(5, 13))
}

/// Calls `gmod_lzma::compress`. The encoder behind it is built for a single
/// thread, so that the number of processors which the call passes on has no
/// effect: the contract names the result as a function of the input and the
/// effort; a failure to allocate memory is not modelled. Of a block that
/// comes out the contract also claims what the crate documents and its
/// source shows: the block has a header of five property bytes and the
/// length of the input as eight little-endian bytes, and
/// `gmod_lzma::decompress` gives the input back for it. That length is at
/// most `isize::MAX`, as the length of every slice is.
#[verifier::external_body]
pub(crate) fn lzma_compress(data: &[u8], level: i32) -> (r: Result<Vec<u8>, u64>)
    requires
        0 <= level <= 9,
    ensures
        (match r {
            Ok(packed) => lzma_packed(data@, level as int) == Ok::<Seq<u8>, u64>(packed@),
            Err(code) => lzma_packed(data@, level as int) == Err::<Seq<u8>, u64>(code),
        }),
        r matches Ok(packed) ==> {
            &&& packed@.len() >= LZMA_HEADER_LEN
            &&& declared_size(packed@) == data@.len()
            &&& declared_size(packed@) <= isize::MAX
            &&& lzma_unpacked(packed@) == Ok::<Seq<u8>, u64>(data@)
        },
{
    match gmod_lzma::compress(data, level) {
        Ok(packed) => Ok(packed),
        Err(code) => Err(code as u64),
    }
}

/// Calls `gmod_lzma::decompress`. The decoder behind it is deterministic, so
/// the contract names the result as a function of the block; a failure to
/// allocate memory is not modelled. The call allocates the declared size
/// before it decodes, and panics where that size exceeds `isize::MAX`: the
/// precondition leaves such blocks out.
#[verifier::external_body]
pub(crate) fn lzma_decompress(packed: &[u8]) -> (r: Result<Vec<u8>, u64>)
    requires
        packed@.len() >= LZMA_HEADER_LEN ==> declared_size(packed@) <= isize::MAX,
    ensures
        (match r {
            Ok(data) => lzma_unpacked(packed@) == Ok::<Seq<u8>, u64>(data@),
            Err(code) => lzma_unpacked(packed@) == Err::<Seq<u8>, u64>(code),
        }),
{
    match gmod_lzma::decompress(packed) {
        Ok(data) => Ok(data),
        Err(code) => Err(code as u64),
    }
}

} // verus!
