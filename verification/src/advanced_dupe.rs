//! Whole files: the entry points for reading and writing.

use crate::codec::{
    encoded_file, image_outcome, outcome, written, AdCodec, AdCodec5, DuplicationResult,
};
use crate::error::CodecError;
use crate::info::DuplicationInfo;
use crate::layout::{decoded_file, VERSION};
use crate::number::decimal;
use crate::value::LuaValue;
use vstd::prelude::*;
use vstd::slice::slice_subrange;

verus! {

/// Reads a whole file.
///
/// A file of fewer than five bytes is truncated. Then the signature is
/// checked, then the version, of which only 5 is known. The rest is read by
/// [`AdCodec5`].
pub fn decode(data: &[u8]) -> (r: Result<DuplicationResult, CodecError>)
    ensures
        outcome(r) == decoded_file(data@),
        r matches Ok(file) ==> file@.value.wf(),
{
    if data.len() < 5 {
        return Err(CodecError::TruncatedInput);
    }
    let codec = AdCodec5 {  };
    if !codec.is_valid_signature(slice_subrange(data, 0, 4)) {
        return Err(CodecError::InvalidHeader);
    }
    let version = data[4];
    if version != VERSION {
        return Err(CodecError::UnsupportedCodec(decimal(version as u64)));
    }
    codec.decode(slice_subrange(data, 5, data.len()))
}

/// Writes a whole file in the newest version of the format. A file is
/// returned exactly where the compressor gives a block for the encoding of
/// `lua_value`; the failure of the compressor is the only error.
pub fn encode(dupe_info: &DuplicationInfo, lua_value: &LuaValue) -> (r: Result<
    Vec<u8>,
    CodecError,
>)
    requires
        lua_value@.wf(),
        lua_value@.encodable(),
    ensures
        image_outcome(r) == encoded_file(dupe_info@, lua_value@),
        r matches Ok(image) ==> written(image@, dupe_info@, lua_value@),
{
    let codec = AdCodec5 {  };
    codec.encode(dupe_info, lua_value)
}

} // verus!
