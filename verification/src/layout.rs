//! The layout of a file, as mathematics.
//!
//! A file is made of, in this order: the four bytes of the signature `AD2F`;
//! the version byte; a line feed; the information block; the end byte 0x02;
//! a line feed; and the compressed value block, which runs to the end of the
//! file. On reading, the two line feeds are passed over without a look at
//! them.

use crate::error::Failure;
use crate::grammar::parse_node;
use crate::info::{parse_info, InfoModel};
use crate::lzma::{declared_size, lzma_unpacked, LZMA_HEADER_LEN};
use crate::number::decimal_text;
use crate::text::text_of;
use crate::value::Value;
use vstd::prelude::*;

verus! {

/// The signature that every file starts with: `AD2F`.
pub const HEADER: [u8; 4] = [65, 68, 50, 70];

/// The version of the codec that this crate implements.
pub const VERSION: u8 = 5;

/// The line feed behind the version and behind the information block.
pub const CRLF: u8 = 10;

/// The byte that ends the information block.
pub const INFO_END: u8 = 2;

/// Mathematical model of a decoded file.
pub struct FileModel {
    pub info: InfoModel,
    pub value: Value,
}

/// The bytes of the signature.
pub open spec fn signature() -> Seq<u8> {
    seq![65u8, 68u8, 50u8, 70u8]
}

/// What follows the version byte: a line feed, the information block, its
/// end byte, a line feed and the compressed value block.
pub open spec fn body_image(meta: Seq<u8>, packed: Seq<u8>) -> Seq<u8> {
    seq![CRLF] + meta + seq![INFO_END, CRLF] + packed
}

/// A whole file: the signature, the version and the body.
pub open spec fn file_image(meta: Seq<u8>, packed: Seq<u8>) -> Seq<u8> {
    signature() + seq![VERSION] + body_image(meta, packed)
}

/// `e` is the position of the first end byte of `body` behind its first
/// byte.
pub open spec fn info_ends_at(body: Seq<u8>, e: int) -> bool {
    &&& 1 <= e < body.len()
    &&& body[e] == INFO_END
    &&& forall|j: int| 1 <= j < e ==> body[j] != INFO_END
}

/// The position of the end byte of the information block.
pub open spec fn info_end(body: Seq<u8>) -> int {
    choose|e: int| info_ends_at(body, e)
}

/// The information block and the value block of a body. The first byte of
/// the body and the byte behind the end byte are passed over unread. There
/// are no parts where the body has no end byte or stops right behind it.
pub open spec fn body_parts(body: Seq<u8>) -> Option<(Seq<u8>, Seq<u8>)> {
    if exists|e: int| info_ends_at(body, e) {
        let e = info_end(body);
        if e + 2 <= body.len() {
            Some((body.subrange(1, e), body.skip(e + 2)))
        } else {
            None
        }
    } else {
        None
    }
}

/// What the answer of the decompressor is read as: the first value of the
/// unpacked bytes. An end marker in its place is no value.
pub open spec fn unpacked_value(unpacked: Result<Seq<u8>, u64>) -> Result<Value, Failure> {
    match unpacked {
        Err(_) => Err(Failure::DecompressionFailure),
        Ok(tree) => match parse_node(tree) {
            Some((Some(v), _)) => Ok(v),
            _ => Err(Failure::TruncatedInput),
        },
    }
}

/// A block is handed to the decompressor unless it declares more contents
/// than can be allocated.
pub open spec fn block_accepted(packed: Seq<u8>) -> bool {
    packed.len() >= LZMA_HEADER_LEN ==> declared_size(packed) <= isize::MAX
}

/// The value that a compressed block is read as.
pub open spec fn block_value(packed: Seq<u8>) -> Result<Value, Failure> {
    if block_accepted(packed) {
        unpacked_value(lzma_unpacked(packed))
    } else {
        Err(Failure::DecompressionFailure)
    }
}

/// What a body is read as.
pub open spec fn decoded_body(body: Seq<u8>) -> Result<FileModel, Failure> {
    match body_parts(body) {
        None => Err(Failure::TruncatedInput),
        Some((meta, packed)) => match parse_info(text_of(meta)) {
            None => Err(Failure::MalformedMetadata),
            Some(info) => match block_value(packed) {
                Err(e) => Err(e),
                Ok(value) => Ok(FileModel { info, value }),
            },
        },
    }
}

/// What a whole file is read as. A file of fewer than five bytes is
/// truncated; then the signature is checked, then the version.
pub open spec fn decoded_file(image: Seq<u8>) -> Result<FileModel, Failure> {
    if image.len() < 5 {
        Err(Failure::TruncatedInput)
    } else if image.subrange(0, 4) != signature() {
        Err(Failure::InvalidHeader)
    } else if image[4] != VERSION {
        Err(Failure::UnsupportedCodec(decimal_text(image[4] as nat)))
    } else {
        decoded_body(image.skip(5))
    }
}

} // verus!
