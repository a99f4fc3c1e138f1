//! The fifth generation of the duplication file codec.

use crate::buffer::append_bytes;
use crate::error::{CodecError, Failure};
use crate::grammar::{
    encoding, entry_encodings, item_encodings, parse_at, parse_entries, parse_items, parse_triple,
    read_on, triple_encoding, SHORT_TEXT_MAX, TAG_ANGLE, TAG_END, TAG_FALSE, TAG_LIST,
    TAG_LONG_TEXT, TAG_NUMBER, TAG_TABLE, TAG_TRUE, TAG_VECTOR,
};
use crate::info::{info_bytes, parse_info, parse_info_text, write_info, DuplicationInfo, InfoModel};
use crate::layout::{
    block_accepted, body_parts, decoded_body, decoded_file, file_image, info_ends_at, signature,
    unpacked_value, FileModel, CRLF, HEADER, INFO_END, VERSION,
};
use crate::lzma::{lzma_compress, lzma_decompress, lzma_packed, lzma_unpacked, LZMA_HEADER_LEN};
use crate::round_trip::{faithful, lemma_file_round_trip};
use crate::table::{lemma_insert_entries, lemma_table_of_distinct, table_insert, table_of};
use crate::text::{decode_lossy, text_of};
use crate::value::{list_view, table_view, LuaValue, Value};
use vstd::bytes::{
    spec_u64_from_le_bytes, spec_u64_to_le_bytes, u32_from_le_bytes, u32_to_le_bytes,
    u64_from_le_bytes, u64_to_le_bytes,
};
use vstd::prelude::*;
use vstd::slice::slice_subrange;

verus! {

/// The codec for version 5 files.
#[derive(Default)]
pub struct AdCodec5 {}

/// The file that is written from `info` and `value`: the layout of a file
/// around the pairs of `info` and the block that the compressor makes of the
/// encoding of `value` at the highest effort. No file is written where the
/// compressor fails.
pub open spec fn encoded_file(info: InfoModel, value: Value) -> Result<Seq<u8>, Failure> {
    match lzma_packed(encoding(value), MAX_EFFORT as int) {
        Ok(packed) => Ok(file_image(info_bytes(info.values), packed)),
        Err(_) => Err(Failure::CompressionFailure),
    }
}

/// The model of the outcome of encoding.
pub open spec fn image_outcome(r: Result<Vec<u8>, CodecError>) -> Result<Seq<u8>, Failure> {
    match r {
        Ok(image) => Ok(image@),
        Err(e) => Err(e@),
    }
}

/// A codec for one generation of the file format. It reads and writes what
/// follows the version byte of a file.
pub trait AdCodec {
    /// Reads the body of a file: the information block and the value tree.
    fn decode(&self, body: &[u8]) -> Result<DuplicationResult, CodecError>;

    /// Writes a whole file, signature and version included, from an
    /// information block and a value tree.
    fn encode(&self, dupe_info: &DuplicationInfo, lua_value: &LuaValue) -> Result<
        Vec<u8>,
        CodecError,
    >
        requires
            lua_value@.wf(),
            lua_value@.encodable(),
    ;

    /// Whether `signature` is the signature of a file of this codec.
    fn is_valid_signature(&self, signature: &[u8]) -> bool;
}

/// A decoded file: the information block and the value tree.
pub struct DuplicationResult {
    info: DuplicationInfo,
    value: LuaValue,
}

impl View for DuplicationResult {
    type V = FileModel;

    closed spec fn view(&self) -> FileModel {
        FileModel { info: self.info@, value: self.value@ }
    }
}

impl DuplicationResult {
    /// Puts an information block and a value tree together.
    pub fn new(info: DuplicationInfo, value: LuaValue) -> (r: DuplicationResult)
        ensures
            r@ == (FileModel { info: info@, value: value@ }),
    {
        DuplicationResult { info, value }
    }

    /// The information block.
    pub fn info(&self) -> (r: &DuplicationInfo)
        ensures
            r@ == self@.info,
    {
        &self.info
    }

    /// The information block, to be changed in place.
    pub fn info_mut(&mut self) -> (r: &mut DuplicationInfo)
        ensures
            r@ == old(self)@.info,
            final(self)@ == (FileModel { info: final(r)@, value: old(self)@.value }),
    {
        &mut self.info
    }

    /// The value tree.
    pub fn value(&self) -> (r: &LuaValue)
        ensures
            r@ == self@.value,
    {
        &self.value
    }

    /// The value tree, to be changed in place.
    pub fn value_mut(&mut self) -> (r: &mut LuaValue)
        ensures
            r@ == old(self)@.value,
            final(self)@ == (FileModel { info: old(self)@.info, value: final(r)@ }),
    {
        &mut self.value
    }
}

/// The model of what one decoding step yields: a value, or nothing at an end
/// marker.
pub open spec fn node_view(node: Option<LuaValue>) -> Option<Value> {
    match node {
        Some(v) => Some(v@),
        None => None,
    }
}

/// The model of the outcome of decoding.
pub open spec fn outcome(r: Result<DuplicationResult, CodecError>) -> Result<FileModel, Failure> {
    match r {
        Ok(file) => Ok(file@),
        Err(e) => Err(e@),
    }
}

/// The model of what the decompressor answered.
pub open spec fn unpacked_view(r: Result<Vec<u8>, u64>) -> Result<Seq<u8>, u64> {
    match r {
        Ok(data) => Ok(data@),
        Err(code) => Err(code),
    }
}

/// The effort that the compressor is asked for: the highest.
pub const MAX_EFFORT: i32 = 9;

/// What holds of a file `image` that was written from `info` and `value`:
/// it has the layout of a file with the pairs of `info` as its information
/// block, its value block is accepted by the decompressor and unpacks to the
/// encoding of `value`, and where `info` is faithful the file is read back
/// as `info` and `value`.
pub open spec fn written(image: Seq<u8>, info: InfoModel, value: Value) -> bool {
    let meta = info_bytes(info.values);
    let packed = image.skip(8 + meta.len() as int);
    &&& image == file_image(meta, packed)
    &&& block_accepted(packed)
    &&& lzma_unpacked(packed) == Ok::<Seq<u8>, u64>(encoding(value))
    &&& faithful(info) ==> decoded_file(image) == Ok::<FileModel, Failure>(
        FileModel { info, value },
    )
}

impl AdCodec5 {
    /// The eight bytes of a double, given by its bit pattern, least
    /// significant byte first.
    pub fn double_as_bytes(value: &u64) -> (r: [u8; 8])
        ensures
            r@ == spec_u64_to_le_bytes(*value),
    {
        let v = u64_to_le_bytes(*value);
        [v[0], v[1], v[2], v[3], v[4], v[5], v[6], v[7]]
    }

    /// Reads the bit pattern of a double from the eight bytes of `data` that
    /// start at `pos`.
    pub fn read_double(data: &[u8], pos: usize) -> (r: Result<u64, CodecError>)
        ensures
            pos + 8 <= data.len() ==> (r matches Ok(bits) && bits == spec_u64_from_le_bytes(
                data@.subrange(pos as int, pos + 8),
            )),
            pos + 8 > data.len() ==> (r matches Err(e) && e@ == Failure::TruncatedInput),
    {
        if pos > data.len() || data.len() - pos < 8 {
            return Err(CodecError::TruncatedInput);
        }
        Ok(u64_from_le_bytes(slice_subrange(data, pos, pos + 8)))
    }

    /// Writes the three doubles of a vector or an angle.
    fn encode_triple(parts: &Vec<u64>, stream: &mut Vec<u8>)
        requires
            parts.len() == 3,
        ensures
            final(stream)@ == old(stream)@ + triple_encoding(parts@),
    {
        append_bytes(stream, &Self::double_as_bytes(&parts[0]));
        append_bytes(stream, &Self::double_as_bytes(&parts[1]));
        append_bytes(stream, &Self::double_as_bytes(&parts[2]));
    }

    /// Appends the encoding of `value` to `stream`.
    pub fn encode_stream(value: &LuaValue, stream: &mut Vec<u8>)
        requires
            value@.wf(),
            value@.encodable(),
        ensures
            final(stream)@ == old(stream)@ + encoding(value@),
        decreases value,
    {
        match value {
            LuaValue::String(text) => {
                let bytes = text.as_str().as_bytes();
                if bytes.len() <= SHORT_TEXT_MAX as usize {
                    stream.push(bytes.len() as u8);
                    append_bytes(stream, bytes);
                } else {
                    stream.push(TAG_LONG_TEXT);
                    let len = u32_to_le_bytes(bytes.len() as u32);
                    append_bytes(stream, len.as_slice());
                    append_bytes(stream, bytes);
                }
            },
            LuaValue::Array(items) => {
                stream.push(TAG_LIST);
                let ghost parts = item_encodings(list_view(items@));
                let mut i: usize = 0;
                while i < items.len()
                    invariant
                        i <= items.len(),
                        value is Array,
                        *items == value->Array_0,
                        value@.wf(),
                        value@.encodable(),
                        parts == item_encodings(list_view(items@)),
                        stream@ == old(stream)@ + seq![TAG_LIST] + parts.take(i as int).flatten(),
                    decreases items.len() - i,
                {
                    assert(value@->List_0[i as int] == items@[i as int]@);
                    Self::encode_stream(&items[i], stream);
                    proof {
                        assert(parts.take(i + 1) =~= parts.take(i as int).push(parts[i as int]));
                        parts.take(i as int).lemma_flatten_push(parts[i as int]);
                    }
                    i += 1;
                }
                stream.push(TAG_END);
                assert(parts.take(i as int) =~= parts);
            },
            LuaValue::Table(entries) => {
                stream.push(TAG_TABLE);
                let ghost parts = entry_encodings(table_view(entries@));
                let mut i: usize = 0;
                while i < entries.len()
                    invariant
                        i <= entries.len(),
                        value is Table,
                        *entries == value->Table_0,
                        value@.wf(),
                        value@.encodable(),
                        parts == entry_encodings(table_view(entries@)),
                        stream@ == old(stream)@ + seq![TAG_TABLE] + parts.take(i as int).flatten(),
                    decreases entries.len() - i,
                {
                    assert(value@->Table_0[i as int] == (
                        entries@[i as int].0@,
                        entries@[i as int].1@,
                    ));
                    Self::encode_stream(&entries[i].0, stream);
                    Self::encode_stream(&entries[i].1, stream);
                    proof {
                        assert(parts.take(i + 1) =~= parts.take(i as int).push(parts[i as int]));
                        parts.take(i as int).lemma_flatten_push(parts[i as int]);
                    }
                    i += 1;
                }
                stream.push(TAG_END);
                assert(parts.take(i as int) =~= parts);
            },
            LuaValue::Double(bits) => {
                stream.push(TAG_NUMBER);
                append_bytes(stream, &Self::double_as_bytes(bits));
            },
            LuaValue::Vector(parts) => {
                stream.push(TAG_VECTOR);
                Self::encode_triple(parts, stream);
            },
            LuaValue::Angle(parts) => {
                stream.push(TAG_ANGLE);
                Self::encode_triple(parts, stream);
            },
            LuaValue::Bool(b) => {
                if *b {
                    stream.push(TAG_TRUE);
                } else {
                    stream.push(TAG_FALSE);
                }
            },
        }
    }

    /// Reads one node of the value tree from `data`, starting at `pos`.
    ///
    /// On success the result holds the value read, or `None` where the node
    /// is the end marker of a list or table, and the position behind the
    /// node. The input is truncated where it ends before the node does, or
    /// where a table holds a key without a value.
    pub fn decode_stream(data: &[u8], pos: usize) -> (r: Result<
        (Option<LuaValue>, usize),
        CodecError,
    >)
        ensures
            match parse_at(data@, pos as int) {
                Some((node, n)) => {
                    &&& r matches Ok((v, next))
                    &&& node_view(v) == node
                    &&& next == pos + n
                    &&& pos < next <= data.len()
                    &&& v matches Some(x) ==> x@.wf()
                },
                None => r matches Err(e) && e@ == Failure::TruncatedInput,
            },
        decreases data.len() - pos,
    {
        if pos >= data.len() {
            return Err(CodecError::TruncatedInput);
        }
        let ghost s = data@.skip(pos as int);
        let tag = data[pos];
        let left = data.len() - pos;
        if tag == TAG_TABLE {
            let mut entries: Vec<(LuaValue, LuaValue)> = Vec::new();
            let ghost mut raw: Seq<(Value, Value)> = Seq::empty();
            let mut p = pos + 1;
            loop
                invariant
                    pos < p <= data.len(),
                    s == data@.skip(pos as int),
                    s[0] == TAG_TABLE,
                    s.skip(1) == data@.skip(pos + 1),
                    table_view(entries@) == table_of(raw),
                    forall|i: int|
                        0 <= i < table_of(raw).len() ==> (#[trigger] table_of(raw)[i]).0.wf()
                            && table_of(raw)[i].1.wf(),
                    parse_entries(data@.skip(pos + 1)) == read_on(
                        raw,
                        p - pos - 1,
                        parse_entries(data@.skip(p as int)),
                    ),
                decreases data.len() - p,
            {
                let ghost here = data@.skip(p as int);
                let (key, q) = match Self::decode_stream(data, p) {
                    Err(_) => {
                        return Err(CodecError::TruncatedInput);
                    },
                    Ok((None, next)) => {
                        proof {
                            lemma_table_of_distinct(raw);
                        }
                        return Ok((Some(LuaValue::Table(entries)), next));
                    },
                    Ok((Some(key), next)) => (key, next),
                };
                let ghost n = q - p;
                assert(here.skip(n) =~= data@.skip(q as int));
                let (value, after) = match Self::decode_stream(data, q) {
                    Ok((Some(value), next)) => (value, next),
                    _ => {
                        return Err(CodecError::TruncatedInput);
                    },
                };
                let ghost m = after - q;
                assert(here.skip(n + m) =~= data@.skip(after as int));
                proof {
                    let pair = (key@, value@);
                    assert(raw.push(pair).drop_last() =~= raw);
                    lemma_insert_entries(table_of(raw), key@, value@);
                    raw = raw.push(pair);
                }
                table_insert(&mut entries, key, value);
                p = after;
            }
        } else if tag == TAG_LIST {
            let mut items: Vec<LuaValue> = Vec::new();
            let mut p = pos + 1;
            loop
                invariant
                    pos < p <= data.len(),
                    s == data@.skip(pos as int),
                    s[0] == TAG_LIST,
                    s.skip(1) == data@.skip(pos + 1),
                    forall|i: int| 0 <= i < items@.len() ==> (#[trigger] items@[i])@.wf(),
                    parse_items(data@.skip(pos + 1)) == read_on(
                        list_view(items@),
                        p - pos - 1,
                        parse_items(data@.skip(p as int)),
                    ),
                decreases data.len() - p,
            {
                let ghost here = data@.skip(p as int);
                match Self::decode_stream(data, p) {
                    Err(_) => {
                        return Err(CodecError::TruncatedInput);
                    },
                    Ok((None, next)) => {
                        return Ok((Some(LuaValue::Array(items)), next));
                    },
                    Ok((Some(item), next)) => {
                        proof {
                            assert(here.skip(next - p) =~= data@.skip(next as int));
                        }
                        items.push(item);
                        p = next;
                    },
                }
            }
        } else if tag == TAG_VECTOR || tag == TAG_ANGLE {
            let x = match Self::read_double(data, pos + 1) {
                Ok(bits) => bits,
                Err(e) => {
                    return Err(e);
                },
            };
            let y = match Self::read_double(data, pos + 9) {
                Ok(bits) => bits,
                Err(e) => {
                    return Err(e);
                },
            };
            let z = match Self::read_double(data, pos + 17) {
                Ok(bits) => bits,
                Err(e) => {
                    return Err(e);
                },
            };
            let mut parts: Vec<u64> = Vec::new();
            parts.push(x);
            parts.push(y);
            parts.push(z);
            proof {
                assert(s.skip(1).subrange(0, 8) =~= data@.subrange(pos + 1, pos + 9));
                assert(s.skip(1).subrange(8, 16) =~= data@.subrange(pos + 9, pos + 17));
                assert(s.skip(1).subrange(16, 24) =~= data@.subrange(pos + 17, pos + 25));
                assert(parts@ =~= parse_triple(s.skip(1)));
            }
            if tag == TAG_VECTOR {
                Ok((Some(LuaValue::Vector(parts)), pos + 25))
            } else {
                Ok((Some(LuaValue::Angle(parts)), pos + 25))
            }
        } else if tag == TAG_NUMBER {
            let bits = match Self::read_double(data, pos + 1) {
                Ok(bits) => bits,
                Err(e) => {
                    return Err(e);
                },
            };
            assert(s.subrange(1, 9) =~= data@.subrange(pos + 1, pos + 9));
            Ok((Some(LuaValue::Double(bits)), pos + 9))
        } else if tag == TAG_FALSE {
            Ok((Some(LuaValue::Bool(false)), pos + 1))
        } else if tag == TAG_TRUE {
            Ok((Some(LuaValue::Bool(true)), pos + 1))
        } else if tag == TAG_END {
            Ok((None, pos + 1))
        } else if tag == TAG_LONG_TEXT {
            if left < 5 {
                return Err(CodecError::TruncatedInput);
            }
            let len = u32_from_le_bytes(slice_subrange(data, pos + 1, pos + 5)) as usize;
            assert(s.subrange(1, 5) =~= data@.subrange(pos + 1, pos + 5));
            if left - 5 < len {
                return Err(CodecError::TruncatedInput);
            }
            let text = decode_lossy(slice_subrange(data, pos + 5, pos + 5 + len));
            assert(s.subrange(5, 5 + len) =~= data@.subrange(pos + 5, pos + 5 + len));
            Ok((Some(LuaValue::String(text)), pos + 5 + len))
        } else {
            let len = tag as usize;
            if left - 1 < len {
                return Err(CodecError::TruncatedInput);
            }
            let text = decode_lossy(slice_subrange(data, pos + 1, pos + 1 + len));
            assert(s.subrange(1, 1 + len) =~= data@.subrange(pos + 1, pos + 1 + len));
            Ok((Some(LuaValue::String(text)), pos + 1 + len))
        }
    }
}

impl AdCodec5 {
    /// Reads an information block: the bytes are taken as UTF-8, with
    /// U+FFFD for what is not, and the text is read by
    /// [`parse_info_text`].
    pub fn get_duplication_info(data: &[u8]) -> (r: Result<DuplicationInfo, CodecError>)
        ensures
            match parse_info(text_of(data@)) {
                Some(model) => r matches Ok(info) && info@ == model,
                None => r matches Err(e) && e@ == Failure::MalformedMetadata,
            },
    {
        let text = decode_lossy(data);
        parse_info_text(text.as_str())
    }

    /// Finishes decoding with the answer of the decompressor: the unpacked
    /// bytes are read as one value, and an error of the decompressor is
    /// reported as such.
    pub fn decode_unpacked(info: DuplicationInfo, unpacked: Result<Vec<u8>, u64>) -> (r: Result<
        DuplicationResult,
        CodecError,
    >)
        ensures
            match unpacked_value(unpacked_view(unpacked)) {
                Ok(value) => outcome(r) == Ok::<FileModel, Failure>(
                    FileModel { info: info@, value },
                ),
                Err(e) => outcome(r) == Err::<FileModel, Failure>(e),
            },
            r matches Ok(file) ==> file@.value.wf(),
    {
        let tree = match unpacked {
            Ok(tree) => tree,
            Err(_) => {
                return Err(CodecError::DecompressionFailure);
            },
        };
        assert(tree@.skip(0) =~= tree@);
        match Self::decode_stream(tree.as_slice(), 0) {
            Ok((Some(value), _)) => Ok(DuplicationResult::new(info, value)),
            _ => Err(CodecError::TruncatedInput),
        }
    }

    /// Puts a file together from an information block and a compressed
    /// value block.
    pub fn assemble(dupe_info: &DuplicationInfo, packed: &[u8]) -> (image: Vec<u8>)
        ensures
            image@ == file_image(info_bytes(dupe_info@.values), packed@),
    {
        let mut image: Vec<u8> = Vec::new();
        append_bytes(&mut image, &HEADER);
        image.push(VERSION);
        image.push(CRLF);
        write_info(dupe_info, &mut image);
        image.push(INFO_END);
        image.push(CRLF);
        append_bytes(&mut image, packed);
        image
    }

    /// Cuts a body into the information block and the value block.
    fn split_body(body: &[u8]) -> (r: Option<(&[u8], &[u8])>)
        ensures
            match body_parts(body@) {
                Some((meta, packed)) => r matches Some(parts) && parts.0@ == meta && parts.1@
                    == packed,
                None => r is None,
            },
    {
        let mut e: usize = 1;
        while e < body.len() && body[e] != INFO_END
            invariant
                1 <= e,
                forall|j: int| 1 <= j < e && j < body.len() ==> body@[j] != INFO_END,
            decreases body.len() - e,
        {
            e += 1;
        }
        if e >= body.len() {
            return None;
        }
        if body.len() - e < 2 {
            return None;
        }
        let meta = slice_subrange(body, 1, e);
        let packed = slice_subrange(body, e + 2, body.len());
        assert(info_ends_at(body@, e as int));
        Some((meta, packed))
    }
}

impl AdCodec for AdCodec5 {
    /// Reads the body of a version 5 file. The information block ends at
    /// the first end byte; the rest, behind one more byte, is decompressed
    /// and read as the value tree.
    fn decode(&self, body: &[u8]) -> (r: Result<DuplicationResult, CodecError>)
        ensures
            outcome(r) == decoded_body(body@),
            r matches Ok(file) ==> file@.value.wf(),
    {
        let (meta, packed) = match Self::split_body(body) {
            Some(parts) => parts,
            None => {
                return Err(CodecError::TruncatedInput);
            },
        };
        let info = match Self::get_duplication_info(meta) {
            Ok(info) => info,
            Err(_) => {
                return Err(CodecError::MalformedMetadata);
            },
        };
        if packed.len() >= LZMA_HEADER_LEN {
            let declared = u64_from_le_bytes(slice_subrange(packed, 5, 13));
            if declared > isize::MAX as u64 {
                return Err(CodecError::DecompressionFailure);
            }
        }
        Self::decode_unpacked(info, lzma_decompress(packed))
    }

    /// Writes a version 5 file. The value tree is compressed with the
    /// highest effort. A file is returned exactly where the compressor
    /// gives a block for the encoding of `lua_value`, and it is the file
    /// with the pairs of `dupe_info` and that block; the failure of the
    /// compressor is the only error. The block of a file that is returned
    /// decompresses to the encoding of `lua_value`, so that the file is read
    /// back as `dupe_info` and `lua_value` where `dupe_info` is faithful.
    fn encode(&self, dupe_info: &DuplicationInfo, lua_value: &LuaValue) -> (r: Result<
        Vec<u8>,
        CodecError,
    >)
        ensures
            image_outcome(r) == encoded_file(dupe_info@, lua_value@),
            r matches Ok(image) ==> written(image@, dupe_info@, lua_value@),
    {
        let mut tree: Vec<u8> = Vec::new();
        Self::encode_stream(lua_value, &mut tree);
        match lzma_compress(tree.as_slice(), MAX_EFFORT) {
            Ok(packed) => {
                let image = Self::assemble(dupe_info, packed.as_slice());
                proof {
                    assert(image@.skip(8 + info_bytes(dupe_info@.values).len() as int)
                        =~= packed@);
                    if faithful(dupe_info@) {
                        lemma_file_round_trip(dupe_info@, lua_value@, packed@);
                    }
                }
                Ok(image)
            },
            Err(_) => Err(CodecError::CompressionFailure),
        }
    }

    /// Whether `signature` is `AD2F`.
    fn is_valid_signature(&self, signature: &[u8]) -> (r: bool)
        ensures
            r == (signature@ == crate::layout::signature()),
    {
        if signature.len() != 4 {
            return false;
        }
        let r = signature[0] == HEADER[0] && signature[1] == HEADER[1] && signature[2] == HEADER[2]
            && signature[3] == HEADER[3];
        assert(r == (signature@ =~= crate::layout::signature()));
        r
    }
}

impl LuaValue {
    /// Whether the value can be written: every text in it has at most
    /// `u32::MAX` bytes.
    pub fn is_encodable(&self) -> (r: bool)
        ensures
            r == self@.encodable(),
    {
        check_encodable(self)
    }
}

/// Whether every text of a value fits the length field of the grammar.
fn check_encodable(v: &LuaValue) -> (r: bool)
    ensures
        r == v@.encodable(),
    decreases v,
{
    match v {
        LuaValue::String(text) => text.as_str().as_bytes().len() <= u32::MAX as usize,
        LuaValue::Array(items) => {
            let mut i: usize = 0;
            while i < items.len()
                invariant
                    i <= items.len(),
                    v is Array,
                    *items == v->Array_0,
                    forall|j: int| 0 <= j < i ==> (#[trigger] v@->List_0[j]).encodable(),
                decreases items.len() - i,
            {
                if !check_encodable(&items[i]) {
                    assert(!v@->List_0[i as int].encodable());
                    return false;
                }
                i += 1;
            }
            true
        },
        LuaValue::Table(entries) => {
            let mut i: usize = 0;
            while i < entries.len()
                invariant
                    i <= entries.len(),
                    v is Table,
                    *entries == v->Table_0,
                    forall|j: int|
                        0 <= j < i ==> (#[trigger] v@->Table_0[j]).0.encodable()
                            && v@->Table_0[j].1.encodable(),
                decreases entries.len() - i,
            {
                if !check_encodable(&entries[i].0) || !check_encodable(&entries[i].1) {
                    assert(!(v@->Table_0[i as int].0.encodable()
                        && v@->Table_0[i as int].1.encodable()));
                    return false;
                }
                i += 1;
            }
            true
        },
        _ => true,
    }
}

} // verus!
