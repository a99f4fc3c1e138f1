//! Reading back what was written: values, information blocks and whole
//! files come back as they were.

use crate::error::Failure;
use crate::grammar::{
    encoding, entry_encodings, item_encodings, parse_entries, parse_items, parse_node, parse_triple,
    text_encoding, triple_encoding, SHORT_TEXT_MAX, TAG_END,
};
use crate::info::{
    info_bytes, info_of, pair_up, parse_info, separator, sizes_valid, split_text, InfoModel,
    TextPair, INFO_SPLIT,
};
use crate::layout::{
    block_accepted, body_image, body_parts, decoded_file, file_image, info_ends_at, signature,
    FileModel, INFO_END,
};
use crate::lzma::lzma_unpacked;
use crate::table::lemma_table_of_identity;
use crate::text::text_of;
use crate::value::Value;
use vstd::bytes::{
    lemma_auto_spec_u32_to_from_le_bytes, lemma_auto_spec_u64_to_from_le_bytes,
    spec_u32_to_le_bytes, spec_u64_to_le_bytes,
};
use vstd::prelude::*;
use vstd::utf8::{encode_utf8, encode_utf8_decode_utf8, encode_utf8_valid_utf8};

verus! {

/// A text that was encoded as UTF-8 is read back unchanged.
pub proof fn lemma_text_of_encoded(t: Seq<char>)
    ensures
        text_of(encode_utf8(t)) == t,
{
    encode_utf8_valid_utf8(t);
    encode_utf8_decode_utf8(t);
}

/// A text is read back from its encoding, whatever follows it.
proof fn lemma_text_round_trip(t: Seq<char>, rest: Seq<u8>)
    requires
        encode_utf8(t).len() <= u32::MAX,
    ensures
        parse_node(text_encoding(t) + rest) == Some(
            (Some(Value::Text(t)), text_encoding(t).len() as int),
        ),
{
    let bytes = encode_utf8(t);
    let s = text_encoding(t) + rest;
    let len = bytes.len() as int;
    lemma_text_of_encoded(t);
    if len <= SHORT_TEXT_MAX {
        assert(s.subrange(1, 1 + len) =~= bytes);
    } else {
        lemma_auto_spec_u32_to_from_le_bytes();
        let field = spec_u32_to_le_bytes(len as u32);
        assert(s.subrange(1, 5) =~= field);
        assert(s.subrange(5, 5 + len) =~= bytes);
    }
}

/// Three doubles are read back from their encoding.
proof fn lemma_triple_round_trip(parts: Seq<u64>, rest: Seq<u8>)
    requires
        parts.len() == 3,
    ensures
        triple_encoding(parts).len() == 24,
        parse_triple(triple_encoding(parts) + rest) == parts,
{
    lemma_auto_spec_u64_to_from_le_bytes();
    let s = triple_encoding(parts) + rest;
    assert(s.subrange(0, 8) =~= spec_u64_to_le_bytes(parts[0]));
    assert(s.subrange(8, 16) =~= spec_u64_to_le_bytes(parts[1]));
    assert(s.subrange(16, 24) =~= spec_u64_to_le_bytes(parts[2]));
}

/// Round trip of single values: for every well-formed value `v` whose texts
/// fit the length field, and whatever bytes `rest` follow, reading a node
/// from the encoding of `v` followed by `rest` yields `v` itself and consumes
/// exactly the encoding. The entries of a table come back in the order in
/// which they were written.
pub proof fn lemma_value_round_trip(v: Value, rest: Seq<u8>)
    requires
        v.wf(),
        v.encodable(),
    ensures
        encoding(v).len() >= 1,
        parse_node(encoding(v) + rest) == Some((Some(v), encoding(v).len() as int)),
    decreases v, 0int,
{
    let s = encoding(v) + rest;
    match v {
        Value::Text(t) => {
            lemma_text_round_trip(t, rest);
        },
        Value::List(items) => {
            lemma_items_round_trip(items, 0, rest);
            let body = item_encodings(items).flatten();
            assert(item_encodings(items).skip(0) =~= item_encodings(items));
            assert(items.skip(0) =~= items);
            assert(s.skip(1) =~= body + seq![TAG_END] + rest);
        },
        Value::Table(entries) => {
            lemma_entries_round_trip(entries, 0, rest);
            let body = entry_encodings(entries).flatten();
            assert(entry_encodings(entries).skip(0) =~= entry_encodings(entries));
            assert(entries.skip(0) =~= entries);
            assert(s.skip(1) =~= body + seq![TAG_END] + rest);
            lemma_table_of_identity(entries);
        },
        Value::Number(bits) => {
            lemma_auto_spec_u64_to_from_le_bytes();
            assert(s.subrange(1, 9) =~= spec_u64_to_le_bytes(bits));
        },
        Value::Vector(parts) => {
            lemma_triple_round_trip(parts, rest);
            assert(s.skip(1) =~= triple_encoding(parts) + rest);
        },
        Value::Angle(parts) => {
            lemma_triple_round_trip(parts, rest);
            assert(s.skip(1) =~= triple_encoding(parts) + rest);
        },
        Value::Boolean(b) => {},
    }
}

/// The elements of a list from position `k` on are read back from their
/// encodings followed by the end marker.
proof fn lemma_items_round_trip(items: Seq<Value>, k: int, rest: Seq<u8>)
    requires
        0 <= k <= items.len(),
        forall|i: int| 0 <= i < items.len() ==> (#[trigger] items[i]).wf(),
        forall|i: int| 0 <= i < items.len() ==> (#[trigger] items[i]).encodable(),
    ensures
        parse_items(item_encodings(items).skip(k).flatten() + seq![TAG_END] + rest) == Some(
            (items.skip(k), item_encodings(items).skip(k).flatten().len() as int + 1),
        ),
    decreases items, items.len() - k,
{
    let parts = item_encodings(items).skip(k);
    let s = parts.flatten() + seq![TAG_END] + rest;
    if k < items.len() {
        let head = encoding(items[k]);
        let tail = item_encodings(items).skip(k + 1);
        assert(parts.drop_first() =~= tail);
        let follow = tail.flatten() + seq![TAG_END] + rest;
        assert(s =~= head + follow);
        lemma_value_round_trip(items[k], follow);
        lemma_items_round_trip(items, k + 1, rest);
        assert(s.skip(head.len() as int) =~= follow);
        let n = head.len() as int;
        assert(parse_node(s) == Some((Some(items[k]), n)));
    }
}

/// The entries of a table from position `k` on are read back from their
/// encodings followed by the end marker.
proof fn lemma_entries_round_trip(entries: Seq<(Value, Value)>, k: int, rest: Seq<u8>)
    requires
        0 <= k <= entries.len(),
        forall|i: int|
            0 <= i < entries.len() ==> (#[trigger] entries[i]).0.wf() && entries[i].1.wf(),
        forall|i: int|
            0 <= i < entries.len() ==> (#[trigger] entries[i]).0.encodable()
                && entries[i].1.encodable(),
    ensures
        parse_entries(entry_encodings(entries).skip(k).flatten() + seq![TAG_END] + rest) == Some(
            (entries.skip(k), entry_encodings(entries).skip(k).flatten().len() as int + 1),
        ),
    decreases entries, entries.len() - k,
{
    let parts = entry_encodings(entries).skip(k);
    let s = parts.flatten() + seq![TAG_END] + rest;
    if k < entries.len() {
        let key = encoding(entries[k].0);
        let value = encoding(entries[k].1);
        let tail = entry_encodings(entries).skip(k + 1);
        assert(parts.drop_first() =~= tail);
        let follow = tail.flatten() + seq![TAG_END] + rest;
        assert(s =~= key + (value + follow));
        lemma_value_round_trip(entries[k].0, value + follow);
        lemma_value_round_trip(entries[k].1, follow);
        lemma_entries_round_trip(entries, k + 1, rest);
        assert(s.skip(key.len() as int) =~= value + follow);
        assert(s.skip((key.len() + value.len()) as int) =~= follow);
        let n = key.len() as int;
        assert(parse_node(s) == Some((Some(entries[k].0), n)));
    }
}

/// The text of a list of pairs: each key and each value followed by the
/// separator.
pub open spec fn info_text(values: Seq<TextPair>) -> Seq<char>
    decreases values.len(),
{
    if values.len() == 0 {
        Seq::empty()
    } else {
        info_text(values.drop_last()) + values.last().0 + seq![separator()] + values.last().1
            + seq![separator()]
    }
}

/// The keys and values of a list of pairs, one after the other.
pub open spec fn pair_parts(values: Seq<TextPair>) -> Seq<Seq<char>> {
    Seq::new(
        2 * values.len(),
        |j: int|
            if j % 2 == 0 {
                values[j / 2].0
            } else {
                values[j / 2].1
            },
    )
}

/// No key and no value holds the separator.
pub open spec fn no_separator(values: Seq<TextPair>) -> bool {
    forall|i: int|
        0 <= i < values.len() ==> !(#[trigger] values[i]).0.contains(separator())
            && !values[i].1.contains(separator())
}

/// The UTF-8 bytes of two texts joined are the bytes of the first followed by
/// the bytes of the second.
pub proof fn lemma_encode_utf8_concat(a: Seq<char>, b: Seq<char>)
    ensures
        encode_utf8(a + b) == encode_utf8(a) + encode_utf8(b),
    decreases a.len(),
{
    if a.len() > 0 {
        lemma_encode_utf8_concat(a.drop_first(), b);
        assert((a + b).drop_first() =~= a.drop_first() + b);
    }
}

/// The separator character is written as the separator byte.
proof fn lemma_encode_separator()
    ensures
        encode_utf8(seq![separator()]) == seq![INFO_SPLIT],
{
    let one = seq![separator()];
    assert(one.drop_first() =~= Seq::<char>::empty());
    assert((1u32 & 0x7F) as u8 == 1u8) by (bit_vector);
    assert(encode_utf8(Seq::<char>::empty()) =~= Seq::<u8>::empty());
}

/// The bytes of a list of pairs are the UTF-8 bytes of its text.
proof fn lemma_info_bytes_text(values: Seq<TextPair>)
    ensures
        info_bytes(values) == encode_utf8(info_text(values)),
    decreases values.len(),
{
    if values.len() > 0 {
        let front = info_text(values.drop_last());
        let key = values.last().0;
        let value = values.last().1;
        let sep = seq![separator()];
        lemma_info_bytes_text(values.drop_last());
        lemma_encode_separator();
        lemma_encode_utf8_concat(front, key);
        lemma_encode_utf8_concat(front + key, sep);
        lemma_encode_utf8_concat(front + key + sep, value);
        lemma_encode_utf8_concat(front + key + sep + value, sep);
    }
}

/// Splitting always yields at least one part.
proof fn lemma_split_nonempty(s: Seq<char>, sep: char)
    ensures
        split_text(s, sep).len() >= 1,
    decreases s.len(),
{
    if s.len() > 0 {
        lemma_split_nonempty(s.drop_last(), sep);
    }
}

/// A text without a separator, put behind another text, only lengthens the
/// last part of that text.
proof fn lemma_split_append(a: Seq<char>, b: Seq<char>, sep: char)
    requires
        !b.contains(sep),
    ensures
        split_text(a, sep).len() >= 1,
        split_text(a + b, sep) == split_text(a, sep).update(
            split_text(a, sep).len() - 1,
            split_text(a, sep).last() + b,
        ),
    decreases b.len(),
{
    lemma_split_nonempty(a, sep);
    let parts = split_text(a, sep);
    if b.len() > 0 {
        let front = b.drop_last();
        lemma_split_append(a, front, sep);
        assert((a + b).drop_last() =~= a + front);
        let grown = split_text(a + front, sep);
        assert(grown.update(grown.len() - 1, grown.last().push(b.last())) =~= parts.update(
            parts.len() - 1,
            parts.last() + b,
        )) by {
            assert(grown.last().push(b.last()) =~= parts.last() + b);
        }
    }
}

/// A separator put behind a text opens a new, empty part.
proof fn lemma_split_separator(a: Seq<char>, sep: char)
    ensures
        split_text(a + seq![sep], sep) == split_text(a, sep).push(Seq::empty()),
{
    assert((a + seq![sep]).drop_last() =~= a);
}

/// The text of a list of pairs splits into its keys and values, followed by
/// one empty part.
proof fn lemma_split_info_text(values: Seq<TextPair>)
    requires
        no_separator(values),
    ensures
        split_text(info_text(values), separator()) == pair_parts(values).push(Seq::empty()),
    decreases values.len(),
{
    let sep = separator();
    if values.len() > 0 {
        let front = values.drop_last();
        let key = values.last().0;
        let value = values.last().1;
        lemma_split_info_text(front);
        let t0 = info_text(front);
        lemma_split_append(t0, key, sep);
        lemma_split_separator(t0 + key, sep);
        lemma_split_append(t0 + key + seq![sep], value, sep);
        lemma_split_separator(t0 + key + seq![sep] + value, sep);
    }
}

/// Round trip of the information block: where no key and no value of
/// `values` holds the separator character U+0001, and every value under the
/// key `size` is an unsigned number, the bytes that `values` are written as
/// are read back as exactly these pairs, with each field taken from the last
/// pair that is named for it.
pub proof fn lemma_info_round_trip(values: Seq<TextPair>)
    requires
        no_separator(values),
        sizes_valid(values),
    ensures
        parse_info(text_of(info_bytes(values))) == Some(info_of(values)),
{
    lemma_info_bytes_text(values);
    lemma_text_of_encoded(info_text(values));
    lemma_split_info_text(values);
    let parts = pair_parts(values).push(Seq::empty());
    assert(pair_up(parts) =~= values);
}

/// The character that the end byte of the information block decodes to.
pub open spec fn terminator() -> char {
    '\u{2}'
}

/// No key and no value holds the character of the end byte.
pub open spec fn no_terminator(values: Seq<TextPair>) -> bool {
    forall|i: int|
        0 <= i < values.len() ==> !(#[trigger] values[i]).0.contains(terminator())
            && !values[i].1.contains(terminator())
}

/// The UTF-8 bytes of a character other than U+0002 are other than 2.
proof fn lemma_scalar_without_end_byte(c: u32)
    requires
        c != 2,
        vstd::utf8::is_scalar(c),
    ensures
        forall|j: int|
            0 <= j < vstd::utf8::encode_scalar(c).len() ==> vstd::utf8::encode_scalar(c)[j] != 2,
{
    assert(c <= 0x7F ==> (c & 0x7F) as u8 != 2u8) by (bit_vector)
        requires
            c != 2,
    ;
    assert(0xC0u8 | ((c >> 6) & 0x1F) as u8 != 2u8) by (bit_vector);
    assert(0xE0u8 | ((c >> 12) & 0x0F) as u8 != 2u8) by (bit_vector);
    assert(0xF0u8 | ((c >> 18) & 0x7) as u8 != 2u8) by (bit_vector);
    assert(0x80u8 | (c & 0x3F) as u8 != 2u8) by (bit_vector);
    assert(0x80u8 | ((c >> 6) & 0x3F) as u8 != 2u8) by (bit_vector);
    assert(0x80u8 | ((c >> 12) & 0x3F) as u8 != 2u8) by (bit_vector);
}

/// The UTF-8 bytes of a text without U+0002 hold no byte 2.
proof fn lemma_text_without_end_byte(t: Seq<char>)
    requires
        !t.contains(terminator()),
    ensures
        !encode_utf8(t).contains(INFO_END),
    decreases t.len(),
{
    if t.len() > 0 {
        let rest = t.drop_first();
        lemma_text_without_end_byte(rest);
        assert(t[0] as u32 != 2) by {
            if t[0] as u32 == 2 {
                vstd::utf8::char_u32_cast(t[0], 2u32);
            }
        }
        vstd::utf8::char_is_scalar(t[0]);
        lemma_scalar_without_end_byte(t[0] as u32);
    }
}

/// The bytes of a list of pairs without U+0002 hold no end byte.
proof fn lemma_info_without_end_byte(values: Seq<TextPair>)
    requires
        no_terminator(values),
    ensures
        !info_bytes(values).contains(INFO_END),
    decreases values.len(),
{
    if values.len() > 0 {
        let front = values.drop_last();
        lemma_info_without_end_byte(front);
        lemma_text_without_end_byte(values.last().0);
        lemma_text_without_end_byte(values.last().1);
        let a = info_bytes(front);
        let k = encode_utf8(values.last().0);
        let v = encode_utf8(values.last().1);
        let all = info_bytes(values);
        if all.contains(INFO_END) {
            let j = choose|j: int| 0 <= j < all.len() && all[j] == INFO_END;
            if j < a.len() {
            } else if j < a.len() + k.len() {
            } else if j == a.len() + k.len() {
            } else if j < a.len() + k.len() + 1 + v.len() {
            }
        }
    }
}

/// A body that was put together from an information block without end byte
/// and a value block is cut into these two again.
pub proof fn lemma_body_parts(meta: Seq<u8>, packed: Seq<u8>)
    requires
        !meta.contains(INFO_END),
    ensures
        body_parts(body_image(meta, packed)) == Some((meta, packed)),
{
    let body = body_image(meta, packed);
    let e = 1 + meta.len() as int;
    assert(info_ends_at(body, e));
}

/// An information block that reading gives back as it is: its fields are
/// those of its pairs, no key and no value holds U+0001 or U+0002, and every
/// value under the key `size` is an unsigned number.
pub open spec fn faithful(info: InfoModel) -> bool {
    &&& info == info_of(info.values)
    &&& no_separator(info.values)
    &&& no_terminator(info.values)
    &&& sizes_valid(info.values)
}

/// Round trip of whole files. Take a faithful information block `info`; a
/// well-formed value `root` whose texts fit the length field; and a value
/// block `packed` that the decompressor accepts and unpacks to the encoding
/// of `root`, as every block does that the encoder has written. Then the
/// file made of the pairs of `info` and of `packed` is read back as `info`
/// and `root`.
pub proof fn lemma_file_round_trip(info: InfoModel, root: Value, packed: Seq<u8>)
    requires
        faithful(info),
        root.wf(),
        root.encodable(),
        block_accepted(packed),
        lzma_unpacked(packed) == Ok::<Seq<u8>, u64>(encoding(root)),
    ensures
        decoded_file(file_image(info_bytes(info.values), packed)) == Ok::<FileModel, Failure>(
            FileModel { info, value: root },
        ),
{
    let meta = info_bytes(info.values);
    let image = file_image(meta, packed);
    assert(image.subrange(0, 4) =~= signature());
    assert(image.skip(5) =~= body_image(meta, packed));
    lemma_info_without_end_byte(info.values);
    lemma_body_parts(meta, packed);
    lemma_info_round_trip(info.values);
    lemma_value_round_trip(root, Seq::empty());
}

} // verus!
