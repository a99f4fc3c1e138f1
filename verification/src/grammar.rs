//! The binary grammar of the value tree, as mathematics.
//!
//! Every node starts with one tag byte:
//!
//! | Tag | Node | What follows |
//! |---|---|---|
//! | 0 to 245 | short text | as many bytes of UTF-8 as the tag says |
//! | 246 | end of a list or table | nothing |
//! | 248 | long text | the length as four little-endian bytes, then the bytes |
//! | 249 | angle | three doubles of eight little-endian bytes each |
//! | 250 | vector | three doubles |
//! | 251 | number | one double |
//! | 252, 253 | `false`, `true` | nothing |
//! | 254 | list | the elements, then the end marker |
//! | 255 | table | keys and values in turn, then the end marker |
//!
//! The tag 247 is never written. It is read like the short text tags, as a
//! text of 247 bytes.
//!
//! [`encoding`] says which bytes a value is written as, and [`parse_node`]
//! says which value a byte sequence is read as. The executable encoder and
//! decoder are verified against these two.

use crate::table::table_of;
use crate::text::text_of;
use crate::value::Value;
use vstd::bytes::{
    spec_u32_from_le_bytes, spec_u32_to_le_bytes, spec_u64_from_le_bytes, spec_u64_to_le_bytes,
};
use vstd::prelude::*;
use vstd::utf8::encode_utf8;

verus! {

/// Texts of up to this many bytes carry their length in the tag itself.
pub const SHORT_TEXT_MAX: u8 = 245;

/// Closes a list or a table.
pub const TAG_END: u8 = 246;

/// Opens a text whose length follows as four little-endian bytes.
pub const TAG_LONG_TEXT: u8 = 248;

/// Opens an angle: three doubles.
pub const TAG_ANGLE: u8 = 249;

/// Opens a vector: three doubles.
pub const TAG_VECTOR: u8 = 250;

/// Opens a number: one double.
pub const TAG_NUMBER: u8 = 251;

/// The boolean `false`.
pub const TAG_FALSE: u8 = 252;

/// The boolean `true`.
pub const TAG_TRUE: u8 = 253;

/// Opens a list.
pub const TAG_LIST: u8 = 254;

/// Opens a table.
pub const TAG_TABLE: u8 = 255;

impl Value {
    /// Every text of the value, at any depth, is short enough for the four
    /// byte length field of the grammar.
    pub open spec fn encodable(self) -> bool
        decreases self,
    {
        match self {
            Value::Text(t) => encode_utf8(t).len() <= u32::MAX,
            Value::List(items) => forall|i: int|
                0 <= i < items.len() ==> (#[trigger] items[i]).encodable(),
            Value::Table(entries) => forall|i: int|
                0 <= i < entries.len() ==> (#[trigger] entries[i]).0.encodable()
                    && entries[i].1.encodable(),
            _ => true,
        }
    }
}

/// The bytes of a text: its UTF-8 bytes behind a one byte length, or behind
/// the long text tag and a four byte length where they are too many.
pub open spec fn text_encoding(t: Seq<char>) -> Seq<u8> {
    let bytes = encode_utf8(t);
    if bytes.len() <= SHORT_TEXT_MAX {
        seq![bytes.len() as u8] + bytes
    } else {
        seq![TAG_LONG_TEXT] + spec_u32_to_le_bytes(bytes.len() as u32) + bytes
    }
}

/// The bytes of three doubles, one after the other.
pub open spec fn triple_encoding(parts: Seq<u64>) -> Seq<u8> {
    spec_u64_to_le_bytes(parts[0]) + spec_u64_to_le_bytes(parts[1]) + spec_u64_to_le_bytes(
        parts[2],
    )
}

/// The bytes that a value is written as.
pub open spec fn encoding(v: Value) -> Seq<u8>
    decreases v,
{
    match v {
        Value::Text(t) => text_encoding(t),
        Value::List(items) => seq![TAG_LIST] + item_encodings(items).flatten() + seq![TAG_END],
        Value::Table(entries) => seq![TAG_TABLE] + entry_encodings(entries).flatten()
            + seq![TAG_END],
        Value::Number(bits) => seq![TAG_NUMBER] + spec_u64_to_le_bytes(bits),
        Value::Vector(parts) => seq![TAG_VECTOR] + triple_encoding(parts),
        Value::Angle(parts) => seq![TAG_ANGLE] + triple_encoding(parts),
        Value::Boolean(b) => if b {
            seq![TAG_TRUE]
        } else {
            seq![TAG_FALSE]
        },
    }
}

/// The encodings of the elements of a list.
pub open spec fn item_encodings(items: Seq<Value>) -> Seq<Seq<u8>>
    decreases items,
{
    Seq::new(
        items.len(),
        |i: int|
            if 0 <= i < items.len() {
                encoding(items[i])
            } else {
                Seq::empty()
            },
    )
}

/// The encodings of the entries of a table: each key followed by its value.
pub open spec fn entry_encodings(entries: Seq<(Value, Value)>) -> Seq<Seq<u8>>
    decreases entries,
{
    Seq::new(
        entries.len(),
        |i: int|
            if 0 <= i < entries.len() {
                encoding(entries[i].0) + encoding(entries[i].1)
            } else {
                Seq::empty()
            },
    )
}

/// Three doubles read from the first 24 bytes of `s`.
pub open spec fn parse_triple(s: Seq<u8>) -> Seq<u64> {
    seq![
        spec_u64_from_le_bytes(s.subrange(0, 8)),
        spec_u64_from_le_bytes(s.subrange(8, 16)),
        spec_u64_from_le_bytes(s.subrange(16, 24)),
    ]
}

/// Reads one node from the front of `s`.
///
/// The result is `None` where `s` ends before the node does. Otherwise it
/// holds the number of bytes that the node takes and the value read, or no
/// value where the node is the end marker. Bytes of a text that are not
/// UTF-8 are read lossily. Where a key occurs twice in a table, the later
/// value takes the place of the earlier one.
pub open spec fn parse_node(s: Seq<u8>) -> Option<(Option<Value>, int)>
    decreases s.len(), 0int,
{
    if s.len() == 0 {
        None
    } else if s[0] == TAG_TABLE {
        match parse_entries(s.skip(1)) {
            Some((pairs, n)) => Some((Some(Value::Table(table_of(pairs))), 1 + n)),
            None => None,
        }
    } else if s[0] == TAG_LIST {
        match parse_items(s.skip(1)) {
            Some((items, n)) => Some((Some(Value::List(items)), 1 + n)),
            None => None,
        }
    } else if s[0] == TAG_VECTOR {
        if s.len() >= 25 {
            Some((Some(Value::Vector(parse_triple(s.skip(1)))), 25))
        } else {
            None
        }
    } else if s[0] == TAG_ANGLE {
        if s.len() >= 25 {
            Some((Some(Value::Angle(parse_triple(s.skip(1)))), 25))
        } else {
            None
        }
    } else if s[0] == TAG_NUMBER {
        if s.len() >= 9 {
            Some((Some(Value::Number(spec_u64_from_le_bytes(s.subrange(1, 9)))), 9))
        } else {
            None
        }
    } else if s[0] == TAG_FALSE {
        Some((Some(Value::Boolean(false)), 1))
    } else if s[0] == TAG_TRUE {
        Some((Some(Value::Boolean(true)), 1))
    } else if s[0] == TAG_END {
        Some((None, 1))
    } else if s[0] == TAG_LONG_TEXT {
        if s.len() >= 5 && s.len() >= 5 + spec_u32_from_le_bytes(s.subrange(1, 5)) {
            let len = spec_u32_from_le_bytes(s.subrange(1, 5)) as int;
            Some((Some(Value::Text(text_of(s.subrange(5, 5 + len)))), 5 + len))
        } else {
            None
        }
    } else {
        let len = s[0] as int;
        if s.len() >= 1 + len {
            Some((Some(Value::Text(text_of(s.subrange(1, 1 + len)))), 1 + len))
        } else {
            None
        }
    }
}

/// Reads the elements of a list up to and including its end marker.
pub open spec fn parse_items(s: Seq<u8>) -> Option<(Seq<Value>, int)>
    decreases s.len(), 1int,
{
    match parse_node(s) {
        None => None,
        Some((None, n)) => Some((Seq::empty(), n)),
        Some((Some(v), n)) => if 0 < n <= s.len() {
            match parse_items(s.skip(n)) {
                None => None,
                Some((rest, m)) => Some((seq![v] + rest, n + m)),
            }
        } else {
            None
        },
    }
}

/// Reads the entries of a table, in the order in which they are written, up
/// to and including its end marker. An end marker in the place of a value
/// leaves the table unfinished.
pub open spec fn parse_entries(s: Seq<u8>) -> Option<(Seq<(Value, Value)>, int)>
    decreases s.len(), 1int,
{
    match parse_node(s) {
        None => None,
        Some((None, n)) => Some((Seq::empty(), n)),
        Some((Some(k), n)) => if 0 < n <= s.len() {
            match parse_node(s.skip(n)) {
                Some((Some(v), m)) => if 0 < m <= s.len() - n {
                    match parse_entries(s.skip(n + m)) {
                        None => None,
                        Some((rest, l)) => Some((seq![(k, v)] + rest, n + m + l)),
                    }
                } else {
                    None
                },
                _ => None,
            }
        } else {
            None
        },
    }
}

/// Reads one node of `data` at the position `pos`; nothing can be read
/// beyond the end.
pub open spec fn parse_at(data: Seq<u8>, pos: int) -> Option<(Option<Value>, int)> {
    if 0 <= pos <= data.len() {
        parse_node(data.skip(pos))
    } else {
        None
    }
}

/// Puts what was read so far, `acc` in `used` bytes, in front of what the rest
/// of a list or table reads as.
pub open spec fn read_on<T>(acc: Seq<T>, used: int, rest: Option<(Seq<T>, int)>) -> Option<
    (Seq<T>, int),
> {
    match rest {
        Some((tail, n)) => Some((acc + tail, used + n)),
        None => None,
    }
}

} // verus!
