use adv2_splitter::buffer::append_bytes;
use adv2_splitter::codec::AdCodec5;
use adv2_splitter::error::CodecError;
use adv2_splitter::table::{table_find, table_get, table_insert};
use adv2_splitter::value::LuaValue;

fn text(s: &str) -> LuaValue {
    LuaValue::String(s.to_string())
}

fn number(x: f64) -> LuaValue {
    LuaValue::Double(x.to_bits())
}

fn encode(value: &LuaValue) -> Vec<u8> {
    let mut out: Vec<u8> = Vec::new();
    AdCodec5::encode_stream(value, &mut out);
    out
}

fn decode(bytes: &[u8]) -> LuaValue {
    let (value, next) = AdCodec5::decode_stream(bytes, 0).expect("the stream is complete");
    assert_eq!(next, bytes.len());
    value.expect("the stream holds a value")
}

fn sample_tree() -> LuaValue {
    LuaValue::Table(vec![
        (text("name"), text("crate")),
        (number(1.0), LuaValue::Array(vec![number(0.5), LuaValue::Bool(true), text("")])),
        (
            text("pos"),
            LuaValue::Vector(vec![(1.5f64).to_bits(), (-2.0f64).to_bits(), (0.0f64).to_bits()]),
        ),
        (
            text("ang"),
            LuaValue::Angle(vec![(90.0f64).to_bits(), (0.25f64).to_bits(), (-0.0f64).to_bits()]),
        ),
        (LuaValue::Bool(false), LuaValue::Table(vec![(text("inner"), LuaValue::Bool(false))])),
    ])
}

#[test]
fn round_trip_of_a_nested_tree() {
    let tree = sample_tree();
    let bytes = encode(&tree);
    assert_eq!(decode(&bytes), tree);
}

#[test]
fn round_trip_keeps_the_order_of_entries() {
    let tree = LuaValue::Table(vec![
        (text("b"), number(2.0)),
        (text("a"), number(1.0)),
        (text("c"), number(3.0)),
    ]);
    let back = decode(&encode(&tree));
    let entries = back.as_table().expect("a table");
    assert_eq!(entries[0].0, text("b"));
    assert_eq!(entries[1].0, text("a"));
    assert_eq!(entries[2].0, text("c"));
}

#[test]
fn round_trip_with_bytes_behind_the_value() {
    let tree = sample_tree();
    let mut bytes = encode(&tree);
    let len = bytes.len();
    bytes.extend_from_slice(&[1, 2, 3]);
    let (value, next) = AdCodec5::decode_stream(&bytes, 0).expect("complete");
    assert_eq!(next, len);
    assert_eq!(value, Some(tree));
}

#[test]
fn booleans_are_single_tags() {
    assert_eq!(encode(&LuaValue::Bool(false)), vec![252]);
    assert_eq!(encode(&LuaValue::Bool(true)), vec![253]);
    assert_eq!(decode(&[252]), LuaValue::Bool(false));
    assert_eq!(decode(&[253]), LuaValue::Bool(true));
}

#[test]
fn number_is_tag_and_eight_little_endian_bytes() {
    let bytes = encode(&number(20.25));
    assert_eq!(bytes, vec![251, 0, 0, 0, 0, 0, 64, 52, 64]);
    assert_eq!(bytes[1..], (20.25f64).to_le_bytes());
    assert_eq!(decode(&bytes), number(20.25));
}

#[test]
fn double_as_bytes_is_little_endian() {
    assert_eq!(AdCodec5::double_as_bytes(&0x0102030405060708u64), [8, 7, 6, 5, 4, 3, 2, 1]);
    assert_eq!(AdCodec5::read_double(&[8, 7, 6, 5, 4, 3, 2, 1], 0), Ok(0x0102030405060708u64));
}

#[test]
fn read_double_at_an_offset() {
    let mut bytes = vec![9u8, 9, 9];
    bytes.extend_from_slice(&(1.5f64).to_le_bytes());
    assert_eq!(AdCodec5::read_double(&bytes, 3), Ok((1.5f64).to_bits()));
}

#[test]
fn read_double_needs_eight_bytes() {
    assert_eq!(AdCodec5::read_double(&[1, 2, 3, 4, 5, 6, 7], 0), Err(CodecError::TruncatedInput));
    assert_eq!(
        AdCodec5::read_double(&[1, 2, 3, 4, 5, 6, 7, 8], 1),
        Err(CodecError::TruncatedInput)
    );
    assert_eq!(AdCodec5::read_double(&[], 5), Err(CodecError::TruncatedInput));
}

#[test]
fn vector_and_angle_are_tag_and_three_doubles() {
    let parts = vec![(1.0f64).to_bits(), (2.0f64).to_bits(), (3.0f64).to_bits()];
    let mut expected = vec![250u8];
    expected.extend_from_slice(&(1.0f64).to_le_bytes());
    expected.extend_from_slice(&(2.0f64).to_le_bytes());
    expected.extend_from_slice(&(3.0f64).to_le_bytes());
    assert_eq!(encode(&LuaValue::Vector(parts.clone())), expected);
    assert_eq!(decode(&expected), LuaValue::Vector(parts.clone()));
    expected[0] = 249;
    assert_eq!(encode(&LuaValue::Angle(parts.clone())), expected);
    assert_eq!(decode(&expected), LuaValue::Angle(parts));
}

#[test]
fn short_text_carries_its_length_in_the_tag() {
    assert_eq!(encode(&text("")), vec![0]);
    assert_eq!(encode(&text("Key")), vec![3, b'K', b'e', b'y']);
    assert_eq!(decode(&[0]), text(""));
    assert_eq!(decode(&[3, b'K', b'e', b'y']), text("Key"));
}

#[test]
fn text_length_counts_bytes_not_characters() {
    let bytes = encode(&text("h\u{e9}"));
    assert_eq!(bytes, vec![3, b'h', 0xc3, 0xa9]);
    assert_eq!(decode(&bytes), text("h\u{e9}"));
}

#[test]
fn longest_short_text_has_245_bytes() {
    let s = "x".repeat(245);
    let bytes = encode(&text(&s));
    assert_eq!(bytes.len(), 246);
    assert_eq!(bytes[0], 245);
    assert_eq!(decode(&bytes), text(&s));
}

#[test]
fn text_of_246_bytes_is_written_as_long_text() {
    let s = "y".repeat(246);
    let bytes = encode(&text(&s));
    assert_eq!(bytes.len(), 1 + 4 + 246);
    assert_eq!(bytes[..5], [248, 246, 0, 0, 0]);
    assert_eq!(decode(&bytes), text(&s));
}

#[test]
fn long_text_round_trip() {
    let s = "long text ".repeat(100);
    let bytes = encode(&text(&s));
    assert_eq!(bytes[..5], [248, 0xe8, 0x03, 0, 0]);
    assert_eq!(decode(&bytes), text(&s));
}

#[test]
fn long_text_tag_is_read_with_a_four_byte_length() {
    assert_eq!(decode(&[248, 2, 0, 0, 0, b'o', b'k']), text("ok"));
    assert_eq!(
        AdCodec5::decode_stream(&[248, 3, 0, 0, 0, b'o', b'k'], 0),
        Err(CodecError::TruncatedInput)
    );
    assert_eq!(AdCodec5::decode_stream(&[248, 3, 0, 0], 0), Err(CodecError::TruncatedInput));
}

#[test]
fn unused_tag_is_read_as_a_text_of_247_bytes() {
    let mut bytes = vec![247u8];
    bytes.extend_from_slice("z".repeat(247).as_bytes());
    assert_eq!(decode(&bytes), text(&"z".repeat(247)));
}

#[test]
fn invalid_utf8_is_replaced() {
    assert_eq!(decode(&[1, 0xff]), text("\u{fffd}"));
    assert_eq!(decode(&[3, b'a', 0xff, b'b']), text("a\u{fffd}b"));
}

#[test]
fn end_marker_alone_is_no_value() {
    assert_eq!(AdCodec5::decode_stream(&[246], 0), Ok((None, 1)));
}

#[test]
fn empty_list_and_empty_table() {
    assert_eq!(encode(&LuaValue::Array(vec![])), vec![254, 246]);
    assert_eq!(encode(&LuaValue::Table(vec![])), vec![255, 246]);
    assert_eq!(decode(&[254, 246]), LuaValue::Array(vec![]));
    assert_eq!(decode(&[255, 246]), LuaValue::Table(vec![]));
}

#[test]
fn list_elements_are_written_in_order() {
    let list = LuaValue::Array(vec![LuaValue::Bool(true), text("a"), LuaValue::Bool(false)]);
    assert_eq!(encode(&list), vec![254, 253, 1, b'a', 252, 246]);
    assert_eq!(decode(&[254, 253, 1, b'a', 252, 246]), list);
}

#[test]
fn missing_end_marker_is_truncated_input() {
    let mut bytes = encode(&sample_tree());
    bytes.pop();
    assert_eq!(AdCodec5::decode_stream(&bytes, 0), Err(CodecError::TruncatedInput));
    assert_eq!(AdCodec5::decode_stream(&[254, 253], 0), Err(CodecError::TruncatedInput));
    assert_eq!(AdCodec5::decode_stream(&[255, 1, b'k', 253], 0), Err(CodecError::TruncatedInput));
}

#[test]
fn empty_input_is_truncated_input() {
    assert_eq!(AdCodec5::decode_stream(&[], 0), Err(CodecError::TruncatedInput));
    assert_eq!(AdCodec5::decode_stream(&[253], 1), Err(CodecError::TruncatedInput));
    assert_eq!(AdCodec5::decode_stream(&[253], 7), Err(CodecError::TruncatedInput));
}

#[test]
fn truncated_payloads() {
    assert_eq!(AdCodec5::decode_stream(&[251, 1, 2, 3], 0), Err(CodecError::TruncatedInput));
    assert_eq!(AdCodec5::decode_stream(&[250, 1, 2, 3], 0), Err(CodecError::TruncatedInput));
    assert_eq!(AdCodec5::decode_stream(&[249; 24], 0), Err(CodecError::TruncatedInput));
    assert_eq!(AdCodec5::decode_stream(&[5, b'a', b'b'], 0), Err(CodecError::TruncatedInput));
}

#[test]
fn key_without_value_is_truncated_input() {
    assert_eq!(
        AdCodec5::decode_stream(&[255, 1, b'k', 246, 246], 0),
        Err(CodecError::TruncatedInput)
    );
}

#[test]
fn later_value_replaces_earlier_one_under_the_same_key() {
    let bytes = [255, 1, b'k', 252, 1, b'j', 253, 1, b'k', 253, 246];
    let table = decode(&bytes);
    assert_eq!(
        table,
        LuaValue::Table(vec![(text("k"), LuaValue::Bool(true)), (text("j"), LuaValue::Bool(true))])
    );
    assert!(table.is_well_formed());
}

#[test]
fn decode_stream_starts_at_the_given_position() {
    let bytes = [0, 0, 253, 252];
    assert_eq!(AdCodec5::decode_stream(&bytes, 2), Ok((Some(LuaValue::Bool(true)), 3)));
    assert_eq!(AdCodec5::decode_stream(&bytes, 3), Ok((Some(LuaValue::Bool(false)), 4)));
}

#[test]
fn table_insert_appends_new_keys_and_replaces_in_place() {
    let mut entries: Vec<(LuaValue, LuaValue)> = Vec::new();
    assert_eq!(table_insert(&mut entries, text("a"), number(1.0)), None);
    assert_eq!(table_insert(&mut entries, text("b"), number(2.0)), None);
    assert_eq!(table_insert(&mut entries, text("a"), number(3.0)), Some(number(1.0)));
    assert_eq!(entries, vec![(text("a"), number(3.0)), (text("b"), number(2.0))]);
}

#[test]
fn table_get_and_find() {
    let entries = vec![(text("a"), number(1.0)), (number(7.0), text("seven"))];
    assert_eq!(table_find(&entries, &text("a")), Some(0));
    assert_eq!(table_find(&entries, &number(7.0)), Some(1));
    assert_eq!(table_find(&entries, &text("7")), None);
    assert_eq!(table_get(&entries, &number(7.0)), Some(&text("seven")));
    assert_eq!(table_get(&entries, &text("b")), None);
}

#[test]
fn values_compare_structurally() {
    assert_eq!(sample_tree(), sample_tree());
    assert_ne!(text("a"), text("b"));
    assert_ne!(text("1"), number(1.0));
    assert_ne!(number(0.0), number(-0.0));
    assert_ne!(LuaValue::Array(vec![text("a")]), LuaValue::Array(vec![text("a"), text("a")]));
    assert_ne!(
        LuaValue::Vector(vec![1, 2, 3]),
        LuaValue::Angle(vec![1, 2, 3])
    );
    assert_ne!(
        LuaValue::Table(vec![(text("a"), text("b"))]),
        LuaValue::Table(vec![(text("a"), text("c"))])
    );
}

#[test]
fn clone_is_equal_to_its_source() {
    let tree = sample_tree();
    let copy = tree.clone();
    assert_eq!(copy, tree);
    assert_eq!(encode(&copy), encode(&tree));
}

#[test]
fn well_formedness() {
    assert!(sample_tree().is_well_formed());
    assert!(!LuaValue::Vector(vec![1, 2]).is_well_formed());
    assert!(!LuaValue::Angle(vec![1, 2, 3, 4]).is_well_formed());
    assert!(!LuaValue::Table(vec![(text("a"), text("b")), (text("a"), text("c"))]).is_well_formed());
    assert!(!LuaValue::Array(vec![LuaValue::Vector(vec![])]).is_well_formed());
    assert!(
        !LuaValue::Table(vec![(text("a"), LuaValue::Angle(vec![1]))]).is_well_formed()
    );
    assert!(sample_tree().is_encodable());
}

#[test]
fn kind_tests() {
    assert!(text("a").is_string());
    assert!(!text("a").is_double());
    assert!(number(1.0).is_double());
    assert!(LuaValue::Array(vec![]).is_array());
    assert!(!LuaValue::Table(vec![]).is_array());
    assert!(LuaValue::Table(vec![]).is_table());
    assert!(LuaValue::Vector(vec![1, 2, 3]).is_vector());
    assert!(!LuaValue::Vector(vec![1, 2, 3]).is_angle());
    assert!(LuaValue::Angle(vec![1, 2, 3]).is_angle());
    assert!(LuaValue::Bool(true).is_bool());
    assert!(!LuaValue::Bool(true).is_string());
}

#[test]
fn accessors_give_the_contents() {
    assert_eq!(text("a").as_str(), Some("a"));
    assert_eq!(number(1.0).as_str(), None);
    assert_eq!(number(2.5).as_double(), Some((2.5f64).to_bits()));
    assert_eq!(text("a").as_double(), None);
    assert_eq!(LuaValue::Bool(true).as_bool(), Some(true));
    assert_eq!(text("a").as_bool(), None);
    assert_eq!(LuaValue::Array(vec![text("x")]).as_array(), Some(&vec![text("x")]));
    assert_eq!(text("a").as_array(), None);
    assert_eq!(
        LuaValue::Table(vec![(text("k"), text("v"))]).as_table(),
        Some(&vec![(text("k"), text("v"))])
    );
    assert_eq!(text("a").as_table(), None);
    assert_eq!(LuaValue::Vector(vec![1, 2, 3]).as_vector(), Some(&vec![1u64, 2, 3]));
    assert_eq!(LuaValue::Angle(vec![1, 2, 3]).as_vector(), None);
    assert_eq!(LuaValue::Angle(vec![1, 2, 3]).as_angle(), Some(&vec![1u64, 2, 3]));
    assert_eq!(LuaValue::Vector(vec![1, 2, 3]).as_angle(), None);
}

#[test]
fn mutable_accessors_change_the_value() {
    let mut list = LuaValue::Array(vec![]);
    list.as_array_mut().expect("an array").push(text("x"));
    assert_eq!(list, LuaValue::Array(vec![text("x")]));
    assert!(list.as_table_mut().is_none());

    let mut n = number(1.0);
    *n.as_double_mut().expect("a number") = (2.0f64).to_bits();
    assert_eq!(n, number(2.0));
    assert!(n.as_array_mut().is_none());

    let mut table = LuaValue::Table(vec![]);
    table.as_table_mut().expect("a table").push((text("k"), text("v")));
    assert_eq!(table, LuaValue::Table(vec![(text("k"), text("v"))]));
    assert!(table.as_double_mut().is_none());

    let mut v = LuaValue::Vector(vec![1, 2, 3]);
    v.as_vector_mut().expect("a vector")[0] = 9;
    assert_eq!(v, LuaValue::Vector(vec![9, 2, 3]));
    assert!(v.as_angle_mut().is_none());

    let mut a = LuaValue::Angle(vec![1, 2, 3]);
    a.as_angle_mut().expect("an angle")[2] = 7;
    assert_eq!(a, LuaValue::Angle(vec![1, 2, 7]));
    assert!(a.as_vector_mut().is_none());
}

#[test]
fn append_bytes_appends() {
    let mut out = vec![1u8, 2];
    append_bytes(&mut out, &[3, 4, 5]);
    append_bytes(&mut out, &[]);
    assert_eq!(out, vec![1, 2, 3, 4, 5]);
}
