use adv2_splitter::advanced_dupe::{decode, encode};
use adv2_splitter::codec::{AdCodec, AdCodec5, DuplicationResult};
use adv2_splitter::error::CodecError;
use adv2_splitter::info::DuplicationInfo;
use adv2_splitter::layout::{CRLF, HEADER, INFO_END, VERSION};
use adv2_splitter::value::LuaValue;

fn text(s: &str) -> LuaValue {
    LuaValue::String(s.to_string())
}

fn number(x: f64) -> LuaValue {
    LuaValue::Double(x.to_bits())
}

fn sample_root() -> LuaValue {
    LuaValue::Table(vec![
        (
            text("Entities"),
            LuaValue::Table(vec![
                (number(1.0), LuaValue::Table(vec![(text("Class"), text("prop_physics"))])),
                (number(2.0), LuaValue::Table(vec![(text("Class"), text("gmod_wheel"))])),
            ]),
        ),
        (text("HeadEnt"), LuaValue::Table(vec![(text("Index"), number(1.0))])),
    ])
}

fn sample_info() -> DuplicationInfo {
    let mut info = DuplicationInfo::new();
    for (k, v) in [
        ("size", "77"),
        ("timezone", "+01"),
        ("date", "28 January 2023"),
        ("time", "10:15"),
        ("name", "Fozie"),
        ("check", "\r\n\t\n"),
    ] {
        info.add_value(k.to_string(), v.to_string());
    }
    info.set_size(77);
    info.set_time_zone("+01".to_string());
    info.set_date("28 January 2023".to_string());
    info.set_time("10:15".to_string());
    info.set_player_name("Fozie".to_string());
    info
}

fn tree_bytes(value: &LuaValue) -> Vec<u8> {
    let mut out: Vec<u8> = Vec::new();
    AdCodec5::encode_stream(value, &mut out);
    out
}

fn image_with_block(meta: &[u8], block: &[u8]) -> Vec<u8> {
    let mut image = b"AD2F\x05\n".to_vec();
    image.extend_from_slice(meta);
    image.extend_from_slice(&[2, 10]);
    image.extend_from_slice(block);
    image
}

#[test]
fn constants_of_the_layout() {
    assert_eq!(HEADER, *b"AD2F");
    assert_eq!(VERSION, 5);
    assert_eq!(CRLF, 0x0a);
    assert_eq!(INFO_END, 0x02);
}

#[test]
fn signature_is_exactly_four_bytes() {
    let codec = AdCodec5::default();
    assert!(codec.is_valid_signature(b"AD2F"));
    assert!(!codec.is_valid_signature(b"AD2"));
    assert!(!codec.is_valid_signature(b"AD2FF"));
    assert!(!codec.is_valid_signature(b"AD3F"));
    assert!(!codec.is_valid_signature(b""));
}

#[test]
fn file_round_trip() {
    let info = sample_info();
    let root = sample_root();
    let image = encode(&info, &root).expect("the compressor works");
    let back = decode(&image).expect("the file is valid");
    assert_eq!(back.value(), &root);
    assert_eq!(back.info().values(), info.values());
    assert_eq!(back.info().size(), 77);
    assert_eq!(back.info().time_zone(), "+01");
    assert_eq!(back.info().date(), "28 January 2023");
    assert_eq!(back.info().time(), "10:15");
    assert_eq!(back.info().player_name(), "Fozie");
}

#[test]
fn written_file_follows_the_layout() {
    let info = sample_info();
    let root = sample_root();
    let image = encode(&info, &root).expect("the compressor works");
    let meta = b"size\x0177\x01timezone\x01+01\x01date\x0128 January 2023\x01time\x0110:15\x01name\x01Fozie\x01check\x01\r\n\t\n\x01";
    assert_eq!(image[..4], *b"AD2F");
    assert_eq!(image[4], 5);
    assert_eq!(image[5], 10);
    assert_eq!(image[6..6 + meta.len()], meta[..]);
    assert_eq!(image[6 + meta.len()], 2);
    assert_eq!(image[7 + meta.len()], 10);
}

#[test]
fn written_block_is_compressed_with_lzma() {
    let root = sample_root();
    let tree = tree_bytes(&root);
    let image = encode(&DuplicationInfo::new(), &root).expect("the compressor works");
    let block = &image[8..];
    assert_ne!(block, &tree[..]);
    assert_eq!(block[..5], [0x5d, 0x00, 0x00, 0x01, 0x00]);
    assert_eq!(block[5..13], (tree.len() as u64).to_le_bytes());
    assert_eq!(gmod_lzma::decompress(block), Ok(tree));
}

#[test]
fn block_of_the_compressor_is_decompressed_on_reading() {
    let root = sample_root();
    let block = gmod_lzma::compress(&tree_bytes(&root), 9).expect("the compressor works");
    let image = image_with_block(b"name\x01x\x01", &block);
    let back = decode(&image).expect("the file is valid");
    assert_eq!(back.value(), &root);
    assert_eq!(back.info().player_name(), "x");
}

#[test]
fn codec_writes_what_the_entry_point_writes() {
    let info = sample_info();
    let root = sample_root();
    let codec = AdCodec5::default();
    let a = codec.encode(&info, &root).expect("the compressor works");
    let b = encode(&info, &root).expect("the compressor works");
    let back_a = decode(&a).expect("valid");
    let back_b = codec.decode(&b[5..]).expect("valid");
    assert_eq!(back_a.value(), back_b.value());
    assert_eq!(back_a.info().values(), back_b.info().values());
}

#[test]
fn assemble_puts_the_parts_in_their_places() {
    let mut info = DuplicationInfo::new();
    info.add_value("a".to_string(), "b".to_string());
    let image = AdCodec5::assemble(&info, &[9, 8, 7]);
    assert_eq!(image, b"AD2F\x05\na\x01b\x01\x02\n\x09\x08\x07".to_vec());
}

#[test]
fn wrong_signature_is_an_invalid_header() {
    let mut image = encode(&sample_info(), &sample_root()).expect("the compressor works");
    image[0] = b'B';
    assert_eq!(decode(&image).err(), Some(CodecError::InvalidHeader));
    assert_eq!(decode(b"XXXX\x05\n\x02\n").err(), Some(CodecError::InvalidHeader));
}

#[test]
fn version_six_is_an_unsupported_codec() {
    let mut image = encode(&sample_info(), &sample_root()).expect("the compressor works");
    image[4] = 6;
    assert_eq!(decode(&image).err(), Some(CodecError::UnsupportedCodec("6".to_string())));
    image[4] = 0;
    assert_eq!(decode(&image).err(), Some(CodecError::UnsupportedCodec("0".to_string())));
    image[4] = 255;
    assert_eq!(decode(&image).err(), Some(CodecError::UnsupportedCodec("255".to_string())));
}

#[test]
fn signature_is_checked_before_the_version() {
    assert_eq!(decode(b"XXXX\x06\n\x02\n").err(), Some(CodecError::InvalidHeader));
}

#[test]
fn file_without_version_is_truncated() {
    assert_eq!(decode(b"").err(), Some(CodecError::TruncatedInput));
    assert_eq!(decode(b"AD2").err(), Some(CodecError::TruncatedInput));
    assert_eq!(decode(b"AD2F").err(), Some(CodecError::TruncatedInput));
}

#[test]
fn file_without_end_of_info_is_truncated() {
    assert_eq!(decode(b"AD2F\x05").err(), Some(CodecError::TruncatedInput));
    assert_eq!(decode(b"AD2F\x05\n").err(), Some(CodecError::TruncatedInput));
    assert_eq!(decode(b"AD2F\x05\nname\x01x\x01").err(), Some(CodecError::TruncatedInput));
    assert_eq!(decode(b"AD2F\x05\nname\x01x\x01\x02").err(), Some(CodecError::TruncatedInput));
}

#[test]
fn first_byte_of_the_body_is_passed_over() {
    let root = sample_root();
    let block = gmod_lzma::compress(&tree_bytes(&root), 9).expect("the compressor works");
    let mut image = b"AD2F\x05\x02name\x01x\x01\x02\x00".to_vec();
    image.extend_from_slice(&block);
    let back = decode(&image).expect("the file is valid");
    assert_eq!(back.info().player_name(), "x");
    assert_eq!(back.value(), &root);
}

#[test]
fn bad_size_is_reported_before_the_block_is_unpacked() {
    let image = image_with_block(b"size\x01many\x01", b"not lzma");
    assert_eq!(decode(&image).err(), Some(CodecError::MalformedMetadata));
}

#[test]
fn block_that_is_not_lzma_is_a_decompression_failure() {
    assert_eq!(
        decode(&image_with_block(b"", b"Error!!!")).err(),
        Some(CodecError::DecompressionFailure)
    );
    assert_eq!(decode(&image_with_block(b"", b"")).err(), Some(CodecError::DecompressionFailure));
    let garbage = [0xffu8; 64];
    assert_eq!(
        decode(&image_with_block(b"name\x01x\x01", &garbage)).err(),
        Some(CodecError::DecompressionFailure)
    );
}

#[test]
fn block_that_declares_too_much_is_a_decompression_failure() {
    let mut block = gmod_lzma::compress(&[253], 9).expect("the compressor works");
    for i in 5..13 {
        block[i] = 0xff;
    }
    assert_eq!(
        decode(&image_with_block(b"", &block)).err(),
        Some(CodecError::DecompressionFailure)
    );
}

#[test]
fn block_without_a_value_is_truncated() {
    let block = gmod_lzma::compress(&[246], 9).expect("the compressor works");
    assert_eq!(decode(&image_with_block(b"", &block)).err(), Some(CodecError::TruncatedInput));
    let block = gmod_lzma::compress(&[254, 253], 9).expect("the compressor works");
    assert_eq!(decode(&image_with_block(b"", &block)).err(), Some(CodecError::TruncatedInput));
    let block = gmod_lzma::compress(&[], 9).expect("the compressor works");
    assert_eq!(decode(&image_with_block(b"", &block)).err(), Some(CodecError::TruncatedInput));
}

#[test]
fn bytes_behind_the_first_value_are_ignored() {
    let block = gmod_lzma::compress(&[253, 1, 2, 3], 9).expect("the compressor works");
    let back = decode(&image_with_block(b"", &block)).expect("valid");
    assert_eq!(back.value(), &LuaValue::Bool(true));
}

#[test]
fn decode_unpacked_reads_the_answer_of_the_decompressor() {
    let file = AdCodec5::decode_unpacked(DuplicationInfo::new(), Ok(vec![3, b'K', b'e', b'y']))
        .expect("a value");
    assert_eq!(file.value(), &text("Key"));
    assert_eq!(
        AdCodec5::decode_unpacked(DuplicationInfo::new(), Err(1)).err(),
        Some(CodecError::DecompressionFailure)
    );
    assert_eq!(
        AdCodec5::decode_unpacked(DuplicationInfo::new(), Ok(vec![246])).err(),
        Some(CodecError::TruncatedInput)
    );
    assert_eq!(
        AdCodec5::decode_unpacked(DuplicationInfo::new(), Ok(vec![251, 0])).err(),
        Some(CodecError::TruncatedInput)
    );
}

#[test]
fn result_gives_access_to_its_parts() {
    let mut file = DuplicationResult::new(sample_info(), text("x"));
    assert_eq!(file.info().player_name(), "Fozie");
    assert_eq!(file.value(), &text("x"));
    file.info_mut().set_player_name("Other".to_string());
    *file.value_mut() = number(3.0);
    assert_eq!(file.info().player_name(), "Other");
    assert_eq!(file.value(), &number(3.0));
}

#[test]
fn errors_have_messages() {
    let errors = [
        CodecError::UnsupportedCodec("6".to_string()),
        CodecError::InvalidHeader,
        CodecError::TruncatedInput,
        CodecError::MalformedMetadata,
        CodecError::DecompressionFailure,
        CodecError::CompressionFailure,
        CodecError::StructuralAssumptionViolated("HeadEnt".to_string()),
    ];
    for e in errors.iter() {
        assert!(!e.message().is_empty());
        assert_eq!(&e.clone(), e);
    }
    assert_eq!(CodecError::UnsupportedCodec("6".to_string()).message(), "Unsupported Codec was passed");
}

#[test]
fn errors_are_described_in_one_line() {
    assert_eq!(
        CodecError::UnsupportedCodec("6".to_string()).describe(),
        "Unsupported Codec was passed: 6"
    );
    assert_eq!(
        CodecError::StructuralAssumptionViolated("HeadEnt".to_string()).describe(),
        "Unable to split the table: HeadEnt"
    );
    assert_eq!(CodecError::InvalidHeader.describe(), CodecError::InvalidHeader.message());
    assert_eq!(CodecError::TruncatedInput.describe(), "The input ends before the data does");
    assert_eq!(
        CodecError::MalformedMetadata.describe(),
        "The size in the information block is not a number"
    );
    assert_eq!(CodecError::DecompressionFailure.describe(), "Unable to decompress LZMA data");
    assert_eq!(CodecError::CompressionFailure.describe(), "Unable to compress data");
}

#[test]
fn unsupported_version_is_described_with_its_number() {
    let mut image = encode(&sample_info(), &sample_root()).expect("the compressor works");
    image[4] = 17;
    assert_eq!(
        decode(&image).err().map(|e| e.describe()),
        Some("Unsupported Codec was passed: 17".to_string())
    );
}

#[test]
fn written_file_holds_the_block_of_the_compressor() {
    let root = sample_root();
    let block = gmod_lzma::compress(&tree_bytes(&root), 9).expect("the compressor works");
    let mut info = DuplicationInfo::new();
    info.add_value("name".to_string(), "x".to_string());
    let image = encode(&info, &root).expect("the compressor works");
    assert_eq!(image, image_with_block(b"name\x01x\x01", &block));
    assert_eq!(image, AdCodec5::assemble(&info, &block));
}
