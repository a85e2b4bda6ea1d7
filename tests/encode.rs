use bintool::cli::{OutputMode, ShaderType};
use bintool::encode::{
    encode, encode_hex_list, ElementWidth, EncodeError, EncodingConfig, OutputStyle,
    RenderedOutput,
};

fn bytes_config(group_size: usize) -> EncodingConfig {
    EncodingConfig { element_width: ElementWidth::Byte, group_size }
}

fn words_config(group_size: usize) -> EncodingConfig {
    EncodingConfig { element_width: ElementWidth::Word, group_size }
}

fn text(r: Result<RenderedOutput, EncodeError>) -> String {
    match r {
        Ok(RenderedOutput::Text(s)) => s,
        other => panic!("expected text, got {:?}", other),
    }
}

fn parse_list(s: &str) -> Vec<u64> {
    if s.is_empty() {
        return Vec::new();
    }
    s.split(',')
        .map(|p| {
            let t = p.trim();
            let t = t.strip_prefix("0x").unwrap();
            u64::from_str_radix(t, 16).unwrap()
        })
        .collect()
}

#[test]
fn nine_bytes_in_groups_of_eight() {
    let b: Vec<u8> = (0u8..9).collect();
    let s = text(encode(&b, bytes_config(8), OutputStyle::HexList));
    assert_eq!(s, "0x00, 0x01, 0x02, 0x03, 0x04, 0x05, 0x06, 0x07,\n0x08");
}

#[test]
fn one_word_is_little_endian() {
    let b = [0x78u8, 0x56, 0x34, 0x12];
    let s = text(encode(&b, words_config(4), OutputStyle::HexList));
    assert_eq!(s, "0x12345678");
}

#[test]
fn five_bytes_as_words_fail() {
    let b = [1u8, 2, 3, 4, 5];
    assert_eq!(
        encode(&b, words_config(4), OutputStyle::HexList),
        Err(EncodeError::NotMultipleOfWordSize)
    );
    assert_eq!(encode_hex_list(&b, words_config(4)), Err(EncodeError::NotMultipleOfWordSize));
}

#[test]
fn zero_group_size_fails() {
    let b = [1u8, 2, 3];
    assert_eq!(
        encode(&b, bytes_config(0), OutputStyle::HexList),
        Err(EncodeError::ZeroGroupSize)
    );
}

#[test]
fn word_size_is_checked_before_group_size() {
    let b = [1u8, 2, 3];
    assert_eq!(
        encode(&b, words_config(0), OutputStyle::HexList),
        Err(EncodeError::NotMultipleOfWordSize)
    );
}

#[test]
fn raw_output_is_the_buffer() {
    let b = [0xDEu8, 0xAD, 0xBE, 0xEF, 0x01];
    assert_eq!(
        encode(&b, words_config(4), OutputStyle::Raw),
        Ok(RenderedOutput::Bytes(b.to_vec()))
    );
    assert_eq!(
        encode(&[], bytes_config(0), OutputStyle::Raw),
        Ok(RenderedOutput::Bytes(Vec::new()))
    );
}

#[test]
fn empty_input_gives_empty_text() {
    assert_eq!(text(encode(&[], bytes_config(8), OutputStyle::HexList)), "");
    assert_eq!(text(encode(&[], words_config(4), OutputStyle::HexList)), "");
    assert_eq!(text(encode(&[], words_config(1), OutputStyle::HexList)), "");
}

#[test]
fn sixteen_bytes_break_once() {
    let b: Vec<u8> = (0u8..16).map(|x| x * 17).collect();
    let s = text(encode(&b, bytes_config(8), OutputStyle::HexList));
    assert_eq!(s.len(), 94);
    assert_eq!(s.matches('\n').count(), 1);
    assert_eq!(s.find('\n'), Some(47));
    assert_eq!(&s[42..48], "0x77,\n");
    assert!(s.ends_with("0xFF"));
}

#[test]
fn byte_list_reads_back() {
    let b: Vec<u8> = (0u16..300).map(|x| (x * 7 % 256) as u8).collect();
    let s = text(encode(&b, bytes_config(8), OutputStyle::HexList));
    let back: Vec<u64> = parse_list(&s);
    assert_eq!(back, b.iter().map(|&x| x as u64).collect::<Vec<_>>());
    let s3 = text(encode(&b, bytes_config(3), OutputStyle::HexList));
    assert_eq!(parse_list(&s3), back);
}

#[test]
fn word_list_reads_back() {
    let b: Vec<u8> = (0u16..40).map(|x| (x * 29 % 256) as u8).collect();
    let s = text(encode(&b, words_config(4), OutputStyle::HexList));
    let words = parse_list(&s);
    assert_eq!(words.len(), 10);
    let mut again = Vec::new();
    for w in &words {
        again.extend_from_slice(&(*w as u32).to_le_bytes());
    }
    assert_eq!(again, b);
}

#[test]
fn words_in_groups_of_four() {
    let b: Vec<u8> = (0u8..24).collect();
    let s = text(encode(&b, words_config(4), OutputStyle::HexList));
    assert_eq!(
        s,
        "0x03020100, 0x07060504, 0x0B0A0908, 0x0F0E0D0C,\n0x13121110, 0x17161514"
    );
}

#[test]
fn digits_are_uppercase_and_padded() {
    let b = [0x0Au8, 0xFF, 0x00, 0xC3];
    let s = text(encode(&b, bytes_config(2), OutputStyle::HexList));
    assert_eq!(s, "0x0A, 0xFF,\n0x00, 0xC3");
    let w = text(encode(&b, words_config(1), OutputStyle::HexList));
    assert_eq!(w, "0xC300FF0A");
}

#[test]
fn largest_word() {
    let b = [0xFFu8; 8];
    let s = text(encode(&b, words_config(1), OutputStyle::HexList));
    assert_eq!(s, "0xFFFFFFFF,\n0xFFFFFFFF");
}

#[test]
fn group_of_one_breaks_every_element() {
    let b = [1u8, 2, 3];
    let s = text(encode(&b, bytes_config(1), OutputStyle::HexList));
    assert_eq!(s, "0x01,\n0x02,\n0x03");
}

#[test]
fn output_modes() {
    assert!(OutputMode::Binary.is_binary());
    assert!(OutputMode::U8List.is_binary());
    assert!(OutputMode::U32List.is_binary());
    assert!(!OutputMode::Assembly.is_binary());
    assert_eq!(OutputMode::Binary.encoding().0, OutputStyle::Raw);
    assert_eq!(
        OutputMode::U32List.encoding(),
        (OutputStyle::HexList, EncodingConfig::word_list())
    );
    assert_eq!(
        OutputMode::Assembly.encoding(),
        (OutputStyle::HexList, EncodingConfig::byte_list())
    );
    assert_eq!(EncodingConfig::byte_list(), bytes_config(8));
    assert_eq!(OutputMode::default(), OutputMode::Binary);
    assert_eq!(ShaderType::default(), ShaderType::Infer);
}
