use cpplumber::transcode::{
    process_escape_sequences, string_literal_to_bytes, ResolvedUnit, TranscodeError,
};

#[test]
fn narrow_literal_is_plain_ascii_bytes() {
    let bytes = string_literal_to_bytes("\"c_string\"").unwrap();
    assert_eq!(bytes, b"c_string".to_vec());
}

#[test]
fn wide_literal_is_utf16_little_endian() {
    let bytes = string_literal_to_bytes("L\"ab\"").unwrap();
    assert_eq!(bytes, vec![0x61, 0x00, 0x62, 0x00]);
}

#[test]
fn utf8_literal_is_utf8_bytes() {
    let bytes = string_literal_to_bytes("u8\"ab\"").unwrap();
    assert_eq!(bytes, vec![0x61, 0x62]);
}

#[test]
fn utf32_literal_is_utf32_little_endian() {
    let bytes = string_literal_to_bytes("U\"a\"").unwrap();
    assert_eq!(bytes, vec![0x61, 0x00, 0x00, 0x00]);
}

#[test]
fn utf16_literal_is_utf16_little_endian() {
    let bytes = string_literal_to_bytes("u\"ab\"").unwrap();
    assert_eq!(bytes, vec![0x61, 0x00, 0x62, 0x00]);
}

#[test]
fn tab_escape_resolves_to_single_byte() {
    let bytes = string_literal_to_bytes("\"a\\tb\"").unwrap();
    assert_eq!(bytes, vec![0x61, 0x09, 0x62]);
}

#[test]
fn octal_escape_resolves_to_its_value() {
    let bytes = string_literal_to_bytes("\"\\101\"").unwrap();
    assert_eq!(bytes, vec![0x41]);
}

#[test]
fn octal_escape_consumes_maximal_run_of_three() {
    // `\101` then a literal `3`.
    let bytes = string_literal_to_bytes("\"\\1013\"").unwrap();
    assert_eq!(bytes, vec![0x41, 0x33]);
}

#[test]
fn adjacent_octal_escapes() {
    let bytes = string_literal_to_bytes("\"\\61\\62\"").unwrap();
    assert_eq!(bytes, vec![0x31, 0x32]);
}

#[test]
fn octal_escape_truncates_to_low_eight_bits() {
    // 0o777 == 511; truncated to 255 and emitted as that single raw byte.
    let bytes = string_literal_to_bytes("\"x\\777\"").unwrap();
    assert_eq!(bytes, vec![0x78, 0xFF]);
    let bytes = string_literal_to_bytes("\"\\777\"").unwrap();
    assert_eq!(bytes, vec![0xFF]);
}

#[test]
fn octal_escape_is_a_single_raw_byte_under_narrow_encoding() {
    // The resolved value 0x90 is the byte itself, not re-encoded as UTF-8.
    let bytes = string_literal_to_bytes("\"x\\220\"").unwrap();
    assert_eq!(bytes, vec![0x78, 0x90]);
}

#[test]
fn octal_escape_under_wide_encodings_stays_one_code_unit() {
    let bytes = string_literal_to_bytes("L\"\\220\"").unwrap();
    assert_eq!(bytes, vec![0x90, 0x00]);
    let bytes = string_literal_to_bytes("U\"\\220\"").unwrap();
    assert_eq!(bytes, vec![0x90, 0x00, 0x00, 0x00]);
    let bytes = string_literal_to_bytes("u8\"\\220\"").unwrap();
    assert_eq!(bytes, vec![0x90]);
}

#[test]
fn simple_escapes_resolve_to_control_characters() {
    let bytes = string_literal_to_bytes("\"\\a\\b\\n\\v\\f\\r\\\\\\ \"").unwrap();
    assert_eq!(bytes, vec![0x07, 0x08, 0x0A, 0x0B, 0x0C, 0x0D, 0x5C, 0x20]);
}

#[test]
fn unknown_escape_passes_character_through() {
    let bytes = string_literal_to_bytes("\"\\q\"").unwrap();
    assert_eq!(bytes, vec![0x71]);
}

#[test]
fn trailing_backslash_is_a_transcode_error() {
    let r = string_literal_to_bytes("\"abc\\\"");
    assert_eq!(r, Err(TranscodeError::TrailingBackslash));
}

#[test]
fn unrecognized_prefix_is_a_transcode_error() {
    let r = string_literal_to_bytes("xyz");
    assert_eq!(r, Err(TranscodeError::UnrecognizedPrefix));
    let r = string_literal_to_bytes("R\"(raw)\"");
    assert_eq!(r, Err(TranscodeError::UnrecognizedPrefix));
}

#[test]
fn multibyte_characters_encode_per_prefix() {
    assert_eq!(
        string_literal_to_bytes("\"\u{1F602}\"").unwrap(),
        vec![0xF0, 0x9F, 0x98, 0x82]
    );
    assert_eq!(
        string_literal_to_bytes("\"\u{9999}\"").unwrap(),
        vec![0xE9, 0xA6, 0x99]
    );
    assert_eq!(string_literal_to_bytes("\"\u{E9}\"").unwrap(), vec![0xC3, 0xA9]);
    assert_eq!(
        string_literal_to_bytes("L\"\u{1F602}\"").unwrap(),
        vec![0x3D, 0xD8, 0x02, 0xDE]
    );
    assert_eq!(
        string_literal_to_bytes("U\"\u{1F602}\"").unwrap(),
        vec![0x02, 0xF6, 0x01, 0x00]
    );
}

#[test]
fn empty_bodies_transcode_to_no_bytes() {
    assert_eq!(string_literal_to_bytes("\"\"").unwrap(), Vec::<u8>::new());
    assert_eq!(string_literal_to_bytes("L\"\"").unwrap(), Vec::<u8>::new());
}

#[test]
fn transcoding_is_pure() {
    let first = string_literal_to_bytes("L\"a\\tb\\101\"");
    let second = string_literal_to_bytes("L\"a\\tb\\101\"");
    assert_eq!(first, second);
}

#[test]
fn escape_processing_resolves_left_to_right() {
    let units = process_escape_sequences("a\\tb").unwrap();
    assert_eq!(
        units,
        vec![
            ResolvedUnit::Character('a'),
            ResolvedUnit::Character('\t'),
            ResolvedUnit::Character('b'),
        ]
    );
    let units = process_escape_sequences("\\101").unwrap();
    assert_eq!(units, vec![ResolvedUnit::OctalByte(0x41)]);
    assert!(process_escape_sequences("oops\\").is_none());
}
