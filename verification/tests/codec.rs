use stfu8::{decode, encode, encode_pretty, encode_with, DecodeError, Encoder};

#[test]
fn round_trip_empty() {
    assert_eq!(decode(&encode(b"")).unwrap(), Vec::<u8>::new());
    assert_eq!(decode(&encode_pretty(b"")).unwrap(), Vec::<u8>::new());
}

#[test]
fn round_trip_ascii() {
    let buf: Vec<u8> = b"the quick brown fox jumps over the lazy dog 0123456789".to_vec();
    assert_eq!(decode(&encode(&buf)).unwrap(), buf);
    assert_eq!(decode(&encode_pretty(&buf)).unwrap(), buf);
}

#[test]
fn round_trip_control_bytes() {
    let buf: Vec<u8> = (0x00..0x20).collect();
    assert_eq!(decode(&encode(&buf)).unwrap(), buf);
    assert_eq!(decode(&encode_pretty(&buf)).unwrap(), buf);
}

#[test]
fn round_trip_all_byte_values() {
    let buf: Vec<u8> = (0x00..=0xFF).collect();
    assert_eq!(decode(&encode(&buf)).unwrap(), buf);
    assert_eq!(decode(&encode_pretty(&buf)).unwrap(), buf);
}

#[test]
fn round_trip_mixed_binary() {
    let buf: Vec<u8> = vec![
        0x00, 0xFF, 0x5C, 0x09, 0x0A, 0x0D, 0x7F, 0x80, 0x61, 0x62, 0x63, 0xC3, 0xA9, 0x20, 0x7E,
    ];
    assert_eq!(decode(&encode(&buf)).unwrap(), buf);
    assert_eq!(decode(&encode_pretty(&buf)).unwrap(), buf);
}

#[test]
fn cross_preset_decode_agrees() {
    let buf: Vec<u8> = b"foo\xFF\nbar\tbaz\rqux\\end\x00".to_vec();
    let standard = decode(&encode(&buf)).unwrap();
    let pretty = decode(&encode_pretty(&buf)).unwrap();
    assert_eq!(standard, buf);
    assert_eq!(pretty, buf);
    assert_eq!(standard, pretty);
}

#[test]
fn printable_passthrough_is_identity() {
    let text = "a plain printable line with spaces and !@#$%^&*()_+ punctuation";
    assert_eq!(encode(text.as_bytes()), text);
    assert_eq!(encode_pretty(text.as_bytes()), text);
}

#[test]
fn preset_effect_on_newline() {
    assert_eq!(encode(b"a\nb"), "a\\nb");
    assert_eq!(encode_pretty(b"a\nb"), "a\nb");
    assert!(encode_pretty(b"a\nb").contains('\n'));
    assert!(!encode(b"a\nb").contains('\n'));
}

#[test]
fn preset_effect_on_tab_and_carriage_return() {
    assert_eq!(encode(b"a\tb\rc"), "a\\tb\\rc");
    assert_eq!(encode_pretty(b"a\tb\rc"), "a\tb\rc");
}

#[test]
fn backslash_is_doubled() {
    assert_eq!(encode(b"\\"), "\\\\");
    assert_eq!(decode("\\\\").unwrap(), vec![0x5C]);
}

#[test]
fn hex_escape_exact_form() {
    assert_eq!(encode(b"\xFF"), "\\xFF");
    assert_eq!(decode("\\xFF").unwrap(), vec![0xFF]);
    assert_eq!(decode("\\xff").unwrap(), vec![0xFF]);
    assert_eq!(decode("\\xFf").unwrap(), vec![0xFF]);
}

#[test]
fn hex_escape_low_bytes() {
    assert_eq!(encode(b"\x00"), "\\x00");
    assert_eq!(encode(b"\x1F"), "\\x1F");
    assert_eq!(decode("\\x00\\x1f").unwrap(), vec![0x00, 0x1F]);
}

#[test]
fn documented_example() {
    assert_eq!(encode(b"foo\xFF\nbar"), "foo\\xFF\\nbar");
    assert_eq!(encode_pretty(b"foo\xFF\nbar"), "foo\\xFF\nbar");
}

#[test]
fn decode_shorthand_escapes() {
    assert_eq!(decode("\\t\\n\\r\\\\").unwrap(), vec![0x09, 0x0A, 0x0D, 0x5C]);
}

#[test]
fn decode_literal_whitespace() {
    assert_eq!(decode("a\tb\nc\rd").unwrap(), vec![0x61, 0x09, 0x62, 0x0A, 0x63, 0x0D, 0x64]);
}

#[test]
fn decode_literal_multibyte_text() {
    assert_eq!(decode("\u{e9}").unwrap(), vec![0xC3, 0xA9]);
    assert_eq!(decode("\u{65e5}").unwrap(), vec![0xE6, 0x97, 0xA5]);
}

#[test]
fn decode_unicode_escape() {
    assert_eq!(decode("\\u{41}").unwrap(), vec![0x41]);
    assert_eq!(decode("\\u{0a}").unwrap(), vec![0x0A]);
    assert_eq!(decode("\\u{e9}").unwrap(), vec![0xC3, 0xA9]);
    assert_eq!(decode("\\u{1F600}").unwrap(), vec![0xF0, 0x9F, 0x98, 0x80]);
    assert_eq!(decode("\\u{00000041}").unwrap(), vec![0x41]);
}

#[test]
fn error_truncated_hex_escape() {
    assert_eq!(
        decode("\\x1"),
        Err(DecodeError::TruncatedEscape { offset: 0 })
    );
    assert_eq!(
        decode("\\x"),
        Err(DecodeError::TruncatedEscape { offset: 0 })
    );
}

#[test]
fn error_invalid_hex_digit() {
    assert_eq!(
        decode("\\xZZ"),
        Err(DecodeError::InvalidHexDigit { found: b'Z', offset: 2 })
    );
    assert_eq!(
        decode("\\x1G"),
        Err(DecodeError::InvalidHexDigit { found: b'G', offset: 3 })
    );
}

#[test]
fn error_unknown_escape() {
    assert_eq!(
        decode("\\q"),
        Err(DecodeError::UnknownEscape { found: b'q', offset: 1 })
    );
}

#[test]
fn error_trailing_backslash() {
    assert_eq!(
        decode("foo\\"),
        Err(DecodeError::TruncatedEscape { offset: 3 })
    );
}

#[test]
fn error_unicode_escapes() {
    assert_eq!(
        decode("\\u{}"),
        Err(DecodeError::InvalidHexDigit { found: b'}', offset: 3 })
    );
    assert_eq!(
        decode("\\u{12"),
        Err(DecodeError::UnterminatedBrace { offset: 0 })
    );
    assert_eq!(
        decode("\\u{12G}"),
        Err(DecodeError::InvalidHexDigit { found: b'G', offset: 5 })
    );
    assert_eq!(
        decode("\\uZ"),
        Err(DecodeError::UnknownEscape { found: b'Z', offset: 2 })
    );
    assert_eq!(
        decode("\\u"),
        Err(DecodeError::TruncatedEscape { offset: 0 })
    );
}

#[test]
fn error_scalar_out_of_range() {
    assert_eq!(
        decode("\\u{D800}"),
        Err(DecodeError::ScalarOutOfRange { offset: 0 })
    );
    assert_eq!(
        decode("\\u{110000}"),
        Err(DecodeError::ScalarOutOfRange { offset: 0 })
    );
    assert_eq!(
        decode("\\u{FFFFFFFFFF}"),
        Err(DecodeError::ScalarOutOfRange { offset: 0 })
    );
}

#[test]
fn decode_bytes_matches_decode() {
    assert_eq!(stfu8::decode_bytes(b"\\x41ok").unwrap(), vec![0x41, b'o', b'k']);
    assert_eq!(stfu8::decode_bytes(b"\\x41ok").unwrap(), decode("\\x41ok").unwrap());
    assert_eq!(
        stfu8::decode_bytes(b"\\"),
        Err(DecodeError::TruncatedEscape { offset: 0 })
    );
}

#[test]
fn decode_empty() {
    assert_eq!(decode("").unwrap(), Vec::<u8>::new());
}

#[test]
fn decode_unicode_scalar_boundaries() {
    assert_eq!(decode("\\u{D7FF}").unwrap(), vec![0xED, 0x9F, 0xBF]);
    assert_eq!(decode("\\u{E000}").unwrap(), vec![0xEE, 0x80, 0x80]);
    assert_eq!(decode("\\u{10FFFF}").unwrap(), vec![0xF4, 0x8F, 0xBF, 0xBF]);
    assert_eq!(decode("\\u{7f}").unwrap(), vec![0x7F]);
    assert_eq!(decode("\\u{80}").unwrap(), vec![0xC2, 0x80]);
}

#[test]
fn error_offsets_count_utf8_bytes() {
    // Two bytes for the accented letter, so the backslash sits at byte 2.
    assert_eq!(
        decode("\u{e9}\\q"),
        Err(DecodeError::UnknownEscape { found: b'q', offset: 3 })
    );
}

#[test]
fn decode_stops_at_first_fault() {
    assert_eq!(
        decode("ok\\xAA\\q\\xZZ"),
        Err(DecodeError::UnknownEscape { found: b'q', offset: 7 })
    );
}

#[test]
fn encoder_presets_match_entry_points() {
    let buf = b"mix\\ \t\n\r\x00\x7Fhigh\xC3\xA9";
    assert_eq!(encode_with(&Encoder::new(), buf), encode(buf));
    assert_eq!(encode_with(&Encoder::pretty(), buf), encode_pretty(buf));
}

#[test]
fn encoder_flags_act_independently() {
    let enc = Encoder {
        encode_tab: true,
        encode_line_feed: false,
        encode_cariage: true,
    };
    assert_eq!(encode_with(&enc, b"a\tb\nc\rd"), "a\\tb\nc\\rd");
    assert_eq!(decode(&encode_with(&enc, b"a\tb\nc\rd")).unwrap(), b"a\tb\nc\rd".to_vec());
}
