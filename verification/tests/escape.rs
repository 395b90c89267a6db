use svinst::escape::{escape_str, push_quoted};

fn unquote_with_enquote(quoted: &[u8]) -> Vec<u8> {
    let text = std::str::from_utf8(quoted).unwrap();
    enquote::unquote(text).unwrap().into_bytes()
}

#[test]
fn plain_text_is_only_quoted() {
    assert_eq!(escape_str(b"top"), b"\"top\"".to_vec());
}

#[test]
fn empty_text_is_two_quotes() {
    assert_eq!(escape_str(b""), b"\"\"".to_vec());
}

#[test]
fn quote_and_backslash_get_a_backslash() {
    assert_eq!(escape_str(b"a\"b"), b"\"a\\\"b\"".to_vec());
    assert_eq!(escape_str(b"a\\b"), b"\"a\\\\b\"".to_vec());
    assert_eq!(escape_str(b"\\\""), b"\"\\\\\\\"\"".to_vec());
}

#[test]
fn mnemonic_escapes() {
    assert_eq!(escape_str(b"\n"), b"\"\\n\"".to_vec());
    assert_eq!(escape_str(b"\t"), b"\"\\t\"".to_vec());
    assert_eq!(escape_str(b"\r"), b"\"\\r\"".to_vec());
    assert_eq!(escape_str(b"\x08"), b"\"\\b\"".to_vec());
    assert_eq!(escape_str(b"\x0c"), b"\"\\f\"".to_vec());
}

#[test]
fn control_bytes_become_unicode_escapes() {
    assert_eq!(escape_str(b"\x00"), b"\"\\u0000\"".to_vec());
    assert_eq!(escape_str(b"\x01"), b"\"\\u0001\"".to_vec());
    assert_eq!(escape_str(b"\x07"), b"\"\\u0007\"".to_vec());
    assert_eq!(escape_str(b"\x0b"), b"\"\\u000b\"".to_vec());
    assert_eq!(escape_str(b"\x0e"), b"\"\\u000e\"".to_vec());
    assert_eq!(escape_str(b"\x0f"), b"\"\\u000f\"".to_vec());
    assert_eq!(escape_str(b"\x10"), b"\"\\u0010\"".to_vec());
    assert_eq!(escape_str(b"\x1a"), b"\"\\u001a\"".to_vec());
    assert_eq!(escape_str(b"\x1f"), b"\"\\u001f\"".to_vec());
    assert_eq!(escape_str(b"\x7f"), b"\"\\u007f\"".to_vec());
}

#[test]
fn every_low_byte_has_the_expected_escape() {
    for b in 0u8..0x20 {
        let expected = match b {
            0x08 => "\"\\b\"".to_string(),
            0x09 => "\"\\t\"".to_string(),
            0x0a => "\"\\n\"".to_string(),
            0x0c => "\"\\f\"".to_string(),
            0x0d => "\"\\r\"".to_string(),
            _ => format!("\"\\u{:04x}\"", b),
        };
        assert_eq!(escape_str(&[b]), expected.into_bytes());
    }
}

#[test]
fn printable_ascii_passes_through() {
    for b in 0x20u8..0x7f {
        if b == b'"' || b == b'\\' {
            continue;
        }
        assert_eq!(escape_str(&[b]), vec![b'"', b, b'"']);
    }
}

#[test]
fn multi_byte_text_passes_through() {
    let text = "caf\u{e9} \u{4e2d}\u{6587} \u{1f600}";
    let mut expected = vec![b'"'];
    expected.extend_from_slice(text.as_bytes());
    expected.push(b'"');
    assert_eq!(escape_str(text.as_bytes()), expected);
}

#[test]
fn high_bytes_pass_through() {
    assert_eq!(escape_str(&[0x80, 0xff, 0xc3]), vec![b'"', 0x80, 0xff, 0xc3, b'"']);
}

#[test]
fn escapes_stand_between_unchanged_runs() {
    assert_eq!(escape_str(b"ab\ncd\"ef"), b"\"ab\\ncd\\\"ef\"".to_vec());
}

#[test]
fn push_quoted_appends() {
    let mut out = b"x: ".to_vec();
    push_quoted(&mut out, b"a\tb");
    assert_eq!(out, b"x: \"a\\tb\"".to_vec());
}

#[test]
fn round_trip_of_every_ascii_byte() {
    for b in 0u8..0x80 {
        let quoted = escape_str(&[b]);
        assert_eq!(unquote_with_enquote(&quoted), vec![b]);
    }
}

#[test]
fn round_trip_of_mixed_text() {
    let text = "say \"hi\"\\\n\ttab\r\x00\x01\x1f\x7f caf\u{e9} \u{4e2d}";
    let quoted = escape_str(text.as_bytes());
    assert_eq!(unquote_with_enquote(&quoted), text.as_bytes().to_vec());
}

#[test]
fn round_trip_of_text_that_looks_escaped() {
    let text = "\\n \\u0041 \\\\ \\\"";
    let quoted = escape_str(text.as_bytes());
    assert_eq!(unquote_with_enquote(&quoted), text.as_bytes().to_vec());
}
