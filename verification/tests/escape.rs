//! Console escaping and command-line unescaping.

use devconsole::escape::{escape, intercept_escape_sequences};

#[test]
fn escape_renders_printable_and_control_bytes() {
    let shown = escape(vec![0x41, 0x20, 0x7e, 0x0a, 0x0d, 0x09, 0x00, 0xff]);
    assert_eq!(shown, "A ~\\n\\r\\t\\x00\\xff".to_string());
}

#[test]
fn escape_of_empty_payload_is_empty() {
    assert_eq!(escape(vec![]), String::new());
}

#[test]
fn unescape_handles_named_escapes() {
    let bytes = intercept_escape_sequences("a\\n\\r\\t\\e\\0b");
    assert_eq!(bytes, vec![0x61, 0x0a, 0x0d, 0x09, 0x1b, 0x00, 0x62]);
}

#[test]
fn unescape_reads_hex_escapes() {
    assert_eq!(intercept_escape_sequences("\\x41\\x0A"), vec![0x41, 0x0a]);
}

#[test]
fn unescape_keeps_bad_hex_verbatim() {
    assert_eq!(intercept_escape_sequences("\\xzz"), vec![0x5c, 0x78, 0x7a, 0x7a]);
}

#[test]
fn unescape_swallows_a_truncated_hex_escape() {
    assert_eq!(intercept_escape_sequences("\\x4"), vec![]);
    assert_eq!(intercept_escape_sequences("\\x"), vec![]);
}

#[test]
fn unescape_keeps_a_trailing_backslash() {
    assert_eq!(intercept_escape_sequences("ab\\"), vec![0x61, 0x62, 0x5c]);
}

#[test]
fn unescape_keeps_unknown_escapes() {
    assert_eq!(intercept_escape_sequences("\\q"), vec![0x5c, 0x71]);
}

#[test]
fn unescape_then_escape_shows_the_control_bytes_again() {
    let bytes = intercept_escape_sequences("hi\\n\\x00");
    assert_eq!(escape(bytes), "hi\\n\\x00".to_string());
}
