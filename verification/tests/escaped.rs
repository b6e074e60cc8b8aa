//! Tests of the safe-token encoder.

use reqlog::Escaped;

#[test]
fn test_escape() {
    assert_eq!(Escaped::from_text("").token(), "\"\"");
    assert_eq!(Escaped::from_text("hello").token(), "hello");
    assert_eq!(Escaped::from_text("hello world").token(), "\"hello world\"");
    assert_eq!(Escaped::from_text("non-√•s√ß√Ø√Ø").token(), "\"non-√•s√ß√Ø√Ø\"");
    assert_eq!(Escaped::from_text("emoji üëç").token(), "\"emoji \\u{f8ff}üëç\"");
    assert_eq!(
        Escaped::from_text("back\\slash").token(),
        "\"back\\\\slash\""
    );
    assert_eq!(
        Escaped::from_bytes(b"bad utf8 \xc3\x28!".to_vec()).token(),
        "\"bad utf8 \\xc3\\x28!\""
    );
    assert_eq!(
        Escaped::from_bytes(b"bad utf8 \xc3\x28".to_vec()).token(),
        "\"bad utf8 \\xc3\\x28\""
    );
    assert_eq!(
        Escaped::from_bytes(b"\xc3\x28 bad utf8".to_vec()).token(),
        "\"\\xc3\\x28 bad utf8\""
    );
}

#[test]
fn escape_empty_token() {
    assert_eq!(Escaped::from_bytes(Vec::new()).token(), "\"\"");
}

#[test]
fn escape_plain_passthrough() {
    assert_eq!(Escaped::from_text("a-Z_0.9!~").token(), "a-Z_0.9!~");
    assert_eq!(Escaped::from_text("\"quoted\"").token(), "\"quoted\"");
}

#[test]
fn escape_debug_escapes_nonprintables() {
    assert_eq!(Escaped::from_text("a\tb").token(), "\"a\\tb\"");
    assert_eq!(Escaped::from_text("a\nb").token(), "\"a\\nb\"");
    assert_eq!(Escaped::from_text("a\u{1}b").token(), "\"a\\u{1}b\"");
}

#[test]
fn escape_backslash_scenario() {
    assert_eq!(Escaped::from_text("back\\slash").token(), "\"back\\\\slash\"");
}

#[test]
fn escape_bad_utf8_scenario() {
    assert_eq!(
        Escaped::from_bytes(b"bad utf8 \xc3\x28!".to_vec()).token(),
        "\"bad utf8 \\xc3\\x28!\""
    );
}

#[test]
fn escape_adversarial_bytes() {
    assert_eq!(Escaped::from_bytes(vec![0x80]).token(), "\"\\x80\"");
    assert_eq!(Escaped::from_bytes(vec![0x80, 0x61]).token(), "\"\\x80\\x61\"");
    assert_eq!(Escaped::from_bytes(vec![0xc3]).token(), "\"\\xc3\"");
    assert_eq!(Escaped::from_bytes(vec![0xe0, 0xa0]).token(), "\"\\xe0\\xa0\"");
    assert_eq!(Escaped::from_bytes(vec![0xed, 0xa0, 0x80]).token(), "\"\\xed\\xa0\\x80\"");
    assert_eq!(Escaped::from_bytes(vec![0xff, 0x41, 0x42]).token(), "\"\\xff\\x41B\"");
    // every token is quote-terminated when not plain
    let t = Escaped::from_bytes(vec![0x00, 0xff, 0x61]).token();
    assert!(t.starts_with('\"') && t.ends_with('\"'));
}
