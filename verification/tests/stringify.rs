use zin_lib::stringify::{unescape, Error};

#[test]
fn test_escapes() -> Result<(), Error> {
    assert_eq!("H\neL\"\\o wolrd".to_string(), unescape("H\\neL\\\"\\\\o wolrd")?);
    Ok(())
}

#[test]
fn unescape_plain_text_is_unchanged() {
    assert_eq!(unescape("plain text, no escapes").unwrap(), "plain text, no escapes");
    assert_eq!(unescape("").unwrap(), "");
}

#[test]
fn unescape_simple_escapes() {
    assert_eq!(
        unescape("\\a\\b\\v\\f\\r\\t\\e\\'\\$\\`\\n").unwrap(),
        "\u{07}\u{08}\u{0b}\u{0c}\r\t\u{1b}'$`\n"
    );
}

#[test]
fn unescape_drops_backslash_before_newline_or_tab() {
    assert_eq!(unescape("a\\\nb\\\tc").unwrap(), "abc");
}

#[test]
fn unescape_short_unicode() {
    assert_eq!(unescape("\\u{41}x").unwrap(), "Ax");
}

#[test]
fn unescape_long_unicode() {
    assert_eq!(unescape("\\u{00e9}!").unwrap(), "é!");
    assert_eq!(unescape("\\u{263A}").unwrap(), "\u{263a}");
}

#[test]
fn unescape_unicode_digits_with_plus_sign() {
    assert_eq!(unescape("\\u{+4}").unwrap(), "\u{4}");
}

#[test]
fn unescape_invalid_unicode_digits() {
    assert!(matches!(unescape("\\u{zz}"), Err(Error::InvalidUnicode(_))));
}

#[test]
fn unescape_unknown_unicode() {
    assert!(matches!(unescape("\\u{d800}"), Err(Error::UnkownUnicode(0xd800))));
}

#[test]
fn unescape_invalid_escape_keeps_whole_input() {
    match unescape("ab\\q") {
        Err(Error::InvalidEscape(s)) => assert_eq!(s, "ab\\q"),
        other => panic!("unexpected {:?}", other),
    }
}

#[test]
fn unescape_trailing_backslash() {
    match unescape("abc\\") {
        Err(Error::InvalidEscape(s)) => assert_eq!(s, "abc\\"),
        other => panic!("unexpected {:?}", other),
    }
}

#[test]
fn unescape_malformed_unicode_escapes() {
    assert!(matches!(unescape("\\u(41}"), Err(Error::InvalidEscape(_))));
    assert!(matches!(unescape("\\u{abc}"), Err(Error::InvalidEscape(_))));
    assert!(matches!(unescape("\\u{4"), Err(Error::InvalidEscape(_))));
    assert!(matches!(unescape("\\u{00e9x"), Err(Error::InvalidEscape(_))));
}

#[test]
fn failure_messages() {
    assert_eq!(Error::InvalidEscape("a\\q".to_string()).message(), "Invalid escape a\\q");
    assert_eq!(Error::UnkownUnicode(0xD800).message(), "Unkown unicode D800");
    assert_eq!(Error::UnkownUnicode(0x1F).message(), "Unkown unicode 1F");
    assert_eq!(Error::UnkownUnicode(0).message(), "Unkown unicode 0");
    match unescape("\\u{zz}") {
        Err(e) => assert_eq!(e.message(), "Invalid unicode number invalid digit found in string"),
        Ok(s) => panic!("unexpected {:?}", s),
    }
}
