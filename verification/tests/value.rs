use zin_lib::value::{compare_char, len_utf8};

#[test]
fn utf8_widths() {
    assert_eq!(len_utf8('a'), 1);
    assert_eq!(len_utf8('\u{7f}'), 1);
    assert_eq!(len_utf8('\u{80}'), 2);
    assert_eq!(len_utf8('é'), 2);
    assert_eq!(len_utf8('\u{7ff}'), 2);
    assert_eq!(len_utf8('\u{800}'), 3);
    assert_eq!(len_utf8('\u{ffff}'), 3);
    assert_eq!(len_utf8('\u{10000}'), 4);
    assert_eq!(len_utf8('\u{10ffff}'), 4);
}

#[test]
fn char_against_bytes() {
    assert!(compare_char('a', b"a"));
    assert!(compare_char('a', b"abc"));
    assert!(!compare_char('a', b"b"));
    assert!(!compare_char('a', b""));
    assert!(compare_char('é', &[0x9, 0x0]));
    assert!(!compare_char('é', &[0x9]));
    assert!(!compare_char('é', &[0xc3, 0xa9]));
    assert!(compare_char('\u{263a}', &[0xa, 0x6, 0x0]));
}
