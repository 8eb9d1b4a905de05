use vstd::prelude::*;

verus! {

/// The number of bytes of the UTF-8 encoding of a character with code `ch`.
pub open spec fn utf8_width(ch: u32) -> nat {
    if ch < 0x80 {
        1
    } else if ch < 0x800 {
        2
    } else if ch < 0x10000 {
        3
    } else {
        4
    }
}

/// The number of bytes of the UTF-8 encoding of `c` (`char::len_utf8`).
pub fn len_utf8(c: char) -> (n: usize)
    ensures
        n == utf8_width(c as u32),
{
    let ch = c as u32;
    if ch < 0x80 {
        1
    } else if ch < 0x800 {
        2
    } else if ch < 0x10000 {
        3
    } else {
        4
    }
}

/// How a character is compared with the bytes of a string: as many bytes
/// as its UTF-8 width are compared, the first with the low four bits of
/// the code (the whole low byte for a one-byte character) and each next
/// one with the low four bits of the next byte of the code.
pub open spec fn char_matches_bytes(zh: char, v: Seq<u8>) -> bool {
    let ch = zh as u32;
    let size = utf8_width(ch);
    if v.len() < size {
        false
    } else if size == 1 {
        (ch as u8) == v[0]
    } else if size == 2 {
        (ch & 0x000F) as u8 == v[0] && (ch >> 8) as u8 == v[1]
    } else if size == 3 {
        &&& (ch & 0x000F) as u8 == v[0]
        &&& ((ch >> 8) & 0x000F) as u8 == v[1]
        &&& ((ch >> 16) & 0x000F) as u8 == v[2]
    } else {
        &&& (ch & 0x000F) as u8 == v[0]
        &&& ((ch >> 8) & 0x000F) as u8 == v[1]
        &&& ((ch >> 16) & 0x000F) as u8 == v[2]
        &&& ((ch >> 24) & 0x000F) as u8 == v[3]
    }
}

/// Compares a character with the start of a byte string, the way values
/// of the two kinds are compared for equality.
pub fn compare_char(zh: char, v: &[u8]) -> (r: bool)
    ensures
        r == char_matches_bytes(zh, v@),
{
    let ch = zh as u32;
    let size = len_utf8(zh);
    if v.len() < size {
        return false;
    }
    match size {
        1 => (ch as u8) == v[0],
        2 => (ch & 0x000F) as u8 == v[0] && (ch >> 8) as u8 == v[1],
        3 => (ch & 0x000F) as u8 == v[0] && ((ch >> 8) & 0x000F) as u8 == v[1] && ((ch >> 16)
            & 0x000F) as u8 == v[2],
        _ => (ch & 0x000F) as u8 == v[0] && ((ch >> 8) & 0x000F) as u8 == v[1] && ((ch >> 16)
            & 0x000F) as u8 == v[2] && ((ch >> 24) & 0x000F) as u8 == v[3],
    }
}

/// The bytes a character becomes when it is pushed into a byte vector:
/// as many bytes as its UTF-8 width, the first the low byte of the code
/// (only its low four bits when the width is more than one), each next
/// one the low four bits of the next byte of the code.
pub open spec fn char_bytes(zh: char) -> Seq<u8> {
    let ch = zh as u32;
    let size = utf8_width(ch);
    if size == 1 {
        seq![ch as u8]
    } else if size == 2 {
        seq![(ch & 0x000F) as u8, ((ch >> 8) & 0x000F) as u8]
    } else if size == 3 {
        seq![(ch & 0x000F) as u8, ((ch >> 8) & 0x000F) as u8, ((ch >> 16) & 0x000F) as u8]
    } else {
        seq![
            (ch & 0x000F) as u8,
            ((ch >> 8) & 0x000F) as u8,
            ((ch >> 16) & 0x000F) as u8,
            ((ch >> 24) & 0x000F) as u8,
        ]
    }
}

/// A character compares equal to the bytes it was pushed as, whatever
/// bytes follow them.
pub proof fn lemma_pushed_char_matches(zh: char, rest: Seq<u8>)
    ensures
        char_matches_bytes(zh, char_bytes(zh) + rest),
{
    let ch = zh as u32;
    let v = char_bytes(zh) + rest;
    if utf8_width(ch) == 2 {
        assert(((ch >> 8) & 0x000F) as u8 == (ch >> 8) as u8) by (bit_vector)
            requires
                ch < 0x800,
        ;
        assert(v[0] == (ch & 0x000F) as u8);
        assert(v[1] == ((ch >> 8) & 0x000F) as u8);
    } else if utf8_width(ch) == 1 {
        assert(v[0] == ch as u8);
    } else if utf8_width(ch) == 3 {
        assert(v[0] == (ch & 0x000F) as u8);
        assert(v[1] == ((ch >> 8) & 0x000F) as u8);
        assert(v[2] == ((ch >> 16) & 0x000F) as u8);
    } else {
        assert(v[0] == (ch & 0x000F) as u8);
        assert(v[1] == ((ch >> 8) & 0x000F) as u8);
        assert(v[2] == ((ch >> 16) & 0x000F) as u8);
        assert(v[3] == ((ch >> 24) & 0x000F) as u8);
    }
}

/// A character is as wide as its UTF-8 encoding, and pushing it into a
/// byte vector adds that many bytes.
pub proof fn lemma_char_width_is_its_utf8_length(c: char)
    ensures
        utf8_width(c as u32) == vstd::utf8::encode_scalar(c as u32).len(),
        char_bytes(c).len() == utf8_width(c as u32),
        1 <= utf8_width(c as u32) <= 4,
{
}

} // verus!
