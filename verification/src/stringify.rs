use vstd::prelude::*;
use vstd::utf8::is_scalar;
use vstd::string::StringExecFns;

verus! {

#[verifier::external_type_specification]
#[verifier::external_body]
pub struct ExParseIntError(std::num::ParseIntError);

/// Why a string literal could not be unescaped.
#[derive(Debug)]
pub enum Error {
    /// The digits of a `\u{..}` escape are not a hexadecimal number.
    InvalidUnicode(std::num::ParseIntError),
    /// The number of a `\u{..}` escape is not a Unicode scalar value.
    UnkownUnicode(u32),
    /// A malformed escape sequence; holds the whole input.
    InvalidEscape(String),
}

/// The kind of an unescaping failure, as the specification sees it.
pub enum EscapeFailure {
    InvalidUnicode,
    UnknownUnicode(u32),
    InvalidEscape,
}

impl Error {
    pub open spec fn failure(&self) -> EscapeFailure {
        match self {
            Error::InvalidUnicode(_) => EscapeFailure::InvalidUnicode,
            Error::UnkownUnicode(n) => EscapeFailure::UnknownUnicode(*n),
            Error::InvalidEscape(_) => EscapeFailure::InvalidEscape,
        }
    }
}

/// The upper-case hexadecimal digit for `d` (`d < 16`).
pub open spec fn hex_upper_digit(d: nat) -> char {
    if d < 10 {
        ((d + 48) as u32) as char
    } else {
        ((d + 55) as u32) as char
    }
}

/// The upper-case hexadecimal numeral of `n`, without leading zeros.
pub open spec fn hex_upper(n: nat) -> Seq<char>
    decreases n,
{
    if n < 16 {
        seq![hex_upper_digit(n)]
    } else {
        hex_upper(n / 16) + seq![hex_upper_digit(n % 16)]
    }
}

/// Appends the upper-case hexadecimal numeral of `n` to `s`.
pub fn push_hex_upper(s: &mut String, n: u32)
    ensures
        final(s)@ == old(s)@ + hex_upper(n as nat),
    decreases n,
{
    if n >= 16 {
        push_hex_upper(s, n / 16);
    }
    let d = (n % 16) as u8;
    let c = if d < 10 {
        (48u8 + d) as char
    } else {
        (55u8 + d) as char
    };
    assert(c == hex_upper_digit((n % 16) as nat)) by {
        if d < 10 {
            assert((48u8 + d) as u32 == ((n % 16) as nat + 48) as u32);
        } else {
            assert((55u8 + d) as u32 == ((n % 16) as nat + 55) as u32);
        }
    }
    push_char(s, c);
}

/// Appends the display text of a failed integer parse (`format!("{}", e)`).
/// The contract claims only that text is appended; the wording, which
/// depends on the kind of failure, is left unsaid.
#[verifier::external_body]
fn push_parse_int_error(s: &mut String, e: &std::num::ParseIntError)
    ensures
        old(s)@.is_prefix_of(final(s)@),
{
    s.push_str(&format!("{}", e))
}

impl Error {
    /// The text of the failure, as it is printed.
    pub fn message(&self) -> (m: String)
        ensures
            self matches Error::InvalidEscape(a) ==> m@ == "Invalid escape "@ + a@,
            self matches Error::UnkownUnicode(n) ==> m@ == "Unkown unicode "@ + hex_upper(
                *n as nat,
            ),
            self is InvalidUnicode ==> "Invalid unicode number "@.is_prefix_of(m@),
    {
        match self {
            Error::InvalidEscape(a) => {
                let mut m = String::from_str("Invalid escape ");
                m.append(a.as_str());
                m
            },
            Error::UnkownUnicode(n) => {
                let mut m = String::from_str("Unkown unicode ");
                push_hex_upper(&mut m, *n);
                m
            },
            Error::InvalidUnicode(a) => {
                let mut m = String::from_str("Invalid unicode number ");
                push_parse_int_error(&mut m, a);
                m
            },
        }
    }
}

impl From<std::num::ParseIntError> for Error {
    fn from(a: std::num::ParseIntError) -> (e: Self) {
        Error::InvalidUnicode(a)
    }
}

impl vstd::std_specs::convert::FromSpecImpl<std::num::ParseIntError> for Error {
    open spec fn obeys_from_spec() -> bool {
        true
    }

    open spec fn from_spec(a: std::num::ParseIntError) -> Self {
        Error::InvalidUnicode(a)
    }
}

pub open spec fn is_hex_digit(c: char) -> bool {
    ||| ('0' as u32) <= (c as u32) <= ('9' as u32)
    ||| ('a' as u32) <= (c as u32) <= ('f' as u32)
    ||| ('A' as u32) <= (c as u32) <= ('F' as u32)
}

pub open spec fn hex_digit_value(c: char) -> nat {
    if ('0' as u32) <= (c as u32) <= ('9' as u32) {
        ((c as u32) - ('0' as u32)) as nat
    } else if ('a' as u32) <= (c as u32) <= ('f' as u32) {
        ((c as u32) - ('a' as u32) + 10) as nat
    } else {
        ((c as u32) - ('A' as u32) + 10) as nat
    }
}

/// The number that a sequence of hexadecimal digits spells.
pub open spec fn hex_value(digits: Seq<char>) -> nat
    decreases digits.len(),
{
    if digits.len() == 0 {
        0
    } else {
        hex_value(digits.drop_last()) * 16 + hex_digit_value(digits.last())
    }
}

/// The digits that a base-16 parse of `s` reads: a leading `+` is skipped.
pub open spec fn radix16_digits(s: Seq<char>) -> Seq<char> {
    if s.len() > 0 && s[0] == '+' {
        s.drop_first()
    } else {
        s
    }
}

/// `s` is an optional `+` followed by hexadecimal digits whose value fits in a `u32`.
pub open spec fn parses_as_hex_u32(s: Seq<char>) -> bool {
    let d = radix16_digits(s);
    &&& d.len() > 0
    &&& forall|i: int| 0 <= i < d.len() ==> is_hex_digit(#[trigger] d[i])
    &&& hex_value(d) <= u32::MAX
}

/// Reads the text of a `\u{..}` escape, `t` being what follows the `u`.
/// On success gives the scalar value and whether the long (four digit)
/// form was used.
pub open spec fn unicode_escape(t: Seq<char>) -> Result<(u32, bool), EscapeFailure> {
    if t.len() < 1 || t[0] != '{' || t.len() < 4 {
        Err(EscapeFailure::InvalidEscape)
    } else {
        let long = t[3] != '}';
        if long && (t.len() < 6 || t[5] != '}') {
            Err(EscapeFailure::InvalidEscape)
        } else {
            let digits = if long {
                seq![t[1], t[2], t[3], t[4]]
            } else {
                seq![t[1], t[2]]
            };
            if !parses_as_hex_u32(digits) {
                Err(EscapeFailure::InvalidUnicode)
            } else {
                let v = hex_value(radix16_digits(digits)) as u32;
                if !is_scalar(v) {
                    Err(EscapeFailure::UnknownUnicode(v))
                } else {
                    Ok((v, long))
                }
            }
        }
    }
}

/// The character that a one-letter escape `\e` stands for.
pub open spec fn simple_escape(e: char) -> Option<char> {
    if e == 'a' {
        Some('\u{07}')
    } else if e == 'n' {
        Some('\n')
    } else if e == 'b' {
        Some('\u{08}')
    } else if e == 'v' {
        Some('\u{0b}')
    } else if e == 'f' {
        Some('\u{0C}')
    } else if e == 'r' {
        Some('\r')
    } else if e == 't' {
        Some('\t')
    } else if e == 'e' {
        Some('\u{1b}')
    } else if e == '\\' || e == '\'' || e == '"' || e == '$' || e == '`' {
        Some(e)
    } else {
        None
    }
}

pub open spec fn prepend(c: char, r: Result<Seq<char>, EscapeFailure>) -> Result<
    Seq<char>,
    EscapeFailure,
> {
    match r {
        Ok(rest) => Ok(seq![c] + rest),
        Err(f) => Err(f),
    }
}

/// The text that the escaped literal `s` denotes, or the first failure met
/// reading it from left to right.
pub open spec fn unescaped(s: Seq<char>) -> Result<Seq<char>, EscapeFailure>
    decreases s.len(),
{
    if s.len() == 0 {
        Ok(seq![])
    } else if s[0] != '\\' {
        prepend(s[0], unescaped(s.drop_first()))
    } else if s.len() < 2 {
        Err(EscapeFailure::InvalidEscape)
    } else if s[1] == '\n' || s[1] == '\t' {
        unescaped(s.skip(2))
    } else if simple_escape(s[1]) is Some {
        prepend(simple_escape(s[1])->0, unescaped(s.skip(2)))
    } else if s[1] == 'u' {
        match unicode_escape(s.skip(2)) {
            Ok((v, long)) => prepend(
                v as char,
                unescaped(
                    s.skip(
                        if long {
                            8
                        } else {
                            6
                        },
                    ),
                ),
            ),
            Err(f) => Err(f),
        }
    } else {
        Err(EscapeFailure::InvalidEscape)
    }
}

/// Each one-letter escape stands for its character, and the text after it
/// is read on: `\a \b \t \n \v \f \r \e` for the bell, backspace,
/// tab, line feed, vertical tab, form feed, carriage return and escape
/// characters, and a backslash, quote, double quote, `$` or backquote
/// after a backslash for itself; a backslash before a line break or a tab
/// drops both.
pub proof fn lemma_escapes_stand_for_their_characters(rest: Seq<char>)
    ensures
        unescaped(seq!['\\', 'a'] + rest) == prepend('\u{07}', unescaped(rest)),
        unescaped(seq!['\\', 'n'] + rest) == prepend('\n', unescaped(rest)),
        unescaped(seq!['\\', 'b'] + rest) == prepend('\u{08}', unescaped(rest)),
        unescaped(seq!['\\', 'v'] + rest) == prepend('\u{0b}', unescaped(rest)),
        unescaped(seq!['\\', 'f'] + rest) == prepend('\u{0C}', unescaped(rest)),
        unescaped(seq!['\\', 'r'] + rest) == prepend('\r', unescaped(rest)),
        unescaped(seq!['\\', 't'] + rest) == prepend('\t', unescaped(rest)),
        unescaped(seq!['\\', 'e'] + rest) == prepend('\u{1b}', unescaped(rest)),
        unescaped(seq!['\\', '\\'] + rest) == prepend('\\', unescaped(rest)),
        unescaped(seq!['\\', '\''] + rest) == prepend('\'', unescaped(rest)),
        unescaped(seq!['\\', '"'] + rest) == prepend('"', unescaped(rest)),
        unescaped(seq!['\\', '$'] + rest) == prepend('$', unescaped(rest)),
        unescaped(seq!['\\', '`'] + rest) == prepend('`', unescaped(rest)),
        unescaped(seq!['\\', '\n'] + rest) == unescaped(rest),
        unescaped(seq!['\\', '\t'] + rest) == unescaped(rest),
{
    assert((seq!['\\', 'a'] + rest).skip(2) =~= rest);
    assert((seq!['\\', 'n'] + rest).skip(2) =~= rest);
    assert((seq!['\\', 'b'] + rest).skip(2) =~= rest);
    assert((seq!['\\', 'v'] + rest).skip(2) =~= rest);
    assert((seq!['\\', 'f'] + rest).skip(2) =~= rest);
    assert((seq!['\\', 'r'] + rest).skip(2) =~= rest);
    assert((seq!['\\', 't'] + rest).skip(2) =~= rest);
    assert((seq!['\\', 'e'] + rest).skip(2) =~= rest);
    assert((seq!['\\', '\\'] + rest).skip(2) =~= rest);
    assert((seq!['\\', '\''] + rest).skip(2) =~= rest);
    assert((seq!['\\', '"'] + rest).skip(2) =~= rest);
    assert((seq!['\\', '$'] + rest).skip(2) =~= rest);
    assert((seq!['\\', '`'] + rest).skip(2) =~= rest);
    assert((seq!['\\', '\n'] + rest).skip(2) =~= rest);
    assert((seq!['\\', '\t'] + rest).skip(2) =~= rest);
}

/// A text with no backslash in it unescapes to itself.
pub proof fn lemma_unescape_plain(s: Seq<char>)
    requires
        forall|i: int| 0 <= i < s.len() ==> s[i] != '\\',
    ensures
        unescaped(s) == Ok::<Seq<char>, EscapeFailure>(s),
    decreases s.len(),
{
    if s.len() > 0 {
        assert forall|i: int| 0 <= i < s.drop_first().len() implies s.drop_first()[i] != '\\' by {
            assert(s.drop_first()[i] == s[i + 1]);
        }
        lemma_unescape_plain(s.drop_first());
        assert(s[0] != '\\');
        assert(seq![s[0]] + s.drop_first() =~= s);
    } else {
        assert(s =~= seq![]);
    }
}

/// Unescaping a text that starts with a plain character gives that
/// character before what the rest unescapes to (or the rest's failure).
pub proof fn lemma_unescape_plain_head(c: char, rest: Seq<char>)
    requires
        c != '\\',
    ensures
        unescaped(seq![c] + rest) == prepend(c, unescaped(rest)),
{
    let s = seq![c] + rest;
    assert(s.drop_first() =~= rest);
}

/// Parses `s` as a base-16 `u32` (`u32::from_str_radix(s, 16)`).
#[verifier::external_body]
fn parse_hex_u32(s: &str) -> (r: Result<u32, std::num::ParseIntError>)
    ensures
        r is Ok <==> parses_as_hex_u32(s@),
        r matches Ok(v) ==> v as nat == hex_value(radix16_digits(s@)),
{
    u32::from_str_radix(s, 16)
}

/// The character with scalar value `n` (`std::char::from_u32`).
#[verifier::external_body]
fn char_from_u32(n: u32) -> (r: Option<char>)
    ensures
        r is Some <==> is_scalar(n),
        r matches Some(c) ==> c as u32 == n && c == n as char,
{
    std::char::from_u32(n)
}

/// Appends `c` to `s` (`String::push`).
#[verifier::external_body]
pub(crate) fn push_char(s: &mut String, c: char)
    ensures
        final(s)@ == old(s)@.push(c),
{
    s.push(c)
}

/// The characters of `s`, in order.
pub fn str_chars(s: &str) -> (v: Vec<char>)
    ensures
        v@ == s@,
{
    let mut v: Vec<char> = Vec::new();
    for c in it: s.chars()
        invariant
            it.seq() == s@,
            v@ == it.seq().take(it.index() as int),
    {
        v.push(c);
    }
    v
}

/// Unescapes the body of a string literal: `\n`, `\t`, `\\`, `\u{..}` and the
/// other escapes become the characters they stand for; a backslash before a
/// newline or a tab drops both.
pub fn unescape(string: &str) -> (r: Result<String, Error>)
    ensures
        match r {
            Ok(o) => unescaped(string@) == Ok::<Seq<char>, EscapeFailure>(o@),
            Err(e) => {
                &&& unescaped(string@) == Err::<Seq<char>, EscapeFailure>(e.failure())
                &&& (e matches Error::InvalidEscape(t) ==> t@ == string@)
            },
        },
{
    let cs = str_chars(string);
    let n = cs.len();
    let mut output = String::new();
    let mut i: usize = 0;
    assert(cs@.skip(0) =~= cs@);
    while i < n
        invariant
            n == cs@.len(),
            cs@ == string@,
            i <= n,
            unescaped(string@) == match unescaped(cs@.skip(i as int)) {
                Ok(rest) => Ok(output@ + rest),
                Err(f) => Err(f),
            },
        decreases n - i,
    {
        let ghost s = cs@.skip(i as int);
        let ghost before = output@;
        let left = n - i;
        let c = cs[i];
        if c != '\\' {
            assert(s.drop_first() =~= cs@.skip(i + 1));
            push_char(&mut output, c);
            i = i + 1;
            proof {
                if let Ok(rest) = unescaped(cs@.skip(i as int)) {
                    assert(before + (seq![c] + rest) =~= output@ + rest);
                }
            }
        } else {
            if left < 2 {
                return Err(Error::InvalidEscape(string.to_owned()));
            }
            let e = cs[i + 1];
            if e == '\n' || e == '\t' {
                assert(s.skip(2) =~= cs@.skip(i + 2));
                i = i + 2;
            } else if e == 'u' {
                let ghost t = s.skip(2);
                if left < 3 {
                    return Err(Error::InvalidEscape(string.to_owned()));
                }
                let lbrack = cs[i + 2];
                if lbrack != '{' {
                    return Err(Error::InvalidEscape(string.to_owned()));
                }
                if left < 6 {
                    return Err(Error::InvalidEscape(string.to_owned()));
                }
                let d1 = cs[i + 3];
                let d2 = cs[i + 4];
                let rbrack = cs[i + 5];
                let mut temp = String::new();
                push_char(&mut temp, d1);
                push_char(&mut temp, d2);
                let mut consumed: usize = 6;
                if rbrack != '}' {
                    push_char(&mut temp, rbrack);
                    if left < 8 {
                        return Err(Error::InvalidEscape(string.to_owned()));
                    }
                    push_char(&mut temp, cs[i + 6]);
                    let frback = cs[i + 7];
                    if frback != '}' {
                        return Err(Error::InvalidEscape(string.to_owned()));
                    }
                    consumed = 8;
                    assert(temp@ =~= seq![t[1], t[2], t[3], t[4]]);
                } else {
                    assert(temp@ =~= seq![t[1], t[2]]);
                }
                let num = match parse_hex_u32(temp.as_str()) {
                    Ok(v) => v,
                    Err(p) => {
                        return Err(Error::InvalidUnicode(p));
                    },
                };
                let ch = match char_from_u32(num) {
                    Some(a) => a,
                    None => {
                        return Err(Error::UnkownUnicode(num));
                    },
                };
                push_char(&mut output, ch);
                assert(s.skip(consumed as int) =~= cs@.skip(i + consumed));
                i = i + consumed;
                proof {
                    if let Ok(rest) = unescaped(cs@.skip(i as int)) {
                        assert(before + (seq![ch] + rest) =~= output@ + rest);
                    }
                }
            } else {
                let m: char = if e == 'a' {
                    '\u{07}'
                } else if e == 'n' {
                    '\n'
                } else if e == 'b' {
                    '\u{08}'
                } else if e == 'v' {
                    '\u{0b}'
                } else if e == 'f' {
                    '\u{0C}'
                } else if e == 'r' {
                    '\r'
                } else if e == 't' {
                    '\t'
                } else if e == 'e' {
                    '\u{1b}'
                } else if e == '\\' || e == '\'' || e == '"' || e == '$' || e == '`' {
                    e
                } else {
                    return Err(Error::InvalidEscape(string.to_owned()));
                };
                assert(s.skip(2) =~= cs@.skip(i + 2));
                push_char(&mut output, m);
                i = i + 2;
                proof {
                    if let Ok(rest) = unescaped(cs@.skip(i as int)) {
                        assert(before + (seq![m] + rest) =~= output@ + rest);
                    }
                }
            }
        }
    }
    assert(cs@.skip(n as int) =~= Seq::<char>::empty());
    assert(output@ + Seq::<char>::empty() =~= output@);
    Ok(output)
}

} // verus!
