use vstd::prelude::*;
use vstd::string::StringExecFns;
use crate::value::{char_bytes, len_utf8};
use crate::stringify::push_char;
use crate::error::Error;
use vstd::utf8::{
    encode_utf8, encode_utf8_valid_utf8, is_char_boundary, is_char_boundary_iff_not_is_continuation_byte,
    is_char_boundary_start_end_of_seq, valid_utf8, valid_utf8_split,
};

verus! {

/// The text of a string object: either owned and growable, or a shared
/// constant that is copied into an owned string before its first change.
#[derive(Debug, Clone, Eq)]
pub enum InternedString {
    String(String),
    Str(String),
}

/// The UTF-8 bytes of a text.
pub open spec fn utf8(s: Seq<char>) -> Seq<u8> {
    encode_utf8(s)
}

/// Removes and gives the last character of `s` (`String::pop`).
#[verifier::external_body]
fn string_pop(s: &mut String) -> (r: Option<char>)
    ensures
        old(s)@.len() == 0 ==> r is None && final(s)@ == old(s)@,
        old(s)@.len() > 0 ==> r == Some(old(s)@.last()) && final(s)@ == old(s)@.drop_last(),
{
    s.pop()
}

/// Replaces the bytes `start..end` of `s` by `val` (`String::replace_range`).
#[verifier::external_body]
fn string_replace_range(s: &mut String, start: usize, end: usize, val: &str)
    requires
        start <= end <= utf8(old(s)@).len(),
        is_char_boundary(utf8(old(s)@), start as int),
        is_char_boundary(utf8(old(s)@), end as int),
    ensures
        utf8(final(s)@) == utf8(old(s)@).subrange(0, start as int) + utf8(val@) + utf8(
            old(s)@,
        ).subrange(end as int, utf8(old(s)@).len() as int),
{
    s.replace_range(start..end, val)
}

/// Appends to a byte vector the bytes that stand for the character `zh`.
pub fn push_bytechar(slice: &mut Vec<u8>, zh: char)
    ensures
        final(slice)@ == old(slice)@ + char_bytes(zh),
{
    let ch = zh as u32;
    match len_utf8(zh) {
        1 => slice.push(ch as u8),
        2 => {
            slice.push((ch & 0x000F) as u8);
            slice.push(((ch >> 8) & 0x000F) as u8);
        },
        3 => {
            slice.push((ch & 0x000F) as u8);
            slice.push(((ch >> 8) & 0x000F) as u8);
            slice.push(((ch >> 16) & 0x000F) as u8);
        },
        _ => {
            slice.push((ch & 0x000F) as u8);
            slice.push(((ch >> 8) & 0x000F) as u8);
            slice.push(((ch >> 16) & 0x000F) as u8);
            slice.push(((ch >> 24) & 0x000F) as u8);
        },
    }
}

/// Where a string or a vector is read or cut: at one index, over the
/// range from the first index to the second, or at a key that a script gave
/// as a value: `Some` of the index its number stands for, or `None` when the
/// value is not a number.
#[derive(Debug, Clone, Copy, PartialEq, Eq)]
pub enum SetIndexValue {
    Index(usize),
    Range(usize, usize),
    Val(Option<usize>),
}

/// The key as an index or a range: a numeric value key is read as the
/// index it stands for; a value key that is not a number gives nothing.
pub open spec fn numeric(key: SetIndexValue) -> Option<SetIndexValue> {
    match key {
        SetIndexValue::Val(None) => None,
        SetIndexValue::Val(Some(x)) => Some(SetIndexValue::Index(x)),
        _ => Some(key),
    }
}

/// Reads a value key as the index it stands for (see `numeric`).
fn plain_key(key: SetIndexValue) -> (r: Option<SetIndexValue>)
    ensures
        r == numeric(key),
        r matches Some(k) ==> !(k is Val),
{
    match key {
        SetIndexValue::Val(None) => None,
        SetIndexValue::Val(Some(x)) => Some(SetIndexValue::Index(x)),
        _ => Some(key),
    }
}

/// What removing from a string gives back: the code of the character
/// taken out, or whether a range was cut.
#[derive(Debug, Clone, Copy, PartialEq, Eq)]
pub enum Removed {
    Char(u32),
    Flag(bool),
}

/// Removes the character that starts at byte `idx` of `s` and gives it
/// back (`String::remove`).
#[verifier::external_body]
fn string_remove(s: &mut String, idx: usize) -> (c: char)
    requires
        idx < utf8(old(s)@).len(),
        is_char_boundary(utf8(old(s)@), idx as int),
    ensures
        idx + utf8(seq![c]).len() <= utf8(old(s)@).len(),
        utf8(old(s)@).subrange(idx as int, idx + utf8(seq![c]).len()) == utf8(seq![c]),
        utf8(final(s)@) == utf8(old(s)@).subrange(0, idx as int) + utf8(old(s)@).subrange(
            idx + utf8(seq![c]).len(),
            utf8(old(s)@).len() as int,
        ),
{
    s.remove(idx)
}

/// A character boundary of a text that lies after another one is a
/// boundary of the text that starts at the first.
proof fn lemma_boundary_in_suffix(b: Seq<u8>, v: int, i: int)
    requires
        valid_utf8(b),
        0 <= v <= i <= b.len(),
        is_char_boundary(b, v),
        is_char_boundary(b, i),
    ensures
        valid_utf8(b.subrange(v, b.len() as int)),
        is_char_boundary(b.subrange(v, b.len() as int), i - v),
{
    let t = b.subrange(v, b.len() as int);
    valid_utf8_split(b, v);
    if i == b.len() {
        is_char_boundary_start_end_of_seq(t);
        assert(t.len() == i - v);
    } else {
        is_char_boundary_iff_not_is_continuation_byte(b, i);
        is_char_boundary_iff_not_is_continuation_byte(t, i - v);
        assert(t[i - v] == b[i]);
    }
}

/// The bytes `start..end` of `s`, as a string of their own.
fn substring(s: &str, start: usize, end: usize) -> (r: String)
    requires
        start <= end <= utf8(s@).len(),
        is_char_boundary(utf8(s@), start as int),
        is_char_boundary(utf8(s@), end as int),
    ensures
        utf8(r@) == utf8(s@).subrange(start as int, end as int),
{
    let ghost b = utf8(s@);
    proof {
        encode_utf8_valid_utf8(s@);
        lemma_boundary_in_suffix(b, start as int, end as int);
    }
    let (_, tail) = s.split_at(start);
    let (mid, _) = tail.split_at(end - start);
    proof {
        assert(utf8(mid@) =~= b.subrange(start as int, end as int));
    }
    mid.to_owned()
}

impl InternedString {
    /// The text held.
    pub open spec fn view(&self) -> Seq<char> {
        match self {
            InternedString::String(a) => a@,
            InternedString::Str(a) => a@,
        }
    }

    pub open spec fn is_owned(&self) -> bool {
        self is String
    }

    /// Makes the text owned, keeping it.
    pub fn own(&mut self)
        ensures
            final(self).view() == old(self).view(),
            final(self).is_owned(),
    {
        match self {
            InternedString::Str(a) => {
                let mut b = String::new();
                b.append(a.as_str());
                *self = InternedString::String(b);
            },
            _ => {},
        }
    }

    pub fn as_str(&self) -> (r: &str)
        ensures
            r@ == self.view(),
    {
        match self {
            InternedString::String(a) => a.as_str(),
            InternedString::Str(a) => a.as_str(),
        }
    }

    /// A copy of the text.
    pub fn as_zstr(&self) -> (r: String)
        ensures
            r@ == self.view(),
    {
        match self {
            InternedString::String(a) => String::from_str(a.as_str()),
            InternedString::Str(a) => a.clone(),
        }
    }

    /// Appends `value`; the text becomes owned.
    pub fn push(&mut self, value: &str)
        ensures
            final(self).view() == old(self).view() + value@,
            final(self).is_owned(),
    {
        match self {
            InternedString::String(a) => {
                a.append(value);
            },
            InternedString::Str(a) => {
                let mut b = String::from_str(a.as_str());
                b.append(value);
                *self = InternedString::String(b);
            },
        }
    }

    /// Removes and gives the last character; the text becomes owned.
    pub fn pop(&mut self) -> (r: Option<char>)
        ensures
            final(self).is_owned(),
            old(self).view().len() == 0 ==> r is None && final(self).view() == old(self).view(),
            old(self).view().len() > 0 ==> r == Some(old(self).view().last()) && final(self).view()
                == old(self).view().drop_last(),
    {
        match self {
            InternedString::String(a) => string_pop(a),
            InternedString::Str(a) => {
                let mut b = String::from_str(a.as_str());
                let c = string_pop(&mut b);
                *self = InternedString::String(b);
                c
            },
        }
    }

    /// The length of the text in UTF-8 bytes.
    pub fn len(&self) -> (n: usize)
        ensures
            n == utf8(self.view()).len(),
    {
        match self {
            InternedString::String(a) => a.as_str().as_bytes().len(),
            InternedString::Str(a) => a.as_str().as_bytes().len(),
        }
    }

    /// Replaces the bytes `index.start..index.end` by `val` when both ends
    /// lie on character boundaries inside the text; when only the start
    /// does, replaces from the start to the end of the text; otherwise
    /// changes nothing. The text becomes owned.
    pub fn set(&mut self, index: std::ops::Range<usize>, val: &str)
        requires
            ({
                let b = utf8(old(self).view());
                !(index.start < b.len() && is_char_boundary(b, index.start as int) && index.end
                    < b.len() && is_char_boundary(b, index.end as int) && index.start > index.end)
            }),
        ensures
            final(self).is_owned(),
            ({
                let b = utf8(old(self).view());
                let s = index.start as int;
                let e = index.end as int;
                if s < b.len() && is_char_boundary(b, s) {
                    if e < b.len() && is_char_boundary(b, e) {
                        utf8(final(self).view()) == b.subrange(0, s) + utf8(val@) + b.subrange(
                            e,
                            b.len() as int,
                        )
                    } else {
                        utf8(final(self).view()) == b.subrange(0, s) + utf8(val@)
                    }
                } else {
                    final(self).view() == old(self).view()
                }
            }),
    {
        self.own();
        match self {
            InternedString::String(a) => {
                let len = a.as_str().as_bytes().len();
                if index.start < len && a.as_str().is_char_boundary(index.start) {
                    if index.end < len && a.as_str().is_char_boundary(index.end) {
                        string_replace_range(a, index.start, index.end, val);
                    } else {
                        proof {
                            encode_utf8_valid_utf8(a@);
                            is_char_boundary_start_end_of_seq(utf8(a@));
                        }
                        string_replace_range(a, index.start, len, val);
                        proof {
                            let b = utf8(old(self).view());
                            assert(b.subrange(len as int, len as int) =~= Seq::<u8>::empty());
                            assert(b.subrange(0, index.start as int) + utf8(val@) + Seq::<
                                u8,
                            >::empty() =~= b.subrange(0, index.start as int) + utf8(val@));
                        }
                    }
                }
            },
            InternedString::Str(_) => {},
        }
    }
}

impl InternedString {
    /// Reads at `key`: at an index, the one-byte character that starts
    /// there, if the index and the byte after it are both character
    /// boundaries of the text; over a range that starts inside the text,
    /// the bytes up to the end of the range, or to the end of the text when
    /// the range ends beyond it; otherwise nothing.
    pub fn get(&self, key: SetIndexValue) -> (r: Option<String>)
        requires
            ({
                let b = utf8(self.view());
                key matches SetIndexValue::Range(s, e) ==> (s < b.len() ==> {
                    &&& is_char_boundary(b, s as int)
                    &&& e < b.len() ==> s <= e && is_char_boundary(b, e as int)
                })
            }),
        ensures
            ({
                let b = utf8(self.view());
                match numeric(key) {
                    None => r is None,
                    Some(SetIndexValue::Val(_)) => false,
                    Some(SetIndexValue::Index(v)) => if v < b.len() && is_char_boundary(b, v as int)
                        && is_char_boundary(b, v + 1) {
                        (r matches Some(t) && utf8(t@) == b.subrange(v as int, v + 1))
                    } else {
                        r is None
                    },
                    Some(SetIndexValue::Range(s, e)) => if s < b.len() {
                        (r matches Some(t) && utf8(t@) == b.subrange(
                            s as int,
                            if e < b.len() {
                                e as int
                            } else {
                                b.len() as int
                            },
                        ))
                    } else {
                        r is None
                    },
                }
            }),
    {
        let key = match plain_key(key) {
            Some(k) => k,
            None => return None,
        };
        let a = self.as_str();
        let len = a.as_bytes().len();
        proof {
            encode_utf8_valid_utf8(a@);
            is_char_boundary_start_end_of_seq(utf8(a@));
        }
        match key {
            SetIndexValue::Val(_) => None,
            SetIndexValue::Index(v) => {
                if v < len && a.is_char_boundary(v) && a.is_char_boundary(v + 1) {
                    Some(substring(a, v, v + 1))
                } else {
                    None
                }
            },
            SetIndexValue::Range(r, v) => {
                if r < len {
                    if v < len {
                        Some(substring(a, r, v))
                    } else {
                        Some(substring(a, r, len))
                    }
                } else {
                    None
                }
            },
        }
    }

    /// Removes at `key`; the text becomes owned. At an index that is a
    /// character boundary inside the text, takes out the character there
    /// and gives its code; over a range that starts on a character boundary
    /// inside the text, cuts the bytes up to its end (or to the end of the
    /// text, when the end is not a boundary inside it) and gives `true`;
    /// otherwise changes nothing and gives `false`.
    pub fn remove(&mut self, key: SetIndexValue) -> (r: Option<Removed>)
        requires
            ({
                let b = utf8(old(self).view());
                key matches SetIndexValue::Range(s, e) ==> (s < b.len() && is_char_boundary(
                    b,
                    s as int,
                ) && e < b.len() && is_char_boundary(b, e as int) ==> s <= e)
            }),
        ensures
            final(self).is_owned(),
            ({
                let b = utf8(old(self).view());
                let nb = utf8(final(self).view());
                match numeric(key) {
                    None => r is None && final(self).view() == old(self).view(),
                    Some(SetIndexValue::Val(_)) => false,
                    Some(SetIndexValue::Index(x)) => if x < b.len() && is_char_boundary(b, x as int) {
                        r matches Some(Removed::Char(code)) && {
                            let w = utf8(seq![code as char]).len();
                            &&& (code as char) as u32 == code
                            &&& x + w <= b.len()
                            &&& b.subrange(x as int, x + w) == utf8(seq![code as char])
                            &&& nb == b.subrange(0, x as int) + b.subrange(x + w, b.len() as int)
                        }
                    } else {
                        r == Some(Removed::Flag(false)) && final(self).view() == old(self).view()
                    },
                    Some(SetIndexValue::Range(s, e)) => if s < b.len() && is_char_boundary(b, s as int) {
                        &&& r == Some(Removed::Flag(true))
                        &&& e < b.len() && is_char_boundary(b, e as int) ==> nb == b.subrange(
                            0,
                            s as int,
                        ) + b.subrange(e as int, b.len() as int)
                        &&& !(e < b.len() && is_char_boundary(b, e as int)) ==> nb == b.subrange(
                            0,
                            s as int,
                        )
                    } else {
                        r == Some(Removed::Flag(false)) && final(self).view() == old(self).view()
                    },
                }
            }),
    {
        self.own();
        let key = match plain_key(key) {
            Some(k) => k,
            None => return None,
        };
        match self {
            InternedString::String(a) => {
                let len = a.as_str().as_bytes().len();
                proof {
                    encode_utf8_valid_utf8(a@);
                    is_char_boundary_start_end_of_seq(utf8(a@));
                }
                match key {
                    SetIndexValue::Val(_) => None,
                    SetIndexValue::Index(x) => {
                        if a.as_str().is_char_boundary(x) && x < len {
                            let c = string_remove(a, x);
                            proof {
                                vstd::utf8::char_u32_cast(c, c as u32);
                            }
                            Some(Removed::Char(c as u32))
                        } else {
                            Some(Removed::Flag(false))
                        }
                    },
                    SetIndexValue::Range(r, v) => {
                        if a.as_str().is_char_boundary(r) && r < len {
                            if a.as_str().is_char_boundary(v) && v < len {
                                string_replace_range(a, r, v, "");
                                proof {
                                    reveal_strlit("");
                                    assert(utf8(""@) =~= Seq::<u8>::empty());
                                }
                            } else {
                                string_replace_range(a, r, len, "");
                                proof {
                                    reveal_strlit("");
                                    assert(utf8(""@) =~= Seq::<u8>::empty());
                                }
                            }
                            Some(Removed::Flag(true))
                        } else {
                            Some(Removed::Flag(false))
                        }
                    },
                }
            },
            InternedString::Str(_) => None,
        }
    }
}

/// The items of a vector object: values, or bytes.
#[derive(Debug, Clone)]
pub enum InternedVector<V> {
    Vector(Vec<V>),
    ByteVector(Vec<u8>),
}

/// An item taken out of a vector: a value, a byte, or nothing.
#[derive(Debug, Clone, PartialEq, Eq)]
pub enum VectorItem<V> {
    Item(V),
    Byte(u8),
    Null,
}

/// What reading a vector gives: one value or a run of values of a value
/// vector, one byte or a run of bytes of a byte vector.
#[derive(Debug, PartialEq, Eq)]
pub enum VectorPart<'a, V> {
    Item(&'a V),
    Items(&'a [V]),
    Byte(u8),
    Bytes(&'a [u8]),
}

/// A value as a byte vector takes it: bytes, a text, a number already
/// brought down to its byte, null, a character, a truth value, or an
/// object by the bytes that it gives of itself.
#[derive(Debug, Clone, PartialEq, Eq)]
pub enum ByteSource {
    Bytes(Vec<u8>),
    Text(String),
    Num(u8),
    Null,
    Char(char),
    Bool(bool),
    Object(Vec<u8>),
}

/// The bytes that pushing a value adds to a byte vector: bytes and an
/// object's bytes as they are, a text by its UTF-8 bytes, a number by its
/// byte, null as 0, a character as `push_bytechar` writes it, true as 1 and
/// false as 0.
pub open spec fn source_bytes(f: ByteSource) -> Seq<u8> {
    match f {
        ByteSource::Bytes(b) => b@,
        ByteSource::Text(t) => utf8(t@),
        ByteSource::Num(x) => seq![x],
        ByteSource::Null => seq![0u8],
        ByteSource::Char(c) => char_bytes(c),
        ByteSource::Bool(b) => seq![if b { 1u8 } else { 0u8 }],
        ByteSource::Object(b) => b@,
    }
}

/// The byte that writing a value into a byte vector stores: a number's
/// byte, 0 for null; other values store nothing.
pub open spec fn source_byte(f: ByteSource) -> Option<u8> {
    match f {
        ByteSource::Num(x) => Some(x),
        ByteSource::Null => Some(0u8),
        _ => None,
    }
}

/// What is left of `s` after cutting at `key`: at an index inside, that
/// item goes; over a range that starts inside, the items between its two
/// ends go (whichever end comes first), or all from its start on when its
/// end lies beyond the items; otherwise nothing goes.
pub open spec fn cut_at<T>(s: Seq<T>, key: SetIndexValue) -> Seq<T> {
    match key {
        SetIndexValue::Val(None) => s,
        SetIndexValue::Index(x) | SetIndexValue::Val(Some(x)) => if x < s.len() {
            s.remove(x as int)
        } else {
            s
        },
        SetIndexValue::Range(r, v) => if r < s.len() {
            if v < s.len() {
                if r > v {
                    s.subrange(0, v as int) + s.subrange(r as int, s.len() as int)
                } else {
                    s.subrange(0, r as int) + s.subrange(v as int, s.len() as int)
                }
            } else {
                s.subrange(0, r as int)
            }
        } else {
            s
        },
    }
}

/// The item that removing at `key` takes out of `s`, if any.
pub open spec fn taken_at<T>(s: Seq<T>, key: SetIndexValue) -> Option<T> {
    match key {
        SetIndexValue::Index(x) | SetIndexValue::Val(Some(x)) => if x < s.len() {
            Some(s[x as int])
        } else {
            None
        },
        SetIndexValue::Range(_, _) | SetIndexValue::Val(None) => None,
    }
}

/// What removing at a key leaves: an index inside the items takes out that
/// one item (the ones after it move down by one) and gives it; a range
/// `r..v` whose ends lie inside the items takes out the items between the
/// smaller end and the larger, whichever order the ends come in, keeping
/// all others in order; a range that starts inside and ends beyond keeps
/// the items before its start; anything starting beyond the items keeps
/// them all.
pub proof fn lemma_remove_keeps_the_rest<T>(s: Seq<T>, x: usize, r: usize, v: usize)
    ensures
        x < s.len() ==> {
            let t = cut_at(s, SetIndexValue::Index(x));
            &&& t.len() == s.len() - 1
            &&& taken_at(s, SetIndexValue::Index(x)) == Some(s[x as int])
            &&& forall|j: int| 0 <= j < x ==> t[j] == s[j]
            &&& forall|j: int| x <= j < t.len() ==> t[j] == s[j + 1]
        },
        x >= s.len() ==> cut_at(s, SetIndexValue::Index(x)) == s && taken_at(s, SetIndexValue::Index(x)) is None,
        r <= v < s.len() ==> {
            let t = cut_at(s, SetIndexValue::Range(r, v));
            &&& t.len() == s.len() - (v - r)
            &&& forall|j: int| 0 <= j < r ==> t[j] == s[j]
            &&& forall|j: int| r <= j < t.len() ==> t[j] == s[j + (v - r)]
        },
        v < r < s.len() ==> {
            let t = cut_at(s, SetIndexValue::Range(r, v));
            &&& t.len() == s.len() - (r - v)
            &&& forall|j: int| 0 <= j < v ==> t[j] == s[j]
            &&& forall|j: int| v <= j < t.len() ==> t[j] == s[j + (r - v)]
        },
        r < s.len() <= v ==> {
            let t = cut_at(s, SetIndexValue::Range(r, v));
            &&& t.len() == r
            &&& forall|j: int| 0 <= j < r ==> t[j] == s[j]
        },
        r >= s.len() ==> cut_at(s, SetIndexValue::Range(r, v)) == s,
        cut_at(s, SetIndexValue::Val(None)) == s,
        taken_at(s, SetIndexValue::Range(r, v)) is None,
{
}

/// The end of a read over a range that starts inside `len` items: the
/// range's own end, or `len` when the end lies beyond the items.
pub open spec fn range_end(v: usize, len: nat) -> int {
    if v < len {
        v as int
    } else {
        len as int
    }
}

/// Drops the items `lo..hi` of `a`.
fn cut<T>(a: &mut Vec<T>, lo: usize, hi: usize)
    requires
        lo <= hi <= old(a).len(),
    ensures
        final(a)@ == old(a)@.subrange(0, lo as int) + old(a)@.subrange(hi as int, old(a).len() as int),
{
    let mut tail = a.split_off(hi);
    a.truncate(lo);
    a.append(&mut tail);
}

/// The items `lo..hi` of `a`.
fn part<T>(a: &[T], lo: usize, hi: usize) -> (r: &[T])
    requires
        lo <= hi <= a@.len(),
    ensures
        r@ == a@.subrange(lo as int, hi as int),
{
    let (_, tail) = a.split_at(lo);
    let (mid, _) = tail.split_at(hi - lo);
    assert(mid@ =~= a@.subrange(lo as int, hi as int));
    mid
}

impl<V> InternedVector<V> {
    /// The number of items.
    pub open spec fn spec_len(&self) -> nat {
        match self {
            InternedVector::Vector(a) => a@.len(),
            InternedVector::ByteVector(a) => a@.len(),
        }
    }

    pub fn len(&self) -> (n: usize)
        ensures
            n == self.spec_len(),
    {
        match self {
            InternedVector::Vector(a) => a.len(),
            InternedVector::ByteVector(a) => a.len(),
        }
    }

    /// Takes out the last item, if there is one.
    pub fn pop(&mut self) -> (r: Option<VectorItem<V>>)
        ensures
            match (*old(self), *final(self)) {
                (InternedVector::Vector(a), InternedVector::Vector(b)) => if a@.len() == 0 {
                    r is None && b@ == a@
                } else {
                    r == Some(VectorItem::Item(a@.last())) && b@ == a@.drop_last()
                },
                (InternedVector::ByteVector(a), InternedVector::ByteVector(b)) => if a@.len() == 0 {
                    r is None && b@ == a@
                } else {
                    r == Some(VectorItem::<V>::Byte(a@.last())) && b@ == a@.drop_last()
                },
                _ => false,
            },
    {
        match self {
            InternedVector::Vector(a) => match a.pop() {
                Some(x) => Some(VectorItem::Item(x)),
                None => None,
            },
            InternedVector::ByteVector(a) => match a.pop() {
                Some(x) => Some(VectorItem::Byte(x)),
                None => None,
            },
        }
    }

    /// Reads at `key`: at an index inside, that item; over a range that
    /// starts inside, the items up to its end (or to the last one, when the
    /// end lies beyond them); otherwise nothing.
    pub fn get(&self, key: SetIndexValue) -> (r: Option<VectorPart<'_, V>>)
        requires
            key matches SetIndexValue::Range(s, e) ==> (s < self.spec_len() && e < self.spec_len()
                ==> s <= e),
        ensures
            match (self, numeric(key)) {
                (_, None) => r is None,
                (_, Some(SetIndexValue::Val(_))) => false,
                (InternedVector::Vector(a), Some(SetIndexValue::Index(v))) => if v < a@.len() {
                    (r matches Some(VectorPart::Item(x)) && *x == a@[v as int])
                } else {
                    r is None
                },
                (InternedVector::Vector(a), Some(SetIndexValue::Range(s, e))) => if s < a@.len() {
                    (r matches Some(VectorPart::Items(x)) && x@ == a@.subrange(
                        s as int,
                        range_end(e, a@.len()),
                    ))
                } else {
                    r is None
                },
                (InternedVector::ByteVector(a), Some(SetIndexValue::Index(v))) => if v < a@.len() {
                    r == Some(VectorPart::<V>::Byte(a@[v as int]))
                } else {
                    r is None
                },
                (InternedVector::ByteVector(a), Some(SetIndexValue::Range(s, e))) => if s < a@.len() {
                    (r matches Some(VectorPart::Bytes(x)) && x@ == a@.subrange(
                        s as int,
                        range_end(e, a@.len()),
                    ))
                } else {
                    r is None
                },
            },
    {
        let key = match plain_key(key) {
            Some(k) => k,
            None => return None,
        };
        match self {
            InternedVector::Vector(a) => match key {
                SetIndexValue::Val(_) => None,
                SetIndexValue::Index(v) => {
                    if v < a.len() {
                        Some(VectorPart::Item(&a[v]))
                    } else {
                        None
                    }
                },
                SetIndexValue::Range(s, e) => {
                    let len = a.len();
                    if s < len {
                        if e < len {
                            Some(VectorPart::Items(part(a.as_slice(), s, e)))
                        } else {
                            Some(VectorPart::Items(part(a.as_slice(), s, len)))
                        }
                    } else {
                        None
                    }
                },
            },
            InternedVector::ByteVector(a) => match key {
                SetIndexValue::Val(_) => None,
                SetIndexValue::Index(v) => {
                    if v < a.len() {
                        Some(VectorPart::Byte(a[v]))
                    } else {
                        None
                    }
                },
                SetIndexValue::Range(s, e) => {
                    let len = a.len();
                    if s < len {
                        if e < len {
                            Some(VectorPart::Bytes(part(a.as_slice(), s, e)))
                        } else {
                            Some(VectorPart::Bytes(part(a.as_slice(), s, len)))
                        }
                    } else {
                        None
                    }
                },
            },
        }
    }

    /// Removes at `key` (see `cut_at`): at an index inside, gives the item
    /// taken out; at a value key that is not a number, gives nothing and
    /// changes nothing; otherwise gives `Null`.
    pub fn remove(&mut self, key: SetIndexValue) -> (r: Option<VectorItem<V>>)
        ensures
            numeric(key) is None <==> r is None,
            match (*old(self), *final(self)) {
                (InternedVector::Vector(a), InternedVector::Vector(b)) => {
                    &&& b@ == cut_at(a@, key)
                    &&& numeric(key) is Some ==> r == Some(match taken_at(a@, key) {
                        Some(x) => VectorItem::Item(x),
                        None => VectorItem::Null,
                    })
                },
                (InternedVector::ByteVector(a), InternedVector::ByteVector(b)) => {
                    &&& b@ == cut_at(a@, key)
                    &&& numeric(key) is Some ==> r == Some(match taken_at(a@, key) {
                        Some(x) => VectorItem::<V>::Byte(x),
                        None => VectorItem::Null,
                    })
                },
                _ => false,
            },
    {
        let key = match plain_key(key) {
            Some(k) => k,
            None => return None,
        };
        match self {
            InternedVector::Vector(a) => {
                let len = a.len();
                match key {
                    SetIndexValue::Val(_) => None,
                    SetIndexValue::Index(x) => {
                        if x < len {
                            Some(VectorItem::Item(a.remove(x)))
                        } else {
                            Some(VectorItem::Null)
                        }
                    },
                    SetIndexValue::Range(r, v) => {
                        if r < len {
                            if v < len {
                                if r > v {
                                    cut(a, v, r);
                                } else {
                                    cut(a, r, v);
                                }
                            } else {
                                cut(a, r, len);
                            }
                        }
                        Some(VectorItem::Null)
                    },
                }
            },
            InternedVector::ByteVector(a) => {
                let len = a.len();
                match key {
                    SetIndexValue::Val(_) => None,
                    SetIndexValue::Index(x) => {
                        if x < len {
                            Some(VectorItem::Byte(a.remove(x)))
                        } else {
                            Some(VectorItem::Null)
                        }
                    },
                    SetIndexValue::Range(r, v) => {
                        if r < len {
                            if v < len {
                                if r > v {
                                    cut(a, v, r);
                                } else {
                                    cut(a, r, v);
                                }
                            } else {
                                cut(a, r, len);
                            }
                        }
                        Some(VectorItem::Null)
                    },
                }
            },
        }
    }

    /// Appends a value: a value vector takes `value` itself; a byte vector
    /// takes the bytes of `source`, the same value as bytes see it (see
    /// `source_bytes`). It always succeeds.
    pub fn push(&mut self, value: V, source: ByteSource) -> (r: Result<(), Error>)
        ensures
            r is Ok,
            match (*old(self), *final(self)) {
                (InternedVector::Vector(a), InternedVector::Vector(b)) => b@ == a@.push(value),
                (InternedVector::ByteVector(a), InternedVector::ByteVector(b)) => b@ == a@
                    + source_bytes(source),
                _ => false,
            },
    {
        match self {
            InternedVector::Vector(a) => {
                a.push(value);
            },
            InternedVector::ByteVector(a) => {
                match source {
                    ByteSource::Bytes(b) => {
                        let mut b = b;
                        a.append(&mut b);
                    },
                    ByteSource::Object(b) => {
                        let mut b = b;
                        a.append(&mut b);
                    },
                    ByteSource::Text(t) => {
                        let bs = t.as_str().as_bytes();
                        let ghost start = a@;
                        let mut i: usize = 0;
                        while i < bs.len()
                            invariant
                                i <= bs@.len(),
                                a@ == start + bs@.subrange(0, i as int),
                            decreases bs@.len() - i,
                        {
                            a.push(bs[i]);
                            i = i + 1;
                            proof {
                                assert(bs@.subrange(0, i as int) =~= bs@.subrange(0, i - 1).push(
                                    bs@[i - 1],
                                ));
                            }
                        }
                        proof {
                            assert(bs@.subrange(0, i as int) =~= bs@);
                        }
                    },
                    ByteSource::Num(x) => a.push(x),
                    ByteSource::Null => a.push(0),
                    ByteSource::Char(c) => push_bytechar(a, c),
                    ByteSource::Bool(b) => a.push(if b { 1 } else { 0 }),
                }
            },
        }
        Ok(())
    }

    /// Writes at `index`, when it lies inside: a value vector takes `val`;
    /// a byte vector takes the byte that `source`, the same value as bytes
    /// see it, stands for (see `source_byte`), and is left as it is when it
    /// stands for none.
    pub fn set(&mut self, index: usize, val: V, source: ByteSource)
        ensures
            match (*old(self), *final(self)) {
                (InternedVector::Vector(a), InternedVector::Vector(b)) => b@ == if index < a@.len() {
                    a@.update(index as int, val)
                } else {
                    a@
                },
                (InternedVector::ByteVector(a), InternedVector::ByteVector(b)) => b@ == if index
                    < a@.len() && source_byte(source) is Some {
                    a@.update(index as int, source_byte(source)->0)
                } else {
                    a@
                },
                _ => false,
            },
    {
        match self {
            InternedVector::Vector(a) => {
                if index < a.len() {
                    a.set(index, val);
                }
            },
            InternedVector::ByteVector(a) => {
                if index < a.len() {
                    match source {
                        ByteSource::Num(m) => a.set(index, m),
                        ByteSource::Null => a.set(index, 0),
                        _ => {},
                    }
                }
            },
        }
    }
}

/// What a value adds to a byte vector: a number its one byte, null a zero
/// byte, true a one and false a zero, a text its UTF-8 bytes, bytes and an
/// object's bytes themselves; writing into a byte vector stores a number's
/// byte or zero for null, and nothing for the others. A numeric value key
/// reads as the index it holds, a key that is no number reads as nothing,
/// and indices and ranges read as themselves. A read over a range that
/// starts inside `len` items ends at its own end when that lies inside,
/// and at `len` otherwise.
pub proof fn lemma_keys_and_bytes_mean_what_they_hold(
    x: u8,
    t: String,
    b: Vec<u8>,
    i: usize,
    j: usize,
    len: nat,
)
    ensures
        source_bytes(ByteSource::Num(x)) == seq![x],
        source_bytes(ByteSource::Null) == seq![0u8],
        source_bytes(ByteSource::Bool(true)) == seq![1u8],
        source_bytes(ByteSource::Bool(false)) == seq![0u8],
        source_bytes(ByteSource::Text(t)) == utf8(t@),
        source_bytes(ByteSource::Bytes(b)) == b@,
        source_bytes(ByteSource::Object(b)) == b@,
        source_byte(ByteSource::Num(x)) == Some(x),
        source_byte(ByteSource::Null) == Some(0u8),
        source_byte(ByteSource::Text(t)) is None,
        source_byte(ByteSource::Bool(true)) is None,
        source_byte(ByteSource::Bytes(b)) is None,
        numeric(SetIndexValue::Val(Some(i))) == Some(SetIndexValue::Index(i)),
        numeric(SetIndexValue::Val(None)) is None,
        numeric(SetIndexValue::Index(i)) == Some(SetIndexValue::Index(i)),
        numeric(SetIndexValue::Range(i, j)) == Some(SetIndexValue::Range(i, j)),
        j < len ==> range_end(j, len) == j,
        j >= len ==> range_end(j, len) == len,
{
}

/// Popping right after pushing a non-empty text gives the last character
/// pushed, and leaves the text followed by the rest of what was pushed.
pub proof fn lemma_push_then_pop(text: Seq<char>, pushed: Seq<char>)
    requires
        pushed.len() > 0,
    ensures
        (text + pushed).len() > 0,
        (text + pushed).last() == pushed.last(),
        (text + pushed).drop_last() == text + pushed.drop_last(),
{
    assert((text + pushed).drop_last() =~= text + pushed.drop_last());
}

/// The bytes written over a range are read back from where they start.
pub proof fn lemma_read_back_written(b: Seq<u8>, start: int, end: int, w: Seq<u8>)
    requires
        0 <= start <= end <= b.len(),
    ensures
        (b.subrange(0, start) + w + b.subrange(end, b.len() as int)).subrange(
            start,
            start + w.len(),
        ) == w,
{
    assert((b.subrange(0, start) + w + b.subrange(end, b.len() as int)).subrange(
        start,
        start + w.len(),
    ) =~= w);
}

/// An item written inside a vector is the one read back at its index.
pub proof fn lemma_vector_set_then_get<T>(items: Seq<T>, index: int, val: T)
    requires
        0 <= index < items.len(),
    ensures
        items.update(index, val)[index] == val,
        items.update(index, val).len() == items.len(),
{
}

/// Removing the item at an index inside a vector shortens it by one and
/// moves every later item one place down.
pub proof fn lemma_remove_index_shifts<T>(items: Seq<T>, x: usize)
    requires
        x < items.len(),
    ensures
        cut_at(items, SetIndexValue::Index(x)).len() == items.len() - 1,
        forall|i: int|
            0 <= i < items.len() - 1 ==> #[trigger] cut_at(items, SetIndexValue::Index(x))[i]
                == if i < x {
                items[i]
            } else {
                items[i + 1]
            },
{
}

/// The pieces, with `sep` between each two.
pub open spec fn joined(pieces: Seq<Seq<char>>, sep: Seq<char>) -> Seq<char>
    decreases pieces.len(),
{
    if pieces.len() == 0 {
        seq![]
    } else if pieces.len() == 1 {
        pieces[0]
    } else {
        joined(pieces.drop_last(), sep) + sep + pieces.last()
    }
}

/// The texts of the strings.
pub open spec fn texts(v: Seq<String>) -> Seq<Seq<char>> {
    v.map_values(|s: String| s@)
}

/// The texts of the entries, each key before its value with `": "`
/// between them.
pub open spec fn entry_texts(v: Seq<(String, String)>) -> Seq<Seq<char>> {
    v.map_values(|e: (String, String)| e.0@ + ": "@ + e.1@)
}

/// How a vector object prints: the texts of its items, parted by `", "`,
/// between brackets.
pub fn listing(pieces: &Vec<String>) -> (r: String)
    ensures
        r@ == seq!['['] + joined(texts(pieces@), ", "@) + seq![']'],
{
    let mut out = String::from_str("[");
    proof {
        reveal_strlit("[");
        assert(texts(pieces@).take(0) =~= seq![]);
        assert(out@ =~= seq!['['] + joined(texts(pieces@).take(0), ", "@));
    }
    let mut i: usize = 0;
    while i < pieces.len()
        invariant
            i <= pieces@.len(),
            out@ == seq!['['] + joined(texts(pieces@).take(i as int), ", "@),
        decreases pieces@.len() - i,
    {
        let ghost t = texts(pieces@);
        if i > 0 {
            out.append(", ");
        }
        out.append(pieces[i].as_str());
        proof {
            assert(t.take(i + 1).drop_last() =~= t.take(i as int));
            assert(t.take(i + 1).last() == pieces@[i as int]@);
            if i == 0 {
                assert(joined(t.take(1), ", "@) == t[0]);
            }
            assert(out@ =~= seq!['['] + joined(t.take(i + 1), ", "@));
        }
        i = i + 1;
    }
    assert(texts(pieces@).take(i as int) =~= texts(pieces@));
    push_char(&mut out, ']');
    out
}

/// How a map object prints: each key and its value parted by `": "`, the
/// entries parted by `", "`, between brackets.
pub fn map_listing(entries: &Vec<(String, String)>) -> (r: String)
    ensures
        r@ == seq!['['] + joined(entry_texts(entries@), ", "@) + seq![']'],
{
    let mut out = String::from_str("[");
    proof {
        reveal_strlit("[");
        assert(entry_texts(entries@).take(0) =~= seq![]);
        assert(out@ =~= seq!['['] + joined(entry_texts(entries@).take(0), ", "@));
    }
    let mut i: usize = 0;
    while i < entries.len()
        invariant
            i <= entries@.len(),
            out@ == seq!['['] + joined(entry_texts(entries@).take(i as int), ", "@),
        decreases entries@.len() - i,
    {
        let ghost t = entry_texts(entries@);
        if i > 0 {
            out.append(", ");
        }
        out.append(entries[i].0.as_str());
        out.append(": ");
        out.append(entries[i].1.as_str());
        proof {
            assert(t.take(i + 1).drop_last() =~= t.take(i as int));
            assert(t.take(i + 1).last() == entries@[i as int].0@ + ": "@ + entries@[i as int].1@);
            if i == 0 {
                assert(joined(t.take(1), ", "@) == t[0]);
            }
            assert(out@ =~= seq!['['] + joined(t.take(i + 1), ", "@));
        }
        i = i + 1;
    }
    assert(entry_texts(entries@).take(i as int) =~= entry_texts(entries@));
    push_char(&mut out, ']');
    out
}

/// Each text followed by `sep`, one after the other.
pub open spec fn glued(ts: Seq<Seq<char>>, sep: Seq<char>) -> Seq<char>
    decreases ts.len(),
{
    if ts.len() == 0 {
        seq![]
    } else {
        glued(ts.drop_last(), sep) + ts.last() + sep
    }
}

impl InternedString {
    /// Joins the texts that `text` gives of the items, with this text as
    /// the separator: each item but the last two is followed by the
    /// separator, then comes the last item (the last but one is left out,
    /// and `text` is not called on it). Fewer than two items give the
    /// separator itself.
    pub fn join<T, F: Fn(&T) -> String>(&self, items: &Vec<T>, text: F) -> (r: String)
        requires
            forall|i: int| 0 <= i < items@.len() ==> call_requires(text, (&items@[i],)),
        ensures
            items@.len() <= 1 ==> r@ == self.view(),
            items@.len() >= 2 ==> exists|ts: Seq<String>|
                {
                    &&& ts.len() == items@.len()
                    &&& forall|i: int|
                        0 <= i < items@.len() && i != items@.len() - 2 ==> call_ensures(
                            text,
                            (&items@[i],),
                            #[trigger] ts[i],
                        )
                    &&& r@ == glued(texts(ts).take(items@.len() - 2), self.view()) + ts[items@.len()
                        - 1]@
                },
    {
        let sep = self.as_str();
        let n = items.len();
        if n <= 1 {
            return self.as_zstr();
        }
        let mut out = String::new();
        let ghost mut ts: Seq<String> = Seq::empty();
        let mut i: usize = 0;
        while i < n - 2
            invariant
                n == items@.len(),
                n >= 2,
                i <= n - 2,
                sep@ == self.view(),
                forall|k: int| 0 <= k < n ==> call_requires(text, (&items@[k],)),
                ts.len() == i,
                forall|k: int| 0 <= k < i ==> call_ensures(text, (&items@[k],), #[trigger] ts[k]),
                out@ == glued(texts(ts), sep@),
            decreases n - 2 - i,
        {
            let t = text(&items[i]);
            out.append(t.as_str());
            out.append(sep);
            proof {
                let ts2 = ts.push(t);
                assert(texts(ts2).drop_last() =~= texts(ts));
                assert(texts(ts2).last() == t@);
                ts = ts2;
            }
            i = i + 1;
        }
        let last = text(&items[n - 1]);
        out.append(last.as_str());
        proof {
            let whole = ts.push(last).push(last);
            assert(whole.take(n - 2) =~= ts);
            assert(texts(whole).take(n - 2) =~= texts(ts));
            assert(whole[n - 1] == last);
            assert forall|k: int| 0 <= k < n && k != n - 2 implies call_ensures(
                text,
                (&items@[k],),
                #[trigger] whole[k],
            ) by {
                if k < n - 2 {
                    assert(whole[k] == ts[k]);
                }
            }
        }
        out
    }
}

impl PartialEq for InternedString {
    fn eq(&self, other: &InternedString) -> (r: bool) {
        let a = self.as_zstr();
        let b = other.as_zstr();
        a == b
    }
}

impl vstd::std_specs::cmp::PartialEqSpecImpl for InternedString {
    open spec fn obeys_eq_spec() -> bool {
        true
    }

    open spec fn eq_spec(&self, other: &InternedString) -> bool {
        self.view() == other.view()
    }
}

impl From<String> for InternedString {
    fn from(s: String) -> (r: InternedString) {
        InternedString::Str(s)
    }
}

impl vstd::std_specs::convert::FromSpecImpl<String> for InternedString {
    open spec fn obeys_from_spec() -> bool {
        true
    }

    open spec fn from_spec(s: String) -> InternedString {
        InternedString::Str(s)
    }
}

} // verus!
