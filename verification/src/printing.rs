use vstd::prelude::*;
use vstd::string::StringExecFns;
use vstd::utf8::{decode_utf8, valid_utf8};
use crate::obj::{listing, map_listing, joined, texts, entry_texts};

verus! {

/// An item of a container as its printout sees it: a text, a byte string,
/// an object (by its identity), or any other value by its own text.
#[derive(Debug, Clone)]
pub enum Printed {
    Text(String),
    Bytes(Vec<u8>),
    Object(usize),
    Plain(String),
}

/// What stands for an item in a printout: a text, or the text that the
/// object's own `__str` method gives.
#[derive(Debug, PartialEq, Eq)]
pub enum Piece {
    Text(String),
    Describe(usize),
}

/// A piece as the specification sees it.
pub enum PieceView {
    Text(Seq<char>),
    Describe(usize),
}

impl Piece {
    pub open spec fn view(&self) -> PieceView {
        match self {
            Piece::Text(s) => PieceView::Text(s@),
            Piece::Describe(h) => PieceView::Describe(*h),
        }
    }
}

pub open spec fn piece_views(ps: Seq<Piece>) -> Seq<PieceView> {
    ps.map_values(|p: Piece| p.view())
}

/// The pieces of `items`, read from the first on, `seen` holding the
/// objects already being printed: a text stands for itself; a byte string
/// for the text it encodes, or nothing when it is not UTF-8; a value for
/// its own text; an object for its `__str` text the first time it comes,
/// and for nothing after that (so that an object that holds itself prints
/// once).
pub open spec fn printed_pieces(items: Seq<Printed>, seen: Seq<usize>) -> Seq<PieceView>
    decreases items.len(),
{
    if items.len() == 0 {
        Seq::empty()
    } else {
        let rest = items.drop_first();
        match items[0] {
            Printed::Text(s) => seq![PieceView::Text(s@)] + printed_pieces(rest, seen),
            Printed::Plain(s) => seq![PieceView::Text(s@)] + printed_pieces(rest, seen),
            Printed::Bytes(b) => seq![
                PieceView::Text(
                    if valid_utf8(b@) {
                        decode_utf8(b@)
                    } else {
                        Seq::empty()
                    },
                ),
            ] + printed_pieces(rest, seen),
            Printed::Object(h) => if seen.contains(h) {
                seq![PieceView::Text(Seq::empty())] + printed_pieces(rest, seen)
            } else {
                seq![PieceView::Describe(h)] + printed_pieces(rest, seen.push(h))
            },
        }
    }
}

/// One piece stands for each item.
proof fn lemma_one_piece_each(items: Seq<Printed>, seen: Seq<usize>)
    ensures
        printed_pieces(items, seen).len() == items.len(),
    decreases items.len(),
{
    if items.len() > 0 {
        lemma_one_piece_each(items.drop_first(), seen);
        if let Printed::Object(h) = items[0] {
            lemma_one_piece_each(items.drop_first(), seen.push(h));
        }
    }
}

/// A printout has one piece for each item, in order: a text stands for
/// itself, an object not yet being printed for its own description, and an
/// object already being printed (one that holds itself) for nothing, so
/// that printing ends. A string prints as its text, a vector as its items
/// between brackets parted by `, `, a map as its `key: value` entries the
/// same way, and anything else as `<file>`.
pub proof fn lemma_printouts(
    items: Seq<Printed>,
    seen: Seq<usize>,
    t: String,
    h: usize,
    x: String,
    y: String,
    v: Vec<String>,
    m: Vec<(String, String)>,
)
    ensures
        printed_pieces(items, seen).len() == items.len(),
        printed_pieces(seq![Printed::Text(t)] + items, seen)[0] == PieceView::Text(t@),
        printed_pieces(seq![Printed::Plain(t)] + items, seen)[0] == PieceView::Text(t@),
        !seen.contains(h) ==> printed_pieces(seq![Printed::Object(h)] + items, seen)[0] == PieceView::Describe(h),
        seen.contains(h) ==> printed_pieces(seq![Printed::Object(h)] + items, seen)[0] == PieceView::Text(Seq::empty()),
        printed_pieces(seq![Printed::Object(h), Printed::Object(h)], seen)[1] == PieceView::Text(Seq::<char>::empty()),
        contents_text(Contents::String(t)) == t@,
        contents_text(Contents::Other) == "<file>"@,
        v@ == seq![x, y] ==> contents_text(Contents::Vector(v)) == seq!['['] + x@ + ", "@ + y@ + seq![']'],
        m@ == seq![(x, y)] ==> contents_text(Contents::Entries(m)) == seq!['['] + x@ + ": "@ + y@ + seq![']'],
{
    lemma_one_piece_each(items, seen);
    reveal_with_fuel(printed_pieces, 3);
    assert((seq![Printed::Text(t)] + items).drop_first() =~= items);
    assert((seq![Printed::Plain(t)] + items).drop_first() =~= items);
    assert((seq![Printed::Object(h)] + items).drop_first() =~= items);
    let two = seq![Printed::Object(h), Printed::Object(h)];
    assert(two.drop_first() =~= seq![Printed::Object(h)]);
    assert(seq![Printed::Object(h)].drop_first() =~= Seq::<Printed>::empty());
    if !seen.contains(h) {
        assert(seen.push(h).contains(h)) by {
            assert(seen.push(h)[seen.len() as int] == h);
        }
    }
    if v@ == seq![x, y] {
        let ts = texts(v@);
        assert(ts =~= seq![x@, y@]);
        assert(ts.drop_last() =~= seq![x@]);
        reveal_with_fuel(joined, 2);
    }
    if m@ == seq![(x, y)] {
        assert(entry_texts(m@) =~= seq![x@ + ": "@ + y@]);
    }
}

/// The text that `b` encodes, if it is UTF-8 (`std::str::from_utf8`).
#[verifier::external_body]
fn text_of_bytes(b: &[u8]) -> (r: Option<String>)
    ensures
        match r {
            Some(s) => valid_utf8(b@) && s@ == decode_utf8(b@),
            None => !valid_utf8(b@),
        },
{
    match std::str::from_utf8(b) {
        Ok(s) => Some(s.to_string()),
        Err(_) => None,
    }
}

/// Whether `h` is among `v`.
fn holds(v: &Vec<usize>, h: usize) -> (r: bool)
    ensures
        r == v@.contains(h),
{
    let mut i: usize = 0;
    while i < v.len()
        invariant
            i <= v@.len(),
            forall|j: int| 0 <= j < i ==> v@[j] != h,
        decreases v@.len() - i,
    {
        if v[i] == h {
            assert(v@[i as int] == h);
            return true;
        }
        i = i + 1;
    }
    false
}

/// The pieces of the printout of the container `me` holding `items` (see
/// `printed_pieces`; `me` itself counts as being printed). A map gives its
/// keys and values in turn: first key, first value, second key, and so on.
pub fn pieces(items: &Vec<Printed>, me: usize) -> (r: Vec<Piece>)
    ensures
        piece_views(r@) == printed_pieces(items@, seq![me]),
{
    let mut seen: Vec<usize> = Vec::new();
    seen.push(me);
    let mut out: Vec<Piece> = Vec::new();
    let mut i: usize = 0;
    proof {
        assert(items@.skip(0) =~= items@);
    }
    while i < items.len()
        invariant
            i <= items@.len(),
            piece_views(out@) + printed_pieces(items@.skip(i as int), seen@) == printed_pieces(
                items@,
                seq![me],
            ),
        decreases items@.len() - i,
    {
        let ghost rest = items@.skip(i as int);
        proof {
            assert(rest[0] == items@[i as int]);
            assert(rest.drop_first() =~= items@.skip(i + 1));
        }
        let ghost before = out@;
        let ghost seen0 = seen@;
        match &items[i] {
            Printed::Text(s) => {
                out.push(Piece::Text(s.clone()));
            },
            Printed::Plain(s) => {
                out.push(Piece::Text(s.clone()));
            },
            Printed::Bytes(b) => {
                match text_of_bytes(b.as_slice()) {
                    Some(t) => out.push(Piece::Text(t)),
                    None => out.push(Piece::Text(String::new())),
                }
            },
            Printed::Object(h) => {
                if holds(&seen, *h) {
                    out.push(Piece::Text(String::new()));
                } else {
                    out.push(Piece::Describe(*h));
                    seen.push(*h);
                }
            },
        }
        proof {
            let tail = printed_pieces(items@.skip(i + 1), seen@);
            assert(printed_pieces(rest, seen0) == seq![out@.last().view()] + tail);
            assert(piece_views(out@) =~= piece_views(before).push(out@.last().view()));
            assert(piece_views(out@) + tail =~= piece_views(before) + (seq![out@.last().view()]
                + tail));
        }
        i = i + 1;
    }
    proof {
        assert(items@.skip(i as int) =~= Seq::<Printed>::empty());
        assert(piece_views(out@) + Seq::<PieceView>::empty() =~= piece_views(out@));
    }
    out
}

/// What a container object holds, as its printout needs it: its text, the
/// texts of its items, the texts of its entries' keys and values, or
/// something else (a function or a file).
#[derive(Debug, Clone)]
pub enum Contents {
    String(String),
    Vector(Vec<String>),
    Entries(Vec<(String, String)>),
    Other,
}

/// How a container prints: a string as its text; a vector and a map as
/// their listings; anything else as `<file>`.
pub open spec fn contents_text(c: Contents) -> Seq<char> {
    match c {
        Contents::String(s) => s@,
        Contents::Vector(v) => seq!['['] + joined(texts(v@), ", "@) + seq![']'],
        Contents::Entries(m) => seq!['['] + joined(entry_texts(m@), ", "@) + seq![']'],
        Contents::Other => "<file>"@,
    }
}

/// The printout of a container (see `contents_text`).
pub fn container_text(c: &Contents) -> (r: String)
    ensures
        r@ == contents_text(*c),
{
    match c {
        Contents::String(s) => s.clone(),
        Contents::Vector(v) => listing(v),
        Contents::Entries(m) => map_listing(m),
        Contents::Other => {
            let r = String::from_str("<file>");
            proof {
                reveal_strlit("<file>");
            }
            r
        },
    }
}

} // verus!
