use vstd::prelude::*;

verus! {

/// A token as the lexer reads it from source text, its payload held as
/// plain values: a number (of the caller's number type), a dotted access
/// path, a word, a text or byte-string literal with the number of line
/// breaks it spans, a line break (or comment), or text it cannot read.
#[derive(Debug, Clone, PartialEq)]
pub enum LexKind<N> {
    Arrow,
    In,
    Not,
    Semicolon,
    Dot,
    Add,
    Sub,
    Div,
    Mul,
    Exp,
    At,
    As,
    And,
    BAnd,
    Or,
    OrDefault,
    BOr,
    XOr,
    BXor,
    Str,
    BytesKey,
    Eq,
    Neq,
    Shl,
    Shr,
    Len,
    Less,
    LessEq,
    Great,
    GreatEq,
    Dollar,
    Equals,
    Try,
    Catch,
    Finally,
    Null,
    LParen,
    RParan,
    Return,
    If,
    For,
    While,
    Else,
    LBracket,
    RBracket,
    Comma,
    True,
    False,
    Import,
    Range,
    LBrace,
    QuickAssign,
    Colon,
    RBrace,
    Var,
    Raise,
    Because,
    Break,
    Continue,
    Extern,
    Lift,
    This,
    Num(N),
    OAccess(Vec<String>),
    Word(String),
    ZString(String, usize),
    Bytes(Vec<u8>, usize),
    Line,
    Error,
}

/// A token as the grammar reads it.
#[derive(Debug, Clone, PartialEq)]
pub enum ParserToken<N> {
    Semicolon,
    Add,
    Sub,
    Div,
    Mul,
    Exp,
    Eq,
    Shl,
    Shr,
    And,
    Or,
    Xor,
    BAnd,
    BOr,
    BXor,
    Colon,
    Lift,
    QuickAssign,
    This,
    Less,
    Greater,
    LessEq,
    GreaterEq,
    Dollar,
    Var,
    Equal,
    LParen,
    As,
    RParen,
    Return,
    If,
    Dot,
    In,
    Str,
    For,
    Len,
    Break,
    Continue,
    Else,
    LBracket,
    RBracket,
    Comma,
    Import,
    Neq,
    Not,
    OrDefault,
    Range,
    LBrace,
    RBrace,
    Num(N),
    Try,
    Catch,
    Finally,
    Ident(String),
    String(String),
    Raise,
    Because,
    ByteString(Vec<u8>),
    Bytes,
    Arrow,
    Access(Vec<String>),
    Bool(bool),
    While,
    Null,
    Extern,
    At,
}

/// Whether the grammar reads the token: line breaks and unreadable text
/// are handled before it.
pub open spec fn is_grammar_token<N>(t: LexKind<N>) -> bool {
    !(t is Line) && !(t is Error)
}

/// The grammar's token for a lexer token: literals and names keep their
/// payload (a literal without its line count), `true` and `false` become
/// truth values, and every other token becomes the one of the same
/// meaning.
pub open spec fn token_of<N>(t: LexKind<N>) -> ParserToken<N> {
    match t {
        LexKind::Semicolon => ParserToken::Semicolon,
        LexKind::Add => ParserToken::Add,
        LexKind::Sub => ParserToken::Sub,
        LexKind::Div => ParserToken::Div,
        LexKind::Mul => ParserToken::Mul,
        LexKind::Exp => ParserToken::Exp,
        LexKind::Eq => ParserToken::Eq,
        LexKind::Shl => ParserToken::Shl,
        LexKind::Shr => ParserToken::Shr,
        LexKind::And => ParserToken::And,
        LexKind::Or => ParserToken::Or,
        LexKind::XOr => ParserToken::Xor,
        LexKind::BAnd => ParserToken::BAnd,
        LexKind::BOr => ParserToken::BOr,
        LexKind::BXor => ParserToken::BXor,
        LexKind::Colon => ParserToken::Colon,
        LexKind::Lift => ParserToken::Lift,
        LexKind::QuickAssign => ParserToken::QuickAssign,
        LexKind::This => ParserToken::This,
        LexKind::Less => ParserToken::Less,
        LexKind::Great => ParserToken::Greater,
        LexKind::LessEq => ParserToken::LessEq,
        LexKind::GreatEq => ParserToken::GreaterEq,
        LexKind::Dollar => ParserToken::Dollar,
        LexKind::Var => ParserToken::Var,
        LexKind::Equals => ParserToken::Equal,
        LexKind::LParen => ParserToken::LParen,
        LexKind::As => ParserToken::As,
        LexKind::RParan => ParserToken::RParen,
        LexKind::Return => ParserToken::Return,
        LexKind::If => ParserToken::If,
        LexKind::Dot => ParserToken::Dot,
        LexKind::In => ParserToken::In,
        LexKind::Str => ParserToken::Str,
        LexKind::For => ParserToken::For,
        LexKind::Len => ParserToken::Len,
        LexKind::Break => ParserToken::Break,
        LexKind::Continue => ParserToken::Continue,
        LexKind::Else => ParserToken::Else,
        LexKind::LBracket => ParserToken::LBracket,
        LexKind::RBracket => ParserToken::RBracket,
        LexKind::Comma => ParserToken::Comma,
        LexKind::Import => ParserToken::Import,
        LexKind::Neq => ParserToken::Neq,
        LexKind::Not => ParserToken::Not,
        LexKind::OrDefault => ParserToken::OrDefault,
        LexKind::Range => ParserToken::Range,
        LexKind::LBrace => ParserToken::LBrace,
        LexKind::RBrace => ParserToken::RBrace,
        LexKind::Num(a) => ParserToken::Num(a),
        LexKind::Try => ParserToken::Try,
        LexKind::Catch => ParserToken::Catch,
        LexKind::Finally => ParserToken::Finally,
        LexKind::Word(a) => ParserToken::Ident(a),
        LexKind::ZString(a, _) => ParserToken::String(a),
        LexKind::Raise => ParserToken::Raise,
        LexKind::Because => ParserToken::Because,
        LexKind::Bytes(a, _) => ParserToken::ByteString(a),
        LexKind::BytesKey => ParserToken::Bytes,
        LexKind::Arrow => ParserToken::Arrow,
        LexKind::OAccess(a) => ParserToken::Access(a),
        LexKind::True => ParserToken::Bool(true),
        LexKind::False => ParserToken::Bool(false),
        LexKind::While => ParserToken::While,
        LexKind::Null => ParserToken::Null,
        LexKind::Extern => ParserToken::Extern,
        LexKind::At => ParserToken::At,
        LexKind::Line | LexKind::Error => ParserToken::Semicolon,
    }
}

/// Each lexer token is handed over as the grammar token of the same
/// meaning: every operator, keyword and bracket to its namesake (`>` and
/// `>=` as the grammar's `Greater` and `GreaterEq`), numbers, names, texts, byte strings and access paths with
/// their payload (a literal losing only its line count), `true` and
/// `false` as truth values.
pub proof fn lemma_tokens_keep_their_meaning<N>(n: N, w: String, z: String, k: usize, b: Vec<u8>, o: Vec<String>)
    ensures
        token_of::<N>(LexKind::Semicolon) == ParserToken::<N>::Semicolon,
        token_of::<N>(LexKind::Add) == ParserToken::<N>::Add,
        token_of::<N>(LexKind::Sub) == ParserToken::<N>::Sub,
        token_of::<N>(LexKind::Div) == ParserToken::<N>::Div,
        token_of::<N>(LexKind::Mul) == ParserToken::<N>::Mul,
        token_of::<N>(LexKind::Exp) == ParserToken::<N>::Exp,
        token_of::<N>(LexKind::Eq) == ParserToken::<N>::Eq,
        token_of::<N>(LexKind::Shl) == ParserToken::<N>::Shl,
        token_of::<N>(LexKind::Shr) == ParserToken::<N>::Shr,
        token_of::<N>(LexKind::And) == ParserToken::<N>::And,
        token_of::<N>(LexKind::Or) == ParserToken::<N>::Or,
        token_of::<N>(LexKind::XOr) == ParserToken::<N>::Xor,
        token_of::<N>(LexKind::BAnd) == ParserToken::<N>::BAnd,
        token_of::<N>(LexKind::BOr) == ParserToken::<N>::BOr,
        token_of::<N>(LexKind::BXor) == ParserToken::<N>::BXor,
        token_of::<N>(LexKind::Colon) == ParserToken::<N>::Colon,
        token_of::<N>(LexKind::Lift) == ParserToken::<N>::Lift,
        token_of::<N>(LexKind::QuickAssign) == ParserToken::<N>::QuickAssign,
        token_of::<N>(LexKind::This) == ParserToken::<N>::This,
        token_of::<N>(LexKind::Less) == ParserToken::<N>::Less,
        token_of::<N>(LexKind::Great) == ParserToken::<N>::Greater,
        token_of::<N>(LexKind::LessEq) == ParserToken::<N>::LessEq,
        token_of::<N>(LexKind::GreatEq) == ParserToken::<N>::GreaterEq,
        token_of::<N>(LexKind::Dollar) == ParserToken::<N>::Dollar,
        token_of::<N>(LexKind::Var) == ParserToken::<N>::Var,
        token_of::<N>(LexKind::Equals) == ParserToken::<N>::Equal,
        token_of::<N>(LexKind::LParen) == ParserToken::<N>::LParen,
        token_of::<N>(LexKind::As) == ParserToken::<N>::As,
        token_of::<N>(LexKind::RParan) == ParserToken::<N>::RParen,
        token_of::<N>(LexKind::Return) == ParserToken::<N>::Return,
        token_of::<N>(LexKind::If) == ParserToken::<N>::If,
        token_of::<N>(LexKind::Dot) == ParserToken::<N>::Dot,
        token_of::<N>(LexKind::In) == ParserToken::<N>::In,
        token_of::<N>(LexKind::Str) == ParserToken::<N>::Str,
        token_of::<N>(LexKind::For) == ParserToken::<N>::For,
        token_of::<N>(LexKind::Len) == ParserToken::<N>::Len,
        token_of::<N>(LexKind::Break) == ParserToken::<N>::Break,
        token_of::<N>(LexKind::Continue) == ParserToken::<N>::Continue,
        token_of::<N>(LexKind::Else) == ParserToken::<N>::Else,
        token_of::<N>(LexKind::LBracket) == ParserToken::<N>::LBracket,
        token_of::<N>(LexKind::RBracket) == ParserToken::<N>::RBracket,
        token_of::<N>(LexKind::Comma) == ParserToken::<N>::Comma,
        token_of::<N>(LexKind::Import) == ParserToken::<N>::Import,
        token_of::<N>(LexKind::Neq) == ParserToken::<N>::Neq,
        token_of::<N>(LexKind::Not) == ParserToken::<N>::Not,
        token_of::<N>(LexKind::OrDefault) == ParserToken::<N>::OrDefault,
        token_of::<N>(LexKind::Range) == ParserToken::<N>::Range,
        token_of::<N>(LexKind::LBrace) == ParserToken::<N>::LBrace,
        token_of::<N>(LexKind::RBrace) == ParserToken::<N>::RBrace,
        token_of::<N>(LexKind::Try) == ParserToken::<N>::Try,
        token_of::<N>(LexKind::Catch) == ParserToken::<N>::Catch,
        token_of::<N>(LexKind::Finally) == ParserToken::<N>::Finally,
        token_of::<N>(LexKind::Raise) == ParserToken::<N>::Raise,
        token_of::<N>(LexKind::Because) == ParserToken::<N>::Because,
        token_of::<N>(LexKind::BytesKey) == ParserToken::<N>::Bytes,
        token_of::<N>(LexKind::Arrow) == ParserToken::<N>::Arrow,
        token_of::<N>(LexKind::While) == ParserToken::<N>::While,
        token_of::<N>(LexKind::Null) == ParserToken::<N>::Null,
        token_of::<N>(LexKind::Extern) == ParserToken::<N>::Extern,
        token_of::<N>(LexKind::At) == ParserToken::<N>::At,
        token_of::<N>(LexKind::Error) == ParserToken::<N>::Semicolon,
        token_of::<N>(LexKind::Num(n)) == ParserToken::<N>::Num(n),
        token_of::<N>(LexKind::Word(w)) == ParserToken::<N>::Ident(w),
        token_of::<N>(LexKind::ZString(z, k)) == ParserToken::<N>::String(z),
        token_of::<N>(LexKind::Bytes(b, k)) == ParserToken::<N>::ByteString(b),
        token_of::<N>(LexKind::OAccess(o)) == ParserToken::<N>::Access(o),
        token_of::<N>(LexKind::True) == ParserToken::<N>::Bool(true),
        token_of::<N>(LexKind::False) == ParserToken::<N>::Bool(false),
{
}

/// The grammar's token for a lexer token (see `token_of`).
pub fn parser_token<N>(t: LexKind<N>) -> (r: ParserToken<N>)
    requires
        is_grammar_token(t),
    ensures
        r == token_of(t),
{
    match t {
        LexKind::Semicolon => ParserToken::Semicolon,
        LexKind::Add => ParserToken::Add,
        LexKind::Sub => ParserToken::Sub,
        LexKind::Div => ParserToken::Div,
        LexKind::Mul => ParserToken::Mul,
        LexKind::Exp => ParserToken::Exp,
        LexKind::Eq => ParserToken::Eq,
        LexKind::Shl => ParserToken::Shl,
        LexKind::Shr => ParserToken::Shr,
        LexKind::And => ParserToken::And,
        LexKind::Or => ParserToken::Or,
        LexKind::XOr => ParserToken::Xor,
        LexKind::BAnd => ParserToken::BAnd,
        LexKind::BOr => ParserToken::BOr,
        LexKind::BXor => ParserToken::BXor,
        LexKind::Colon => ParserToken::Colon,
        LexKind::Lift => ParserToken::Lift,
        LexKind::QuickAssign => ParserToken::QuickAssign,
        LexKind::This => ParserToken::This,
        LexKind::Less => ParserToken::Less,
        LexKind::Great => ParserToken::Greater,
        LexKind::LessEq => ParserToken::LessEq,
        LexKind::GreatEq => ParserToken::GreaterEq,
        LexKind::Dollar => ParserToken::Dollar,
        LexKind::Var => ParserToken::Var,
        LexKind::Equals => ParserToken::Equal,
        LexKind::LParen => ParserToken::LParen,
        LexKind::As => ParserToken::As,
        LexKind::RParan => ParserToken::RParen,
        LexKind::Return => ParserToken::Return,
        LexKind::If => ParserToken::If,
        LexKind::Dot => ParserToken::Dot,
        LexKind::In => ParserToken::In,
        LexKind::Str => ParserToken::Str,
        LexKind::For => ParserToken::For,
        LexKind::Len => ParserToken::Len,
        LexKind::Break => ParserToken::Break,
        LexKind::Continue => ParserToken::Continue,
        LexKind::Else => ParserToken::Else,
        LexKind::LBracket => ParserToken::LBracket,
        LexKind::RBracket => ParserToken::RBracket,
        LexKind::Comma => ParserToken::Comma,
        LexKind::Import => ParserToken::Import,
        LexKind::Neq => ParserToken::Neq,
        LexKind::Not => ParserToken::Not,
        LexKind::OrDefault => ParserToken::OrDefault,
        LexKind::Range => ParserToken::Range,
        LexKind::LBrace => ParserToken::LBrace,
        LexKind::RBrace => ParserToken::RBrace,
        LexKind::Num(a) => ParserToken::Num(a),
        LexKind::Try => ParserToken::Try,
        LexKind::Catch => ParserToken::Catch,
        LexKind::Finally => ParserToken::Finally,
        LexKind::Word(a) => ParserToken::Ident(a),
        LexKind::ZString(a, _) => ParserToken::String(a),
        LexKind::Raise => ParserToken::Raise,
        LexKind::Because => ParserToken::Because,
        LexKind::Bytes(a, _) => ParserToken::ByteString(a),
        LexKind::BytesKey => ParserToken::Bytes,
        LexKind::Arrow => ParserToken::Arrow,
        LexKind::OAccess(a) => ParserToken::Access(a),
        LexKind::True => ParserToken::Bool(true),
        LexKind::False => ParserToken::Bool(false),
        LexKind::While => ParserToken::While,
        LexKind::Null => ParserToken::Null,
        LexKind::Extern => ParserToken::Extern,
        LexKind::At => ParserToken::At,
        LexKind::Line | LexKind::Error => ParserToken::Semicolon,
    }
}

/// How many line breaks a token accounts for: one for a line break, the
/// count a literal spans for a literal, none otherwise.
pub open spec fn breaks<N>(t: LexKind<N>) -> int {
    match t {
        LexKind::Line => 1,
        LexKind::ZString(_, n) => n as int,
        LexKind::Bytes(_, n) => n as int,
        _ => 0,
    }
}

/// The line that the token at `i` starts on: 1 plus the breaks of the
/// tokens before it.
pub open spec fn line_at<N>(toks: Seq<LexKind<N>>, i: int) -> int
    decreases i,
{
    if i <= 0 {
        1
    } else {
        line_at(toks, i - 1) + breaks(toks[i - 1])
    }
}

/// The tokens the grammar reads, each with the line it starts on, in
/// order: line breaks are counted and dropped.
pub open spec fn fed<N>(toks: Seq<LexKind<N>>) -> Seq<(ParserToken<N>, int)>
    decreases toks.len(),
{
    if toks.len() == 0 {
        Seq::empty()
    } else {
        let i = toks.len() - 1;
        let rest = fed(toks.drop_last());
        if toks[i] is Line || toks[i] is Error {
            rest
        } else {
            rest.push((token_of(toks[i]), line_at(toks, i)))
        }
    }
}

/// The index of the first token the lexer could not read, if any.
pub open spec fn first_unreadable<N>(toks: Seq<LexKind<N>>) -> Option<int>
    decreases toks.len(),
{
    if toks.len() == 0 {
        None
    } else {
        match first_unreadable(toks.drop_last()) {
            Some(i) => Some(i),
            None => if toks.last() is Error {
                Some(toks.len() - 1)
            } else {
                None
            },
        }
    }
}

/// Once a prefix holds an unreadable token, the first one of the whole
/// sequence is the prefix's.
proof fn lemma_first_unreadable_prefix<N>(toks: Seq<LexKind<N>>, k: int)
    requires
        0 <= k <= toks.len(),
        first_unreadable(toks.take(k)) is Some,
    ensures
        first_unreadable(toks) == first_unreadable(toks.take(k)),
    decreases toks.len(),
{
    if k == toks.len() {
        assert(toks.take(k) =~= toks);
    } else {
        assert(toks.drop_last().take(k) =~= toks.take(k));
        lemma_first_unreadable_prefix(toks.drop_last(), k);
    }
}

/// `line_at` only reads the tokens before its index.
proof fn lemma_line_at_prefix<N>(toks: Seq<LexKind<N>>, k: int, i: int)
    requires
        0 <= i <= k <= toks.len(),
    ensures
        line_at(toks.take(k), i) == line_at(toks, i),
    decreases i,
{
    if i > 0 {
        lemma_line_at_prefix(toks, k, i - 1);
        assert(toks.take(k)[i - 1] == toks[i - 1]);
    }
}

/// Feeds the lexer's tokens to the grammar: gives the tokens it reads,
/// each with the line it starts on (see `fed`); at the first token the
/// lexer could not read, gives that token's index and line instead. A
/// line count that would pass `usize::MAX` is capped there.
pub fn feed<N>(toks: Vec<LexKind<N>>) -> (r: Result<Vec<(ParserToken<N>, usize)>, (usize, usize)>)
    requires
        line_at(toks@, toks@.len() as int) <= usize::MAX,
    ensures
        match first_unreadable(toks@) {
            Some(at) => r == Err::<Vec<(ParserToken<N>, usize)>, (usize, usize)>(
                (at as usize, line_at(toks@, at) as usize),
            ),
            None => r matches Ok(out) && out@.len() == fed(toks@).len() && forall|j: int|
                0 <= j < out@.len() ==> out@[j].0 == fed(toks@)[j].0 && out@[j].1 == fed(
                    toks@,
                )[j].1,
        },
{
    let ghost all = toks@;
    let total = toks.len();
    let mut out: Vec<(ParserToken<N>, usize)> = Vec::new();
    let mut line: usize = 1;
    let mut i: usize = 0;
    let mut rest = toks;
    proof {
        assert(all.take(0) =~= Seq::<LexKind<N>>::empty());
        assert(rest@ =~= all.subrange(0, all.len() as int));
        lemma_line_mono(all, 0, all.len() as int);
    }
    while rest.len() > 0
        invariant
            i + rest@.len() == all.len(),
            all.len() == total,
            all == toks@,
            rest@ == all.subrange(i as int, all.len() as int),
            line == line_at(all, i as int),
            line_at(all, all.len() as int) <= usize::MAX,
            first_unreadable(all.take(i as int)) is None,
            out@.len() == fed(all.take(i as int)).len(),
            forall|j: int|
                0 <= j < out@.len() ==> out@[j].0 == fed(all.take(i as int))[j].0 && out@[j].1
                    == fed(all.take(i as int))[j].1,
        decreases rest@.len(),
    {
        let t = rest.remove(0);
        proof {
            assert(t == all[i as int]);
            assert(all.take(i + 1).drop_last() =~= all.take(i as int));
            assert(all.take(i + 1).last() == all[i as int]);
            lemma_line_at_prefix(all, i + 1, i as int);
            lemma_line_mono(all, i + 1, all.len() as int);
            assert(rest@ =~= all.subrange(i + 1, all.len() as int));
        }
        let ghost before = out@;
        match t {
            LexKind::Error => {
                proof {
                    assert(first_unreadable(all.take(i + 1)) == Some(i as int));
                    lemma_first_unreadable_prefix(all, i + 1);
                    assert(first_unreadable(all) == Some(i as int));
                    assert(line == line_at(all, i as int));
                }
                return Err((i, line));
            },
            LexKind::Line => {
                line = line + 1;
            },
            LexKind::ZString(a, n) => {
                out.push((ParserToken::String(a), line));
                line = line + n;
            },
            LexKind::Bytes(a, n) => {
                out.push((ParserToken::ByteString(a), line));
                line = line + n;
            },
            other => {
                out.push((parser_token(other), line));
            },
        }
        i = i + 1;
    }
    proof {
        assert(all.take(i as int) =~= all);
    }
    Ok(out)
}

/// The line of a token depends only on the tokens before it.
proof fn lemma_line_at_push<N>(toks: Seq<LexKind<N>>, x: LexKind<N>, i: int)
    requires
        i <= toks.len(),
    ensures
        line_at(toks.push(x), i) == line_at(toks, i),
    decreases i,
{
    if i > 0 {
        lemma_line_at_push(toks, x, i - 1);
        assert(toks.push(x)[i - 1] == toks[i - 1]);
    }
}

/// Lines are counted as the source has them: a line break moves on one
/// line, a text or byte literal as many lines as it spans, any other token
/// none. The grammar is handed every token but line breaks (and unreadable
/// ones), in order, each with the line it starts on.
pub proof fn lemma_feeding_counts_lines<N>(toks: Seq<LexKind<N>>, t: LexKind<N>, z: String, b: Vec<u8>, k: usize)
    ensures
        line_at(toks.push(LexKind::Line), (toks.len() + 1) as int) == line_at(toks, toks.len() as int) + 1,
        line_at(toks.push(LexKind::ZString(z, k)), (toks.len() + 1) as int) == line_at(toks, toks.len() as int) + k,
        line_at(toks.push(LexKind::Bytes(b, k)), (toks.len() + 1) as int) == line_at(toks, toks.len() as int) + k,
        !(t is Line) && !(t is ZString) && !(t is Bytes) ==> line_at(toks.push(t), (toks.len() + 1) as int)
            == line_at(toks, toks.len() as int),
        fed(toks.push(LexKind::Line)) == fed(toks),
        is_grammar_token(t) ==> fed(toks.push(t)) == fed(toks).push((token_of(t), line_at(toks, toks.len() as int))),
{
    lemma_line_at_push(toks, LexKind::Line, toks.len() as int);
    lemma_line_at_push(toks, LexKind::ZString(z, k), toks.len() as int);
    lemma_line_at_push(toks, LexKind::Bytes(b, k), toks.len() as int);
    lemma_line_at_push(toks, t, toks.len() as int);
    assert(toks.push(LexKind::Line).drop_last() =~= toks);
    assert(toks.push(t).drop_last() =~= toks);
}

/// Lines only grow from one token to the next: a later token never starts
/// on an earlier line.
pub proof fn lemma_line_mono<N>(toks: Seq<LexKind<N>>, i: int, k: int)
    requires
        0 <= i <= k,
    ensures
        line_at(toks, i) <= line_at(toks, k),
    decreases k - i,
{
    if i < k {
        lemma_line_mono(toks, i, k - 1);
    }
}

/// The grammar reads the tokens in the order of their lines: each token fed
/// starts on a line no earlier than the tokens fed before it, and none
/// after the line the text ends on.
pub proof fn lemma_fed_lines_ordered<N>(toks: Seq<LexKind<N>>)
    ensures
        forall|j: int, k: int|
            0 <= j < k < fed(toks).len() ==> #[trigger] fed(toks)[j].1 <= #[trigger] fed(toks)[k].1,
        forall|j: int| 0 <= j < fed(toks).len() ==> #[trigger] fed(toks)[j].1 <= line_at(toks, toks.len() as int),
    decreases toks.len(),
{
    if toks.len() > 0 {
        let n = toks.len() as int;
        let d = toks.drop_last();
        lemma_fed_lines_ordered(d);
        assert(d =~= toks.take(n - 1));
        lemma_line_at_prefix(toks, n - 1, n - 1);
        lemma_line_mono(toks, n - 1, n);
        let f = fed(toks);
        let fd = fed(d);
        let top = line_at(toks, n - 1);
        assert(line_at(d, n - 1) == top);
        assert(d.len() == n - 1);
        assert(forall|j: int| 0 <= j < fd.len() ==> #[trigger] fd[j].1 <= top);
        if toks[n - 1] is Line || toks[n - 1] is Error {
            assert(f == fd);
        } else {
            assert(f == fd.push((token_of(toks[n - 1]), top)));
            assert forall|j: int, k: int| 0 <= j < k < f.len() implies #[trigger] f[j].1 <= #[trigger] f[k].1 by {
                if k < fd.len() {
                    assert(f[j] == fd[j] && f[k] == fd[k]);
                } else {
                    assert(f[j] == fd[j] && f[k].1 == top);
                }
            }
            assert forall|j: int| 0 <= j < f.len() implies #[trigger] f[j].1 <= line_at(toks, n) by {
                if j < fd.len() {
                    assert(f[j] == fd[j]);
                }
            }
        }
    }
}
} // verus!
