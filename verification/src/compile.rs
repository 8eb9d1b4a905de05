use vstd::prelude::*;
use vstd::string::StringExecFns;
use crate::error::Error;
use crate::function::{ConstantLib, ConstantView, first_text, first_bytes};
use crate::ops::{Instruction, RaiseErrKind};
use crate::refrence::{BlockChain, WizardBlock, VarInstruction, Origin, origin_for, chain_index_of, position_of, keys, first_key, lemma_chain_index_bounds};

verus! {

broadcast use vstd::std_specs::vec::axiom_vec_index_decreases;

/// A value that compiled code loads: null, a number, a text or a byte
/// string of the constant pool (by index), the index 0, or a compiled
/// function (by its index in the function table).
#[derive(Debug, Clone, Copy, PartialEq)]
pub enum Const<N> {
    Null,
    Num(N),
    Text(usize),
    Bytes(usize),
    Zero,
    Func(usize),
}

/// An expression of a zin program.
#[derive(Debug)]
pub enum Expression<N> {
    Import(String),
    Dotted(Vec<String>),
    Tuple(Box<Expression<N>>),
    InlineDotted(Box<Expression<N>>, Vec<String>),
    Len(Box<Expression<N>>),
    Bool(bool),
    Number(N),
    LString(String),
    BString(Vec<u8>),
    Variable(String),
    MakeString(Box<Expression<N>>),
    MakeBytes(Box<Expression<N>>),
    Null,
    This,
    List(Vec<Expression<N>>),
    Add(Box<Expression<N>>, Box<Expression<N>>),
    Sub(Box<Expression<N>>, Box<Expression<N>>),
    Mul(Box<Expression<N>>, Box<Expression<N>>),
    Div(Box<Expression<N>>, Box<Expression<N>>),
    Exp(Box<Expression<N>>, Box<Expression<N>>),
    Neq(Box<Expression<N>>, Box<Expression<N>>),
    Equals(Box<Expression<N>>, Box<Expression<N>>),
    Shl(Box<Expression<N>>, Box<Expression<N>>),
    Shr(Box<Expression<N>>, Box<Expression<N>>),
    Call(Box<Expression<N>>, Box<Expression<N>>),
    Negate(Box<Expression<N>>),
    And(Box<Expression<N>>, Box<Expression<N>>),
    Or(Box<Expression<N>>, Box<Expression<N>>),
    OrDefault(Box<Expression<N>>, Box<Expression<N>>),
    Not(Box<Expression<N>>),
    Xor(Box<Expression<N>>, Box<Expression<N>>),
    BAnd(Box<Expression<N>>, Box<Expression<N>>),
    Less(Box<Expression<N>>, Box<Expression<N>>),
    Great(Box<Expression<N>>, Box<Expression<N>>),
    LessEq(Box<Expression<N>>, Box<Expression<N>>),
    GreatEq(Box<Expression<N>>, Box<Expression<N>>),
    Object(Vec<(String, Expression<N>)>),
    NamedObject(String, Vec<(String, Expression<N>)>),
    BOr(Box<Expression<N>>, Box<Expression<N>>),
    BXor(Box<Expression<N>>, Box<Expression<N>>),
    Pairs(Vec<(Expression<N>, Expression<N>)>),
    Array(Vec<Expression<N>>),
    ArrayAccess(Box<Expression<N>>, Box<Expression<N>>),
    Slice(Box<Expression<N>>, Box<Expression<N>>, Box<Expression<N>>),
    SliceMBegin(Box<Expression<N>>, Box<Expression<N>>),
    SliceMEnd(Box<Expression<N>>, Box<Expression<N>>),
    SliceMBE(Box<Expression<N>>),
    Lambda(Vec<String>, Box<Statement<N>>, Option<String>),
}

/// Why compiling failed, as the specification sees it: a variable that no
/// scope and no builtin knows, a parse error with its message, or anything
/// else.
pub enum Failure {
    Unknown(Seq<char>),
    Parser(Seq<char>),
    Other,
}

pub open spec fn failure(e: Error) -> Failure {
    match e {
        Error::UnknownVariable(m) => Failure::Unknown(m@),
        Error::ParserError(m) => Failure::Parser(m@),
        _ => Failure::Other,
    }
}

/// What compiling works against: the names of the builtins.
pub struct Ctx {
    pub builtins: Seq<Seq<char>>,
}

/// A scope as the specification sees it: the names of its locals, in slot
/// order, and its upvalues with their origins.
pub struct ScopeView {
    pub locals: Seq<Seq<char>>,
    pub upvals: Seq<(Seq<char>, Origin)>,
}

pub open spec fn scope_view(b: WizardBlock) -> ScopeView {
    ScopeView { locals: b.local.names(), upvals: b.upvals.upvals() }
}

/// The scopes of a chain as the specification sees them.
pub open spec fn chain_view(bs: Seq<WizardBlock>) -> Seq<ScopeView> {
    bs.map_values(|b: WizardBlock| scope_view(b))
}

/// What a member of a function object holds: null, or a compiled function
/// (by its index in the function table).
#[derive(Debug, Clone, Copy, PartialEq, Eq)]
pub enum Member {
    Null,
    Function(usize),
}

/// A compiled function: its code, the number of its arguments and of its
/// locals, whether it is a method (its first argument is `self`), its name
/// and documentation, and the members that its `pub` declarations made.
#[derive(Debug)]
pub struct FunctionCode<N> {
    pub code: Vec<Instruction<Const<N>>>,
    pub nargs: usize,
    pub nlocals: usize,
    pub is_method: bool,
    pub name: Option<String>,
    pub doc: Option<String>,
    pub members: Vec<(String, Member)>,
}

/// A compiled function as the specification sees it.
pub struct FunctionView<N> {
    pub code: Seq<Instruction<Const<N>>>,
    pub nargs: usize,
    pub nlocals: usize,
    pub is_method: bool,
    pub name: Option<Seq<char>>,
    pub doc: Option<Seq<char>>,
    pub members: Seq<(Seq<char>, Member)>,
}

pub open spec fn opt_view(o: Option<String>) -> Option<Seq<char>> {
    match o {
        Some(t) => Some(t@),
        None => None,
    }
}

pub open spec fn member_views(m: Seq<(String, Member)>) -> Seq<(Seq<char>, Member)> {
    m.map_values(|e: (String, Member)| (e.0@, e.1))
}

pub open spec fn function_view<N>(f: FunctionCode<N>) -> FunctionView<N> {
    FunctionView {
        code: f.code@,
        nargs: f.nargs,
        nlocals: f.nlocals,
        is_method: f.is_method,
        name: opt_view(f.name),
        doc: opt_view(f.doc),
        members: member_views(f.members@),
    }
}

pub open spec fn function_views<N>(fs: Seq<FunctionCode<N>>) -> Seq<FunctionView<N>> {
    fs.map_values(|f: FunctionCode<N>| function_view(f))
}

/// What compiling makes besides code: the members of the function being
/// compiled, and the table of the functions compiled so far.
pub struct Decls<N> {
    pub members: Vec<(String, Member)>,
    pub functions: Vec<FunctionCode<N>>,
}

/// What compiling changes as it goes: the constant pool, the scope chain,
/// the table of compiled functions, and the members of the function being
/// compiled.
pub struct St<N> {
    pub pool: Seq<ConstantView>,
    pub chain: Seq<ScopeView>,
    pub funcs: Seq<FunctionView<N>>,
    pub members: Seq<(Seq<char>, Member)>,
}

/// The scopes stand as `s` says.
pub open spec fn chain_rel<N>(s: St<N>, actual: Seq<WizardBlock>) -> bool {
    chain_view(actual) == s.chain
}

/// The declarations stand as `s` says.
pub open spec fn decls_rel<N>(s: St<N>, d: Decls<N>) -> bool {
    &&& member_views(d.members@) == s.members
    &&& function_views(d.functions@) == s.funcs
}

/// The state that compiling starts from.
pub open spec fn start<N>(pool: Seq<ConstantView>, blocks: Seq<WizardBlock>, d: Decls<N>) -> St<N> {
    St {
        pool,
        chain: chain_view(blocks),
        funcs: function_views(d.functions@),
        members: member_views(d.members@),
    }
}

/// Where the innermost scope of `cs` that knows `a` has it (as
/// `chain_index_of` reads the scopes).
pub open spec fn scope_index_of(cs: Seq<ScopeView>, a: Seq<char>, depth: nat) -> Option<(bool, nat, nat)>
    decreases cs.len(),
{
    if cs.len() == 0 {
        None
    } else {
        let b = cs.last();
        match position_of(b.locals, a) {
            Some(i) => Some((false, depth, i as nat)),
            None => match position_of(keys(b.upvals), a) {
                Some(i) => Some((true, b.upvals[i].1.0 as nat, b.upvals[i].1.1 as nat)),
                None => scope_index_of(cs.drop_last(), a, depth + 1),
            },
        }
    }
}

/// `chain_index_of` reads only the views of the scopes.
proof fn lemma_scope_index(bs: Seq<WizardBlock>, a: Seq<char>, depth: nat)
    ensures
        chain_index_of(bs, a, depth) == scope_index_of(chain_view(bs), a, depth),
    decreases bs.len(),
{
    if bs.len() > 0 {
        assert(chain_view(bs).drop_last() =~= chain_view(bs.drop_last()));
        assert(chain_view(bs).last() == scope_view(bs.last()));
        lemma_scope_index(bs.drop_last(), a, depth + 1);
    }
}

/// The pool after interning the text `x`.
pub open spec fn add_text(p: Seq<ConstantView>, x: Seq<char>) -> Seq<ConstantView> {
    if first_text(p, x) is Some {
        p
    } else {
        p.push(ConstantView::Text(x))
    }
}

/// The index of the text `x` once interned.
pub open spec fn text_index(p: Seq<ConstantView>, x: Seq<char>) -> usize {
    (first_text(add_text(p, x), x)->0) as usize
}

/// The pool after interning the byte string `x`.
pub open spec fn add_bytes(p: Seq<ConstantView>, x: Seq<u8>) -> Seq<ConstantView> {
    if first_bytes(p, x) is Some {
        p
    } else {
        p.push(ConstantView::Bytes(x))
    }
}

/// The index of the byte string `x` once interned.
pub open spec fn bytes_index(p: Seq<ConstantView>, x: Seq<u8>) -> usize {
    (first_bytes(add_bytes(p, x), x)->0) as usize
}

pub open spec fn with_text<N>(s: St<N>, x: Seq<char>) -> St<N> {
    St { pool: add_text(s.pool, x), ..s }
}

/// The code that loads the variable `x`: a local of the innermost scope;
/// an upvalue of the innermost scope (made, and recorded, when an outer
/// scope has the variable); or, interning its name, a builtin; failing
/// with `Unknown` for a name that nothing knows.
pub open spec fn var_step<N>(c: Ctx, s: St<N>, x: Seq<char>) -> (Result<Seq<Instruction<Const<N>>>, Failure>, St<N>) {
    let n = s.chain.len();
    let last = s.chain.last();
    let ups = keys(last.upvals);
    if n > 0 && ups.len() >= usize::MAX {
        (Err(Failure::Other), s)
    } else if n > 0 && position_of(last.locals, x) is Some {
        (Ok(seq![Instruction::Ldl(0, (position_of(last.locals, x)->0) as usize)]), s)
    } else if n > 0 && position_of(ups, x) is Some {
        (Ok(seq![Instruction::Ldup((position_of(ups, x)->0) as usize)]), s)
    } else if n > 0 && scope_index_of(s.chain.drop_last(), x, 1) is Some {
        let (h, a, b) = scope_index_of(s.chain.drop_last(), x, 1)->0;
        (
            Ok(seq![Instruction::Ldup(ups.len() as usize)]),
            St {
                chain: s.chain.update(
                    n - 1,
                    ScopeView { upvals: last.upvals.push((x, origin_for((a as usize, b as usize), false))), ..last },
                ),
                ..s
            },
        )
    } else if c.builtins.contains(x) {
        (Ok(seq![Instruction::Builtin(text_index(s.pool, x))]), with_text(s, x))
    } else {
        (Err(Failure::Unknown(x)), with_text(s, x))
    }
}

/// Code followed by more code.
pub open spec fn with_code<N>(
    o: (Result<Seq<Instruction<Const<N>>>, Failure>, St<N>),
    tail: Seq<Instruction<Const<N>>>,
) -> (Result<Seq<Instruction<Const<N>>>, Failure>, St<N>) {
    match o.0 {
        Ok(code) => (Ok(code + tail), o.1),
        Err(e) => (Err(e), o.1),
    }
}

/// Two pieces of code compiled one after the other: the first failure
/// stops it.
pub open spec fn glue<N>(
    o1: (Result<Seq<Instruction<Const<N>>>, Failure>, St<N>),
    o2: (Result<Seq<Instruction<Const<N>>>, Failure>, St<N>),
) -> (Result<Seq<Instruction<Const<N>>>, Failure>, St<N>) {
    match o1.0 {
        Err(e) => o1,
        Ok(c1) => match o2.0 {
            Err(e) => (Err(e), o2.1),
            Ok(c2) => (Ok(c1 + c2), o2.1),
        },
    }
}

/// The member loads `Ldm` of the names of `v` from `i` on.
pub open spec fn members<N>(v: Seq<String>, i: int, s: St<N>) -> (Seq<Instruction<Const<N>>>, St<N>)
    decreases v.len() - i,
{
    if i >= v.len() || i < 0 {
        (Seq::empty(), s)
    } else {
        let rest = members::<N>(v, i + 1, with_text(s, v[i]@));
        (seq![Instruction::Ldm(text_index(s.pool, v[i]@))] + rest.0, rest.1)
    }
}

/// Code followed by the member loads of the names of `v` from `i` on.
pub open spec fn then_members<N>(
    o: (Result<Seq<Instruction<Const<N>>>, Failure>, St<N>),
    v: Seq<String>,
    i: int,
) -> (Result<Seq<Instruction<Const<N>>>, Failure>, St<N>) {
    match o.0 {
        Err(e) => o,
        Ok(code) => (Ok(code + members::<N>(v, i, o.1).0), members::<N>(v, i, o.1).1),
    }
}

/// The code of an expression, compiled in state `s`, with the state after
/// it.
pub open spec fn code_of<N>(e: Expression<N>, c: Ctx, s: St<N>) -> (
    Result<Seq<Instruction<Const<N>>>, Failure>,
    St<N>,
)
    decreases e, 0nat,
{
    match e {
        Expression::Import(a) => (Ok(seq![Instruction::Import(text_index(s.pool, a@))]), with_text(s, a@)),
        Expression::Dotted(v) => if v@.len() > 0 && v@[0]@ == "this"@ {
            then_members((Ok(seq![Instruction::This]), s), v@, 1)
        } else {
            then_members(var_step(c, s, v@[0]@), v@, 1)
        },
        Expression::InlineDotted(b, v) => then_members(code_of(*b, c, s), v@, 0),
        Expression::Bool(t) => (Ok(seq![if t { Instruction::Cl1 } else { Instruction::Cl0 }]), s),
        Expression::Number(n) => (Ok(seq![Instruction::Cld(Const::Num(n))]), s),
        Expression::LString(a) => (Ok(seq![Instruction::Cld(Const::Text(text_index(s.pool, a@)))]), with_text(s, a@)),
        Expression::BString(b) => (
            Ok(seq![Instruction::Cld(Const::Bytes(bytes_index(s.pool, b@)))]),
            St { pool: add_bytes(s.pool, b@), ..s },
        ),
        Expression::Variable(b) => var_step(c, s, b@),
        Expression::Null => (Ok(seq![Instruction::Cld(Const::Null)]), s),
        Expression::This => (Ok(seq![Instruction::This]), s),
        Expression::List(v) => items_code(v, 0, c, s),
        Expression::Add(a, b) => with_code(
            glue(code_of(*a, c, s), code_of(*b, c, code_of(*a, c, s).1)),
            seq![Instruction::Add],
        ),
        Expression::Sub(a, b) => with_code(
            glue(code_of(*a, c, s), code_of(*b, c, code_of(*a, c, s).1)),
            seq![Instruction::Sub],
        ),
        Expression::Mul(a, b) => with_code(
            glue(code_of(*a, c, s), code_of(*b, c, code_of(*a, c, s).1)),
            seq![Instruction::Mul],
        ),
        Expression::Div(a, b) => with_code(
            glue(code_of(*a, c, s), code_of(*b, c, code_of(*a, c, s).1)),
            seq![Instruction::Div],
        ),
        Expression::Equals(a, b) => with_code(
            glue(code_of(*a, c, s), code_of(*b, c, code_of(*a, c, s).1)),
            seq![Instruction::Cmp],
        ),
        Expression::Xor(a, b) => with_code(
            glue(code_of(*a, c, s), code_of(*b, c, code_of(*a, c, s).1)),
            seq![Instruction::AXor],
        ),
        Expression::BXor(a, b) => with_code(
            glue(code_of(*a, c, s), code_of(*b, c, code_of(*a, c, s).1)),
            seq![Instruction::Xor],
        ),
        Expression::And(a, b) => with_code(
            glue(code_of(*a, c, s), code_of(*b, c, code_of(*a, c, s).1)),
            seq![Instruction::AAnd],
        ),
        Expression::BAnd(a, b) => with_code(
            glue(code_of(*a, c, s), code_of(*b, c, code_of(*a, c, s).1)),
            seq![Instruction::And],
        ),
        Expression::Or(a, b) => with_code(
            glue(code_of(*a, c, s), code_of(*b, c, code_of(*a, c, s).1)),
            seq![Instruction::AOr],
        ),
        Expression::BOr(a, b) => with_code(
            glue(code_of(*a, c, s), code_of(*b, c, code_of(*a, c, s).1)),
            seq![Instruction::Or],
        ),
        Expression::Less(a, b) => with_code(
            glue(code_of(*a, c, s), code_of(*b, c, code_of(*a, c, s).1)),
            seq![Instruction::Less],
        ),
        Expression::Great(a, b) => with_code(
            glue(code_of(*a, c, s), code_of(*b, c, code_of(*a, c, s).1)),
            seq![Instruction::Great],
        ),
        Expression::LessEq(a, b) => with_code(
            glue(code_of(*a, c, s), code_of(*b, c, code_of(*a, c, s).1)),
            seq![Instruction::LessEq],
        ),
        Expression::GreatEq(a, b) => with_code(
            glue(code_of(*a, c, s), code_of(*b, c, code_of(*a, c, s).1)),
            seq![Instruction::GreatEq],
        ),
        Expression::ArrayAccess(a, b) => with_code(
            glue(code_of(*a, c, s), code_of(*b, c, code_of(*a, c, s).1)),
            seq![Instruction::ArrayAccess],
        ),
        Expression::SliceMEnd(a, b) => with_code(
            glue(code_of(*a, c, s), code_of(*b, c, code_of(*a, c, s).1)),
            seq![Instruction::Slice(true)],
        ),
        Expression::Len(a) => with_code(code_of(*a, c, s), seq![Instruction::Len]),
        Expression::MakeString(a) => with_code(code_of(*a, c, s), seq![Instruction::Str]),
        Expression::MakeBytes(a) => with_code(code_of(*a, c, s), seq![Instruction::Bytes]),
        Expression::Negate(a) => with_code(code_of(*a, c, s), seq![Instruction::Negate]),
        Expression::Neq(a, b) => with_code(
            glue(code_of(*a, c, s), code_of(*b, c, code_of(*a, c, s).1)),
            seq![Instruction::Cmp, Instruction::Negate],
        ),
        Expression::OrDefault(a, b) => {
            let oa = code_of(*a, c, s);
            let ob = code_of(*b, c, oa.1);
            match (oa.0, ob.0) {
                (Err(e), _) => oa,
                (Ok(_), Err(e)) => (Err(e), ob.1),
                (Ok(ca), Ok(cb)) => if cb.len() >= usize::MAX {
                    (Err(Failure::Other), ob.1)
                } else {
                    (Ok(ca + seq![Instruction::Rtest((cb.len() + 1) as usize)] + cb), ob.1)
                },
            }
        },
        Expression::Call(a, b) => {
            let oa = code_of(*a, c, s);
            match *b {
                Expression::List(v) => with_code(glue(oa, items_code(v, 0, c, oa.1)), seq![Instruction::Call(v@.len() as usize)]),
                Expression::Null => with_code(oa, seq![Instruction::Call(0)]),
                _ => with_code(glue(oa, code_of(*b, c, oa.1)), seq![Instruction::Call(1)]),
            }
        },
        Expression::Array(v) => with_code(items_code(v, 0, c, s), seq![Instruction::MkArr(v@.len() as usize)]),
        Expression::Slice(a, b, d) => {
            let oa = code_of(*a, c, s);
            let ob = code_of(*b, c, oa.1);
            with_code(glue(glue(oa, ob), code_of(*d, c, ob.1)), seq![Instruction::Slice(false)])
        },
        Expression::SliceMBegin(a, b) => {
            let oa = with_code(code_of(*a, c, s), seq![Instruction::Cld(Const::Zero)]);
            with_code(glue(oa, code_of(*b, c, oa.1)), seq![Instruction::Slice(false)])
        },
        Expression::SliceMBE(a) => with_code(code_of(*a, c, s), seq![Instruction::Cld(Const::Zero), Instruction::Slice(true)]),
        Expression::Pairs(v) => with_code(pairs_code(v, 0, c, s), seq![Instruction::MkMap(v@.len() as usize)]),
        Expression::Object(v) => with_code(fields_code(v, 0, c, s), seq![Instruction::Formula(v@.len() as usize)]),
        Expression::NamedObject(name, v) => with_code(
            fields_code(v, 0, c, with_text(s, name@)),
            seq![Instruction::Cld(Const::Text(text_index(s.pool, name@))), Instruction::NamedFormula(v@.len() as usize)],
        ),
        Expression::Lambda(args, body, doc) => {
            let ol = lambda_code(args@, *body, None, opt_view(doc), c, s);
            match ol.0 {
                Err(x) => (Err(x), ol.1),
                Ok(LambdaOut::Static(k)) => (Ok(seq![Instruction::Cld(Const::Func(k))]), ol.1),
                Ok(LambdaOut::Upval(_, code)) => (Ok(code), ol.1),
            }
        },
        Expression::Tuple(_) | Expression::Exp(_, _) | Expression::Shl(_, _) | Expression::Shr(_, _)
        | Expression::Not(_) => (Err(Failure::Other), s),
    }
}

/// The code of the expressions of `v` from `i` on, one after the other.
pub open spec fn items_code<N>(v: Vec<Expression<N>>, i: int, c: Ctx, s: St<N>) -> (
    Result<Seq<Instruction<Const<N>>>, Failure>,
    St<N>,
)
    decreases v, v@.len() - i,
{
    if i >= v@.len() || i < 0 {
        (Ok(Seq::empty()), s)
    } else {
        let o = code_of(v[i], c, s);
        glue(o, items_code(v, i + 1, c, o.1))
    }
}

/// The code of the keys and values of the entries of `v` from `i` on.
pub open spec fn pairs_code<N>(v: Vec<(Expression<N>, Expression<N>)>, i: int, c: Ctx, s: St<N>) -> (
    Result<Seq<Instruction<Const<N>>>, Failure>,
    St<N>,
)
    decreases v, v@.len() - i,
{
    if i >= v@.len() || i < 0 {
        (Ok(Seq::empty()), s)
    } else {
        let k = code_of(v[i].0, c, s);
        let x = code_of(v[i].1, c, k.1);
        glue(glue(k, x), pairs_code(v, i + 1, c, x.1))
    }
}

/// The code of the members of an object literal from `i` on: each name
/// loaded as a text constant, then its value.
pub open spec fn fields_code<N>(v: Vec<(String, Expression<N>)>, i: int, c: Ctx, s: St<N>) -> (
    Result<Seq<Instruction<Const<N>>>, Failure>,
    St<N>,
)
    decreases v, v@.len() - i,
{
    if i >= v@.len() || i < 0 {
        (Ok(Seq::empty()), s)
    } else {
        let ld = (Ok(seq![Instruction::Cld(Const::Text(text_index(s.pool, v[i].0@)))]), with_text(s, v[i].0@));
        let x = code_of(v[i].1, c, ld.1);
        glue(glue(ld, x), fields_code(v, i + 1, c, x.1))
    }
}

/// Whether the compiler handles the expression: not a tuple, `**`, a
/// shift or `not` anywhere in it (these stop the compiler), and no empty
/// access path.
pub open spec fn supported<N>(e: Expression<N>) -> bool
    decreases e, 0nat,
{
    match e {
        Expression::Tuple(_) | Expression::Exp(_, _) | Expression::Shl(_, _) | Expression::Shr(_, _)
        | Expression::Not(_) => false,
        Expression::Dotted(v) => v@.len() > 0,
        Expression::InlineDotted(a, _) => supported(*a),
        Expression::Add(a, b) | Expression::Sub(a, b) | Expression::Mul(a, b) | Expression::Div(a, b) | Expression::Equals(a, b) | Expression::Xor(a, b) | Expression::BXor(a, b) | Expression::And(a, b) | Expression::BAnd(a, b) | Expression::Or(a, b) | Expression::BOr(a, b) | Expression::Less(a, b) | Expression::Great(a, b) | Expression::LessEq(a, b) | Expression::GreatEq(a, b) | Expression::ArrayAccess(a, b) | Expression::SliceMEnd(a, b) | Expression::Neq(a, b) | Expression::OrDefault(a, b) | Expression::SliceMBegin(a, b) => supported(*a) && supported(*b),
        Expression::Len(a) | Expression::MakeString(a) | Expression::MakeBytes(a) | Expression::Negate(a) | Expression::SliceMBE(a) => supported(*a),
        Expression::Call(a, b) => supported(*a) && match *b {
            Expression::List(v) => all_supported(v, 0),
            _ => supported(*b),
        },
        Expression::Slice(a, b, d) => supported(*a) && supported(*b) && supported(*d),
        Expression::List(v) | Expression::Array(v) => all_supported(v, 0),
        Expression::Pairs(v) => pairs_supported(v, 0),
        Expression::Object(v) | Expression::NamedObject(_, v) => fields_supported(v, 0),
        Expression::Lambda(_, body, _) => stmt_supported(*body),
        _ => true,
    }
}

pub open spec fn all_supported<N>(v: Vec<Expression<N>>, i: int) -> bool
    decreases v, v@.len() - i,
{
    if i >= v@.len() || i < 0 {
        true
    } else {
        supported(v[i]) && all_supported(v, i + 1)
    }
}

pub open spec fn pairs_supported<N>(v: Vec<(Expression<N>, Expression<N>)>, i: int) -> bool
    decreases v, v@.len() - i,
{
    if i >= v@.len() || i < 0 {
        true
    } else {
        supported(v[i].0) && supported(v[i].1) && pairs_supported(v, i + 1)
    }
}

pub open spec fn fields_supported<N>(v: Vec<(String, Expression<N>)>, i: int) -> bool
    decreases v, v@.len() - i,
{
    if i >= v@.len() || i < 0 {
        true
    } else {
        supported(v[i].1) && fields_supported(v, i + 1)
    }
}

/// The names of a list of texts.
pub open spec fn name_views(v: Seq<String>) -> Seq<Seq<char>> {
    v.map_values(|s: String| s@)
}

/// Adding an entry adds its key to the keys.
proof fn lemma_keys_push<V>(es: Seq<(Seq<char>, V)>, k: Seq<char>, v: V)
    ensures
        keys(es.push((k, v))) == keys(es).push(k),
{
    assert(keys(es.push((k, v))) =~= keys(es).push(k));
}

/// Whether `b` is among `names`.
fn is_builtin(names: &Vec<String>, b: &String) -> (r: bool)
    ensures
        r == name_views(names@).contains(b@),
{
    let mut i: usize = 0;
    while i < names.len()
        invariant
            i <= names@.len(),
            forall|j: int| 0 <= j < i ==> names@[j]@ != b@,
        decreases names@.len() - i,
    {
        if names[i] == *b {
            assert(name_views(names@)[i as int] == b@);
            return true;
        }
        i = i + 1;
    }
    assert(!name_views(names@).contains(b@)) by {
        if name_views(names@).contains(b@) {
            let j = choose|j: int| 0 <= j < name_views(names@).len() && name_views(names@)[j] == b@;
            assert(names@[j]@ == b@);
        }
    }
    false
}

/// Compiles a load of the variable `name` (see `var_step`).
fn compile_var<N>(
    name: &String,
    blocks: &mut BlockChain,
    consts: &mut ConstantLib,
    builtins: &Vec<String>,
    Ghost(c): Ghost<Ctx>,
    Ghost(s): Ghost<St<N>>,
) -> (r: Result<Vec<Instruction<Const<N>>>, Error>)
    requires
        chain_rel(s, old(blocks).0@),
        s.pool == old(consts)@,
        c.builtins == name_views(builtins@),
    ensures
        ({
            let o = var_step::<N>(c, s, name@);
            &&& match r {
                Ok(code) => o.0 == Ok::<Seq<Instruction<Const<N>>>, Failure>(code@),
                Err(err) => o.0 == Err::<Seq<Instruction<Const<N>>>, Failure>(failure(err)),
            }
            &&& final(consts)@ == o.1.pool
            &&& chain_rel(o.1, final(blocks).0@)
        }),
{
    let ghost before = blocks.0@;
    let n = blocks.0.len();
    proof {
        lemma_scope_index(before, name@, 0);
        if n > 0 {
            assert(chain_view(before).drop_last() =~= chain_view(before.drop_last()));
            assert(s.chain.last() == scope_view(before.last()));
            lemma_scope_index(before.drop_last(), name@, 1);
            assert(keys(s.chain.last().upvals).len() == before.last().upvals.upvals().len());
        }
    }
    if n > 0 {
        let ul = blocks.0[n - 1].upval_len();
        if ul == usize::MAX {
            return Err(Error::InvalidCode);
        }
    }
    match blocks.variable(name.as_str()) {
        Some(vi) => {
            proof {
                if n > 0 {
                    let last = before.last();
                    let up = blocks.0@.last().upvals.upvals();
                    if up.len() > last.upvals.upvals().len() {
                        lemma_keys_push(last.upvals.upvals(), name@, up.last().1);
                    }
                    assert(chain_view(blocks.0@).drop_last() =~= chain_view(before).drop_last());
                }
                crate::refrence::lemma_position_of(before.last().local.names(), name@);
                crate::refrence::lemma_position_of(before.last().upvals.names(), name@);
                lemma_chain_index_bounds(before.drop_last(), name@, 1);
            }
            match vi {
                VarInstruction::Ldl(a, b) => {
                    let v = vec![Instruction::Ldl(a, b)];
                    assert(v@ =~= seq![Instruction::<Const<N>>::Ldl(a, b)]);
                    Ok(v)
                },
                VarInstruction::Ldup(a) => {
                    let v = vec![Instruction::Ldup(a)];
                    assert(v@ =~= seq![Instruction::<Const<N>>::Ldup(a)]);
                    proof {
                        let o = var_step::<N>(c, s, name@);
                        if position_of(before.last().upvals.names(), name@) is None {
                            assert(chain_view(blocks.0@) =~= o.1.chain);
                        } else {
                            assert(chain_view(blocks.0@) =~= s.chain);
                        }
                    }
                    Ok(v)
                },
                VarInstruction::Stl(a, b) => Ok(vec![Instruction::Stl(a, b)]),
                VarInstruction::Stup(a) => Ok(vec![Instruction::Stup(a)]),
            }
        },
        None => {
            let (k, _) = consts.get_or_create_tconstant(name.clone());
            proof {
                crate::function::lemma_first_text(old(consts)@, name@);
                if first_text(old(consts)@, name@) is None {
                    crate::function::lemma_text_found_after_add(old(consts)@, name@);
                }
            }
            if is_builtin(builtins, name) {
                assert(k == text_index(old(consts)@, name@));
                let v = vec![Instruction::Builtin(k)];
                assert(v@ =~= seq![Instruction::<Const<N>>::Builtin(k)]);
                    assert(var_step::<N>(c, s, name@).0 == Ok::<Seq<Instruction<Const<N>>>, Failure>(seq![Instruction::<Const<N>>::Builtin(k)]));
                Ok(v)
            } else {
                Err(Error::UnknownVariable(name.clone()))
            }
        },
    }
}


/// A statement of a zin program.
#[derive(Debug)]
pub enum Statement<N> {
    ArraySet(Box<Expression<N>>, Box<Expression<N>>, Box<Expression<N>>),
    Expr(Box<Expression<N>>),
    AccessAssignment(Box<Expression<N>>, Box<Expression<N>>),
    Assignment(Vec<String>, Box<Expression<N>>),
    NewAssignment(Vec<String>, Box<Expression<N>>),
    ExternAssignment(Vec<String>, Box<Expression<N>>),
    Block(Vec<Statement<N>>),
    If(Box<Expression<N>>, Box<Statement<N>>, Option<Box<Statement<N>>>),
    While(Box<Expression<N>>, Box<Statement<N>>),
    Function(String, Vec<String>, Option<String>, Box<Statement<N>>),
    ExternFunction(String, Vec<String>, Option<String>, Box<Statement<N>>),
    Return(Option<Box<Expression<N>>>),
    For(Vec<String>, Box<Expression<N>>, Box<Statement<N>>),
    Try(Box<Statement<N>>, Option<Vec<String>>, Option<String>, Box<Statement<N>>),
    TryFinally(Box<Statement<N>>, Option<Vec<String>>, Option<String>, Box<Statement<N>>, Box<Statement<N>>),
    RaiseCurrent,
    RaiseNorm(String),
    RaiseNormWithWhy(String, Box<Expression<N>>),
    RaiseObj(Box<Expression<N>>),
    Break,
    Continue,
    Empty,
}

/// The store instruction that matches a load.
pub open spec fn stored<N>(i: Instruction<Const<N>>) -> Instruction<Const<N>> {
    match i {
        Instruction::Ldl(a, b) => Instruction::Stl(a, b),
        Instruction::Ldup(a) => Instruction::Stup(a),
        Instruction::Builtin(a) => Instruction::StoreBuiltin(a),
        Instruction::Ldm(a) => Instruction::Stm(a),
        _ => i,
    }
}

/// The stores into the variables `v` from `i` on: each the store that
/// matches the variable's load.
pub open spec fn stores_code<N>(v: Seq<String>, i: int, c: Ctx, s: St<N>) -> (
    Result<Seq<Instruction<Const<N>>>, Failure>,
    St<N>,
)
    decreases v.len() - i,
{
    if i >= v.len() || i < 0 {
        (Ok(Seq::empty()), s)
    } else {
        let o = var_step::<N>(c, s, v[i]@);
        let o1 = match o.0 {
            Ok(code) => (Ok(code.drop_last().push(stored(code.last()))), o.1),
            Err(e) => (Err(e), o.1),
        };
        glue(o1, stores_code(v, i + 1, c, o1.1))
    }
}

/// Loads of the names of `v` from `i` on, each interned as a text.
pub open spec fn name_loads<N>(v: Seq<String>, i: int, s: St<N>) -> (Seq<Instruction<Const<N>>>, St<N>)
    decreases v.len() - i,
{
    if i >= v.len() || i < 0 {
        (Seq::empty(), s)
    } else {
        let rest = name_loads::<N>(v, i + 1, with_text(s, v[i]@));
        (seq![Instruction::Cld(Const::Text(text_index(s.pool, v[i]@)))] + rest.0, rest.1)
    }
}

/// The slot of the local `x` of the innermost scope, made when it has
/// none.
pub open spec fn local_step<N>(s: St<N>, x: Seq<char>) -> (usize, St<N>) {
    let n = s.chain.len();
    let last = s.chain.last();
    match position_of(last.locals, x) {
        Some(i) => (i as usize, s),
        None => (
            last.locals.len() as usize,
            St { chain: s.chain.update(n - 1, ScopeView { locals: last.locals.push(x), ..last }), ..s },
        ),
    }
}

/// The stores into new locals `v` from `i` on: a local of the innermost
/// scope is made for each name that has none.
pub open spec fn locals_code<N>(v: Seq<String>, i: int, c: Ctx, s: St<N>) -> (
    Result<Seq<Instruction<Const<N>>>, Failure>,
    St<N>,
)
    decreases v.len() - i,
{
    if i >= v.len() || i < 0 {
        (Ok(Seq::empty()), s)
    } else if s.chain.last().locals.len() >= usize::MAX {
        (Err(Failure::Other), s)
    } else {
        let (k, s1) = local_step(s, v[i]@);
        glue((Ok(seq![Instruction::Stl(0, k)]), s1), locals_code(v, i + 1, c, s1))
    }
}

/// The code of a loop with its `break` and `continue` markers made into
/// jumps: a `break` at `pos` jumps to `end`, a `continue` back to the
/// start of the code (the first instruction is left as it is).
pub open spec fn patched<N>(code: Seq<Instruction<Const<N>>>, end: int) -> Seq<Instruction<Const<N>>> {
    Seq::new(
        code.len(),
        |pos: int|
            if pos > 0 && end > 0 {
                match code[pos] {
                    Instruction::Pg45Break => Instruction::Jmp((end - pos - 1) as i64),
                    Instruction::Pg45Continue => Instruction::Jmp((-(pos + 1)) as i64),
                    _ => code[pos],
                }
            } else {
                code[pos]
            },
    )
}

/// Unpacks the value into `n` values first when there is more than one
/// name.
pub open spec fn unpack_for<N>(n: nat) -> Seq<Instruction<Const<N>>> {
    if n > 1 {
        seq![Instruction::Unpack(n as usize)]
    } else {
        Seq::empty()
    }
}

/// What compiling a function body gives: a function that needs nothing
/// of the scopes around it (by its index in the function table), or, for
/// one that captures variables, whether its body has no locals and the
/// code that makes it.
pub enum LambdaCode<N> {
    Static(usize),
    Upval(bool, Vec<Instruction<Const<N>>>),
}

/// `LambdaCode` as the specification sees it.
pub enum LambdaOut<N> {
    Static(usize),
    Upval(bool, Seq<Instruction<Const<N>>>),
}

pub open spec fn lambda_view<N>(l: LambdaCode<N>) -> LambdaOut<N> {
    match l {
        LambdaCode::Static(k) => LambdaOut::Static(k),
        LambdaCode::Upval(b, code) => LambdaOut::Upval(b, code@),
    }
}

/// The members after `k` is set to `v`: an existing member keeps its
/// place, a new one goes last.
pub open spec fn set_member(m: Seq<(Seq<char>, Member)>, k: Seq<char>, v: Member) -> Seq<(Seq<char>, Member)> {
    match first_key(m, k) {
        Some(i) => m.update(i, (k, v)),
        None => m.push((k, v)),
    }
}

/// The members after `k` is made a null member unless it is one already.
pub open spec fn ensure_member(m: Seq<(Seq<char>, Member)>, k: Seq<char>) -> Seq<(Seq<char>, Member)> {
    if first_key(m, k) is Some {
        m
    } else {
        m.push((k, Member::Null))
    }
}

/// The first argument name that an earlier one already has.
pub open spec fn first_dup(ns: Seq<Seq<char>>, i: int) -> Option<int>
    decreases ns.len() - i,
{
    if i >= ns.len() || i < 0 {
        None
    } else if position_of(ns.take(i), ns[i]) is Some {
        Some(i)
    } else {
        first_dup(ns, i + 1)
    }
}

/// Whether the arguments make a method: the first is `self`.
pub open spec fn is_method_args(args: Seq<String>) -> bool {
    args.len() > 0 && args[0]@ == "self"@
}

/// The code that loads the captured variable `id` (with origin `(a, b)`)
/// in the scope around a function: its local or upvalue there; an
/// upvalue made for it when it comes from further out; or the place of
/// its origin.
pub open spec fn capture_step<N>(s: St<N>, id: Seq<char>, a: usize, b: usize) -> (
    Result<Instruction<Const<N>>, Failure>,
    St<N>,
) {
    let n = s.chain.len();
    let last = s.chain.last();
    let ups = keys(last.upvals);
    if n == 0 {
        (Ok(Instruction::Ldl(a, b)), s)
    } else if position_of(last.locals, id) is Some {
        (Ok(Instruction::Ldl(0, (position_of(last.locals, id)->0) as usize)), s)
    } else if position_of(ups, id) is Some {
        (Ok(Instruction::Ldup((position_of(ups, id)->0) as usize)), s)
    } else if a > 0 {
        if ups.len() >= usize::MAX {
            (Err(Failure::Other), s)
        } else {
            (
                Ok(Instruction::Ldup(ups.len() as usize)),
                St {
                    chain: s.chain.update(
                        n - 1,
                        ScopeView { upvals: last.upvals.push((id, origin_for((a, b), false))), ..last },
                    ),
                    ..s
                },
            )
        }
    } else {
        (Ok(Instruction::Ldl(a, b)), s)
    }
}

/// The loads of the captured variables `ups` from `i` on.
pub open spec fn captures<N>(ups: Seq<(Seq<char>, Origin)>, i: int, s: St<N>) -> (
    Result<Seq<Instruction<Const<N>>>, Failure>,
    St<N>,
)
    decreases ups.len() - i,
{
    if i >= ups.len() || i < 0 {
        (Ok(Seq::empty()), s)
    } else {
        let o = capture_step(s, ups[i].0, ups[i].1.0, ups[i].1.1);
        match o.0 {
            Err(x) => (Err(x), o.1),
            Ok(ins) => glue((Ok(seq![ins]), o.1), captures(ups, i + 1, o.1)),
        }
    }
}

/// Body code that ends in a return, one added when it does not.
pub open spec fn with_return<N>(code: Seq<Instruction<Const<N>>>) -> Seq<Instruction<Const<N>>> {
    if code.len() > 0 && code.last() is Return {
        code
    } else {
        code.push(Instruction::Return(0))
    }
}

/// Compiling a function with arguments `args` and body `body`: the
/// arguments are the first locals of a new innermost scope (a repeated
/// name fails), the body is compiled there as the code of a new function
/// with no members, ending in a return; the scope is then dropped and the
/// function goes last in the function table. A body that captured
/// nothing gives the function; otherwise the code loads it and each
/// captured variable (see `capture_step`) and makes a closure of them.
pub open spec fn lambda_code<N>(
    args: Seq<String>,
    body: Statement<N>,
    name: Option<Seq<char>>,
    doc: Option<Seq<char>>,
    c: Ctx,
    s: St<N>,
) -> (Result<LambdaOut<N>, Failure>, St<N>)
    decreases body, 1nat,
{
    let names = name_views(args);
    match first_dup(names, 0) {
        Some(j) => (Err(Failure::Parser("Duplicate argument: "@ + names[j])), s),
        None => {
            let inner = St {
                chain: s.chain.push(ScopeView { locals: names, upvals: Seq::empty() }),
                members: Seq::empty(),
                ..s
            };
            let ob = stmt_code(body, c, inner);
            match ob.0 {
                Err(x) => (Err(x), St { members: s.members, ..ob.1 }),
                Ok(code) => if ob.1.chain.len() == 0 {
                    (Err(Failure::Other), St { members: s.members, ..ob.1 })
                } else {
                    let blk = ob.1.chain.last();
                    let f = FunctionView {
                        code: with_return(code),
                        nargs: if is_method_args(args) { (args.len() - 1) as usize } else { args.len() as usize },
                        nlocals: blk.locals.len() as usize,
                        is_method: is_method_args(args),
                        name,
                        doc,
                        members: ob.1.members,
                    };
                    let k = ob.1.funcs.len() as usize;
                    let s2 = St { chain: ob.1.chain.drop_last(), funcs: ob.1.funcs.push(f), members: s.members, ..ob.1 };
                    if blk.upvals.len() == 0 {
                        (Ok(LambdaOut::Static(k)), s2)
                    } else {
                        let oc = captures(blk.upvals, 0, s2);
                        match oc.0 {
                            Err(x) => (Err(x), oc.1),
                            Ok(loads) => (
                                Ok(LambdaOut::Upval(
                                    blk.locals.len() == 0,
                                    seq![Instruction::Cld(Const::Func(k))] + loads + seq![
                                        Instruction::MkFunc(blk.upvals.len() as usize),
                                    ],
                                )),
                                oc.1,
                            ),
                        }
                    }
                },
            }
        },
    }
}

/// Capturing variables leaves the function table and the members as they
/// were.
proof fn lemma_captures_keep<N>(ups: Seq<(Seq<char>, Origin)>, i: int, s: St<N>)
    ensures
        captures(ups, i, s).1.funcs == s.funcs,
        captures(ups, i, s).1.members == s.members,
    decreases ups.len() - i,
{
    if 0 <= i < ups.len() {
        let o = capture_step(s, ups[i].0, ups[i].1.0, ups[i].1.1);
        lemma_captures_keep(ups, i + 1, o.1);
    }
}

/// A compiled function goes last in the function table and its code ends
/// in a return: a function that captures nothing is that last entry, and
/// the code of one that captures loads that entry first and makes the
/// closure last. Its name, documentation and kind are those it was
/// compiled with.
pub proof fn lemma_lambda_is_last<N>(
    args: Seq<String>,
    body: Statement<N>,
    name: Option<Seq<char>>,
    doc: Option<Seq<char>>,
    c: Ctx,
    s: St<N>,
)
    ensures
        ({
            let o = lambda_code(args, body, name, doc, c, s);
            let fs = o.1.funcs;
            o.0 is Ok ==> {
                &&& fs.len() > 0
                &&& fs.last().code.len() > 0
                &&& fs.last().code.last() is Return
                &&& fs.last().name == name
                &&& fs.last().doc == doc
                &&& fs.last().is_method == is_method_args(args)
                &&& o.1.members == s.members
                &&& match o.0->Ok_0 {
                    LambdaOut::Static(k) => k == (fs.len() - 1) as usize,
                    LambdaOut::Upval(_, code) => code.len() >= 2 && code[0] == Instruction::<Const<N>>::Cld(
                        Const::Func((fs.len() - 1) as usize),
                    ) && code.last() is MkFunc,
                }
            }
        }),
{
    let names = name_views(args);
    if first_dup(names, 0) is None {
        let inner = St {
            chain: s.chain.push(ScopeView { locals: names, upvals: Seq::empty() }),
            members: Seq::empty(),
            ..s
        };
        let ob = stmt_code(body, c, inner);
        if ob.0 is Ok && ob.1.chain.len() > 0 {
            let blk = ob.1.chain.last();
            let code = ob.0->Ok_0;
            let f = FunctionView {
                code: with_return(code),
                nargs: if is_method_args(args) { (args.len() - 1) as usize } else { args.len() as usize },
                nlocals: blk.locals.len() as usize,
                is_method: is_method_args(args),
                name,
                doc,
                members: ob.1.members,
            };
            let s2 = St { chain: ob.1.chain.drop_last(), funcs: ob.1.funcs.push(f), members: s.members, ..ob.1 };
            lemma_captures_keep(blk.upvals, 0, s2);
            assert(s2.funcs.last() == f);
            assert(f.code.last() is Return);
            let oc = captures(blk.upvals, 0, s2);
            if oc.0 is Ok {
                let k = ob.1.funcs.len() as usize;
                let made = seq![Instruction::<Const<N>>::Cld(Const::Func(k))] + oc.0->Ok_0 + seq![
                    Instruction::<Const<N>>::MkFunc(blk.upvals.len() as usize),
                ];
                assert(made[0] == Instruction::<Const<N>>::Cld(Const::Func(k)));
                assert(made.last() == Instruction::<Const<N>>::MkFunc(blk.upvals.len() as usize));
            }
        }
    }
}

/// The store into the variable `x` that a function declaration makes: an
/// upvalue of the innermost scope, or its local, made when it has none.
pub open spec fn decl_store<N>(s: St<N>, x: Seq<char>) -> (Instruction<Const<N>>, St<N>) {
    let last = s.chain.last();
    match position_of(keys(last.upvals), x) {
        Some(i) => (Instruction::Stup(i as usize), s),
        None => {
            let (k, s1) = local_step(s, x);
            (Instruction::Stl(0, k), s1)
        },
    }
}

/// The member stores of `pub` names `v` from `i` on: each name is interned
/// and made a null member, and the value is stored into it.
pub open spec fn extern_stores<N>(v: Seq<String>, i: int, s: St<N>) -> (Seq<Instruction<Const<N>>>, St<N>)
    decreases v.len() - i,
{
    if i >= v.len() || i < 0 {
        (Seq::empty(), s)
    } else {
        let s1 = with_text(s, v[i]@);
        let s2 = St { members: set_member(s1.members, v[i]@, Member::Null), ..s1 };
        let rest = extern_stores::<N>(v, i + 1, s2);
        (seq![Instruction::This, Instruction::Stm(text_index(s.pool, v[i]@))] + rest.0, rest.1)
    }
}

/// The code of a statement, compiled in state `s`, with the state after
/// it.
pub open spec fn stmt_code<N>(t: Statement<N>, c: Ctx, s: St<N>) -> (
    Result<Seq<Instruction<Const<N>>>, Failure>,
    St<N>,
)
    decreases t, 0nat,
{
    match t {
        Statement::Empty => (Ok(Seq::empty()), s),
        Statement::Break => (Ok(seq![Instruction::Pg45Break]), s),
        Statement::Continue => (Ok(seq![Instruction::Pg45Continue]), s),
        Statement::RaiseCurrent => (Ok(seq![Instruction::Raise(RaiseErrKind::CurrentError)]), s),
        Statement::RaiseNorm(a) => (
            Ok(seq![Instruction::Cld(Const::Text(text_index(s.pool, a@))), Instruction::Raise(RaiseErrKind::FromStack)]),
            with_text(s, a@),
        ),
        Statement::RaiseNormWithWhy(a, w) => with_code(
            glue(
                (Ok(seq![Instruction::Cld(Const::Text(text_index(s.pool, a@)))]), with_text(s, a@)),
                code_of(*w, c, with_text(s, a@)),
            ),
            seq![Instruction::Raise(RaiseErrKind::FromStackWithWhy)],
        ),
        Statement::RaiseObj(e) => with_code(code_of(*e, c, s), seq![Instruction::Raise(RaiseErrKind::FromStackObj)]),
        Statement::Return(None) => (Ok(seq![Instruction::Return(0)]), s),
        Statement::Return(Some(e)) => with_code(code_of(*e, c, s), seq![Instruction::Return(1)]),
        Statement::Expr(e) => {
            let o = code_of(*e, c, s);
            match o.0 {
                Ok(code) => (Ok(if code.len() > 0 { code.push(Instruction::Pop) } else { code }), o.1),
                Err(_) => o,
            }
        },
        Statement::ArraySet(a, b, d) => {
            let od = code_of(*d, c, s);
            let oa = code_of(*a, c, od.1);
            with_code(glue(glue(od, oa), code_of(*b, c, oa.1)), seq![Instruction::ArraySet])
        },
        Statement::Block(v) => stmts_code(v, 0, c, s),
        Statement::NewAssignment(names, e) => {
            let o = with_code(code_of(*e, c, s), unpack_for(names@.len()));
            if o.1.chain.len() == 0 {
                match o.0 {
                    Err(_) => o,
                    Ok(_) => (Err(Failure::Other), o.1),
                }
            } else {
                glue(o, locals_code(names@, 0, c, o.1))
            }
        },
        Statement::Assignment(names, e) => {
            let o = with_code(code_of(*e, c, s), unpack_for(names@.len()));
            glue(o, stores_code(names@, 0, c, o.1))
        },
        Statement::If(e, a, None) => {
            let oe = code_of(*e, c, s);
            let oa = stmt_code(*a, c, oe.1);
            match (oe.0, oa.0) {
                (Err(_), _) => oe,
                (Ok(_), Err(x)) => (Err(x), oa.1),
                (Ok(ce), Ok(ca)) => if ca.len() + 1 > usize::MAX {
                    (Err(Failure::Other), oa.1)
                } else {
                    (Ok(ce + seq![Instruction::Ktest((ca.len() + 1) as usize)] + ca), oa.1)
                },
            }
        },
        Statement::If(e, a, Some(g)) => {
            let oe = code_of(*e, c, s);
            let oa = stmt_code(*a, c, oe.1);
            let og = stmt_code(*g, c, oa.1);
            match (oe.0, oa.0, og.0) {
                (Err(_), _, _) => oe,
                (Ok(_), Err(x), _) => (Err(x), oa.1),
                (Ok(_), Ok(_), Err(x)) => (Err(x), og.1),
                (Ok(ce), Ok(ca), Ok(cg)) => if ce.len() + ca.len() + cg.len() + 3 > i64::MAX || ce.len() + ca.len() + cg.len() + 3 > usize::MAX {
                    (Err(Failure::Other), og.1)
                } else {
                    (
                        Ok(ce + seq![Instruction::Test((ca.len() + 2) as usize)] + ca + seq![
                            Instruction::Jmp((cg.len() + 1) as i64),
                            Instruction::Ktest((cg.len() + 1) as usize),
                        ] + cg),
                        og.1,
                    )
                },
            }
        },
        Statement::While(e, b) => {
            let oe = code_of(*e, c, s);
            let ob = stmt_code(*b, c, oe.1);
            match (oe.0, ob.0) {
                (Err(_), _) => oe,
                (Ok(_), Err(x)) => (Err(x), ob.1),
                (Ok(ce), Ok(cb)) => if ce.len() + cb.len() + 3 > i64::MAX || ce.len() + cb.len() + 3 > usize::MAX {
                    (Err(Failure::Other), ob.1)
                } else {
                    let end = (ce.len() + cb.len() + 2) as int;
                    (
                        Ok(patched(
                            ce + seq![Instruction::Ktest((cb.len() + 2) as usize)] + cb + seq![
                                Instruction::Jmp((-end) as i64),
                            ],
                            end,
                        )),
                        ob.1,
                    )
                },
            }
        },
        Statement::For(names, e, b) => {
            let oe = code_of(*e, c, s);
            let ol = locals_code::<N>(names@, 0, c, oe.1);
            let ob = stmt_code(*b, c, ol.1);
            if oe.0 is Err {
                oe
            } else if oe.1.chain.len() == 0 {
                (Err(Failure::Other), oe.1)
            } else if ol.0 is Err {
                (Err(ol.0->Err_0), ol.1)
            } else if ob.0 is Err {
                (Err(ob.0->Err_0), ob.1)
            } else {
                let ce = oe.0->Ok_0;
                let body = seq![
                    Instruction::Dup,
                    Instruction::Call(0),
                    Instruction::Unpack(2),
                    Instruction::Rot,
                    Instruction::Ktest(0),
                ] + unpack_for::<N>(names@.len()) + ol.0->Ok_0 + ob.0->Ok_0;
                if ce.len() + body.len() + 3 > i64::MAX || ce.len() + body.len() + 3 > usize::MAX {
                    (Err(Failure::Other), ob.1)
                } else {
                    let diff = (body.len() + 1) as int;
                    (
                        Ok(ce + patched(body, diff).update(4, Instruction::Ktest((body.len() - 3) as usize))
                            + seq![Instruction::Jmp((-diff) as i64), Instruction::Pop, Instruction::Pop]),
                        ob.1,
                    )
                }
            }
        },
        Statement::Try(tr, err, as_name, ca) => {
            let ot = stmt_code(*tr, c, s);
            let errpart = match err {
                Some(names) => {
                    let l = name_loads::<N>(names@, 0, ot.1);
                    (l.0 + seq![Instruction::ESwitch(names@.len() as usize)], l.1)
                },
                None => (seq![Instruction::LoadErr], ot.1),
            };
            let oh = match as_name {
                Some(name) => locals_code::<N>(seq![name], 0, c, errpart.1),
                None => (Ok(seq![Instruction::Pop]), errpart.1),
            };
            let oc = stmt_code(*ca, c, oh.1);
            if ot.0 is Err {
                ot
            } else if errpart.1.chain.len() == 0 {
                (Err(Failure::Other), errpart.1)
            } else {
                match (ot.0, oh.0, oc.0) {
                    (Err(x), _, _) => (Err(x), ot.1),
                    (Ok(_), Err(x), _) => (Err(x), oh.1),
                    (Ok(_), Ok(_), Err(x)) => (Err(x), oc.1),
                    
                    (Ok(ct), Ok(ch), Ok(cc)) => {
                    let catches = ch + cc + seq![Instruction::Fcb];
                    if ct.len() + catches.len() + errpart.0.len() + 3 > usize::MAX {
                        (Err(Failure::Other), oc.1)
                    } else {
                        (
                            Ok(seq![Instruction::Ltb((ct.len() + 2) as usize)] + ct + seq![
                                Instruction::Ftb((catches.len() + 2) as usize),
                            ] + errpart.0 + catches),
                            oc.1,
                        )
                    }
                },
                }
            }
        },
        Statement::TryFinally(tr, err, as_name, ca, fi) => {
            let ot = stmt_code(*tr, c, s);
            let errpart = match err {
                Some(names) => {
                    let l = name_loads::<N>(names@, 0, ot.1);
                    (l.0 + seq![Instruction::ESwitch(names@.len() as usize)], l.1)
                },
                None => (seq![Instruction::LoadErr], ot.1),
            };
            let oh = match as_name {
                Some(name) => locals_code::<N>(seq![name], 0, c, errpart.1),
                None => (Ok(seq![Instruction::Pop]), errpart.1),
            };
            let oc = stmt_code(*ca, c, oh.1);
            let of = stmt_code(*fi, c, oc.1);
            if ot.0 is Err {
                ot
            } else if errpart.1.chain.len() == 0 {
                (Err(Failure::Other), errpart.1)
            } else {
                match (ot.0, oh.0, oc.0, of.0) {
                    (Err(x), _, _, _) => (Err(x), ot.1),
                    (Ok(_), Err(x), _, _) => (Err(x), oh.1),
                    (Ok(_), Ok(_), Err(x), _) => (Err(x), oc.1),
                    (Ok(_), Ok(_), Ok(_), Err(x)) => (Err(x), of.1),
                    (Ok(ct), Ok(ch), Ok(cc), Ok(cf)) => {
                    let catches = ch + cc + seq![Instruction::Fcb];
                    if ct.len() + catches.len() + cf.len() + errpart.0.len() + 4 > usize::MAX || cf.len() > i64::MAX {
                        (Err(Failure::Other), of.1)
                    } else {
                        (
                            Ok(seq![Instruction::Ltb((ct.len() + 2) as usize)] + ct + seq![
                                Instruction::Ftb((catches.len() + 2) as usize),
                            ] + errpart.0 + catches + seq![Instruction::Jmp(cf.len() as i64)] + cf),
                            of.1,
                        )
                    }
                },
                }
            }
        },
        Statement::AccessAssignment(a, b) => {
            let ob = code_of(*b, c, s);
            let oa = code_of(*a, c, ob.1);
            match (ob.0, oa.0) {
                (Err(x), _) => ob,
                (Ok(_), Err(x)) => (Err(x), oa.1),
                (Ok(cb), Ok(ca)) => (Ok((cb + ca).drop_last().push(stored((cb + ca).last()))), oa.1),
            }
        },
        Statement::Function(name, args, doc, body) => {
            let ol = lambda_code(args@, *body, Some(name@), opt_view(doc), c, with_text(s, name@));
            match ol.0 {
                Err(x) => (Err(x), ol.1),
                Ok(lc) => if ol.1.chain.len() == 0 || ol.1.chain.last().locals.len() >= usize::MAX {
                    (Err(Failure::Other), ol.1)
                } else {
                    let (st, s2) = decl_store(ol.1, name@);
                    match lc {
                        LambdaOut::Static(k) => (Ok(seq![Instruction::Cld(Const::Func(k)), st]), s2),
                        LambdaOut::Upval(_, code) => (Ok(code.push(st)), s2),
                    }
                },
            }
        },
        Statement::ExternFunction(name, args, doc, body) => {
            let s0 = with_text(s, name@);
            let s1 = St { members: ensure_member(s0.members, name@), ..s0 };
            let ol = lambda_code(args@, *body, Some(name@), opt_view(doc), c, s1);
            match ol.0 {
                Err(x) => (Err(x), ol.1),
                Ok(LambdaOut::Static(k)) => (
                    Ok(Seq::empty()),
                    St { members: set_member(ol.1.members, name@, Member::Function(k)), ..ol.1 },
                ),
                Ok(LambdaOut::Upval(_, code)) => (
                    Ok(code + seq![Instruction::This, Instruction::Stm(text_index(s.pool, name@))]),
                    ol.1,
                ),
            }
        },
        Statement::ExternAssignment(names, e) => {
            let o = with_code(code_of(*e, c, s), unpack_for(names@.len()));
            match o.0 {
                Err(_) => o,
                Ok(code) => (
                    Ok(code + extern_stores::<N>(names@, 0, o.1).0),
                    extern_stores::<N>(names@, 0, o.1).1,
                ),
            }
        },
        _ => (Err(Failure::Other), s),
    }
}

/// The code of the statements of `v` from `i` on, one after the other.
pub open spec fn stmts_code<N>(v: Vec<Statement<N>>, i: int, c: Ctx, s: St<N>) -> (
    Result<Seq<Instruction<Const<N>>>, Failure>,
    St<N>,
)
    decreases v, v@.len() - i,
{
    if i >= v@.len() || i < 0 {
        (Ok(Seq::empty()), s)
    } else {
        let o = stmt_code(v[i], c, s);
        glue(o, stmts_code(v, i + 1, c, o.1))
    }
}

/// Whether the compiler handles the statement: its expressions and the
/// bodies of its functions are handled, and a member assignment writes to
/// an access path.
pub open spec fn stmt_supported<N>(t: Statement<N>) -> bool
    decreases t, 0nat,
{
    match t {
        Statement::Empty | Statement::Break | Statement::Continue | Statement::RaiseCurrent
        | Statement::RaiseNorm(_) | Statement::Return(None) => true,
        Statement::RaiseNormWithWhy(_, e) | Statement::RaiseObj(e) | Statement::Return(Some(e))
        | Statement::Expr(e) | Statement::NewAssignment(_, e) | Statement::Assignment(_, e) => supported(*e),
        Statement::ArraySet(a, b, d) => supported(*a) && supported(*b) && supported(*d),
        Statement::Block(v) => all_stmts_supported(v, 0),
        Statement::If(e, a, None) => supported(*e) && stmt_supported(*a),
        Statement::If(e, a, Some(g)) => supported(*e) && stmt_supported(*a) && stmt_supported(*g),
        Statement::While(e, b) | Statement::For(_, e, b) => supported(*e) && stmt_supported(*b),
        Statement::Try(a, _, _, b) => stmt_supported(*a) && stmt_supported(*b),
        Statement::TryFinally(a, _, _, b, d) => stmt_supported(*a) && stmt_supported(*b) && stmt_supported(*d),
        Statement::AccessAssignment(a, b) => *a is Dotted && supported(*a) && supported(*b),
        Statement::Function(_, _, _, b) | Statement::ExternFunction(_, _, _, b) => stmt_supported(*b),
        Statement::ExternAssignment(_, e) => supported(*e),
        _ => false,
    }
}

pub open spec fn all_stmts_supported<N>(v: Vec<Statement<N>>, i: int) -> bool
    decreases v, v@.len() - i,
{
    if i >= v@.len() || i < 0 {
        true
    } else {
        stmt_supported(v[i]) && all_stmts_supported(v, i + 1)
    }
}

/// A compile result agrees with the specification's: the same code or the
/// same failure, the same constant pool, and the scopes as the
/// specification left them.
pub open spec fn agrees<N>(
    r: Result<Vec<Instruction<Const<N>>>, Error>,
    o: (Result<Seq<Instruction<Const<N>>>, Failure>, St<N>),
    pool: Seq<ConstantView>,
    actual: Seq<WizardBlock>,
    d: Decls<N>,
) -> bool {
    &&& match r {
        Ok(code) => o.0 == Ok::<Seq<Instruction<Const<N>>>, Failure>(code@),
        Err(err) => o.0 == Err::<Seq<Instruction<Const<N>>>, Failure>(failure(err)),
    }
    &&& pool == o.1.pool
    &&& chain_rel(o.1, actual)
    &&& decls_rel(o.1, d)
}

/// Code done so far, followed by the rest, is the whole.
proof fn lemma_glue_step<N>(
    out: Seq<Instruction<Const<N>>>,
    st: St<N>,
    x: Seq<Instruction<Const<N>>>,
    st1: St<N>,
    rest: (Result<Seq<Instruction<Const<N>>>, Failure>, St<N>),
)
    ensures
        glue((Ok(out), st), glue((Ok(x), st1), rest)) == glue((Ok(out + x), st1), rest),
{
    match rest.0 {
        Ok(r) => {
            assert((out + x) + r =~= out + (x + r));
        },
        Err(_) => {},
    }
}

/// Appends the member loads of the names of `v` from `i` on to `code`.
fn compile_members<N>(v: &Vec<String>, i: usize, code: &mut Vec<Instruction<Const<N>>>, consts: &mut ConstantLib, Ghost(s): Ghost<St<N>>)
    requires
        old(consts)@ == s.pool,
    ensures
        final(code)@ == old(code)@ + members::<N>(v@, i as int, s).0,
        final(consts)@ == members::<N>(v@, i as int, s).1.pool,
        s.chain == members::<N>(v@, i as int, s).1.chain,
        s.funcs == members::<N>(v@, i as int, s).1.funcs,
        s.members == members::<N>(v@, i as int, s).1.members,
    decreases v@.len() - i,
{
    if i >= v.len() {
        assert(old(code)@ + Seq::<Instruction<Const<N>>>::empty() =~= old(code)@);
        return;
    }
    let (k, _) = consts.get_or_create_tconstant(v[i].clone());
    proof {
        crate::function::lemma_first_text(s.pool, v@[i as int]@);
        if first_text(s.pool, v@[i as int]@) is None {
            crate::function::lemma_text_found_after_add(s.pool, v@[i as int]@);
        }
    }
    code.push(Instruction::Ldm(k));
    compile_members(v, i + 1, code, consts, Ghost(with_text(s, v@[i as int]@)));
    proof {
        assert(code@ =~= old(code)@ + members::<N>(v@, i as int, s).0);
    }
}

/// Appends loads of the names of `v` from `i` on, each interned as a text
/// (see `name_loads`).
fn compile_name_loads<N>(v: &Vec<String>, i: usize, code: &mut Vec<Instruction<Const<N>>>, consts: &mut ConstantLib, Ghost(s): Ghost<St<N>>)
    requires
        old(consts)@ == s.pool,
    ensures
        final(code)@ == old(code)@ + name_loads::<N>(v@, i as int, s).0,
        final(consts)@ == name_loads::<N>(v@, i as int, s).1.pool,
        s.chain == name_loads::<N>(v@, i as int, s).1.chain,
        s.funcs == name_loads::<N>(v@, i as int, s).1.funcs,
        s.members == name_loads::<N>(v@, i as int, s).1.members,
    decreases v@.len() - i,
{
    if i >= v.len() {
        assert(old(code)@ + Seq::<Instruction<Const<N>>>::empty() =~= old(code)@);
        return;
    }
    let (k, _) = consts.get_or_create_tconstant(v[i].clone());
    proof {
        crate::function::lemma_first_text(s.pool, v@[i as int]@);
        if first_text(s.pool, v@[i as int]@) is None {
            crate::function::lemma_text_found_after_add(s.pool, v@[i as int]@);
        }
    }
    code.push(Instruction::Cld(Const::Text(k)));
    compile_name_loads(v, i + 1, code, consts, Ghost(with_text(s, v@[i as int]@)));
    proof {
        assert(code@ =~= old(code)@ + name_loads::<N>(v@, i as int, s).0);
    }
}

/// The position of the member `k`.
fn find_member<N>(decls: &Decls<N>, k: &String) -> (r: Option<usize>)
    ensures
        match first_key(member_views(decls.members@), k@) {
            Some(i) => r == Some(i as usize),
            None => r is None,
        },
{
    let ghost m = member_views(decls.members@);
    proof {
        crate::refrence::lemma_first_key(m, k@);
    }
    let mut i: usize = 0;
    while i < decls.members.len()
        invariant
            i <= decls.members@.len(),
            m == member_views(decls.members@),
            forall|j: int| 0 <= j < i ==> m[j].0 != k@,
        decreases decls.members@.len() - i,
    {
        if decls.members[i].0 == *k {
            proof {
                assert(m[i as int] == (decls.members@[i as int].0@, decls.members@[i as int].1));
                crate::refrence::lemma_first_key(m, k@);
            }
            return Some(i);
        }
        proof {
            assert(m[i as int] == (decls.members@[i as int].0@, decls.members@[i as int].1));
        }
        i = i + 1;
    }
    proof {
        crate::refrence::lemma_first_key(m, k@);
    }
    None
}

/// Sets the member `k` to `v` (see `set_member`).
fn set_member_in<N>(decls: &mut Decls<N>, k: String, v: Member)
    ensures
        member_views(final(decls).members@) == set_member(member_views(old(decls).members@), k@, v),
        final(decls).functions == old(decls).functions,
{
    proof {
        crate::refrence::lemma_first_key(member_views(decls.members@), k@);
    }
    match find_member(decls, &k) {
        Some(i) => {
            let ghost kv = k@;
            decls.members.set(i, (k, v));
            assert(member_views(decls.members@) =~= member_views(old(decls).members@).update(i as int, (kv, v)));
        },
        None => {
            let ghost kv = k@;
            decls.members.push((k, v));
            assert(member_views(decls.members@) =~= member_views(old(decls).members@).push((kv, v)));
        },
    }
}

/// Makes `k` a null member unless it is one already (see `ensure_member`).
fn ensure_member_in<N>(decls: &mut Decls<N>, k: String)
    ensures
        member_views(final(decls).members@) == ensure_member(member_views(old(decls).members@), k@),
        final(decls).functions == old(decls).functions,
{
    if find_member(decls, &k).is_none() {
        let ghost kv = k@;
        decls.members.push((k, Member::Null));
        assert(member_views(decls.members@) =~= member_views(old(decls).members@).push((kv, Member::Null)));
    }
}

/// Appends the member stores of `v` from `i` on (see `extern_stores`).
fn compile_extern_stores<N>(
    v: &Vec<String>,
    i: usize,
    code: &mut Vec<Instruction<Const<N>>>,
    consts: &mut ConstantLib,
    decls: &mut Decls<N>,
    Ghost(s): Ghost<St<N>>,
)
    requires
        old(consts)@ == s.pool,
        member_views(old(decls).members@) == s.members,
    ensures
        final(code)@ == old(code)@ + extern_stores::<N>(v@, i as int, s).0,
        final(consts)@ == extern_stores::<N>(v@, i as int, s).1.pool,
        member_views(final(decls).members@) == extern_stores::<N>(v@, i as int, s).1.members,
        final(decls).functions == old(decls).functions,
        s.chain == extern_stores::<N>(v@, i as int, s).1.chain,
        s.funcs == extern_stores::<N>(v@, i as int, s).1.funcs,
    decreases v@.len() - i,
{
    if i >= v.len() {
        assert(old(code)@ + Seq::<Instruction<Const<N>>>::empty() =~= old(code)@);
        return;
    }
    let (k, _) = consts.get_or_create_tconstant(v[i].clone());
    proof {
        crate::function::lemma_first_text(s.pool, v@[i as int]@);
        if first_text(s.pool, v@[i as int]@) is None {
            crate::function::lemma_text_found_after_add(s.pool, v@[i as int]@);
        }
    }
    set_member_in(decls, v[i].clone(), Member::Null);
    code.push(Instruction::This);
    code.push(Instruction::Stm(k));
    let ghost s1 = with_text(s, v@[i as int]@);
    compile_extern_stores(v, i + 1, code, consts, decls, Ghost(St { members: set_member(s1.members, v@[i as int]@, Member::Null), ..s1 }));
    proof {
        assert(code@ =~= old(code)@ + extern_stores::<N>(v@, i as int, s).0);
    }
}

/// The load of a captured variable (see `capture_step`).
fn capture_in<N>(blocks: &mut BlockChain, id: &String, a: usize, b: usize, Ghost(s): Ghost<St<N>>) -> (r: Result<
    Instruction<Const<N>>,
    Error,
>)
    requires
        chain_rel(s, old(blocks).0@),
    ensures
        match r {
            Ok(ins) => capture_step(s, id@, a, b).0 == Ok::<Instruction<Const<N>>, Failure>(ins),
            Err(err) => capture_step(s, id@, a, b).0 == Err::<Instruction<Const<N>>, Failure>(failure(err)),
        },
        chain_rel(capture_step(s, id@, a, b).1, final(blocks).0@),
{
    let n = blocks.0.len();
    if n == 0 {
        return Ok(Instruction::Ldl(a, b));
    }
    proof {
        assert(s.chain.last() == scope_view(old(blocks).0@.last()));
    }
    if let Some(p) = blocks.0[n - 1].index_of(id.as_str()) {
        return Ok(Instruction::Ldl(0, p));
    }
    if let Some(x) = blocks.0[n - 1].upval_index_of(id.as_str()) {
        return Ok(Instruction::Ldup(x));
    }
    if a > 0 {
        if blocks.0[n - 1].upval_len() == usize::MAX {
            return Err(Error::InvalidCode);
        }
        let x = blocks.0[n - 1].upval_get_or_create_index(id.clone(), (a, b));
        proof {
            assert(chain_view(blocks.0@) =~= capture_step(s, id@, a, b).1.chain);
        }
        Ok(Instruction::Ldup(x))
    } else {
        Ok(Instruction::Ldl(a, b))
    }
}

/// A copy of an optional text.
fn clone_text(o: &Option<String>) -> (r: Option<String>)
    ensures
        opt_view(r) == opt_view(*o),
{
    match o {
        Some(t) => Some(t.clone()),
        None => None,
    }
}

/// A function compile result agrees with the specification's (see
/// `agrees`).
pub open spec fn agrees_lambda<N>(
    r: Result<LambdaCode<N>, Error>,
    o: (Result<LambdaOut<N>, Failure>, St<N>),
    pool: Seq<ConstantView>,
    actual: Seq<WizardBlock>,
    d: Decls<N>,
) -> bool {
    &&& match r {
        Ok(l) => o.0 == Ok::<LambdaOut<N>, Failure>(lambda_view(l)),
        Err(err) => o.0 == Err::<LambdaOut<N>, Failure>(failure(err)),
    }
    &&& pool == o.1.pool
    &&& chain_rel(o.1, actual)
    &&& decls_rel(o.1, d)
}

/// Compiles `e` (see `code_of`), the scopes standing as `chain_rel` says.
#[verifier::rlimit(100)]
#[verifier::spinoff_prover]
fn compile_in<N: Copy>(
    e: &Expression<N>,
    blocks: &mut BlockChain,
    consts: &mut ConstantLib,
    decls: &mut Decls<N>,
    builtins: &Vec<String>,
    Ghost(c): Ghost<Ctx>,
    Ghost(s): Ghost<St<N>>,
) -> (r: Result<Vec<Instruction<Const<N>>>, Error>)
    requires
        supported(*e),
        chain_rel(s, old(blocks).0@),
        s.pool == old(consts)@,
        decls_rel(s, *old(decls)),
        c.builtins == name_views(builtins@),
    ensures
        agrees(r, code_of(*e, c, s), final(consts)@, final(blocks).0@, *final(decls)),
    decreases e, 0nat,
{
    let ghost s0 = s;
    match e {
        Expression::Import(a) => {
            let (k, _) = consts.get_or_create_tconstant(a.clone());
            proof {
                crate::function::lemma_first_text(s0.pool, a@);
                if first_text(s0.pool, a@) is None {
                    crate::function::lemma_text_found_after_add(s0.pool, a@);
                }
            }
            let v = vec![Instruction::Import(k)];
            assert(v@ =~= seq![Instruction::<Const<N>>::Import(k)]);
            Ok(v)
        },
        Expression::LString(a) => {
            let (k, _) = consts.get_or_create_tconstant(a.clone());
            proof {
                crate::function::lemma_first_text(s0.pool, a@);
                if first_text(s0.pool, a@) is None {
                    crate::function::lemma_text_found_after_add(s0.pool, a@);
                }
            }
            let v = vec![Instruction::Cld(Const::Text(k))];
            assert(v@ =~= seq![Instruction::<Const<N>>::Cld(Const::Text(k))]);
            Ok(v)
        },
        Expression::BString(b) => {
            let (k, _) = consts.get_or_create_bconstant(b.clone());
            proof {
                crate::function::lemma_first_bytes(s0.pool, b@);
                if first_bytes(s0.pool, b@) is None {
                    crate::function::lemma_bytes_found_after_add(s0.pool, b@);
                }
            }
            let v = vec![Instruction::Cld(Const::Bytes(k))];
            assert(v@ =~= seq![Instruction::<Const<N>>::Cld(Const::Bytes(k))]);
            Ok(v)
        },
        Expression::Bool(t) => {
            let v = vec![if *t { Instruction::Cl1 } else { Instruction::Cl0 }];
            assert(v@ =~= seq![if *t { Instruction::<Const<N>>::Cl1 } else { Instruction::<Const<N>>::Cl0 }]);
            Ok(v)
        },
        Expression::Number(n) => {
            let v = vec![Instruction::Cld(Const::Num(*n))];
            assert(v@ =~= seq![Instruction::<Const<N>>::Cld(Const::Num(*n))]);
            Ok(v)
        },
        Expression::Null => {
            let v = vec![Instruction::Cld(Const::Null)];
            assert(v@ =~= seq![Instruction::<Const<N>>::Cld(Const::Null)]);
            Ok(v)
        },
        Expression::This => {
            let v = vec![Instruction::This];
            assert(v@ =~= seq![Instruction::<Const<N>>::This]);
            Ok(v)
        },
        Expression::Variable(b) => compile_var(b, blocks, consts, builtins, Ghost(c), Ghost(s)),
        Expression::Dotted(v) => {
            let this = String::from_str("this");
            proof {
                reveal_strlit("this");
            }
            if v[0] == this {
                let mut code = vec![Instruction::This];
                assert(code@ =~= seq![Instruction::<Const<N>>::This]);
                compile_members(v, 1, &mut code, consts, Ghost(s0));
                Ok(code)
            } else {
                let ghost o = var_step::<N>(c, s0, v@[0]@);
                let mut code = match compile_var(&v[0], blocks, consts, builtins, Ghost(c), Ghost(s)) {
                    Ok(x) => x,
                    Err(err) => return Err(err),
                };
                compile_members(v, 1, &mut code, consts, Ghost(o.1));
                Ok(code)
            }
        },
        Expression::InlineDotted(b, v) => {
            let ghost o = code_of(**b, c, s0);
            let mut code = match compile_in(&**b, blocks, consts, decls, builtins, Ghost(c), Ghost(s0)) {
                Ok(x) => x,
                Err(err) => return Err(err),
            };
            compile_members(v, 0, &mut code, consts, Ghost(o.1));
            Ok(code)
        },
        Expression::Add(a, b) => {
            let ghost oa = code_of(**a, c, s0);
            let ghost ob = code_of(**b, c, oa.1);
            let mut code = match compile_in(&**a, blocks, consts, decls, builtins, Ghost(c), Ghost(s0)) {
                Ok(x) => x,
                Err(err) => return Err(err),
            };
            let mut cb = match compile_in(&**b, blocks, consts, decls, builtins, Ghost(c), Ghost(oa.1)) {
                Ok(x) => x,
                Err(err) => return Err(err),
            };
            code.append(&mut cb);
            code.push(Instruction::Add);
            proof {
                assert(code@ =~= oa.0->Ok_0 + ob.0->Ok_0 + seq![Instruction::<Const<N>>::Add]);
            }
            Ok(code)
        },
        Expression::Sub(a, b) => {
            let ghost oa = code_of(**a, c, s0);
            let ghost ob = code_of(**b, c, oa.1);
            let mut code = match compile_in(&**a, blocks, consts, decls, builtins, Ghost(c), Ghost(s0)) {
                Ok(x) => x,
                Err(err) => return Err(err),
            };
            let mut cb = match compile_in(&**b, blocks, consts, decls, builtins, Ghost(c), Ghost(oa.1)) {
                Ok(x) => x,
                Err(err) => return Err(err),
            };
            code.append(&mut cb);
            code.push(Instruction::Sub);
            proof {
                assert(code@ =~= oa.0->Ok_0 + ob.0->Ok_0 + seq![Instruction::<Const<N>>::Sub]);
            }
            Ok(code)
        },
        Expression::Mul(a, b) => {
            let ghost oa = code_of(**a, c, s0);
            let ghost ob = code_of(**b, c, oa.1);
            let mut code = match compile_in(&**a, blocks, consts, decls, builtins, Ghost(c), Ghost(s0)) {
                Ok(x) => x,
                Err(err) => return Err(err),
            };
            let mut cb = match compile_in(&**b, blocks, consts, decls, builtins, Ghost(c), Ghost(oa.1)) {
                Ok(x) => x,
                Err(err) => return Err(err),
            };
            code.append(&mut cb);
            code.push(Instruction::Mul);
            proof {
                assert(code@ =~= oa.0->Ok_0 + ob.0->Ok_0 + seq![Instruction::<Const<N>>::Mul]);
            }
            Ok(code)
        },
        Expression::Div(a, b) => {
            let ghost oa = code_of(**a, c, s0);
            let ghost ob = code_of(**b, c, oa.1);
            let mut code = match compile_in(&**a, blocks, consts, decls, builtins, Ghost(c), Ghost(s0)) {
                Ok(x) => x,
                Err(err) => return Err(err),
            };
            let mut cb = match compile_in(&**b, blocks, consts, decls, builtins, Ghost(c), Ghost(oa.1)) {
                Ok(x) => x,
                Err(err) => return Err(err),
            };
            code.append(&mut cb);
            code.push(Instruction::Div);
            proof {
                assert(code@ =~= oa.0->Ok_0 + ob.0->Ok_0 + seq![Instruction::<Const<N>>::Div]);
            }
            Ok(code)
        },
        Expression::Equals(a, b) => {
            let ghost oa = code_of(**a, c, s0);
            let ghost ob = code_of(**b, c, oa.1);
            let mut code = match compile_in(&**a, blocks, consts, decls, builtins, Ghost(c), Ghost(s0)) {
                Ok(x) => x,
                Err(err) => return Err(err),
            };
            let mut cb = match compile_in(&**b, blocks, consts, decls, builtins, Ghost(c), Ghost(oa.1)) {
                Ok(x) => x,
                Err(err) => return Err(err),
            };
            code.append(&mut cb);
            code.push(Instruction::Cmp);
            proof {
                assert(code@ =~= oa.0->Ok_0 + ob.0->Ok_0 + seq![Instruction::<Const<N>>::Cmp]);
            }
            Ok(code)
        },
        Expression::Xor(a, b) => {
            let ghost oa = code_of(**a, c, s0);
            let ghost ob = code_of(**b, c, oa.1);
            let mut code = match compile_in(&**a, blocks, consts, decls, builtins, Ghost(c), Ghost(s0)) {
                Ok(x) => x,
                Err(err) => return Err(err),
            };
            let mut cb = match compile_in(&**b, blocks, consts, decls, builtins, Ghost(c), Ghost(oa.1)) {
                Ok(x) => x,
                Err(err) => return Err(err),
            };
            code.append(&mut cb);
            code.push(Instruction::AXor);
            proof {
                assert(code@ =~= oa.0->Ok_0 + ob.0->Ok_0 + seq![Instruction::<Const<N>>::AXor]);
            }
            Ok(code)
        },
        Expression::BXor(a, b) => {
            let ghost oa = code_of(**a, c, s0);
            let ghost ob = code_of(**b, c, oa.1);
            let mut code = match compile_in(&**a, blocks, consts, decls, builtins, Ghost(c), Ghost(s0)) {
                Ok(x) => x,
                Err(err) => return Err(err),
            };
            let mut cb = match compile_in(&**b, blocks, consts, decls, builtins, Ghost(c), Ghost(oa.1)) {
                Ok(x) => x,
                Err(err) => return Err(err),
            };
            code.append(&mut cb);
            code.push(Instruction::Xor);
            proof {
                assert(code@ =~= oa.0->Ok_0 + ob.0->Ok_0 + seq![Instruction::<Const<N>>::Xor]);
            }
            Ok(code)
        },
        Expression::And(a, b) => {
            let ghost oa = code_of(**a, c, s0);
            let ghost ob = code_of(**b, c, oa.1);
            let mut code = match compile_in(&**a, blocks, consts, decls, builtins, Ghost(c), Ghost(s0)) {
                Ok(x) => x,
                Err(err) => return Err(err),
            };
            let mut cb = match compile_in(&**b, blocks, consts, decls, builtins, Ghost(c), Ghost(oa.1)) {
                Ok(x) => x,
                Err(err) => return Err(err),
            };
            code.append(&mut cb);
            code.push(Instruction::AAnd);
            proof {
                assert(code@ =~= oa.0->Ok_0 + ob.0->Ok_0 + seq![Instruction::<Const<N>>::AAnd]);
            }
            Ok(code)
        },
        Expression::BAnd(a, b) => {
            let ghost oa = code_of(**a, c, s0);
            let ghost ob = code_of(**b, c, oa.1);
            let mut code = match compile_in(&**a, blocks, consts, decls, builtins, Ghost(c), Ghost(s0)) {
                Ok(x) => x,
                Err(err) => return Err(err),
            };
            let mut cb = match compile_in(&**b, blocks, consts, decls, builtins, Ghost(c), Ghost(oa.1)) {
                Ok(x) => x,
                Err(err) => return Err(err),
            };
            code.append(&mut cb);
            code.push(Instruction::And);
            proof {
                assert(code@ =~= oa.0->Ok_0 + ob.0->Ok_0 + seq![Instruction::<Const<N>>::And]);
            }
            Ok(code)
        },
        Expression::Or(a, b) => {
            let ghost oa = code_of(**a, c, s0);
            let ghost ob = code_of(**b, c, oa.1);
            let mut code = match compile_in(&**a, blocks, consts, decls, builtins, Ghost(c), Ghost(s0)) {
                Ok(x) => x,
                Err(err) => return Err(err),
            };
            let mut cb = match compile_in(&**b, blocks, consts, decls, builtins, Ghost(c), Ghost(oa.1)) {
                Ok(x) => x,
                Err(err) => return Err(err),
            };
            code.append(&mut cb);
            code.push(Instruction::AOr);
            proof {
                assert(code@ =~= oa.0->Ok_0 + ob.0->Ok_0 + seq![Instruction::<Const<N>>::AOr]);
            }
            Ok(code)
        },
        Expression::BOr(a, b) => {
            let ghost oa = code_of(**a, c, s0);
            let ghost ob = code_of(**b, c, oa.1);
            let mut code = match compile_in(&**a, blocks, consts, decls, builtins, Ghost(c), Ghost(s0)) {
                Ok(x) => x,
                Err(err) => return Err(err),
            };
            let mut cb = match compile_in(&**b, blocks, consts, decls, builtins, Ghost(c), Ghost(oa.1)) {
                Ok(x) => x,
                Err(err) => return Err(err),
            };
            code.append(&mut cb);
            code.push(Instruction::Or);
            proof {
                assert(code@ =~= oa.0->Ok_0 + ob.0->Ok_0 + seq![Instruction::<Const<N>>::Or]);
            }
            Ok(code)
        },
        Expression::Less(a, b) => {
            let ghost oa = code_of(**a, c, s0);
            let ghost ob = code_of(**b, c, oa.1);
            let mut code = match compile_in(&**a, blocks, consts, decls, builtins, Ghost(c), Ghost(s0)) {
                Ok(x) => x,
                Err(err) => return Err(err),
            };
            let mut cb = match compile_in(&**b, blocks, consts, decls, builtins, Ghost(c), Ghost(oa.1)) {
                Ok(x) => x,
                Err(err) => return Err(err),
            };
            code.append(&mut cb);
            code.push(Instruction::Less);
            proof {
                assert(code@ =~= oa.0->Ok_0 + ob.0->Ok_0 + seq![Instruction::<Const<N>>::Less]);
            }
            Ok(code)
        },
        Expression::Great(a, b) => {
            let ghost oa = code_of(**a, c, s0);
            let ghost ob = code_of(**b, c, oa.1);
            let mut code = match compile_in(&**a, blocks, consts, decls, builtins, Ghost(c), Ghost(s0)) {
                Ok(x) => x,
                Err(err) => return Err(err),
            };
            let mut cb = match compile_in(&**b, blocks, consts, decls, builtins, Ghost(c), Ghost(oa.1)) {
                Ok(x) => x,
                Err(err) => return Err(err),
            };
            code.append(&mut cb);
            code.push(Instruction::Great);
            proof {
                assert(code@ =~= oa.0->Ok_0 + ob.0->Ok_0 + seq![Instruction::<Const<N>>::Great]);
            }
            Ok(code)
        },
        Expression::LessEq(a, b) => {
            let ghost oa = code_of(**a, c, s0);
            let ghost ob = code_of(**b, c, oa.1);
            let mut code = match compile_in(&**a, blocks, consts, decls, builtins, Ghost(c), Ghost(s0)) {
                Ok(x) => x,
                Err(err) => return Err(err),
            };
            let mut cb = match compile_in(&**b, blocks, consts, decls, builtins, Ghost(c), Ghost(oa.1)) {
                Ok(x) => x,
                Err(err) => return Err(err),
            };
            code.append(&mut cb);
            code.push(Instruction::LessEq);
            proof {
                assert(code@ =~= oa.0->Ok_0 + ob.0->Ok_0 + seq![Instruction::<Const<N>>::LessEq]);
            }
            Ok(code)
        },
        Expression::GreatEq(a, b) => {
            let ghost oa = code_of(**a, c, s0);
            let ghost ob = code_of(**b, c, oa.1);
            let mut code = match compile_in(&**a, blocks, consts, decls, builtins, Ghost(c), Ghost(s0)) {
                Ok(x) => x,
                Err(err) => return Err(err),
            };
            let mut cb = match compile_in(&**b, blocks, consts, decls, builtins, Ghost(c), Ghost(oa.1)) {
                Ok(x) => x,
                Err(err) => return Err(err),
            };
            code.append(&mut cb);
            code.push(Instruction::GreatEq);
            proof {
                assert(code@ =~= oa.0->Ok_0 + ob.0->Ok_0 + seq![Instruction::<Const<N>>::GreatEq]);
            }
            Ok(code)
        },
        Expression::ArrayAccess(a, b) => {
            let ghost oa = code_of(**a, c, s0);
            let ghost ob = code_of(**b, c, oa.1);
            let mut code = match compile_in(&**a, blocks, consts, decls, builtins, Ghost(c), Ghost(s0)) {
                Ok(x) => x,
                Err(err) => return Err(err),
            };
            let mut cb = match compile_in(&**b, blocks, consts, decls, builtins, Ghost(c), Ghost(oa.1)) {
                Ok(x) => x,
                Err(err) => return Err(err),
            };
            code.append(&mut cb);
            code.push(Instruction::ArrayAccess);
            proof {
                assert(code@ =~= oa.0->Ok_0 + ob.0->Ok_0 + seq![Instruction::<Const<N>>::ArrayAccess]);
            }
            Ok(code)
        },
        Expression::SliceMEnd(a, b) => {
            let ghost oa = code_of(**a, c, s0);
            let ghost ob = code_of(**b, c, oa.1);
            let mut code = match compile_in(&**a, blocks, consts, decls, builtins, Ghost(c), Ghost(s0)) {
                Ok(x) => x,
                Err(err) => return Err(err),
            };
            let mut cb = match compile_in(&**b, blocks, consts, decls, builtins, Ghost(c), Ghost(oa.1)) {
                Ok(x) => x,
                Err(err) => return Err(err),
            };
            code.append(&mut cb);
            code.push(Instruction::Slice(true));
            proof {
                assert(code@ =~= oa.0->Ok_0 + ob.0->Ok_0 + seq![Instruction::<Const<N>>::Slice(true)]);
            }
            Ok(code)
        },
        Expression::Len(a) => {
            let ghost oa = code_of(**a, c, s0);
            let mut code = match compile_in(&**a, blocks, consts, decls, builtins, Ghost(c), Ghost(s0)) {
                Ok(x) => x,
                Err(err) => return Err(err),
            };
            code.push(Instruction::Len);
            proof {
                assert(code@ =~= oa.0->Ok_0 + seq![Instruction::<Const<N>>::Len]);
            }
            Ok(code)
        },
        Expression::MakeString(a) => {
            let ghost oa = code_of(**a, c, s0);
            let mut code = match compile_in(&**a, blocks, consts, decls, builtins, Ghost(c), Ghost(s0)) {
                Ok(x) => x,
                Err(err) => return Err(err),
            };
            code.push(Instruction::Str);
            proof {
                assert(code@ =~= oa.0->Ok_0 + seq![Instruction::<Const<N>>::Str]);
            }
            Ok(code)
        },
        Expression::MakeBytes(a) => {
            let ghost oa = code_of(**a, c, s0);
            let mut code = match compile_in(&**a, blocks, consts, decls, builtins, Ghost(c), Ghost(s0)) {
                Ok(x) => x,
                Err(err) => return Err(err),
            };
            code.push(Instruction::Bytes);
            proof {
                assert(code@ =~= oa.0->Ok_0 + seq![Instruction::<Const<N>>::Bytes]);
            }
            Ok(code)
        },
        Expression::Negate(a) => {
            let ghost oa = code_of(**a, c, s0);
            let mut code = match compile_in(&**a, blocks, consts, decls, builtins, Ghost(c), Ghost(s0)) {
                Ok(x) => x,
                Err(err) => return Err(err),
            };
            code.push(Instruction::Negate);
            proof {
                assert(code@ =~= oa.0->Ok_0 + seq![Instruction::<Const<N>>::Negate]);
            }
            Ok(code)
        },
        Expression::Neq(a, b) => {
            let ghost oa = code_of(**a, c, s0);
            let ghost ob = code_of(**b, c, oa.1);
            let mut code = match compile_in(&**a, blocks, consts, decls, builtins, Ghost(c), Ghost(s0)) {
                Ok(x) => x,
                Err(err) => return Err(err),
            };
            let mut cb = match compile_in(&**b, blocks, consts, decls, builtins, Ghost(c), Ghost(oa.1)) {
                Ok(x) => x,
                Err(err) => return Err(err),
            };
            code.append(&mut cb);
            code.push(Instruction::Cmp);
            code.push(Instruction::Negate);
            proof {
                assert(code@ =~= oa.0->Ok_0 + ob.0->Ok_0 + seq![Instruction::<Const<N>>::Cmp, Instruction::<Const<N>>::Negate]);
            }
            Ok(code)
        },
        Expression::OrDefault(a, b) => {
            let ghost oa = code_of(**a, c, s0);
            let ghost ob = code_of(**b, c, oa.1);
            let mut code = match compile_in(&**a, blocks, consts, decls, builtins, Ghost(c), Ghost(s0)) {
                Ok(x) => x,
                Err(err) => return Err(err),
            };
            let mut cb = match compile_in(&**b, blocks, consts, decls, builtins, Ghost(c), Ghost(oa.1)) {
                Ok(x) => x,
                Err(err) => return Err(err),
            };
            if cb.len() == usize::MAX {
                return Err(Error::InvalidCode);
            }
            code.push(Instruction::Rtest(cb.len() + 1));
            code.append(&mut cb);
            proof {
                assert(code@ =~= oa.0->Ok_0 + seq![Instruction::<Const<N>>::Rtest((ob.0->Ok_0.len() + 1) as usize)] + ob.0->Ok_0);
            }
            Ok(code)
        },
        Expression::Slice(a, b, d) => {
            let ghost oa = code_of(**a, c, s0);
            let ghost ob = code_of(**b, c, oa.1);
            let ghost od = code_of(**d, c, ob.1);
            let mut code = match compile_in(&**a, blocks, consts, decls, builtins, Ghost(c), Ghost(s0)) {
                Ok(x) => x,
                Err(err) => return Err(err),
            };
            let mut cb = match compile_in(&**b, blocks, consts, decls, builtins, Ghost(c), Ghost(oa.1)) {
                Ok(x) => x,
                Err(err) => return Err(err),
            };
            let mut cd = match compile_in(&**d, blocks, consts, decls, builtins, Ghost(c), Ghost(ob.1)) {
                Ok(x) => x,
                Err(err) => return Err(err),
            };
            code.append(&mut cb);
            code.append(&mut cd);
            code.push(Instruction::Slice(false));
            proof {
                assert(code@ =~= oa.0->Ok_0 + ob.0->Ok_0 + od.0->Ok_0 + seq![Instruction::<Const<N>>::Slice(false)]);
            }
            Ok(code)
        },
        Expression::SliceMBegin(a, b) => {
            let ghost oa = code_of(**a, c, s0);
            let ghost ob = code_of(**b, c, oa.1);
            let mut code = match compile_in(&**a, blocks, consts, decls, builtins, Ghost(c), Ghost(s0)) {
                Ok(x) => x,
                Err(err) => return Err(err),
            };
            let mut cb = match compile_in(&**b, blocks, consts, decls, builtins, Ghost(c), Ghost(oa.1)) {
                Ok(x) => x,
                Err(err) => return Err(err),
            };
            code.push(Instruction::Cld(Const::Zero));
            code.append(&mut cb);
            code.push(Instruction::Slice(false));
            proof {
                assert(code@ =~= oa.0->Ok_0 + seq![Instruction::<Const<N>>::Cld(Const::Zero)] + ob.0->Ok_0 + seq![Instruction::<Const<N>>::Slice(false)]);
            }
            Ok(code)
        },
        Expression::SliceMBE(a) => {
            let ghost oa = code_of(**a, c, s0);
            let mut code = match compile_in(&**a, blocks, consts, decls, builtins, Ghost(c), Ghost(s0)) {
                Ok(x) => x,
                Err(err) => return Err(err),
            };
            code.push(Instruction::Cld(Const::Zero));
            code.push(Instruction::Slice(true));
            proof {
                assert(code@ =~= oa.0->Ok_0 + seq![Instruction::<Const<N>>::Cld(Const::Zero), Instruction::<Const<N>>::Slice(true)]);
            }
            Ok(code)
        },
        Expression::List(v) => compile_items(v, blocks, consts, decls, builtins, Ghost(c), Ghost(s)),
        Expression::Array(v) => {
            let ghost o = items_code(*v, 0, c, s0);
            let mut code = match compile_items(v, blocks, consts, decls, builtins, Ghost(c), Ghost(s)) {
                Ok(x) => x,
                Err(err) => return Err(err),
            };
            code.push(Instruction::MkArr(v.len()));
            assert(code@ =~= o.0->Ok_0 + seq![Instruction::<Const<N>>::MkArr(v@.len() as usize)]);
            Ok(code)
        },
        Expression::Call(a, b) => {
            let ghost oa = code_of(**a, c, s0);
            let mut code = match compile_in(&**a, blocks, consts, decls, builtins, Ghost(c), Ghost(s0)) {
                Ok(x) => x,
                Err(err) => return Err(err),
            };
            match &**b {
                Expression::List(v) => {
                    let mut cb = match compile_items(v, blocks, consts, decls, builtins, Ghost(c), Ghost(oa.1)) {
                        Ok(x) => x,
                        Err(err) => return Err(err),
                    };
                    let ghost cv = code@;
                    let ghost bv = cb@;
                    code.append(&mut cb);
                    code.push(Instruction::Call(v.len()));
                    assert(code@ =~= cv + bv + seq![Instruction::<Const<N>>::Call(v@.len() as usize)]);
                    Ok(code)
                },
                Expression::Null => {
                    let ghost cv = code@;
                    code.push(Instruction::Call(0));
                    assert(code@ =~= cv + seq![Instruction::<Const<N>>::Call(0)]);
                    Ok(code)
                },
                _ => {
                    let mut cb = match compile_in(&**b, blocks, consts, decls, builtins, Ghost(c), Ghost(oa.1)) {
                Ok(x) => x,
                Err(err) => return Err(err),
            };
                    let ghost cv = code@;
                    let ghost bv = cb@;
                    code.append(&mut cb);
                    code.push(Instruction::Call(1));
                    assert(code@ =~= cv + bv + seq![Instruction::<Const<N>>::Call(1)]);
                    Ok(code)
                },
            }
        },
        Expression::Pairs(v) => {
            let mut code = match compile_pairs(v, blocks, consts, decls, builtins, Ghost(c), Ghost(s)) {
                Ok(x) => x,
                Err(err) => return Err(err),
            };
            let ghost cv = code@;
            code.push(Instruction::MkMap(v.len()));
            assert(code@ =~= cv + seq![Instruction::<Const<N>>::MkMap(v@.len() as usize)]);
            Ok(code)
        },
        Expression::Object(v) => {
            let mut code = match compile_fields(v, blocks, consts, decls, builtins, Ghost(c), Ghost(s)) {
                Ok(x) => x,
                Err(err) => return Err(err),
            };
            let ghost cv = code@;
            code.push(Instruction::Formula(v.len()));
            assert(code@ =~= cv + seq![Instruction::<Const<N>>::Formula(v@.len() as usize)]);
            Ok(code)
        },
        Expression::NamedObject(name, v) => {
            let (k, _) = consts.get_or_create_tconstant(name.clone());
            proof {
                crate::function::lemma_first_text(s0.pool, name@);
                if first_text(s0.pool, name@) is None {
                    crate::function::lemma_text_found_after_add(s0.pool, name@);
                }
            }
            let mut code = match compile_fields(v, blocks, consts, decls, builtins, Ghost(c), Ghost(with_text(s0, name@))) {
                Ok(x) => x,
                Err(err) => return Err(err),
            };
            let ghost cv = code@;
            code.push(Instruction::Cld(Const::Text(k)));
            code.push(Instruction::NamedFormula(v.len()));
            assert(k == text_index(s0.pool, name@));
            assert(code@ =~= cv + seq![Instruction::<Const<N>>::Cld(Const::Text(k)), Instruction::<Const<N>>::NamedFormula(v@.len() as usize)]);
            Ok(code)
        },
        Expression::Lambda(args, body, doc) => {
            match lambda_in(args, &**body, None, clone_text(doc), blocks, consts, decls, builtins, Ghost(c), Ghost(s0)) {
                Err(err) => Err(err),
                Ok(LambdaCode::Static(k)) => {
                    let v = vec![Instruction::Cld(Const::Func(k))];
                    assert(v@ =~= seq![Instruction::<Const<N>>::Cld(Const::Func(k))]);
                    Ok(v)
                },
                Ok(LambdaCode::Upval(_, code)) => Ok(code),
            }
        },
        Expression::Tuple(_) | Expression::Exp(_, _) | Expression::Shl(_, _) | Expression::Shr(_, _)
        | Expression::Not(_) => Err(Error::InvalidCode),
    }
}

fn compile_items<N: Copy>(
    v: &Vec<Expression<N>>,
    blocks: &mut BlockChain,
    consts: &mut ConstantLib,
    decls: &mut Decls<N>,
    builtins: &Vec<String>,
    Ghost(c): Ghost<Ctx>,
    Ghost(s): Ghost<St<N>>,
) -> (r: Result<Vec<Instruction<Const<N>>>, Error>)
    requires
        all_supported(*v, 0),
        chain_rel(s, old(blocks).0@),
        s.pool == old(consts)@,
        decls_rel(s, *old(decls)),
        c.builtins == name_views(builtins@),
    ensures
        agrees(r, items_code(*v, 0, c, s), final(consts)@, final(blocks).0@, *final(decls)),
    decreases v, 1nat,
{
    let ghost s0 = s;
    let ghost whole = items_code(*v, 0, c, s0);
    let mut out: Vec<Instruction<Const<N>>> = Vec::new();
    let ghost mut st = s0;
    let mut i: usize = 0;
    proof {
        assert(out@ + Seq::<Instruction<Const<N>>>::empty() =~= out@);
        match whole.0 {
            Ok(w) => {
                assert(Seq::<Instruction<Const<N>>>::empty() + w =~= w);
            },
            Err(_) => {},
        }
    }
    while i < v.len()
        invariant
            i <= v@.len(),
            all_supported(*v, i as int),
            consts@ == st.pool,
            chain_rel(st, blocks.0@),
            decls_rel(st, *decls),
            c.builtins == name_views(builtins@),
            whole == items_code(*v, 0, c, s0),
            s0 == s,
            whole == glue((Ok(out@), st), items_code(*v, i as int, c, st)),
        decreases v@.len() - i,
    {
        let ghost o = code_of(v@[i as int], c, st);
        proof {
            assert(items_code(*v, i as int, c, st) == glue(o, items_code(*v, i + 1, c, o.1)));
        }
        let mut x = match compile_in(&v[i], blocks, consts, decls, builtins, Ghost(c), Ghost(st)) {
            Ok(x) => x,
            Err(err) => {
                proof {
                    assert(glue(o, items_code(*v, i + 1, c, o.1)) == o);
                    assert(whole == (Err::<Seq<Instruction<Const<N>>>, Failure>(failure(err)), o.1));
                }
                return Err(err);
            },
        };
        proof {
            lemma_glue_step(out@, st, x@, o.1, items_code(*v, i + 1, c, o.1));
        }
        out.append(&mut x);
        proof {
            st = o.1;
        }
        i = i + 1;
    }
    proof {
        assert(out@ + Seq::<Instruction<Const<N>>>::empty() =~= out@);
    }
    Ok(out)
}

fn compile_pairs<N: Copy>(
    v: &Vec<(Expression<N>, Expression<N>)>,
    blocks: &mut BlockChain,
    consts: &mut ConstantLib,
    decls: &mut Decls<N>,
    builtins: &Vec<String>,
    Ghost(c): Ghost<Ctx>,
    Ghost(s): Ghost<St<N>>,
) -> (r: Result<Vec<Instruction<Const<N>>>, Error>)
    requires
        pairs_supported(*v, 0),
        chain_rel(s, old(blocks).0@),
        s.pool == old(consts)@,
        decls_rel(s, *old(decls)),
        c.builtins == name_views(builtins@),
    ensures
        agrees(r, pairs_code(*v, 0, c, s), final(consts)@, final(blocks).0@, *final(decls)),
    decreases v, 1nat,
{
    let ghost s0 = s;
    let ghost whole = pairs_code(*v, 0, c, s0);
    let mut out: Vec<Instruction<Const<N>>> = Vec::new();
    let ghost mut st = s0;
    let mut i: usize = 0;
    proof {
        assert(out@ + Seq::<Instruction<Const<N>>>::empty() =~= out@);
        match whole.0 {
            Ok(w) => {
                assert(Seq::<Instruction<Const<N>>>::empty() + w =~= w);
            },
            Err(_) => {},
        }
    }
    while i < v.len()
        invariant
            i <= v@.len(),
            pairs_supported(*v, i as int),
            consts@ == st.pool,
            chain_rel(st, blocks.0@),
            decls_rel(st, *decls),
            c.builtins == name_views(builtins@),
            whole == pairs_code(*v, 0, c, s0),
            s0 == s,
            whole == glue((Ok(out@), st), pairs_code(*v, i as int, c, st)),
        decreases v@.len() - i,
    {
        let ghost k = code_of(v@[i as int].0, c, st);
        let ghost xo = code_of(v@[i as int].1, c, k.1);
        proof {
            assert(pairs_code(*v, i as int, c, st) == glue(glue(k, xo), pairs_code(*v, i + 1, c, xo.1)));
        }
        let mut kc = match compile_in(&v[i].0, blocks, consts, decls, builtins, Ghost(c), Ghost(st)) {
            Ok(x) => x,
            Err(err) => {
                proof {
                    assert(glue(k, xo) == k);
                    assert(glue(glue(k, xo), pairs_code(*v, i + 1, c, xo.1)) == k);
                    assert(whole == (Err::<Seq<Instruction<Const<N>>>, Failure>(failure(err)), k.1));
                }
                return Err(err);
            },
        };
        let mut xc = match compile_in(&v[i].1, blocks, consts, decls, builtins, Ghost(c), Ghost(k.1)) {
            Ok(x) => x,
            Err(err) => {
                proof {
                    assert(glue(k, xo) == (Err::<Seq<Instruction<Const<N>>>, Failure>(failure(err)), xo.1));
                    assert(glue(glue(k, xo), pairs_code(*v, i + 1, c, xo.1)) == glue(k, xo));
                    assert(whole == (Err::<Seq<Instruction<Const<N>>>, Failure>(failure(err)), xo.1));
                }
                return Err(err);
            },
        };
        proof {
            assert(glue(k, xo) == (Ok::<Seq<Instruction<Const<N>>>, Failure>(kc@ + xc@), xo.1));
            lemma_glue_step(out@, st, kc@ + xc@, xo.1, pairs_code(*v, i + 1, c, xo.1));
        }
        let ghost before_out = out@;
        let ghost kv = kc@;
        let ghost xv = xc@;
        out.append(&mut kc);
        out.append(&mut xc);
        proof {
            assert(out@ =~= before_out + (kv + xv));
            st = xo.1;
        }
        i = i + 1;
    }
    proof {
        assert(out@ + Seq::<Instruction<Const<N>>>::empty() =~= out@);
    }
    Ok(out)
}

fn compile_fields<N: Copy>(
    v: &Vec<(String, Expression<N>)>,
    blocks: &mut BlockChain,
    consts: &mut ConstantLib,
    decls: &mut Decls<N>,
    builtins: &Vec<String>,
    Ghost(c): Ghost<Ctx>,
    Ghost(s): Ghost<St<N>>,
) -> (r: Result<Vec<Instruction<Const<N>>>, Error>)
    requires
        fields_supported(*v, 0),
        chain_rel(s, old(blocks).0@),
        s.pool == old(consts)@,
        decls_rel(s, *old(decls)),
        c.builtins == name_views(builtins@),
    ensures
        agrees(r, fields_code(*v, 0, c, s), final(consts)@, final(blocks).0@, *final(decls)),
    decreases v, 1nat,
{
    let ghost s0 = s;
    let ghost whole = fields_code(*v, 0, c, s0);
    let mut out: Vec<Instruction<Const<N>>> = Vec::new();
    let ghost mut st = s0;
    let mut i: usize = 0;
    proof {
        assert(out@ + Seq::<Instruction<Const<N>>>::empty() =~= out@);
        match whole.0 {
            Ok(w) => {
                assert(Seq::<Instruction<Const<N>>>::empty() + w =~= w);
            },
            Err(_) => {},
        }
    }
    while i < v.len()
        invariant
            i <= v@.len(),
            fields_supported(*v, i as int),
            consts@ == st.pool,
            chain_rel(st, blocks.0@),
            decls_rel(st, *decls),
            c.builtins == name_views(builtins@),
            whole == fields_code(*v, 0, c, s0),
            s0 == s,
            whole == glue((Ok(out@), st), fields_code(*v, i as int, c, st)),
        decreases v@.len() - i,
    {
        let ghost ld = (Ok::<Seq<Instruction<Const<N>>>, Failure>(seq![Instruction::Cld(Const::Text(text_index(st.pool, v@[i as int].0@)))]), with_text(st, v@[i as int].0@));
        let ghost xo = code_of(v@[i as int].1, c, ld.1);
        proof {
            assert(fields_code(*v, i as int, c, st) == glue(glue(ld, xo), fields_code(*v, i + 1, c, xo.1)));
        }
        let (kk, _) = consts.get_or_create_tconstant(v[i].0.clone());
        proof {
            crate::function::lemma_first_text(st.pool, v@[i as int].0@);
            if first_text(st.pool, v@[i as int].0@) is None {
                crate::function::lemma_text_found_after_add(st.pool, v@[i as int].0@);
            }
        }
        let mut xc = match compile_in(&v[i].1, blocks, consts, decls, builtins, Ghost(c), Ghost(ld.1)) {
            Ok(x) => x,
            Err(err) => {
                proof {
                    assert(glue(ld, xo) == (Err::<Seq<Instruction<Const<N>>>, Failure>(failure(err)), xo.1));
                    assert(glue(glue(ld, xo), fields_code(*v, i + 1, c, xo.1)) == glue(ld, xo));
                    assert(whole == (Err::<Seq<Instruction<Const<N>>>, Failure>(failure(err)), xo.1));
                }
                return Err(err);
            },
        };
        proof {
            assert(glue(ld, xo) == (Ok::<Seq<Instruction<Const<N>>>, Failure>(ld.0->Ok_0 + xc@), xo.1));
            lemma_glue_step(out@, st, ld.0->Ok_0 + xc@, xo.1, fields_code(*v, i + 1, c, xo.1));
        }
        assert(kk == text_index(st.pool, v@[i as int].0@));
        let ghost before_out = out@;
        let ghost xv = xc@;
        out.push(Instruction::Cld(Const::Text(kk)));
        out.append(&mut xc);
        assert(out@ =~= before_out + (ld.0->Ok_0 + xv));
        proof {
            st = xo.1;
        }
        i = i + 1;
    }
    proof {
        assert(out@ + Seq::<Instruction<Const<N>>>::empty() =~= out@);
    }
    Ok(out)
}

/// Compiles an expression into the code that leaves its value on the
/// stack (see `code_of`): constants are interned in `consts`, variables
/// are looked up in the scopes of `blocks` (an upvalue is added to the
/// innermost scope for a variable of an outer one), and a name that no
/// scope has is loaded as a builtin when `builtins` holds it.
pub fn compile_expr<N: Copy>(
    e: &Expression<N>,
    blocks: &mut BlockChain,
    consts: &mut ConstantLib,
    decls: &mut Decls<N>,
    builtins: &Vec<String>,
) -> (r: Result<Vec<Instruction<Const<N>>>, Error>)
    requires
        supported(*e),
    ensures
        agrees(
            r,
            code_of(*e, Ctx { builtins: name_views(builtins@) }, start(old(consts)@, old(blocks).0@, *old(decls))),
            final(consts)@,
            final(blocks).0@,
            *final(decls),
        ),
{
    let ghost c = Ctx { builtins: name_views(builtins@) };
    let ghost s = start(consts@, blocks.0@, *decls);
    compile_in(e, blocks, consts, decls, builtins, Ghost(c), Ghost(s))
}

/// The store that matches a load (see `stored`).
fn store_of<N>(i: Instruction<Const<N>>) -> (r: Instruction<Const<N>>)
    ensures
        r == stored(i),
{
    match i {
        Instruction::Ldl(a, b) => Instruction::Stl(a, b),
        Instruction::Ldup(a) => Instruction::Stup(a),
        Instruction::Builtin(a) => Instruction::StoreBuiltin(a),
        Instruction::Ldm(a) => Instruction::Stm(a),
        other => other,
    }
}

/// Compiles the stores into the variables `v` (see `stores_code`).
fn compile_stores<N>(
    v: &Vec<String>,
    blocks: &mut BlockChain,
    consts: &mut ConstantLib,
    builtins: &Vec<String>,
    Ghost(c): Ghost<Ctx>,
    Ghost(s): Ghost<St<N>>,
    Ghost(d): Ghost<Decls<N>>,
) -> (r: Result<Vec<Instruction<Const<N>>>, Error>)
    requires
        chain_rel(s, old(blocks).0@),
        s.pool == old(consts)@,
        c.builtins == name_views(builtins@),
        decls_rel(s, d),
    ensures
        agrees(r, stores_code::<N>(v@, 0, c, s), final(consts)@, final(blocks).0@, d),
{
    let ghost whole = stores_code::<N>(v@, 0, c, s);
    let mut out: Vec<Instruction<Const<N>>> = Vec::new();
    let ghost mut st = s;
    let mut i: usize = 0;
    proof {
        match whole.0 {
            Ok(w) => {
                assert(Seq::<Instruction<Const<N>>>::empty() + w =~= w);
            },
            Err(_) => {},
        }
    }
    while i < v.len()
        invariant
            i <= v@.len(),
            consts@ == st.pool,
            chain_rel(st, blocks.0@),
            decls_rel(st, d),
            c.builtins == name_views(builtins@),
            whole == stores_code::<N>(v@, 0, c, s),
            whole == glue((Ok(out@), st), stores_code::<N>(v@, i as int, c, st)),
        decreases v@.len() - i,
    {
        let ghost o = var_step::<N>(c, st, v@[i as int]@);
        let mut x = match compile_var(&v[i], blocks, consts, builtins, Ghost(c), Ghost(st)) {
            Ok(x) => x,
            Err(err) => return Err(err),
        };
        assert(x@.len() == 1);
        let last = x.pop().unwrap();
        x.push(store_of(last));
        proof {
            let o1 = (Ok::<Seq<Instruction<Const<N>>>, Failure>(x@), o.1);
            assert(x@ =~= o.0->Ok_0.drop_last().push(stored(o.0->Ok_0.last())));
            lemma_glue_step(out@, st, x@, o.1, stores_code::<N>(v@, i + 1, c, o.1));
        }
        out.append(&mut x);
        proof {
            st = o.1;
        }
        i = i + 1;
    }
    proof {
        assert(out@ + Seq::<Instruction<Const<N>>>::empty() =~= out@);
    }
    Ok(out)
}

/// Compiles the stores into the new locals `v` (see `locals_code`).
fn compile_locals<N>(
    v: &Vec<String>,
    blocks: &mut BlockChain,
    Ghost(c): Ghost<Ctx>,
    Ghost(s): Ghost<St<N>>,
) -> (r: Result<Vec<Instruction<Const<N>>>, Error>)
    requires
        chain_rel(s, old(blocks).0@),
        s.chain.len() > 0,
    ensures
        match r {
            Ok(code) => locals_code::<N>(v@, 0, c, s).0 == Ok::<Seq<Instruction<Const<N>>>, Failure>(code@),
            Err(err) => locals_code::<N>(v@, 0, c, s).0 == Err::<Seq<Instruction<Const<N>>>, Failure>(failure(err)),
        },
        chain_rel(locals_code::<N>(v@, 0, c, s).1, final(blocks).0@),
        locals_code::<N>(v@, 0, c, s).1.pool == s.pool,
        locals_code::<N>(v@, 0, c, s).1.funcs == s.funcs,
        locals_code::<N>(v@, 0, c, s).1.members == s.members,
{
    let ghost whole = locals_code::<N>(v@, 0, c, s);
    let mut out: Vec<Instruction<Const<N>>> = Vec::new();
    let ghost mut st = s;
    let mut i: usize = 0;
    let n = blocks.0.len();
    proof {
        match whole.0 {
            Ok(w) => {
                assert(Seq::<Instruction<Const<N>>>::empty() + w =~= w);
            },
            Err(_) => {},
        }
    }
    while i < v.len()
        invariant
            i <= v@.len(),
            n == blocks.0@.len(),
            n > 0,
            chain_rel(st, blocks.0@),
            st.pool == s.pool,
            st.funcs == s.funcs,
            st.members == s.members,
            whole == locals_code::<N>(v@, 0, c, s),
            whole == glue((Ok(out@), st), locals_code::<N>(v@, i as int, c, st)),
        decreases v@.len() - i,
    {
        let ghost before = blocks.0@;
        if blocks.0[n - 1].len() == usize::MAX {
            return Err(Error::InvalidCode);
        }
        let k = blocks.0[n - 1].local.get_or_create_index(v[i].clone());
        let ghost o = local_step(st, v@[i as int]@);
        proof {
            assert(k == o.0);
            assert(locals_code::<N>(v@, i as int, c, st) == glue(
                (Ok::<Seq<Instruction<Const<N>>>, Failure>(seq![Instruction::<Const<N>>::Stl(0, k)]), o.1),
                locals_code::<N>(v@, i + 1, c, o.1),
            ));
            crate::refrence::lemma_position_of(before.last().local.names(), v@[i as int]@);
            assert(st.chain.last() == scope_view(before.last()));
            assert(chain_view(blocks.0@) =~= o.1.chain);
            lemma_glue_step(out@, st, seq![Instruction::<Const<N>>::Stl(0, k)], o.1, locals_code::<N>(v@, i + 1, c, o.1));
        }
        let ghost before_out = out@;
        out.push(Instruction::Stl(0, k));
        proof {
            assert(out@ =~= before_out + seq![Instruction::<Const<N>>::Stl(0, k)]);
            st = o.1;
        }
        i = i + 1;
    }
    proof {
        assert(out@ + Seq::<Instruction<Const<N>>>::empty() =~= out@);
    }
    Ok(out)
}

/// Makes the `break` and `continue` markers of loop code into jumps (see
/// `patched`).
fn patch_loop<N>(code: &mut Vec<Instruction<Const<N>>>, end: usize)
    requires
        old(code)@.len() <= end <= i64::MAX,
    ensures
        final(code)@ == patched(old(code)@, end as int),
{
    let ghost orig = code@;
    let n = code.len();
    let mut pos: usize = 0;
    while pos < n
        invariant
            n == code@.len(),
            n == orig.len(),
            n <= end <= i64::MAX,
            pos <= n,
            forall|j: int| 0 <= j < pos ==> code@[j] == patched(orig, end as int)[j],
            forall|j: int| pos <= j < n ==> code@[j] == orig[j],
        decreases n - pos,
    {
        if pos > 0 && end > 0 {
            let kind: u8 = match &code[pos] {
                Instruction::Pg45Break => 1,
                Instruction::Pg45Continue => 2,
                _ => 0,
            };
            if kind == 1 {
                code.set(pos, Instruction::Jmp((end - pos - 1) as i64));
            } else if kind == 2 {
                code.set(pos, Instruction::Jmp(-((pos + 1) as i64)));
            }
        }
        pos = pos + 1;
    }
    assert(code@ =~= patched(orig, end as int));
}

/// Compiles `t` (see `stmt_code`), the scopes standing as `chain_rel` says.
#[verifier::rlimit(100)]
#[verifier::spinoff_prover]
fn compile_stmt_in<N: Copy>(
    t: &Statement<N>,
    blocks: &mut BlockChain,
    consts: &mut ConstantLib,
    decls: &mut Decls<N>,
    builtins: &Vec<String>,
    Ghost(c): Ghost<Ctx>,
    Ghost(s): Ghost<St<N>>,
) -> (r: Result<Vec<Instruction<Const<N>>>, Error>)
    requires
        stmt_supported(*t),
        chain_rel(s, old(blocks).0@),
        s.pool == old(consts)@,
        decls_rel(s, *old(decls)),
        c.builtins == name_views(builtins@),
    ensures
        agrees(r, stmt_code(*t, c, s), final(consts)@, final(blocks).0@, *final(decls)),
    decreases t, 1nat,
{
    let ghost s0 = s;
    match t {
        Statement::Empty => {
            let v: Vec<Instruction<Const<N>>> = Vec::new();
            Ok(v)
        },
        Statement::Break => {
            let v = vec![Instruction::Pg45Break];
            assert(v@ =~= seq![Instruction::<Const<N>>::Pg45Break]);
            Ok(v)
        },
        Statement::Continue => {
            let v = vec![Instruction::Pg45Continue];
            assert(v@ =~= seq![Instruction::<Const<N>>::Pg45Continue]);
            Ok(v)
        },
        Statement::RaiseCurrent => {
            let v = vec![Instruction::Raise(RaiseErrKind::CurrentError)];
            assert(v@ =~= seq![Instruction::<Const<N>>::Raise(RaiseErrKind::CurrentError)]);
            Ok(v)
        },
        Statement::Return(None) => {
            let v = vec![Instruction::Return(0)];
            assert(v@ =~= seq![Instruction::<Const<N>>::Return(0)]);
            Ok(v)
        },
        Statement::RaiseNorm(a) => {
            let (k, _) = consts.get_or_create_tconstant(a.clone());
            proof {
                crate::function::lemma_first_text(s0.pool, a@);
                if first_text(s0.pool, a@) is None {
                    crate::function::lemma_text_found_after_add(s0.pool, a@);
                }
            }
            let v = vec![Instruction::Cld(Const::Text(k)), Instruction::Raise(RaiseErrKind::FromStack)];
            assert(v@ =~= seq![Instruction::<Const<N>>::Cld(Const::Text(k)), Instruction::<Const<N>>::Raise(RaiseErrKind::FromStack)]);
            Ok(v)
        },
        Statement::RaiseNormWithWhy(a, w) => {
            let (k, _) = consts.get_or_create_tconstant(a.clone());
            proof {
                crate::function::lemma_first_text(s0.pool, a@);
                if first_text(s0.pool, a@) is None {
                    crate::function::lemma_text_found_after_add(s0.pool, a@);
                }
            }
            let ghost ow = code_of(**w, c, with_text(s0, a@));
            let mut cw = match compile_in(&**w, blocks, consts, decls, builtins, Ghost(c), Ghost(with_text(s0, a@))) {
                Ok(x) => x,
                Err(err) => return Err(err),
            };
            let mut code = vec![Instruction::Cld(Const::Text(k))];
            let ghost wv = cw@;
            code.append(&mut cw);
            code.push(Instruction::Raise(RaiseErrKind::FromStackWithWhy));
            assert(code@ =~= seq![Instruction::<Const<N>>::Cld(Const::Text(k))] + wv + seq![Instruction::<Const<N>>::Raise(RaiseErrKind::FromStackWithWhy)]);
            Ok(code)
        },
        Statement::RaiseObj(e) => {
            let ghost o = code_of(**e, c, s0);
            let mut code = match compile_in(&**e, blocks, consts, decls, builtins, Ghost(c), Ghost(s0)) {
                Ok(x) => x,
                Err(err) => return Err(err),
            };
            code.push(Instruction::Raise(RaiseErrKind::FromStackObj));
            assert(code@ =~= o.0->Ok_0 + seq![Instruction::<Const<N>>::Raise(RaiseErrKind::FromStackObj)]);
            Ok(code)
        },
        Statement::Return(Some(e)) => {
            let ghost o = code_of(**e, c, s0);
            let mut code = match compile_in(&**e, blocks, consts, decls, builtins, Ghost(c), Ghost(s0)) {
                Ok(x) => x,
                Err(err) => return Err(err),
            };
            code.push(Instruction::Return(1));
            assert(code@ =~= o.0->Ok_0 + seq![Instruction::<Const<N>>::Return(1)]);
            Ok(code)
        },
        Statement::Expr(e) => {
            let ghost o = code_of(**e, c, s0);
            let mut code = match compile_in(&**e, blocks, consts, decls, builtins, Ghost(c), Ghost(s0)) {
                Ok(x) => x,
                Err(err) => return Err(err),
            };
            if code.len() > 0 {
                code.push(Instruction::Pop);
            }
            Ok(code)
        },
        Statement::ArraySet(a, b, d) => {
            let ghost od = code_of(**d, c, s0);
            let ghost oa = code_of(**a, c, od.1);
            let ghost ob = code_of(**b, c, oa.1);
            let mut code = match compile_in(&**d, blocks, consts, decls, builtins, Ghost(c), Ghost(s0)) {
                Ok(x) => x,
                Err(err) => return Err(err),
            };
            let mut ca = match compile_in(&**a, blocks, consts, decls, builtins, Ghost(c), Ghost(od.1)) {
                Ok(x) => x,
                Err(err) => return Err(err),
            };
            let mut cb = match compile_in(&**b, blocks, consts, decls, builtins, Ghost(c), Ghost(oa.1)) {
                Ok(x) => x,
                Err(err) => return Err(err),
            };
            let ghost (dv, av, bv) = (code@, ca@, cb@);
            code.append(&mut ca);
            code.append(&mut cb);
            code.push(Instruction::ArraySet);
            assert(code@ =~= dv + av + bv + seq![Instruction::<Const<N>>::ArraySet]);
            Ok(code)
        },
        Statement::Block(v) => compile_stmts(v, blocks, consts, decls, builtins, Ghost(c), Ghost(s0)),
        Statement::NewAssignment(names, e) => {
            let ghost o = with_code(code_of(**e, c, s0), unpack_for::<N>(names@.len()));
            let mut code = match compile_in(&**e, blocks, consts, decls, builtins, Ghost(c), Ghost(s0)) {
                Ok(x) => x,
                Err(err) => return Err(err),
            };
            if names.len() > 1 {
                code.push(Instruction::Unpack(names.len()));
            }
            proof {
                assert(code@ =~= o.0->Ok_0);
            }
            if blocks.0.len() == 0 {
                return Err(Error::MalformedStack);
            }
            let ghost ol = locals_code::<N>(names@, 0, c, o.1);
            let mut cl = match compile_locals(names, blocks, Ghost(c), Ghost(o.1)) {
                Ok(x) => x,
                Err(err) => return Err(err),
            };
            let ghost (ev, lv) = (code@, cl@);
            code.append(&mut cl);
            assert(code@ =~= ev + lv);
            Ok(code)
        },
        Statement::Assignment(names, e) => {
            let ghost o = with_code(code_of(**e, c, s0), unpack_for::<N>(names@.len()));
            let mut code = match compile_in(&**e, blocks, consts, decls, builtins, Ghost(c), Ghost(s0)) {
                Ok(x) => x,
                Err(err) => return Err(err),
            };
            if names.len() > 1 {
                code.push(Instruction::Unpack(names.len()));
            }
            proof {
                assert(code@ =~= o.0->Ok_0);
            }
            let mut cs = match compile_stores(names, blocks, consts, builtins, Ghost(c), Ghost(o.1), Ghost(*decls)) {
                Ok(x) => x,
                Err(err) => return Err(err),
            };
            let ghost (ev, sv) = (code@, cs@);
            code.append(&mut cs);
            assert(code@ =~= ev + sv);
            Ok(code)
        },
        Statement::If(e, a, None) => {
            let ghost oe = code_of(**e, c, s0);
            let ghost oa = stmt_code(**a, c, oe.1);
            let mut code = match compile_in(&**e, blocks, consts, decls, builtins, Ghost(c), Ghost(s0)) {
                Ok(x) => x,
                Err(err) => return Err(err),
            };
            let mut ca = match compile_stmt_in(&**a, blocks, consts, decls, builtins, Ghost(c), Ghost(oe.1)) {
                Ok(x) => x,
                Err(err) => return Err(err),
            };
            if ca.len() == usize::MAX {
                return Err(Error::InvalidCode);
            }
            let ghost (ev, av) = (code@, ca@);
            code.push(Instruction::Ktest(ca.len() + 1));
            code.append(&mut ca);
            assert(code@ =~= ev + seq![Instruction::<Const<N>>::Ktest((av.len() + 1) as usize)] + av);
            Ok(code)
        },
        Statement::If(e, a, Some(g)) => {
            let ghost oe = code_of(**e, c, s0);
            let ghost oa = stmt_code(**a, c, oe.1);
            let ghost og = stmt_code(**g, c, oa.1);
            let mut code = match compile_in(&**e, blocks, consts, decls, builtins, Ghost(c), Ghost(s0)) {
                Ok(x) => x,
                Err(err) => return Err(err),
            };
            let mut ca = match compile_stmt_in(&**a, blocks, consts, decls, builtins, Ghost(c), Ghost(oe.1)) {
                Ok(x) => x,
                Err(err) => return Err(err),
            };
            let mut cg = match compile_stmt_in(&**g, blocks, consts, decls, builtins, Ghost(c), Ghost(oa.1)) {
                Ok(x) => x,
                Err(err) => return Err(err),
            };
            let big: u64 = 9223372036854775807;
            if code.len() as u128 + ca.len() as u128 + cg.len() as u128 + 3 > big as u128
                || code.len() as u128 + ca.len() as u128 + cg.len() as u128 + 3 > usize::MAX as u128 {
                return Err(Error::InvalidCode);
            }
            let ghost (ev, av, gv) = (code@, ca@, cg@);
            code.push(Instruction::Test(ca.len() + 2));
            code.append(&mut ca);
            code.push(Instruction::Jmp((cg.len() + 1) as i64));
            code.push(Instruction::Ktest(cg.len() + 1));
            code.append(&mut cg);
            assert(code@ =~= ev + seq![Instruction::<Const<N>>::Test((av.len() + 2) as usize)] + av + seq![
                Instruction::<Const<N>>::Jmp((gv.len() + 1) as i64),
                Instruction::<Const<N>>::Ktest((gv.len() + 1) as usize),
            ] + gv);
            Ok(code)
        },
        Statement::While(e, b) => {
            let ghost oe = code_of(**e, c, s0);
            let ghost ob = stmt_code(**b, c, oe.1);
            let mut code = match compile_in(&**e, blocks, consts, decls, builtins, Ghost(c), Ghost(s0)) {
                Ok(x) => x,
                Err(err) => return Err(err),
            };
            let mut cb = match compile_stmt_in(&**b, blocks, consts, decls, builtins, Ghost(c), Ghost(oe.1)) {
                Ok(x) => x,
                Err(err) => return Err(err),
            };
            let big: u64 = 9223372036854775807;
            if code.len() as u128 + cb.len() as u128 + 3 > big as u128
                || code.len() as u128 + cb.len() as u128 + 3 > usize::MAX as u128 {
                return Err(Error::InvalidCode);
            }
            let ghost (ev, bv) = (code@, cb@);
            let end = code.len() + cb.len() + 2;
            code.push(Instruction::Ktest(cb.len() + 2));
            code.append(&mut cb);
            code.push(Instruction::Jmp(-(end as i64)));
            assert(code@ =~= ev + seq![Instruction::<Const<N>>::Ktest((bv.len() + 2) as usize)] + bv + seq![
                Instruction::<Const<N>>::Jmp((-(end as int)) as i64),
            ]);
            patch_loop(&mut code, end);
            Ok(code)
        },
        Statement::For(names, e, b) => {
            let ghost oe = code_of(**e, c, s0);
            let mut code = match compile_in(&**e, blocks, consts, decls, builtins, Ghost(c), Ghost(s0)) {
                Ok(x) => x,
                Err(err) => return Err(err),
            };
            if blocks.0.len() == 0 {
                return Err(Error::MalformedStack);
            }
            let ghost ol = locals_code::<N>(names@, 0, c, oe.1);
            let mut cl = match compile_locals(names, blocks, Ghost(c), Ghost(oe.1)) {
                Ok(x) => x,
                Err(err) => return Err(err),
            };
            let ghost ob = stmt_code(**b, c, ol.1);
            let mut cb = match compile_stmt_in(&**b, blocks, consts, decls, builtins, Ghost(c), Ghost(ol.1)) {
                Ok(x) => x,
                Err(err) => return Err(err),
            };
            let mut body = vec![
                Instruction::Dup,
                Instruction::Call(0),
                Instruction::Unpack(2),
                Instruction::Rot,
                Instruction::Ktest(0),
            ];
            if names.len() > 1 {
                body.push(Instruction::Unpack(names.len()));
            }
            let ghost (lv, bv) = (cl@, cb@);
            body.append(&mut cl);
            body.append(&mut cb);
            assert(body@ =~= seq![
                Instruction::<Const<N>>::Dup,
                Instruction::<Const<N>>::Call(0),
                Instruction::<Const<N>>::Unpack(2),
                Instruction::<Const<N>>::Rot,
                Instruction::<Const<N>>::Ktest(0),
            ] + unpack_for::<N>(names@.len()) + lv + bv);
            let big: u64 = 9223372036854775807;
            if code.len() as u128 + body.len() as u128 + 3 > big as u128
                || code.len() as u128 + body.len() as u128 + 3 > usize::MAX as u128 {
                return Err(Error::InvalidCode);
            }
            let diff = body.len() + 1;
            let ghost bodyv = body@;
            patch_loop(&mut body, diff);
            let k = body.len() - 3;
            body.set(4, Instruction::Ktest(k));
            let ghost (ev, pv) = (code@, body@);
            code.append(&mut body);
            code.push(Instruction::Jmp(-(diff as i64)));
            code.push(Instruction::Pop);
            code.push(Instruction::Pop);
            assert(code@ =~= ev + pv + seq![
                Instruction::<Const<N>>::Jmp((-(diff as int)) as i64),
                Instruction::<Const<N>>::Pop,
                Instruction::<Const<N>>::Pop,
            ]);
            Ok(code)
        },
        Statement::Try(tr, err, as_name, ca) => {
            let ghost ot = stmt_code(**tr, c, s0);
            let mut ct = match compile_stmt_in(&**tr, blocks, consts, decls, builtins, Ghost(c), Ghost(s0)) {
                Ok(x) => x,
                Err(err) => return Err(err),
            };
            let ghost ep = match err {
                Some(names) => {
                    let l = name_loads::<N>(names@, 0, ot.1);
                    (l.0 + seq![Instruction::<Const<N>>::ESwitch(names@.len() as usize)], l.1)
                },
                None => (seq![Instruction::<Const<N>>::LoadErr], ot.1),
            };
            let mut errpart: Vec<Instruction<Const<N>>> = Vec::new();
            match err {
                Some(names) => {
                    compile_name_loads(names, 0, &mut errpart, consts, Ghost(ot.1));
                    errpart.push(Instruction::ESwitch(names.len()));
                },
                None => {
                    errpart.push(Instruction::LoadErr);
                },
            }
            assert(errpart@ =~= ep.0);
            if blocks.0.len() == 0 {
                return Err(Error::MalformedStack);
            }
            let ghost oh = match as_name {
                Some(name) => locals_code::<N>(seq![*name], 0, c, ep.1),
                None => (Ok::<Seq<Instruction<Const<N>>>, Failure>(seq![Instruction::<Const<N>>::Pop]), ep.1),
            };
            let mut catches: Vec<Instruction<Const<N>>> = match as_name {
                Some(name) => {
                    let one = vec![name.clone()];
                    assert(one@ =~= seq![*name]);
                    match compile_locals(&one, blocks, Ghost(c), Ghost(ep.1)) {
                        Ok(x) => x,
                        Err(err) => return Err(err),
                    }
                },
                None => {
                    let v = vec![Instruction::Pop];
                    assert(v@ =~= seq![Instruction::<Const<N>>::Pop]);
                    v
                },
            };
            let ghost oc = stmt_code(**ca, c, oh.1);
            let mut cc = match compile_stmt_in(&**ca, blocks, consts, decls, builtins, Ghost(c), Ghost(oh.1)) {
                Ok(x) => x,
                Err(err) => return Err(err),
            };
            let ghost (hv, cv) = (catches@, cc@);
            catches.append(&mut cc);
            catches.push(Instruction::Fcb);
            assert(catches@ =~= hv + cv + seq![Instruction::<Const<N>>::Fcb]);
            let big: u64 = 9223372036854775807;
            if ct.len() as u128 + catches.len() as u128 + errpart.len() as u128 + 3 > usize::MAX as u128 {
                return Err(Error::InvalidCode);
            }
            let ghost (tv, ev, kv) = (ct@, errpart@, catches@);
            let mut code = vec![Instruction::Ltb(ct.len() + 2)];
            code.append(&mut ct);
            code.push(Instruction::Ftb(catches.len() + 2));
            code.append(&mut errpart);
            code.append(&mut catches);
            assert(code@ =~= seq![Instruction::<Const<N>>::Ltb((tv.len() + 2) as usize)] + tv + seq![
                Instruction::<Const<N>>::Ftb((kv.len() + 2) as usize),
            ] + ev + kv);
            Ok(code)
        },
        Statement::TryFinally(tr, err, as_name, ca, fi) => {
            let ghost ot = stmt_code(**tr, c, s0);
            let mut ct = match compile_stmt_in(&**tr, blocks, consts, decls, builtins, Ghost(c), Ghost(s0)) {
                Ok(x) => x,
                Err(err) => return Err(err),
            };
            let ghost ep = match err {
                Some(names) => {
                    let l = name_loads::<N>(names@, 0, ot.1);
                    (l.0 + seq![Instruction::<Const<N>>::ESwitch(names@.len() as usize)], l.1)
                },
                None => (seq![Instruction::<Const<N>>::LoadErr], ot.1),
            };
            let mut errpart: Vec<Instruction<Const<N>>> = Vec::new();
            match err {
                Some(names) => {
                    compile_name_loads(names, 0, &mut errpart, consts, Ghost(ot.1));
                    errpart.push(Instruction::ESwitch(names.len()));
                },
                None => {
                    errpart.push(Instruction::LoadErr);
                },
            }
            assert(errpart@ =~= ep.0);
            if blocks.0.len() == 0 {
                return Err(Error::MalformedStack);
            }
            let ghost oh = match as_name {
                Some(name) => locals_code::<N>(seq![*name], 0, c, ep.1),
                None => (Ok::<Seq<Instruction<Const<N>>>, Failure>(seq![Instruction::<Const<N>>::Pop]), ep.1),
            };
            let mut catches: Vec<Instruction<Const<N>>> = match as_name {
                Some(name) => {
                    let one = vec![name.clone()];
                    assert(one@ =~= seq![*name]);
                    match compile_locals(&one, blocks, Ghost(c), Ghost(ep.1)) {
                        Ok(x) => x,
                        Err(err) => return Err(err),
                    }
                },
                None => {
                    let v = vec![Instruction::Pop];
                    assert(v@ =~= seq![Instruction::<Const<N>>::Pop]);
                    v
                },
            };
            let ghost oc = stmt_code(**ca, c, oh.1);
            let mut cc = match compile_stmt_in(&**ca, blocks, consts, decls, builtins, Ghost(c), Ghost(oh.1)) {
                Ok(x) => x,
                Err(err) => return Err(err),
            };
            let ghost of = stmt_code(**fi, c, oc.1);
            let mut cf = match compile_stmt_in(&**fi, blocks, consts, decls, builtins, Ghost(c), Ghost(oc.1)) {
                Ok(x) => x,
                Err(err) => return Err(err),
            };
            let ghost (hv, cv) = (catches@, cc@);
            catches.append(&mut cc);
            catches.push(Instruction::Fcb);
            assert(catches@ =~= hv + cv + seq![Instruction::<Const<N>>::Fcb]);
            let big: u64 = 9223372036854775807;
            if ct.len() as u128 + catches.len() as u128 + cf.len() as u128 + errpart.len() as u128 + 4 > usize::MAX as u128
                || cf.len() as u128 > big as u128 {
                return Err(Error::InvalidCode);
            }
            let ghost (tv, ev, kv) = (ct@, errpart@, catches@);
            let mut code = vec![Instruction::Ltb(ct.len() + 2)];
            code.append(&mut ct);
            code.push(Instruction::Ftb(catches.len() + 2));
            code.append(&mut errpart);
            code.append(&mut catches);
            code.push(Instruction::Jmp(cf.len() as i64));
            let ghost fv = cf@;
            code.append(&mut cf);
            assert(code@ =~= seq![Instruction::<Const<N>>::Ltb((tv.len() + 2) as usize)] + tv + seq![
                Instruction::<Const<N>>::Ftb((kv.len() + 2) as usize),
            ] + ev + kv + seq![Instruction::<Const<N>>::Jmp(fv.len() as i64)] + fv);
            Ok(code)
        },
        Statement::AccessAssignment(a, b) => {
            let ghost ob = code_of(**b, c, s0);
            let ghost oa = code_of(**a, c, ob.1);
            let mut code = match compile_in(&**b, blocks, consts, decls, builtins, Ghost(c), Ghost(s0)) {
                Ok(x) => x,
                Err(err) => return Err(err),
            };
            let mut ca = match compile_in(&**a, blocks, consts, decls, builtins, Ghost(c), Ghost(ob.1)) {
                Ok(x) => x,
                Err(err) => return Err(err),
            };
            let ghost (bv, av) = (code@, ca@);
            code.append(&mut ca);
            assert(code@ =~= bv + av);
            if code.len() == 0 {
                return Err(Error::InvalidCode);
            }
            let last = code.pop().unwrap();
            code.push(store_of(last));
            assert(code@ =~= (bv + av).drop_last().push(stored((bv + av).last())));
            Ok(code)
        },
        Statement::Function(_, _, _, _) | Statement::ExternFunction(_, _, _, _) | Statement::ExternAssignment(_, _) => {
            decl_stmt_in(t, blocks, consts, decls, builtins, Ghost(c), Ghost(s))
        },
        _ => Err(Error::InvalidCode),
    }
}

/// Compiles a declaration: a function, a `pub` function or a `pub`
/// assignment (see `stmt_code`).
#[verifier::rlimit(100)]
#[verifier::spinoff_prover]
fn decl_stmt_in<N: Copy>(
    t: &Statement<N>,
    blocks: &mut BlockChain,
    consts: &mut ConstantLib,
    decls: &mut Decls<N>,
    builtins: &Vec<String>,
    Ghost(c): Ghost<Ctx>,
    Ghost(s): Ghost<St<N>>,
) -> (r: Result<Vec<Instruction<Const<N>>>, Error>)
    requires
        stmt_supported(*t),
        *t is Function || *t is ExternFunction || *t is ExternAssignment,
        chain_rel(s, old(blocks).0@),
        s.pool == old(consts)@,
        decls_rel(s, *old(decls)),
        c.builtins == name_views(builtins@),
    ensures
        agrees(r, stmt_code(*t, c, s), final(consts)@, final(blocks).0@, *final(decls)),
    decreases t, 0nat,
{
    let ghost s0 = s;
    match t {
        Statement::Function(name, args, doc, body) => {
            let (_, _) = consts.get_or_create_tconstant(name.clone());
            proof {
                crate::function::lemma_first_text(s0.pool, name@);
            }
            let ghost s1 = with_text(s0, name@);
            let ghost ol = lambda_code(args@, **body, Some(name@), opt_view(*doc), c, s1);
            let lc = match lambda_in(args, &**body, Some(name.clone()), clone_text(doc), blocks, consts, decls, builtins, Ghost(c), Ghost(s1)) {
                Ok(x) => x,
                Err(err) => return Err(err),
            };
            let n = blocks.0.len();
            if n == 0 {
                return Err(Error::MalformedStack);
            }
            if blocks.0[n - 1].len() == usize::MAX {
                return Err(Error::InvalidCode);
            }
            proof {
                assert(ol.1.chain.last() == scope_view(blocks.0@.last()));
                crate::refrence::lemma_position_of(blocks.0@.last().local.names(), name@);
            }
            let (h, k) = blocks.0[n - 1].get_or_create_index(name.clone());
            let st = if h {
                Instruction::Stup(k)
            } else {
                Instruction::Stl(0, k)
            };
            proof {
                let d = decl_store(ol.1, name@);
                assert(st == d.0);
                assert(chain_view(blocks.0@) =~= d.1.chain);
            }
            match lc {
                LambdaCode::Static(f) => {
                    let v = vec![Instruction::Cld(Const::Func(f)), st];
                    assert(v@ =~= seq![Instruction::<Const<N>>::Cld(Const::Func(f)), st]);
                    Ok(v)
                },
                LambdaCode::Upval(_, mut code) => {
                    code.push(st);
                    Ok(code)
                },
            }
        },
        Statement::ExternFunction(name, args, doc, body) => {
            let (kn, _) = consts.get_or_create_tconstant(name.clone());
            proof {
                crate::function::lemma_first_text(s0.pool, name@);
                if first_text(s0.pool, name@) is None {
                    crate::function::lemma_text_found_after_add(s0.pool, name@);
                }
            }
            ensure_member_in(decls, name.clone());
            let ghost s1 = St { members: ensure_member(with_text(s0, name@).members, name@), ..with_text(s0, name@) };
            let ghost ol = lambda_code(args@, **body, Some(name@), opt_view(*doc), c, s1);
            let lc = match lambda_in(args, &**body, Some(name.clone()), clone_text(doc), blocks, consts, decls, builtins, Ghost(c), Ghost(s1)) {
                Ok(x) => x,
                Err(err) => return Err(err),
            };
            match lc {
                LambdaCode::Static(f) => {
                    set_member_in(decls, name.clone(), Member::Function(f));
                    let v: Vec<Instruction<Const<N>>> = Vec::new();
                    assert(v@ =~= Seq::<Instruction<Const<N>>>::empty());
                    Ok(v)
                },
                LambdaCode::Upval(_, mut code) => {
                    let ghost cv = code@;
                    code.push(Instruction::This);
                    code.push(Instruction::Stm(kn));
                    assert(code@ =~= cv + seq![Instruction::<Const<N>>::This, Instruction::<Const<N>>::Stm(kn)]);
                    Ok(code)
                },
            }
        },
        Statement::ExternAssignment(names, e) => {
            let ghost o = with_code(code_of(**e, c, s0), unpack_for::<N>(names@.len()));
            let mut code = match compile_in(&**e, blocks, consts, decls, builtins, Ghost(c), Ghost(s0)) {
                Ok(x) => x,
                Err(err) => return Err(err),
            };
            if names.len() > 1 {
                code.push(Instruction::Unpack(names.len()));
            }
            proof {
                assert(code@ =~= o.0->Ok_0);
            }
            compile_extern_stores(names, 0, &mut code, consts, decls, Ghost(o.1));
            Ok(code)
        },
        _ => Err(Error::InvalidCode),
    }
}

/// Compiles the statements of `v` one after the other (see `stmts_code`).
fn compile_stmts<N: Copy>(
    v: &Vec<Statement<N>>,
    blocks: &mut BlockChain,
    consts: &mut ConstantLib,
    decls: &mut Decls<N>,
    builtins: &Vec<String>,
    Ghost(c): Ghost<Ctx>,
    Ghost(s): Ghost<St<N>>,
) -> (r: Result<Vec<Instruction<Const<N>>>, Error>)
    requires
        all_stmts_supported(*v, 0),
        chain_rel(s, old(blocks).0@),
        s.pool == old(consts)@,
        decls_rel(s, *old(decls)),
        c.builtins == name_views(builtins@),
    ensures
        agrees(r, stmts_code(*v, 0, c, s), final(consts)@, final(blocks).0@, *final(decls)),
    decreases v, 1nat,
{
    let ghost s0 = s;
    let ghost whole = stmts_code(*v, 0, c, s0);
    let mut out: Vec<Instruction<Const<N>>> = Vec::new();
    let ghost mut st = s0;
    let mut i: usize = 0;
    proof {
        match whole.0 {
            Ok(w) => {
                assert(Seq::<Instruction<Const<N>>>::empty() + w =~= w);
            },
            Err(_) => {},
        }
    }
    while i < v.len()
        invariant
            i <= v@.len(),
            all_stmts_supported(*v, i as int),
            consts@ == st.pool,
            chain_rel(st, blocks.0@),
            decls_rel(st, *decls),
            c.builtins == name_views(builtins@),
            s0 == s,
            whole == stmts_code(*v, 0, c, s0),
            whole == glue((Ok(out@), st), stmts_code(*v, i as int, c, st)),
        decreases v@.len() - i,
    {
        let ghost o = stmt_code(v@[i as int], c, st);
        proof {
            assert(stmts_code(*v, i as int, c, st) == glue(o, stmts_code(*v, i + 1, c, o.1)));
        }
        let mut x = match compile_stmt_in(&v[i], blocks, consts, decls, builtins, Ghost(c), Ghost(st)) {
            Ok(x) => x,
            Err(err) => {
                proof {
                    assert(glue(o, stmts_code(*v, i + 1, c, o.1)) == o);
                }
                return Err(err);
            },
        };
        proof {
            lemma_glue_step(out@, st, x@, o.1, stmts_code(*v, i + 1, c, o.1));
        }
        out.append(&mut x);
        proof {
            st = o.1;
        }
        i = i + 1;
    }
    proof {
        assert(out@ + Seq::<Instruction<Const<N>>>::empty() =~= out@);
    }
    Ok(out)
}

/// Compiles a function (see `lambda_code`), the scopes standing as
/// `chain_rel` says.
#[verifier::rlimit(100)]
#[verifier::spinoff_prover]
fn lambda_in<N: Copy>(
    args: &Vec<String>,
    body: &Statement<N>,
    name: Option<String>,
    doc: Option<String>,
    blocks: &mut BlockChain,
    consts: &mut ConstantLib,
    decls: &mut Decls<N>,
    builtins: &Vec<String>,
    Ghost(c): Ghost<Ctx>,
    Ghost(s): Ghost<St<N>>,
) -> (r: Result<LambdaCode<N>, Error>)
    requires
        stmt_supported(*body),
        chain_rel(s, old(blocks).0@),
        s.pool == old(consts)@,
        decls_rel(s, *old(decls)),
        c.builtins == name_views(builtins@),
    ensures
        agrees_lambda(
            r,
            lambda_code(args@, *body, opt_view(name), opt_view(doc), c, s),
            final(consts)@,
            final(blocks).0@,
            *final(decls),
        ),
    decreases body, 2nat,
{
    let ghost names = name_views(args@);
    let ghost whole = lambda_code(args@, *body, opt_view(name), opt_view(doc), c, s);
    let mut block = WizardBlock::new();
    let mut i: usize = 0;
    proof {
        assert(names.take(0) =~= Seq::<Seq<char>>::empty());
        assert(block.local.names() =~= names.take(0));
    }
    while i < args.len()
        invariant
            i <= args@.len(),
            names == name_views(args@),
            block.local.names() == names.take(i as int),
            block.upvals.upvals().len() == 0,
            first_dup(names, 0) == first_dup(names, i as int),
            chain_rel(s, blocks.0@),
            s.pool == consts@,
            decls_rel(s, *decls),
            whole == lambda_code(args@, *body, opt_view(name), opt_view(doc), c, s),
        decreases args@.len() - i,
    {
        let ghost pre = block.local.names();
        match block.try_create_index(args[i].clone()) {
            Some(_) => {},
            None => {
                let msg = String::from_str("Duplicate argument: ").concat(args[i].as_str());
                proof {
                    assert(names[i as int] == args@[i as int]@);
                    assert(first_dup(names, i as int) == Some(i as int));
                    assert(msg@ == "Duplicate argument: "@ + names[i as int]);
                }
                return Err(Error::ParserError(msg));
            },
        }
        proof {
            assert(names[i as int] == args@[i as int]@);
            assert(first_dup(names, i as int) == first_dup(names, i + 1));
            assert(names.take(i + 1) =~= names.take(i as int).push(names[i as int]));
        }
        i = i + 1;
    }
    proof {
        assert(names.take(args@.len() as int) =~= names);
    }
    proof {
        assert(first_dup(names, args@.len() as int) is None);
        assert(block.upvals.upvals() =~= Seq::<(Seq<char>, Origin)>::empty());
        assert(scope_view(block) == ScopeView { locals: names, upvals: Seq::empty() });
    }
    blocks.0.push(block);
    let mut members: Vec<(String, Member)> = Vec::new();
    std::mem::swap(&mut decls.members, &mut members);
    let ghost inner = St {
        chain: s.chain.push(ScopeView { locals: names, upvals: Seq::empty() }),
        members: Seq::empty(),
        ..s
    };
    proof {
        assert(chain_view(blocks.0@) =~= inner.chain);
        assert(member_views(decls.members@) =~= Seq::<(Seq<char>, Member)>::empty());
    }
    let ghost ob = stmt_code(*body, c, inner);
    let res = compile_stmt_in(body, blocks, consts, decls, builtins, Ghost(c), Ghost(inner));
    std::mem::swap(&mut decls.members, &mut members);
    let mut code = match res {
        Ok(x) => x,
        Err(err) => {
            proof {
                assert(whole == (Err::<LambdaOut<N>, Failure>(ob.0->Err_0), St { members: s.members, ..ob.1 }));
            }
            return Err(err);
        },
    };
    let ghost bc = code@;
    assert(ob.0 == Ok::<Seq<Instruction<Const<N>>>, Failure>(bc));
    let n = code.len();
    let ends = n > 0 && match &code[n - 1] {
        Instruction::Return(_) => true,
        _ => false,
    };
    if !ends {
        code.push(Instruction::Return(0));
    }
    assert(code@ == with_return(bc));
    let ghost before_pop = blocks.0@;
    let blk = match blocks.0.pop() {
        Some(x) => x,
        None => {
            proof {
                assert(whole == (Err::<LambdaOut<N>, Failure>(Failure::Other), St { members: s.members, ..ob.1 }));
            }
            return Err(Error::MalformedStack);
        },
    };
    proof {
        assert(chain_view(blocks.0@) =~= ob.1.chain.drop_last());
        assert(ob.1.chain.last() == scope_view(blk));
    }
    let nlocals = blk.len();
    let is_method = args.len() > 0 && args[0] == String::from_str("self");
    proof {
        reveal_strlit("self");
    }
    let nargs = if is_method { args.len() - 1 } else { args.len() };
    let k = decls.functions.len();
    let ghost fns = decls.functions@;
    let f = FunctionCode { code, nargs, nlocals, is_method, name, doc, members };

    decls.functions.push(f);
    proof {
        assert(function_views(decls.functions@) =~= function_views(fns).push(function_view(f)));
    }
    let len = blk.upval_len();
    if len == 0 {
        return Ok(LambdaCode::Static(k));
    }
    let ghost ups = scope_view(blk).upvals;
    let ghost s2 = St {
        chain: ob.1.chain.drop_last(),
        funcs: ob.1.funcs.push(function_view(f)),
        members: s.members,
        ..ob.1
    };
    proof {
        assert(ob.1.chain.last() == scope_view(blk));
    }
    let mut loads: Vec<Instruction<Const<N>>> = Vec::new();
    let ghost mut st = s2;
    let mut j: usize = 0;
    proof {
        match captures(ups, 0, s2).0 {
            Ok(w) => {
                assert(Seq::<Instruction<Const<N>>>::empty() + w =~= w);
            },
            Err(_) => {},
        }
    }
    while j < len
        invariant
            j <= len,
            len == ups.len(),
            ups == scope_view(blk).upvals,
            chain_rel(st, blocks.0@),
            st.pool == consts@,
            st.funcs == s2.funcs,
            st.members == s2.members,
            decls_rel(s2, *decls),
            captures(ups, 0, s2) == glue((Ok(loads@), st), captures(ups, j as int, st)),
            whole == lambda_code(args@, *body, opt_view(name), opt_view(doc), c, s),
            whole == (match captures(ups, 0, s2).0 {
                Err(x) => (Err::<LambdaOut<N>, Failure>(x), captures(ups, 0, s2).1),
                Ok(l) => (
                    Ok::<LambdaOut<N>, Failure>(LambdaOut::Upval(
                        nlocals == 0,
                        seq![Instruction::<Const<N>>::Cld(Const::Func(k))] + l + seq![Instruction::<Const<N>>::MkFunc(len)],
                    )),
                    captures(ups, 0, s2).1,
                ),
            }),
        decreases len - j,
    {
        let (id, orig) = match blk.upval_all_at_index(j) {
            Some((x, y)) => (x, y.1),
            None => {
                return Err(Error::MalformedStack);
            },
        };
        let ghost o = capture_step(st, ups[j as int].0, ups[j as int].1.0, ups[j as int].1.1);
        proof {
            assert(id@ == ups[j as int].0);
            assert(orig == ups[j as int].1);
        }
        let ins = match capture_in(blocks, id, orig.0, orig.1, Ghost(st)) {
            Ok(x) => x,
            Err(err) => {
                proof {
                    assert(o.0 == Err::<Instruction<Const<N>>, Failure>(failure(err)));
                    assert(captures(ups, j as int, st) == (Err::<Seq<Instruction<Const<N>>>, Failure>(failure(err)), o.1));
                    assert(captures(ups, 0, s2).0 == Err::<Seq<Instruction<Const<N>>>, Failure>(failure(err)));
                    assert(whole.0 == Err::<LambdaOut<N>, Failure>(failure(err)));
                }
                return Err(err);
            },
        };
        proof {
            assert(o.0 == Ok::<Instruction<Const<N>>, Failure>(ins));
            assert(captures(ups, j as int, st) == glue((Ok(seq![ins]), o.1), captures(ups, j + 1, o.1)));
            lemma_glue_step(loads@, st, seq![ins], o.1, captures(ups, j + 1, o.1));
        }
        let ghost lv0 = loads@;
        loads.push(ins);
        assert(loads@ =~= lv0 + seq![ins]);
        proof {
            st = o.1;
        }
        j = j + 1;
    }
    proof {
        assert(loads@ + Seq::<Instruction<Const<N>>>::empty() =~= loads@);
    }
    let ghost lv = loads@;
    let mut out = vec![Instruction::Cld(Const::Func(k))];
    out.append(&mut loads);
    out.push(Instruction::MkFunc(len));
    assert(out@ =~= seq![Instruction::<Const<N>>::Cld(Const::Func(k))] + lv + seq![Instruction::<Const<N>>::MkFunc(len)]);
    Ok(LambdaCode::Upval(nlocals == 0, out))
}

/// Compiles a function: its arguments `args` become the first locals of a
/// new innermost scope of `blocks` (a repeated name is a `ParserError`),
/// its body is compiled there as a new function, which goes last in the
/// function table of `decls`; a function that uses variables of the
/// scopes around it comes back as the code that makes a closure of them
/// (see `lambda_code`).
pub fn compile_lambda<N: Copy>(
    args: &Vec<String>,
    body: &Statement<N>,
    name: Option<String>,
    doc: Option<String>,
    blocks: &mut BlockChain,
    consts: &mut ConstantLib,
    decls: &mut Decls<N>,
    builtins: &Vec<String>,
) -> (r: Result<LambdaCode<N>, Error>)
    requires
        stmt_supported(*body),
    ensures
        agrees_lambda(
            r,
            lambda_code(
                args@,
                *body,
                opt_view(name),
                opt_view(doc),
                Ctx { builtins: name_views(builtins@) },
                start(old(consts)@, old(blocks).0@, *old(decls)),
            ),
            final(consts)@,
            final(blocks).0@,
            *final(decls),
        ),
{
    let ghost c = Ctx { builtins: name_views(builtins@) };
    let ghost s = start(consts@, blocks.0@, *decls);
    lambda_in(args, body, name, doc, blocks, consts, decls, builtins, Ghost(c), Ghost(s))
}

/// Compiles a statement (see `stmt_code`): as `compile_expr` does for its
/// expressions; `let` and `:=` make locals of the innermost scope for names
/// that have none, `=` stores into the variables the names load; `if` and
/// `while` jump over their blocks by offsets, and the `break` and
/// `continue` of a loop become jumps to its end and its start.
pub fn compile_stmt<N: Copy>(
    t: &Statement<N>,
    blocks: &mut BlockChain,
    consts: &mut ConstantLib,
    decls: &mut Decls<N>,
    builtins: &Vec<String>,
) -> (r: Result<Vec<Instruction<Const<N>>>, Error>)
    requires
        stmt_supported(*t),
    ensures
        agrees(
            r,
            stmt_code(*t, Ctx { builtins: name_views(builtins@) }, start(old(consts)@, old(blocks).0@, *old(decls))),
            final(consts)@,
            final(blocks).0@,
            *final(decls),
        ),
{
    let ghost c = Ctx { builtins: name_views(builtins@) };
    let ghost s = start(consts@, blocks.0@, *decls);
    compile_stmt_in(t, blocks, consts, decls, builtins, Ghost(c), Ghost(s))
}

/// An operator compiles to the code of its operands, left first, followed
/// by the instruction of that operator: `+ - * /` to `Add Sub Mul Div`,
/// `==` to `Cmp` and `!=` to `Cmp` then `Negate`, `<`, `>`, `<=`, `>=` to
/// `Less Great LessEq GreatEq`, the logical `and or xor` to `AAnd AOr
/// AXor` and the bitwise ones to `And Or Xor`, indexing to `ArrayAccess`;
/// `len`, `str`, `bytes` and negation to `Len Str Bytes Negate` after the
/// code of their operand. An operand that fails to compile fails the
/// whole, with the same failure.
pub proof fn lemma_operators_compile_to_their_instruction<N>(a: Expression<N>, b: Expression<N>, c: Ctx, s: St<N>)
    ensures
        ({
            let oa = code_of(a, c, s);
            let ob = code_of(b, c, oa.1);
            let ops = oa.0->Ok_0 + ob.0->Ok_0;
            &&& (oa.0 is Ok && ob.0 is Ok) ==> {
                &&& code_of(Expression::Add(Box::new(a), Box::new(b)), c, s) == (Ok::<Seq<Instruction<Const<N>>>, Failure>(ops + seq![Instruction::Add]), ob.1)
                &&& code_of(Expression::Sub(Box::new(a), Box::new(b)), c, s) == (Ok::<Seq<Instruction<Const<N>>>, Failure>(ops + seq![Instruction::Sub]), ob.1)
                &&& code_of(Expression::Mul(Box::new(a), Box::new(b)), c, s) == (Ok::<Seq<Instruction<Const<N>>>, Failure>(ops + seq![Instruction::Mul]), ob.1)
                &&& code_of(Expression::Div(Box::new(a), Box::new(b)), c, s) == (Ok::<Seq<Instruction<Const<N>>>, Failure>(ops + seq![Instruction::Div]), ob.1)
                &&& code_of(Expression::Equals(Box::new(a), Box::new(b)), c, s) == (Ok::<Seq<Instruction<Const<N>>>, Failure>(ops + seq![Instruction::Cmp]), ob.1)
                &&& code_of(Expression::Xor(Box::new(a), Box::new(b)), c, s) == (Ok::<Seq<Instruction<Const<N>>>, Failure>(ops + seq![Instruction::AXor]), ob.1)
                &&& code_of(Expression::BXor(Box::new(a), Box::new(b)), c, s) == (Ok::<Seq<Instruction<Const<N>>>, Failure>(ops + seq![Instruction::Xor]), ob.1)
                &&& code_of(Expression::And(Box::new(a), Box::new(b)), c, s) == (Ok::<Seq<Instruction<Const<N>>>, Failure>(ops + seq![Instruction::AAnd]), ob.1)
                &&& code_of(Expression::BAnd(Box::new(a), Box::new(b)), c, s) == (Ok::<Seq<Instruction<Const<N>>>, Failure>(ops + seq![Instruction::And]), ob.1)
                &&& code_of(Expression::Or(Box::new(a), Box::new(b)), c, s) == (Ok::<Seq<Instruction<Const<N>>>, Failure>(ops + seq![Instruction::AOr]), ob.1)
                &&& code_of(Expression::BOr(Box::new(a), Box::new(b)), c, s) == (Ok::<Seq<Instruction<Const<N>>>, Failure>(ops + seq![Instruction::Or]), ob.1)
                &&& code_of(Expression::Less(Box::new(a), Box::new(b)), c, s) == (Ok::<Seq<Instruction<Const<N>>>, Failure>(ops + seq![Instruction::Less]), ob.1)
                &&& code_of(Expression::Great(Box::new(a), Box::new(b)), c, s) == (Ok::<Seq<Instruction<Const<N>>>, Failure>(ops + seq![Instruction::Great]), ob.1)
                &&& code_of(Expression::LessEq(Box::new(a), Box::new(b)), c, s) == (Ok::<Seq<Instruction<Const<N>>>, Failure>(ops + seq![Instruction::LessEq]), ob.1)
                &&& code_of(Expression::GreatEq(Box::new(a), Box::new(b)), c, s) == (Ok::<Seq<Instruction<Const<N>>>, Failure>(ops + seq![Instruction::GreatEq]), ob.1)
                &&& code_of(Expression::ArrayAccess(Box::new(a), Box::new(b)), c, s) == (Ok::<Seq<Instruction<Const<N>>>, Failure>(ops + seq![Instruction::ArrayAccess]), ob.1)
                &&& code_of(Expression::Neq(Box::new(a), Box::new(b)), c, s) == (Ok::<Seq<Instruction<Const<N>>>, Failure>(ops + seq![Instruction::Cmp, Instruction::Negate]), ob.1)
            }
            &&& oa.0 is Err ==> {
                &&& code_of(Expression::Add(Box::new(a), Box::new(b)), c, s).0 == oa.0
                &&& code_of(Expression::Sub(Box::new(a), Box::new(b)), c, s).0 == oa.0
                &&& code_of(Expression::Mul(Box::new(a), Box::new(b)), c, s).0 == oa.0
                &&& code_of(Expression::Div(Box::new(a), Box::new(b)), c, s).0 == oa.0
                &&& code_of(Expression::Equals(Box::new(a), Box::new(b)), c, s).0 == oa.0
                &&& code_of(Expression::Xor(Box::new(a), Box::new(b)), c, s).0 == oa.0
                &&& code_of(Expression::BXor(Box::new(a), Box::new(b)), c, s).0 == oa.0
                &&& code_of(Expression::And(Box::new(a), Box::new(b)), c, s).0 == oa.0
                &&& code_of(Expression::BAnd(Box::new(a), Box::new(b)), c, s).0 == oa.0
                &&& code_of(Expression::Or(Box::new(a), Box::new(b)), c, s).0 == oa.0
                &&& code_of(Expression::BOr(Box::new(a), Box::new(b)), c, s).0 == oa.0
                &&& code_of(Expression::Less(Box::new(a), Box::new(b)), c, s).0 == oa.0
                &&& code_of(Expression::Great(Box::new(a), Box::new(b)), c, s).0 == oa.0
                &&& code_of(Expression::LessEq(Box::new(a), Box::new(b)), c, s).0 == oa.0
                &&& code_of(Expression::GreatEq(Box::new(a), Box::new(b)), c, s).0 == oa.0
                &&& code_of(Expression::ArrayAccess(Box::new(a), Box::new(b)), c, s).0 == oa.0
                &&& code_of(Expression::Neq(Box::new(a), Box::new(b)), c, s).0 == oa.0
            }
            &&& oa.0 is Ok ==> code_of(Expression::Len(Box::new(a)), c, s) == (Ok::<Seq<Instruction<Const<N>>>, Failure>(oa.0->Ok_0 + seq![Instruction::Len]), oa.1)
            &&& oa.0 is Ok ==> code_of(Expression::MakeString(Box::new(a)), c, s) == (Ok::<Seq<Instruction<Const<N>>>, Failure>(oa.0->Ok_0 + seq![Instruction::Str]), oa.1)
            &&& oa.0 is Ok ==> code_of(Expression::MakeBytes(Box::new(a)), c, s) == (Ok::<Seq<Instruction<Const<N>>>, Failure>(oa.0->Ok_0 + seq![Instruction::Bytes]), oa.1)
            &&& oa.0 is Ok ==> code_of(Expression::Negate(Box::new(a)), c, s) == (Ok::<Seq<Instruction<Const<N>>>, Failure>(oa.0->Ok_0 + seq![Instruction::Negate]), oa.1)
        }),
{
}

/// Interning a text gives an index where the pool holds that text, and
/// keeps the entries that were there.
proof fn lemma_interned_text<N>(s: St<N>, x: Seq<char>)
    requires
        s.pool.len() < usize::MAX,
    ensures
        text_index(s.pool, x) < add_text(s.pool, x).len(),
        add_text(s.pool, x)[text_index(s.pool, x) as int] == ConstantView::Text(x),
        add_text(s.pool, x).subrange(0, s.pool.len() as int) == s.pool,
{
    crate::function::lemma_first_text(s.pool, x);
    if first_text(s.pool, x) is None {
        crate::function::lemma_text_found_after_add(s.pool, x);
        crate::function::lemma_first_text(add_text(s.pool, x), x);
        assert(add_text(s.pool, x).subrange(0, s.pool.len() as int) =~= s.pool);
    } else {
        assert(s.pool.subrange(0, s.pool.len() as int) =~= s.pool);
    }
    crate::function::lemma_first_text(add_text(s.pool, x), x);
}

/// Variables are looked up from the innermost scope out: a variable that
/// the innermost scope captured loads from its upvalue slot; a local of
/// the scope just around it becomes a new upvalue of the innermost scope
/// (recording that local's slot as its origin) and loads from there; a
/// name that no scope knows loads as a builtin whose name the constant
/// pool holds at the index loaded, or fails as unknown when no builtin has
/// it.
pub proof fn lemma_variables_resolve<N>(x: Seq<char>, c: Ctx, s: St<N>, p: int)
    ensures
        ({
            let n = s.chain.len();
            let last = s.chain.last();
            let ups = keys(last.upvals);
            (n > 0 && ups.len() < usize::MAX && !last.locals.contains(x) && 0 <= p < ups.len() && ups[p] == x
                && forall|j: int| 0 <= j < p ==> ups[j] != x) ==> var_step::<N>(c, s, x) == (
                Ok::<Seq<Instruction<Const<N>>>, Failure>(seq![Instruction::Ldup(p as usize)]),
                s,
            )
        }),
        ({
            let n = s.chain.len();
            let last = s.chain.last();
            let outer = s.chain[n - 2];
            let ups = keys(last.upvals);
            let o = var_step::<N>(c, s, x);
            (n >= 2 && ups.len() < usize::MAX && !last.locals.contains(x) && !ups.contains(x) && 0 <= p
                < outer.locals.len() && outer.locals[p] == x && forall|j: int| 0 <= j < p ==> outer.locals[j] != x)
                ==> {
                &&& o.0 == Ok::<Seq<Instruction<Const<N>>>, Failure>(seq![Instruction::Ldup(ups.len() as usize)])
                &&& o.1.chain.len() == n
                &&& o.1.chain.drop_last() == s.chain.drop_last()
                &&& o.1.chain.last().locals == last.locals
                &&& o.1.chain.last().upvals == last.upvals.push((x, (0usize, p as usize, false)))
                &&& o.1.pool == s.pool
            }
        }),
        ({
            let o = var_step::<N>(c, s, x);
            (s.pool.len() < usize::MAX && forall|k: int| 0 <= k < s.chain.len() ==> !(#[trigger] s.chain[k]).locals.contains(x)
                && !keys(s.chain[k].upvals).contains(x) && keys(s.chain[k].upvals).len() < usize::MAX) ==> {
                &&& c.builtins.contains(x) ==> (match o.0 {
                    Ok(code) => code.len() == 1 && match code[0] {
                        Instruction::Builtin(k) => k < o.1.pool.len() && o.1.pool[k as int] == ConstantView::Text(x),
                        _ => false,
                    },
                    Err(_) => false,
                })
                &&& !c.builtins.contains(x) ==> o.0 == Err::<Seq<Instruction<Const<N>>>, Failure>(Failure::Unknown(x))
                &&& o.1.chain == s.chain
            }
        }),
{
    let n = s.chain.len();
    if n > 0 {
        let last = s.chain.last();
        crate::refrence::lemma_position_of(last.locals, x);
        crate::refrence::lemma_position_of(keys(last.upvals), x);
        if position_of(last.locals, x) is Some {
            assert(last.locals.contains(x));
        }
        if position_of(keys(last.upvals), x) is Some {
            assert(keys(last.upvals).contains(x));
        }
    }
    if n >= 2 {
        let d = s.chain.drop_last();
        crate::refrence::lemma_position_of(d.last().locals, x);
        assert(d.last() == s.chain[n - 2]);
    }
    lemma_scope_index_none(s.chain.drop_last(), x, 1);
    if s.pool.len() < usize::MAX {
        lemma_interned_text(s, x);
    }
    if n > 0 && (forall|k: int| 0 <= k < s.chain.len() ==> !(#[trigger] s.chain[k]).locals.contains(x)
        && !keys(s.chain[k].upvals).contains(x) && keys(s.chain[k].upvals).len() < usize::MAX) {
        assert(!s.chain[n - 1].locals.contains(x));
        assert(keys(s.chain[n - 1].upvals).len() < usize::MAX);
        assert forall|k: int| 0 <= k < s.chain.drop_last().len() implies !(#[trigger] s.chain.drop_last()[k]).locals.contains(x)
            && !keys(s.chain.drop_last()[k].upvals).contains(x) by {
            assert(s.chain.drop_last()[k] == s.chain[k]);
        }
    }
}

/// A name that no scope of the chain knows is found in none of them.
proof fn lemma_scope_index_none(cs: Seq<ScopeView>, x: Seq<char>, depth: nat)
    ensures
        (forall|k: int| 0 <= k < cs.len() ==> !(#[trigger] cs[k]).locals.contains(x) && !keys(cs[k].upvals).contains(x))
            ==> scope_index_of(cs, x, depth) is None,
    decreases cs.len(),
{
    if cs.len() > 0 {
        lemma_scope_index_none(cs.drop_last(), x, depth + 1);
        crate::refrence::lemma_position_of(cs.last().locals, x);
        crate::refrence::lemma_position_of(keys(cs.last().upvals), x);
        if forall|k: int| 0 <= k < cs.len() ==> !(#[trigger] cs[k]).locals.contains(x) && !keys(cs[k].upvals).contains(x) {
            assert(!cs[cs.len() - 1].locals.contains(x));
            if position_of(cs.last().locals, x) is Some {
                let i = position_of(cs.last().locals, x)->0;
                assert(cs.last().locals[i] == x);
            }
            if position_of(keys(cs.last().upvals), x) is Some {
                let i = position_of(keys(cs.last().upvals), x)->0;
                assert(keys(cs.last().upvals)[i] == x);
            }
            assert forall|k: int| 0 <= k < cs.drop_last().len() implies !(#[trigger] cs.drop_last()[k]).locals.contains(x)
                && !keys(cs.drop_last()[k].upvals).contains(x) by {
                assert(cs.drop_last()[k] == cs[k]);
            }
        }
    }
}

/// An assignment stores the value it computes: `let x = e` makes `x` the
/// next local of the innermost scope (when it has none) and stores into
/// that slot; `x = e` for a local of the innermost scope stores into its
/// slot.
#[verifier::rlimit(100)]
#[verifier::spinoff_prover]
pub proof fn lemma_assignments_store<N>(e: Expression<N>, names: Vec<String>, x: String, c: Ctx, s: St<N>, p: int)
    requires
        names@ == seq![x],
    ensures
        ({
            let oe = code_of(e, c, s);
            let s1 = oe.1;
            let last = s1.chain.last();
            let o = stmt_code(Statement::NewAssignment(names, Box::new(e)), c, s);
            (oe.0 is Ok && s1.chain.len() > 0 && last.locals.len() < usize::MAX && !last.locals.contains(x@)) ==> {
                &&& o.0 == Ok::<Seq<Instruction<Const<N>>>, Failure>(oe.0->Ok_0 + seq![Instruction::Stl(0, last.locals.len() as usize)])
                &&& o.1.chain.last().locals == last.locals.push(x@)
                &&& o.1.chain.len() == s1.chain.len()
            }
        }),
        ({
            let oe = code_of(e, c, s);
            let s1 = oe.1;
            let last = s1.chain.last();
            let o = stmt_code(Statement::Assignment(names, Box::new(e)), c, s);
            (oe.0 is Ok && s1.chain.len() > 0 && keys(last.upvals).len() < usize::MAX && 0 <= p < last.locals.len()
                && last.locals[p] == x@ && forall|j: int| 0 <= j < p ==> last.locals[j] != x@) ==> o == (
                Ok::<Seq<Instruction<Const<N>>>, Failure>(oe.0->Ok_0 + seq![Instruction::Stl(0, p as usize)]),
                s1,
            )
        }),
{
    let oe = code_of(e, c, s);
    let s1 = oe.1;
    if oe.0 is Ok && s1.chain.len() > 0 {
        let last = s1.chain.last();
        let ce = oe.0->Ok_0;
        crate::refrence::lemma_position_of(last.locals, x@);
        assert(unpack_for::<N>(1) =~= Seq::<Instruction<Const<N>>>::empty());
        assert(ce + Seq::<Instruction<Const<N>>>::empty() =~= ce);
        assert(names@[0] == x);
        if !last.locals.contains(x@) && last.locals.len() < usize::MAX {
            if position_of(last.locals, x@) is Some {
                let i = position_of(last.locals, x@)->0;
                assert(last.locals[i] == x@);
            }
            let (k, s2) = local_step(s1, x@);
            assert(locals_code::<N>(names@, 1, c, s2) == (Ok::<Seq<Instruction<Const<N>>>, Failure>(Seq::empty()), s2));
            assert(seq![Instruction::<Const<N>>::Stl(0, k)] + Seq::<Instruction<Const<N>>>::empty() =~= seq![Instruction::<Const<N>>::Stl(0, k)]);
            assert(ce + seq![Instruction::<Const<N>>::Stl(0, k)] =~= ce + seq![Instruction::<Const<N>>::Stl(0, k)]);
        }
        let v = var_step::<N>(c, s1, x@);
        if keys(last.upvals).len() < usize::MAX && 0 <= p < last.locals.len() && last.locals[p] == x@ && forall|j: int| 0 <= j < p ==> last.locals[j] != x@ {
            assert(v.0 == Ok::<Seq<Instruction<Const<N>>>, Failure>(seq![Instruction::<Const<N>>::Ldl(0, p as usize)]));
            let code = v.0->Ok_0;
            assert(code.drop_last().push(stored(code.last())) =~= seq![Instruction::<Const<N>>::Stl(0, p as usize)]);
            assert(stores_code::<N>(names@, 1, c, v.1) == (Ok::<Seq<Instruction<Const<N>>>, Failure>(Seq::empty()), v.1));
            assert(seq![Instruction::<Const<N>>::Stl(0, p as usize)] + Seq::<Instruction<Const<N>>>::empty() =~= seq![Instruction::<Const<N>>::Stl(0, p as usize)]);
        }
    }
}

/// Leaves compile to the one instruction that loads them: a number to
/// that number, `true` and `false` to `Cl1` and `Cl0`, null to null,
/// `this` to `This`; a text literal to a load of an index at which the
/// constant pool (keeping what it held) holds that text; a local of the
/// innermost scope to a load of its slot there.
pub proof fn lemma_leaves_compile_to_their_load<N>(n: N, t: bool, x: String, c: Ctx, s: St<N>, p: int)
    ensures
        code_of(Expression::Number(n), c, s) == (Ok::<Seq<Instruction<Const<N>>>, Failure>(seq![Instruction::Cld(Const::Num(n))]), s),
        code_of(Expression::<N>::Bool(true), c, s) == (Ok::<Seq<Instruction<Const<N>>>, Failure>(seq![Instruction::Cl1]), s),
        code_of(Expression::<N>::Bool(false), c, s) == (Ok::<Seq<Instruction<Const<N>>>, Failure>(seq![Instruction::Cl0]), s),
        code_of(Expression::<N>::Null, c, s) == (Ok::<Seq<Instruction<Const<N>>>, Failure>(seq![Instruction::Cld(Const::Null)]), s),
        code_of(Expression::<N>::This, c, s) == (Ok::<Seq<Instruction<Const<N>>>, Failure>(seq![Instruction::This]), s),
        s.pool.len() < usize::MAX ==> ({
            let o = code_of(Expression::<N>::LString(x), c, s);
            &&& (match o.0 {
                Ok(code) => code.len() == 1 && match code[0] {
                    Instruction::Cld(Const::Text(k)) => k < o.1.pool.len() && o.1.pool[k as int] == ConstantView::Text(x@),
                    _ => false,
                },
                Err(_) => false,
            })
            &&& o.1.pool.subrange(0, s.pool.len() as int) == s.pool
            &&& o.1.chain == s.chain
        }),
        ({
            let last = s.chain.last();
            (s.chain.len() > 0 && keys(last.upvals).len() < usize::MAX && 0 <= p < last.locals.len()
                && last.locals[p] == x@ && forall|j: int| 0 <= j < p ==> last.locals[j] != x@) ==> code_of(
                Expression::<N>::Variable(x),
                c,
                s,
            ) == (Ok::<Seq<Instruction<Const<N>>>, Failure>(seq![Instruction::Ldl(0, p as usize)]), s)
        }),
{
    if s.pool.len() < usize::MAX {
        lemma_interned_text(s, x@);
    }
    if s.chain.len() > 0 {
        crate::refrence::lemma_position_of(s.chain.last().locals, x@);
    }
}

/// Statements compile as their meaning asks: `return` loads its value
/// (or nothing) and returns it, `break` and `continue` leave their markers,
/// `raise` of a value loads it and raises it, a bare `raise` raises the
/// error being handled, and an expression statement drops the value it
/// leaves.
#[verifier::rlimit(100)]
#[verifier::spinoff_prover]
pub proof fn lemma_statements_compile_to_their_meaning<N>(e: Expression<N>, c: Ctx, s: St<N>)
    ensures
        stmt_code(Statement::<N>::Return(None), c, s) == (Ok::<Seq<Instruction<Const<N>>>, Failure>(seq![Instruction::Return(0)]), s),
        stmt_code(Statement::<N>::Break, c, s) == (Ok::<Seq<Instruction<Const<N>>>, Failure>(seq![Instruction::Pg45Break]), s),
        stmt_code(Statement::<N>::Continue, c, s) == (Ok::<Seq<Instruction<Const<N>>>, Failure>(seq![Instruction::Pg45Continue]), s),
        stmt_code(Statement::<N>::RaiseCurrent, c, s) == (Ok::<Seq<Instruction<Const<N>>>, Failure>(seq![Instruction::Raise(RaiseErrKind::CurrentError)]), s),
        ({
            let oe = code_of(e, c, s);
            let ce = oe.0->Ok_0;
            oe.0 is Ok ==> {
                &&& stmt_code(Statement::Return(Some(Box::new(e))), c, s) == (Ok::<Seq<Instruction<Const<N>>>, Failure>(ce + seq![Instruction::Return(1)]), oe.1)
                &&& stmt_code(Statement::RaiseObj(Box::new(e)), c, s) == (Ok::<Seq<Instruction<Const<N>>>, Failure>(ce + seq![Instruction::Raise(RaiseErrKind::FromStackObj)]), oe.1)
                &&& ce.len() > 0 ==> stmt_code(Statement::Expr(Box::new(e)), c, s) == (Ok::<Seq<Instruction<Const<N>>>, Failure>(ce + seq![Instruction::Pop]), oe.1)
            }
        }),
{
    let oe = code_of(e, c, s);
    if oe.0 is Ok {
        let ce = oe.0->Ok_0;
        assert(ce.push(Instruction::<Const<N>>::Pop) =~= ce + seq![Instruction::<Const<N>>::Pop]);
    }
}

/// An `if` without `else` tests its condition and, when it fails, skips
/// exactly the code of its body.
#[verifier::rlimit(100)]
#[verifier::spinoff_prover]
pub proof fn lemma_if_skips_its_body<N>(e: Expression<N>, a: Statement<N>, c: Ctx, s: St<N>)
    ensures
        ({
            let oe = code_of(e, c, s);
            let oa = stmt_code(a, c, oe.1);
            let o = stmt_code(Statement::If(Box::new(e), Box::new(a), None), c, s);
            (oe.0 is Ok && oa.0 is Ok && oa.0->Ok_0.len() + 1 <= usize::MAX) ==> {
                let ce = oe.0->Ok_0;
                let ca = oa.0->Ok_0;
                &&& o.0 is Ok
                &&& o.0->Ok_0.len() == ce.len() + 1 + ca.len()
                &&& o.0->Ok_0.subrange(0, ce.len() as int) == ce
                &&& o.0->Ok_0[ce.len() as int] == Instruction::<Const<N>>::Ktest((ca.len() + 1) as usize)
                &&& o.0->Ok_0.subrange((ce.len() + 1) as int, o.0->Ok_0.len() as int) == ca
            }
        }),
{
    let oe = code_of(e, c, s);
    let oa = stmt_code(a, c, oe.1);
    if oe.0 is Ok && oa.0 is Ok {
        let ce = oe.0->Ok_0;
        let ca = oa.0->Ok_0;
        let whole = ce + seq![Instruction::<Const<N>>::Ktest((ca.len() + 1) as usize)] + ca;
        assert(whole.subrange(0, ce.len() as int) =~= ce);
        assert(whole.subrange((ce.len() + 1) as int, whole.len() as int) =~= ca);
    }
}

/// A `while` loop ends with a jump back to its first instruction: the
/// last instruction of its code moves the program counter, which stands
/// just past it, back by the length of the code.
pub proof fn lemma_while_jumps_back<N>(e: Expression<N>, b: Statement<N>, c: Ctx, s: St<N>)
    ensures
        stmt_code(Statement::While(Box::new(e), Box::new(b)), c, s).0 matches Ok(code) ==> code.len() > 0
            && code.last() == Instruction::<Const<N>>::Jmp((-(code.len() as int)) as i64),
{
    let t = Statement::While(Box::new(e), Box::new(b));
    let oe = code_of(e, c, s);
    let ob = stmt_code(b, c, oe.1);
    if oe.0 is Ok && ob.0 is Ok {
        let ce = oe.0->Ok_0;
        let cb = ob.0->Ok_0;
        let end = (ce.len() + cb.len() + 2) as int;
        let raw = ce + seq![Instruction::<Const<N>>::Ktest((cb.len() + 2) as usize)] + cb + seq![
            Instruction::<Const<N>>::Jmp((-end) as i64),
        ];
        assert(raw.len() == end);
        assert(raw[end - 1] == Instruction::<Const<N>>::Jmp((-end) as i64));
        assert(patched(raw, end)[end - 1] == raw[end - 1]);
    }
}
} // verus!
