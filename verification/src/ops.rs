use vstd::prelude::*;

verus! {

/// Where a `raise` instruction takes the error it raises from.
#[derive(Debug, Clone, Copy, PartialEq, Eq, Hash, PartialOrd, Ord)]
pub enum RaiseErrKind {
    CurrentError,
    FromStack,
    FromStackWithWhy,
    FromStackObj,
}

impl RaiseErrKind {
    /// The mnemonic printed after `raise` in a code listing.
    pub open spec fn spec_inst_name(self) -> Seq<char> {
        match self {
            RaiseErrKind::CurrentError => "cerr"@,
            RaiseErrKind::FromStack => "last"@,
            RaiseErrKind::FromStackWithWhy => "larg"@,
            RaiseErrKind::FromStackObj => "obj"@,
        }
    }

    pub fn inst_name(&self) -> (name: &'static str)
        ensures
            name@ == self.spec_inst_name(),
    {
        match self {
            RaiseErrKind::CurrentError => "cerr",
            RaiseErrKind::FromStack => "last",
            RaiseErrKind::FromStackWithWhy => "larg",
            RaiseErrKind::FromStackObj => "obj",
        }
    }
}

/// One instruction of compiled zin code. `Cld` pushes a constant value;
/// `Ldl`/`Stl` load and store a local (frames up, slot); `Jmp` moves the
/// program counter by a signed offset; `Ltb`/`Ftb` enter and leave a `try`
/// block; `Test`, `Ktest` and `Rtest` branch on the value they pop; the
/// others work on the values on top of the stack (`LoadErr` pushes the
/// error being handled). A name (of a module, a member or a builtin) is
/// given by its index in the function's constant pool.
#[derive(Debug, Clone)]
pub enum Instruction<V> {
    Add,
    Sub,
    Div,
    Mul,
    Exp,
    Cl0,
    Cl1,
    Shl,
    Pop,
    Shr,
    LoadErr,
    Str,
    Bytes,
    ArrayAccess,
    ArraySet,
    Rot,
    Len,
    Fcb,
    Cmp,
    Negate,
    This,
    AAnd,
    And,
    AOr,
    Or,
    AXor,
    Xor,
    Less,
    Great,
    LessEq,
    GreatEq,
    Pg45Break,
    Pg45Continue,
    Cld(V),
    Import(usize),
    Ldl(usize, usize),
    Stl(usize, usize),
    MkFunc(usize),
    MkArr(usize),
    MkMap(usize),
    Raise(RaiseErrKind),
    Slice(bool),
    Dup,
    Ltb(usize),
    Ftb(usize),
    ESwitch(usize),
    Formula(usize),
    NamedFormula(usize),
    Unpack(usize),
    Ldm(usize),
    Stm(usize),
    Ldup(usize),
    Stup(usize),
    Call(usize),
    Return(usize),
    Jmp(i64),
    Test(usize),
    Ktest(usize),
    Rtest(usize),
    Builtin(usize),
    StoreBuiltin(usize),
}

} // verus!
