use vstd::prelude::*;
use crate::error::Error;
use crate::executor::{Frame, FrameView, StackFrame, local_at, push_top, store_local, frame_at};
use crate::ops::{Instruction, RaiseErrKind};

verus! {

/// The state of a running call: the frames of the active functions (the
/// innermost last), the index of the next instruction, the error being
/// handled, the function running, the functions to return to with the
/// index to resume at, and the two values the machine makes itself: null
/// and true. Values and functions are handles that the caller resolves.
pub struct Machine<V, F> {
    frames: StackFrame<V>,
    pc: usize,
    error: Option<V>,
    current: F,
    calls: Vec<(F, usize)>,
    null: V,
    yes: V,
}

/// A machine as the specification sees it.
pub struct MachineView<V, F> {
    pub frames: Seq<FrameView<V>>,
    pub pc: usize,
    pub error: Option<V>,
    pub current: F,
    pub calls: Seq<(F, usize)>,
    pub null: V,
    pub yes: V,
}

/// What the caller of `step` is to do next: step again; finish the call
/// with null (the code ran out) or with a value (the outermost function
/// returned); turn an error into its value and `raise` it; call a value
/// with a number of arguments; tell `resume_branch` whether the value
/// popped by a test is true; or carry out the instruction just run on the
/// operands popped for it (the top of the stack first), pushing what it
/// gives; or report an error that no `try` block caught.
pub enum Action<V> {
    Next,
    Done,
    Finish(V),
    Raise(Error),
    Call(usize, V),
    Branch(V),
    Apply(Vec<V>),
    Uncaught(V),
}

/// An action as the specification sees it.
pub enum ActionView<V> {
    Next,
    Done,
    Finish(V),
    Raise(Error),
    Call(usize, V),
    Branch(V),
    Apply(Seq<V>),
    Uncaught(V),
}

impl<V> Action<V> {
    pub open spec fn view(&self) -> ActionView<V> {
        match self {
            Action::Next => ActionView::Next,
            Action::Done => ActionView::Done,
            Action::Finish(v) => ActionView::Finish(*v),
            Action::Raise(e) => ActionView::Raise(*e),
            Action::Call(n, v) => ActionView::Call(*n, *v),
            Action::Branch(v) => ActionView::Branch(*v),
            Action::Apply(vs) => ActionView::Apply(vs@),
            Action::Uncaught(v) => ActionView::Uncaught(*v),
        }
    }
}

/// How a call stands after an action: it returned a value, it failed
/// with an error that nothing caught, or it goes on.
#[derive(Debug, Clone, Copy, PartialEq, Eq)]
pub enum CallEnd<V> {
    Returned(V),
    Failed(V),
    Pending,
}

/// A call returns null when its code runs out, the returned value on a
/// return from its outermost frame, and fails with an uncaught error;
/// every other action leaves it going.
pub open spec fn settled<V>(a: ActionView<V>, null: V) -> CallEnd<V> {
    match a {
        ActionView::Done => CallEnd::Returned(null),
        ActionView::Finish(v) => CallEnd::Returned(v),
        ActionView::Uncaught(v) => CallEnd::Failed(v),
        _ => CallEnd::Pending,
    }
}

/// What an action means for the call that runs (see `settled`).
pub fn settle<V: Copy>(a: &Action<V>, null: V) -> (r: CallEnd<V>)
    ensures
        r == settled(a.view(), null),
{
    match a {
        Action::Done => CallEnd::Returned(null),
        Action::Finish(v) => CallEnd::Returned(*v),
        Action::Uncaught(v) => CallEnd::Failed(*v),
        _ => CallEnd::Pending,
    }
}

/// The result of a step as the specification sees it.
pub open spec fn seen<V>(r: Result<Action<V>, Error>) -> Result<ActionView<V>, Error> {
    match r {
        Ok(a) => Ok(a.view()),
        Err(e) => Err(e),
    }
}

impl<V: Copy, F: Copy> Machine<V, F> {
    pub closed spec fn view(&self) -> MachineView<V, F> {
        MachineView {
            frames: self.frames.view(),
            pc: self.pc,
            error: self.error,
            current: self.current,
            calls: self.calls@,
            null: self.null,
            yes: self.yes,
        }
    }
}

/// `args` padded with `null` up to `slots` values.
pub open spec fn padded<V>(args: Seq<V>, slots: usize, null: V) -> Seq<V> {
    if args.len() >= slots {
        args
    } else {
        args + Seq::new((slots - args.len()) as nat, |i: int| null)
    }
}

/// Pads `args` with `null` up to `slots` values.
fn pad<V: Copy>(args: Vec<V>, slots: usize, null: V) -> (r: Vec<V>)
    ensures
        r@ == padded(args@, slots, null),
{
    let mut r = args;
    let ghost a = r@;
    while r.len() < slots
        invariant
            a.len() <= r@.len() <= slots || (r@ == a && a.len() >= slots),
            r@.subrange(0, a.len() as int) == a,
            forall|i: int| a.len() <= i < r@.len() ==> r@[i] == null,
        decreases slots - r.len(),
    {
        r.push(null);
        assert(r@.subrange(0, a.len() as int) =~= a);
    }
    assert(r@ =~= padded(a, slots, null));
    r
}

/// One frame per active function: the innermost and one for each function
/// to return to.
pub open spec fn well_formed<V, F>(m: MachineView<V, F>) -> bool {
    m.frames.len() == m.calls.len() + 1
}

/// The values of the innermost frame.
pub open spec fn top<V, F>(m: MachineView<V, F>) -> Seq<V> {
    m.frames.last().values
}

/// The machine with the values of the innermost frame replaced.
pub open spec fn with_top<V, F>(m: MachineView<V, F>, vs: Seq<V>) -> MachineView<V, F> {
    MachineView {
        frames: m.frames.update(
            m.frames.len() - 1,
            FrameView { values: vs, try_blocks: m.frames.last().try_blocks },
        ),
        ..m
    }
}

/// The machine with the `try` handlers of the innermost frame replaced.
pub open spec fn with_handlers<V, F>(m: MachineView<V, F>, hs: Seq<usize>) -> MachineView<V, F> {
    MachineView {
        frames: m.frames.update(
            m.frames.len() - 1,
            FrameView { values: m.frames.last().values, try_blocks: hs },
        ),
        ..m
    }
}

/// How many values an instruction that the caller carries out takes off the
/// stack, or `None` for the instructions the machine runs itself.
pub open spec fn arity<V>(ins: Instruction<V>) -> Option<nat> {
    match ins {
        Instruction::Add | Instruction::Sub | Instruction::Div | Instruction::Mul
        | Instruction::Exp | Instruction::Shl | Instruction::Shr | Instruction::Cmp
        | Instruction::AAnd | Instruction::And | Instruction::AOr | Instruction::Or
        | Instruction::AXor | Instruction::Xor | Instruction::Less | Instruction::Great
        | Instruction::LessEq | Instruction::GreatEq | Instruction::ArrayAccess
        | Instruction::Stm(_) | Instruction::Slice(true) | Instruction::Raise(
            RaiseErrKind::FromStackWithWhy,
        ) => Some(2),
        Instruction::ArraySet | Instruction::Slice(false) => Some(3),
        Instruction::Negate | Instruction::Len | Instruction::Str | Instruction::Bytes
        | Instruction::StoreBuiltin(_) | Instruction::Stup(_) | Instruction::Unpack(_)
        | Instruction::Ldm(_) | Instruction::Raise(RaiseErrKind::FromStack) | Instruction::Raise(
            RaiseErrKind::FromStackObj,
        ) => Some(1),
        Instruction::Cl0 | Instruction::Cl1 | Instruction::This | Instruction::Builtin(_)
        | Instruction::Ldup(_) | Instruction::Import(_) => Some(0),
        Instruction::MkArr(n) | Instruction::ESwitch(n) => Some(n as nat),
        Instruction::MkMap(n) | Instruction::Formula(n) => Some(2 * n as nat),
        Instruction::NamedFormula(n) => Some(2 * n as nat + 1),
        Instruction::MkFunc(u) => Some(u as nat + 1),
        _ => None,
    }
}

/// Where an error unwinds to: the handler of the innermost `try` block of
/// the innermost frame that has one, dropping the frames (and the functions
/// to return to) above it. When no frame has one, the search stops at the
/// outermost frame.
pub open spec fn unwound<V, F>(m: MachineView<V, F>) -> MachineView<V, F>
    decreases m.calls.len(),
{
    if m.frames.len() == 0 {
        m
    } else if m.frames.last().try_blocks.len() > 0 {
        MachineView {
            pc: m.frames.last().try_blocks.last(),
            ..with_handlers(m, m.frames.last().try_blocks.drop_last())
        }
    } else if m.calls.len() == 0 {
        m
    } else {
        unwound(
            MachineView {
                frames: m.frames.drop_last(),
                current: m.calls.last().0,
                calls: m.calls.drop_last(),
                ..m
            },
        )
    }
}

/// Whether some frame has a `try` block to unwind to.
pub open spec fn caught<V, F>(m: MachineView<V, F>) -> bool
    decreases m.calls.len(),
{
    if m.frames.len() == 0 {
        false
    } else if m.frames.last().try_blocks.len() > 0 {
        true
    } else if m.calls.len() == 0 {
        false
    } else {
        caught(
            MachineView {
                frames: m.frames.drop_last(),
                current: m.calls.last().0,
                calls: m.calls.drop_last(),
                ..m
            },
        )
    }
}

/// Raising `e`: it becomes the error being handled, and the machine
/// unwinds to the nearest handler; when there is none, the error escapes.
pub open spec fn raised<V, F>(m: MachineView<V, F>, e: V) -> (
    Result<ActionView<V>, Error>,
    MachineView<V, F>,
) {
    let m1 = MachineView { error: Some(e), ..m };
    if caught(m1) {
        (Ok(ActionView::Next), unwound(m1))
    } else {
        (Ok(ActionView::Uncaught(e)), unwound(m1))
    }
}

/// Running `ins`, the program counter already past it.
pub open spec fn run<V, F>(ins: Instruction<V>, m: MachineView<V, F>) -> (
    Result<ActionView<V>, Error>,
    MachineView<V, F>,
) {
    let vs = top(m);
    let n = vs.len();
    match ins {
        Instruction::Cld(v) => (Ok(ActionView::Next), with_top(m, vs.push(v))),
        Instruction::Pg45Break | Instruction::Pg45Continue => (Ok(ActionView::Next), m),
        Instruction::Pop => if n == 0 {
            (Err(Error::MalformedStack), m)
        } else {
            (Ok(ActionView::Next), with_top(m, vs.drop_last()))
        },
        Instruction::Dup => (
            Ok(ActionView::Next),
            with_top(
                m,
                vs.push(
                    if n > 0 {
                        vs.last()
                    } else {
                        m.null
                    },
                ),
            ),
        ),
        Instruction::Rot => if n < 2 {
            (Ok(ActionView::Raise(Error::MalformedStack)), with_top(m, Seq::empty()))
        } else {
            (
                Ok(ActionView::Next),
                with_top(m, vs.subrange(0, n - 2).push(vs[n - 1]).push(vs[n - 2])),
            )
        },
        Instruction::Stl(a, b) => if n == 0 {
            (Err(Error::MalformedStack), m)
        } else {
            let m1 = with_top(m, vs.drop_last());
            match store_local(m1.frames, (a, b), vs.last()) {
                Some(fs) => (Ok(ActionView::Next), MachineView { frames: fs, ..m1 }),
                None => (Err(Error::MalformedStack), m1),
            }
        },
        Instruction::Ldl(a, b) => match local_at(m.frames, (a, b)) {
            Some(v) => (Ok(ActionView::Next), MachineView { frames: push_top(m.frames, v), ..m }),
            None => (Err(Error::MalformedStack), m),
        },
        Instruction::Jmp(x) => if 0 <= m.pc + x <= usize::MAX {
            (Ok(ActionView::Next), MachineView { pc: (m.pc + x) as usize, ..m })
        } else {
            (Err(Error::InvalidJump), m)
        },
        Instruction::Ltb(j) => if m.pc + j - 1 <= usize::MAX {
            (
                Ok(ActionView::Next),
                with_handlers(
                    m,
                    m.frames.last().try_blocks.push((m.pc + j - 1) as usize),
                ),
            )
        } else {
            (Err(Error::InvalidJump), m)
        },
        Instruction::Ftb(size) => {
            let hs = m.frames.last().try_blocks;
            let m1 = if hs.len() > 0 {
                with_handlers(m, hs.drop_last())
            } else {
                m
            };
            if m.pc + size <= usize::MAX {
                (Ok(ActionView::Next), MachineView { pc: (m.pc + size) as usize, ..m1 })
            } else {
                (Err(Error::InvalidJump), m1)
            }
        },
        Instruction::Fcb => (Ok(ActionView::Next), MachineView { error: None, ..m }),
        Instruction::LoadErr => match m.error {
            Some(e) => (Ok(ActionView::Next), with_top(m, vs.push(e))),
            None => (Ok(ActionView::Raise(Error::InvalidWind)), m),
        },
        Instruction::Raise(RaiseErrKind::CurrentError) => match m.error {
            Some(e) => raised(m, e),
            None => (Ok(ActionView::Next), m),
        },
        Instruction::Test(_) | Instruction::Ktest(_) | Instruction::Rtest(_) => if n == 0 {
            (Ok(ActionView::Raise(Error::MalformedStack)), m)
        } else {
            (Ok(ActionView::Branch(vs.last())), with_top(m, vs.drop_last()))
        },
        Instruction::Call(a) => if n == 0 {
            (Ok(ActionView::Raise(Error::MalformedStack)), m)
        } else if a + 1 > n {
            (Ok(ActionView::Raise(Error::InvalidJump)), m)
        } else {
            (Ok(ActionView::Call(a, vs[n - a - 1])), m)
        },
        Instruction::Return(a) => if a > n {
            (Err(Error::MalformedStack), with_top(m, Seq::empty()))
        } else {
            let ret = if a == 0 {
                seq![m.null]
            } else {
                vs.subrange(n - a, n as int)
            };
            let m1 = with_top(m, vs.subrange(0, n - a));
            if m.calls.len() == 0 {
                (Ok(ActionView::Finish(ret.last())), m1)
            } else {
                let fs = m1.frames.drop_last();
                (
                    Ok(ActionView::Next),
                    MachineView {
                        frames: fs.update(
                            fs.len() - 1,
                            FrameView {
                                values: fs.last().values + ret,
                                try_blocks: fs.last().try_blocks,
                            },
                        ),
                        current: m.calls.last().0,
                        pc: m.calls.last().1,
                        calls: m.calls.drop_last(),
                        ..m
                    },
                )
            }
        },
        _ => {
            let k = arity(ins)->0;
            if k > n {
                (Ok(ActionView::Raise(Error::MalformedStack)), with_top(m, Seq::empty()))
            } else {
                (
                    Ok(ActionView::Apply(vs.subrange(n - k, n as int).reverse())),
                    with_top(m, vs.subrange(0, n - k)),
                )
            }
        },
    }
}

/// One step: past the end of the code the call is done; otherwise the
/// instruction at the program counter runs, the counter already past it.
pub open spec fn next<V, F>(m: MachineView<V, F>, code: Seq<Instruction<V>>) -> (
    Result<ActionView<V>, Error>,
    MachineView<V, F>,
) {
    if m.pc >= code.len() {
        (Ok(ActionView::Done), m)
    } else {
        run(code[m.pc as int], MachineView { pc: (m.pc + 1) as usize, ..m })
    }
}


/// Moving the program counter `a - 1` instructions on, for an offset `a`
/// of at least 2 (smaller offsets stay put).
pub open spec fn skipped<V, F>(m: MachineView<V, F>, a: usize) -> (Result<(), Error>, MachineView<V, F>) {
    if a < 2 {
        (Ok(()), m)
    } else if m.pc + a - 1 <= usize::MAX {
        (Ok(()), MachineView { pc: (m.pc + a - 1) as usize, ..m })
    } else {
        (Err(Error::InvalidJump), m)
    }
}

/// Finishing a test on `value`, given whether it counts (for `Test` and
/// `Ktest`, whether it is true; for `Rtest`, whether it is not null): a
/// false `Test` pushes true and skips on; a false `Ktest` skips on; a
/// non-null `Rtest` skips on and pushes the value back.
pub open spec fn branched<V, F>(m: MachineView<V, F>, ins: Instruction<V>, value: V, truth: bool) -> (
    Result<(), Error>,
    MachineView<V, F>,
) {
    match ins {
        Instruction::Test(a) => if truth {
            (Ok(()), m)
        } else {
            skipped(with_top(m, top(m).push(m.yes)), a)
        },
        Instruction::Ktest(a) => if truth {
            (Ok(()), m)
        } else {
            skipped(m, a)
        },
        Instruction::Rtest(a) => if truth {
            let (r, m1) = skipped(m, a);
            if r is Ok {
                (r, with_top(m1, top(m1).push(value)))
            } else {
                (r, m1)
            }
        } else {
            (Ok(()), m)
        },
        _ => (Ok(()), m),
    }
}

/// Entering function `f` with `args` (padded with null up to `slots`) as
/// its frame: the running function and the index to resume at are kept to
/// return to, and `f` runs from its first instruction.
pub open spec fn entered<V, F>(m: MachineView<V, F>, f: F, args: Seq<V>, slots: usize) -> MachineView<V, F> {
    MachineView {
        frames: m.frames.push(
            FrameView { values: padded(args, slots, m.null), try_blocks: Seq::empty() },
        ),
        calls: m.calls.push((m.current, m.pc)),
        current: f,
        pc: 0,
        ..m
    }
}

/// Returning nothing from the outermost function finishes the call with
/// null.
pub proof fn lemma_bare_return_gives_null<V, F>(m: MachineView<V, F>)
    requires
        well_formed(m),
        m.calls.len() == 0,
    ensures
        run(Instruction::Return(0), m).0 == Ok::<ActionView<V>, Error>(ActionView::Finish(m.null)),
{
}

/// A call that returns nothing hands null to its caller: entering a
/// function and then returning from it right away resumes the caller where
/// it was, with null pushed on its frame.
pub proof fn lemma_call_then_return<V, F>(m: MachineView<V, F>, f: F, args: Seq<V>, slots: usize)
    requires
        well_formed(m),
    ensures
        run(Instruction::Return(0), entered(m, f, args, slots)) == (
            Ok::<ActionView<V>, Error>(ActionView::Next),
            with_top(m, top(m).push(m.null)),
        ),
{
    let m2 = entered(m, f, args, slots);
    let vs = top(m2);
    assert(vs.subrange(0, vs.len() - 0) =~= vs);
    let m1 = with_top(m2, vs.subrange(0, vs.len() - 0));
    assert(m1.frames =~= m2.frames);
    assert(m1.frames.drop_last() =~= m.frames);
    assert(m2.calls.drop_last() =~= m.calls);
    assert(top(m) + seq![m.null] =~= top(m).push(m.null));
    let r = run(Instruction::Return(0), m2);
    assert(r.1.frames =~= with_top(m, top(m).push(m.null)).frames);
}

/// An error raised inside a `try` block of the running function lands at
/// that block's handler, and becomes the error being handled.
pub proof fn lemma_raise_lands_at_handler<V, F>(m: MachineView<V, F>, e: V)
    requires
        well_formed(m),
        m.frames.last().try_blocks.len() > 0,
    ensures
        raised(m, e).0 == Ok::<ActionView<V>, Error>(ActionView::Next),
        raised(m, e).1.pc == m.frames.last().try_blocks.last(),
        raised(m, e).1.error == Some(e),
        raised(m, e).1.frames.last().try_blocks == m.frames.last().try_blocks.drop_last(),
        raised(m, e).1.frames.last().values == m.frames.last().values,
{
}

/// A step runs the instruction at the program counter and moves on to the
/// next one (unless the instruction jumps); past the end of the code the
/// call is done and nothing changes.
pub proof fn lemma_step_moves_on<V, F>(m: MachineView<V, F>, code: Seq<Instruction<V>>)
    requires
        well_formed(m),
        code.len() <= usize::MAX,
    ensures
        m.pc >= code.len() ==> next(m, code) == (Ok::<ActionView<V>, Error>(ActionView::Done), m),
        m.pc < code.len() && (code[m.pc as int] is Cld || code[m.pc as int] is Dup || code[m.pc as int] is Pop) ==> next(
            m,
            code,
        ).1.pc == m.pc + 1,
        m.pc < code.len() && code[m.pc as int] is Cld ==> next(m, code).0 == Ok::<ActionView<V>, Error>(ActionView::Next)
            && top(next(m, code).1) == top(m).push(code[m.pc as int]->Cld_0),
{
    if m.pc < code.len() {
        let m1 = MachineView { pc: (m.pc + 1) as usize, ..m };
        assert(top(m1) == top(m));
        match code[m.pc as int] {
            Instruction::Cld(v) => {},
            Instruction::Dup => {},
            Instruction::Pop => {},
            _ => {},
        }
    }
}

/// The stack instructions do what their names say to the values of the
/// innermost frame, leaving the frames below and the program counter as
/// they were: `Cld(v)` pushes `v`; `Dup` pushes the top value again;
/// `Pop` drops it; `Rot` swaps the two top values; a test hands over the
/// top value and drops it; `Call(a)` hands over the value below its `a`
/// arguments; `Jmp(x)` moves the program counter by `x`.
pub proof fn lemma_stack_instructions<V, F>(m: MachineView<V, F>, v: V, a: usize, x: i64)
    requires
        well_formed(m),
    ensures
        ({
            let vs = top(m);
            let n = vs.len();
            &&& run(Instruction::Cld(v), m).0 == Ok::<ActionView<V>, Error>(ActionView::Next)
            &&& top(run(Instruction::Cld(v), m).1) == vs.push(v)
            &&& n > 0 ==> {
                &&& run(Instruction::Dup, m).0 == Ok::<ActionView<V>, Error>(ActionView::Next)
                &&& top(run(Instruction::Dup, m).1) == vs.push(vs[n - 1])
                &&& run(Instruction::Pop, m).0 == Ok::<ActionView<V>, Error>(ActionView::Next)
                &&& top(run(Instruction::Pop, m).1) == vs.subrange(0, n - 1)
                &&& run(Instruction::Test(a), m).0 == Ok::<ActionView<V>, Error>(ActionView::Branch(vs[n - 1]))
                &&& top(run(Instruction::Test(a), m).1) == vs.subrange(0, n - 1)
            }
            &&& n >= 2 ==> {
                &&& run(Instruction::Rot, m).0 == Ok::<ActionView<V>, Error>(ActionView::Next)
                &&& top(run(Instruction::Rot, m).1).len() == n
                &&& top(run(Instruction::Rot, m).1)[n - 1] == vs[n - 2]
                &&& top(run(Instruction::Rot, m).1)[n - 2] == vs[n - 1]
                &&& top(run(Instruction::Rot, m).1).subrange(0, n - 2) == vs.subrange(0, n - 2)
            }
            &&& a < n ==> run(Instruction::Call(a), m).0 == Ok::<ActionView<V>, Error>(
                ActionView::Call(a, vs[n - 1 - a]),
            )
            &&& 0 <= m.pc + x <= usize::MAX ==> run(Instruction::Jmp(x), m).0 == Ok::<ActionView<V>, Error>(
                ActionView::Next,
            ) && run(Instruction::Jmp(x), m).1.pc == m.pc + x
            &&& run(Instruction::Dup, m).1.frames.drop_last() == m.frames.drop_last()
            &&& run(Instruction::Dup, m).1.pc == m.pc
            &&& run(Instruction::Cld(v), m).1.frames.drop_last() == m.frames.drop_last()
            &&& run(Instruction::Cld(v), m).1.pc == m.pc
        }),
{
    let vs = top(m);
    let n = vs.len();
    assert(m.frames.len() > 0);
    assert(run(Instruction::Dup, m).1.frames.drop_last() =~= m.frames.drop_last());
    assert(run(Instruction::Cld(v), m).1.frames.drop_last() =~= m.frames.drop_last());
    if n > 0 {
        assert(vs.drop_last() =~= vs.subrange(0, n - 1));
    }
    if n >= 2 {
        let r = vs.subrange(0, n - 2).push(vs[n - 1]).push(vs[n - 2]);
        assert(r.subrange(0, n - 2) =~= vs.subrange(0, n - 2));
    }
}

/// The operators are handed over with their operands, the top of the
/// stack first, and the operands leave the stack: a binary operator takes
/// the two top values, a unary one the top value.
pub proof fn lemma_operators_take_their_operands<V, F>(m: MachineView<V, F>)
    requires
        well_formed(m),
    ensures
        ({
            let vs = top(m);
            let n = vs.len();
            let ok2 = Ok::<ActionView<V>, Error>(ActionView::Apply(seq![vs[n - 1], vs[n - 2]]));
            let rest2 = with_top(m, vs.subrange(0, n - 2));
            let ok1 = Ok::<ActionView<V>, Error>(ActionView::Apply(seq![vs[n - 1]]));
            let rest1 = with_top(m, vs.subrange(0, n - 1));
            &&& n >= 2 ==> {
                &&& run(Instruction::Add, m) == (ok2, rest2)
                &&& run(Instruction::Sub, m) == (ok2, rest2)
                &&& run(Instruction::Mul, m) == (ok2, rest2)
                &&& run(Instruction::Div, m) == (ok2, rest2)
                &&& run(Instruction::Exp, m) == (ok2, rest2)
                &&& run(Instruction::Cmp, m) == (ok2, rest2)
                &&& run(Instruction::Less, m) == (ok2, rest2)
                &&& run(Instruction::Great, m) == (ok2, rest2)
                &&& run(Instruction::LessEq, m) == (ok2, rest2)
                &&& run(Instruction::GreatEq, m) == (ok2, rest2)
                &&& run(Instruction::And, m) == (ok2, rest2)
                &&& run(Instruction::Or, m) == (ok2, rest2)
                &&& run(Instruction::Xor, m) == (ok2, rest2)
                &&& run(Instruction::AAnd, m) == (ok2, rest2)
                &&& run(Instruction::AOr, m) == (ok2, rest2)
                &&& run(Instruction::AXor, m) == (ok2, rest2)
                &&& run(Instruction::ArrayAccess, m) == (ok2, rest2)
            }
            &&& n >= 1 ==> {
                &&& run(Instruction::Negate, m) == (ok1, rest1)
                &&& run(Instruction::Len, m) == (ok1, rest1)
                &&& run(Instruction::Str, m) == (ok1, rest1)
                &&& run(Instruction::Bytes, m) == (ok1, rest1)
            }
        }),
{
    let vs = top(m);
    let n = vs.len();
    if n >= 2 {
        assert(vs.subrange(n - 2, n as int).reverse() =~= seq![vs[n - 1], vs[n - 2]]);
    }
    if n >= 1 {
        assert(vs.subrange(n - 1, n as int).reverse() =~= seq![vs[n - 1]]);
    }
}

/// A return hands back its values: from the outermost function it
/// finishes the call with the top value (null for a bare return); from an
/// inner one it resumes the caller where it left off, with the returned
/// values pushed onto the caller's stack.
pub proof fn lemma_return_hands_back<V, F>(m: MachineView<V, F>, a: usize)
    requires
        well_formed(m),
        1 <= a <= top(m).len(),
    ensures
        ({
            let vs = top(m);
            let n = vs.len();
            let o = run(Instruction::Return(a), m);
            &&& m.calls.len() == 0 ==> o.0 == Ok::<ActionView<V>, Error>(ActionView::Finish(vs[n - 1]))
            &&& m.calls.len() > 0 ==> {
                &&& o.0 == Ok::<ActionView<V>, Error>(ActionView::Next)
                &&& o.1.pc == m.calls.last().1
                &&& o.1.current == m.calls.last().0
                &&& o.1.calls == m.calls.drop_last()
                &&& o.1.frames.len() == m.frames.len() - 1
                &&& top(o.1) == m.frames[m.frames.len() - 2].values + vs.subrange(n - a, n as int)
            }
        }),
{
}

/// A value stored into a local loads back: when `Stl(depth, idx)` takes
/// the value `v` from the top of the stack and succeeds (other than into
/// local 1 of a frame with no values, which lands in local 0), a following
/// `Ldl(depth, idx)` succeeds and pushes `v` itself.
pub proof fn lemma_store_then_load<V, F>(m: MachineView<V, F>, depth: usize, idx: usize)
    requires
        well_formed(m),
        run(Instruction::Stl(depth, idx), m).0 is Ok,
        ({
            let fs = with_top(m, top(m).drop_last()).frames;
            !(idx == 1 && fs[frame_at(fs.len(), depth as nat)].values.len() == 0)
        }),
    ensures
        ({
            let m1 = run(Instruction::Stl(depth, idx), m).1;
            let m2 = run(Instruction::Ldl(depth, idx), m1);
            &&& m2.0 == Ok::<ActionView<V>, Error>(ActionView::Next)
            &&& top(m2.1).len() > 0
            &&& top(m2.1).last() == top(m).last()
        }),
{
    let vs = top(m);
    let m1 = with_top(m, vs.drop_last());
    crate::executor::lemma_stored_local_loads_back(m1.frames, (depth, idx), vs.last(), vs.last());
}

/// Every `try` block of the code hands over a handler offset of at least 1:
/// the handler lies at the offset less one past the block's start, and an
/// offset of 0 underflows there. The compiler makes no such block.
pub open spec fn offsets_ok<V>(code: Seq<Instruction<V>>) -> bool {
    forall|i: int| 0 <= i < code.len() ==> !(#[trigger] code[i] matches Instruction::Ltb(0))
}

/// Unwinding keeps one frame per active function.
proof fn lemma_unwound_well_formed<V, F>(m: MachineView<V, F>)
    requires
        well_formed(m),
    ensures
        well_formed(unwound(m)),
    decreases m.calls.len(),
{
    if m.frames.len() > 0 && m.frames.last().try_blocks.len() == 0 && m.calls.len() > 0 {
        lemma_unwound_well_formed(
            MachineView {
                frames: m.frames.drop_last(),
                current: m.calls.last().0,
                calls: m.calls.drop_last(),
                ..m
            },
        );
    }
}

impl<V: Copy, F: Copy> Machine<V, F> {
    /// The index of the next instruction.
    pub fn pc(&self) -> (r: usize)
        ensures
            r == self@.pc,
    {
        self.pc
    }

    /// The frames, the innermost last.
    pub fn frames(&self) -> (r: &StackFrame<V>)
        ensures
            r.view() == self@.frames,
    {
        &self.frames
    }

    /// The error being handled, if any.
    pub fn error(&self) -> (r: Option<V>)
        ensures
            r == self@.error,
    {
        self.error
    }

    /// The function running.
    pub fn current(&self) -> (r: F)
        ensures
            r == self@.current,
    {
        self.current
    }

    /// A machine about to run a function from its first instruction, with
    /// `args` (padded with null up to `slots` values) as its frame.
    pub fn new(function: F, args: Vec<V>, slots: usize, null: V, yes: V) -> (m: Self)
        ensures
            well_formed(m@),
            m@.pc == 0,
            m@.error is None,
            m@.current == function,
            m@.calls.len() == 0,
            m@.null == null,
            m@.yes == yes,
            m@.frames.len() == 1,
            m@.frames[0].try_blocks.len() == 0,
            m@.frames[0].values == padded(args@, slots, null),
    {
        let values = pad(args, slots, null);
        let mut frames = Vec::new();
        frames.push(Frame::from_values(values));
        let m = Machine {
            frames: StackFrame { frames },
            pc: 0,
            error: None,
            current: function,
            calls: Vec::new(),
            null,
            yes,
        };
        assert(m@.frames.len() == 1);
        m
    }

    /// Pushes `v` on the innermost frame.
    pub fn push(&mut self, v: V)
        requires
            well_formed(old(self)@),
        ensures
            final(self)@ == with_top(old(self)@, top(old(self)@).push(v)),
            well_formed(final(self)@),
    {
        let last = self.frames.frames.len() - 1;
        self.frames.frames[last].values.push(v);
        assert(self@.frames =~= with_top(old(self)@, top(old(self)@).push(v)).frames);
    }

    /// Takes the top `k` values off the innermost frame, the top one first;
    /// when fewer are there, empties it and gives nothing.
    fn take(&mut self, k: usize) -> (r: Option<Vec<V>>)
        requires
            well_formed(old(self)@),
        ensures
            well_formed(final(self)@),
            ({
                let vs = top(old(self)@);
                if k > vs.len() {
                    r is None && final(self)@ == with_top(old(self)@, Seq::empty())
                } else {
                    r matches Some(t) && t@ == vs.subrange(vs.len() - k, vs.len() as int).reverse()
                        && final(self)@ == with_top(old(self)@, vs.subrange(0, vs.len() - k))
                }
            }),
    {
        let last = self.frames.frames.len() - 1;
        let ghost m0 = self@;
        let ghost vs = top(m0);
        let mut out: Vec<V> = Vec::new();
        let mut i: usize = 0;
        proof {
            assert(m0.frames.len() == self.frames.frames@.len());
            assert(vs.subrange(0, vs.len() - 0) =~= vs);
            assert(self@.frames =~= with_top(m0, vs).frames);
            assert(out@ =~= vs.subrange(vs.len() - 0, vs.len() as int).reverse());
        }
        while i < k
            invariant
                last == self.frames.frames@.len() - 1,
                last == m0.frames.len() - 1,
                well_formed(self@),
                m0 == old(self)@,
                vs == top(m0),
                i <= k,
                i <= vs.len(),
                self@ == with_top(m0, vs.subrange(0, vs.len() - i)),
                out@ == vs.subrange(vs.len() - i, vs.len() as int).reverse(),
            decreases k - i,
        {
            let ghost cur = self.frames.frames@[last as int].values@;
            let ghost before = self@;
            assert(self@.frames[last as int] == self.frames.frames@[last as int].view());
            assert(last == m0.frames.len() - 1);
            assert(with_top(m0, vs.subrange(0, vs.len() - i)).frames[last as int].values == vs.subrange(0, vs.len() - i));
            assert(self@.frames == with_top(m0, vs.subrange(0, vs.len() - i)).frames);
            assert(self@.frames[last as int].values == vs.subrange(0, vs.len() - i));
            assert(cur == vs.subrange(0, vs.len() - i));
            match self.frames.frames[last].values.pop() {
                Some(v) => {
                    assert(v == vs[vs.len() - i - 1]);
                    out.push(v);
                    i = i + 1;
                    assert(out@ =~= vs.subrange(vs.len() - i, vs.len() as int).reverse());
                    assert(self.frames.frames@[last as int].values@ =~= vs.subrange(0, vs.len() - i));
                    let ghost want = with_top(m0, vs.subrange(0, vs.len() - i)).frames;
                    assert forall|j: int| 0 <= j < want.len() implies self@.frames[j] == want[j] by {
                        if j != last {
                            assert(self@.frames[j] == before.frames[j]);
                        } else {
                            assert(self@.frames[j].values =~= want[j].values);
                        }
                    }
                    assert(self@.frames =~= want);
                },
                None => {
                    let ghost want = with_top(m0, Seq::<V>::empty()).frames;
                    assert forall|j: int| 0 <= j < want.len() implies self@.frames[j] == want[j] by {
                        if j != last {
                            assert(self@.frames[j] == before.frames[j]);
                        } else {
                            assert(self@.frames[j].values =~= want[j].values);
                        }
                    }
                    assert(self@.frames =~= want);
                    return None;
                },
            }
        }
        Some(out)
    }

    /// Raises `e`: it becomes the error being handled, and the machine
    /// unwinds to the nearest `try` handler (see `raised`).
    pub fn raise(&mut self, e: V) -> (r: Result<Action<V>, Error>)
        requires
            well_formed(old(self)@),
        ensures
            (seen(r), final(self)@) == raised(old(self)@, e),
            well_formed(final(self)@),
    {
        self.error = Some(e);
        let ghost m1 = self@;
        proof {
            lemma_unwound_well_formed(m1);
        }
        loop
            invariant
                well_formed(self@),
                self.error == Some(e),
                m1 == (MachineView { error: Some(e), ..old(self)@ }),
                unwound(self@) == unwound(m1),
                caught(self@) == caught(m1),
                well_formed(unwound(m1)),
            decreases self.calls@.len(),
        {
            let last = self.frames.frames.len() - 1;
            let ghost before = self@;
            match self.frames.frames[last].try_blocks.pop() {
                Some(h) => {
                    self.pc = h;
                    assert(self@.frames =~= unwound(before).frames);
                    return Ok(Action::Next);
                },
                None => {},
            }
            assert(self@.frames =~= before.frames);
            if self.calls.len() == 0 {
                assert(self@ == before);
                return Ok(Action::Uncaught(e));
            }
            let _ = self.frames.frames.pop();
            let c = self.calls.pop().unwrap();
            self.current = c.0;
            assert(self@.frames =~= before.frames.drop_last());
            assert(self@.calls =~= before.calls.drop_last());
        }
    }
}

impl<V: Copy, F: Copy> Machine<V, F> {
    /// The number of values on the innermost frame.
    fn top_len(&self) -> (n: usize)
        requires
            well_formed(self@),
        ensures
            n == top(self@).len(),
    {
        let last = self.frames.frames.len() - 1;
        self.frames.frames[last].values.len()
    }

    /// The value at `i` on the innermost frame.
    fn top_at(&self, i: usize) -> (v: V)
        requires
            well_formed(self@),
            i < top(self@).len(),
        ensures
            v == top(self@)[i as int],
    {
        let last = self.frames.frames.len() - 1;
        self.frames.frames[last].values[i]
    }

    /// Enters a `try` block of the innermost frame with handler `h`.
    fn push_handler(&mut self, h: usize)
        requires
            well_formed(old(self)@),
        ensures
            final(self)@ == with_handlers(old(self)@, old(self)@.frames.last().try_blocks.push(h)),
            well_formed(final(self)@),
    {
        let last = self.frames.frames.len() - 1;
        self.frames.frames[last].try_blocks.push(h);
        assert(self@.frames =~= with_handlers(old(self)@, old(self)@.frames.last().try_blocks.push(h)).frames);
    }

    /// Leaves the innermost `try` block of the innermost frame, if any.
    fn pop_handler(&mut self)
        requires
            well_formed(old(self)@),
        ensures
            final(self)@ == if old(self)@.frames.last().try_blocks.len() > 0 {
                with_handlers(old(self)@, old(self)@.frames.last().try_blocks.drop_last())
            } else {
                old(self)@
            },
            well_formed(final(self)@),
    {
        let last = self.frames.frames.len() - 1;
        let ghost before = self@;
        match self.frames.frames[last].try_blocks.pop() {
            Some(_) => {
                assert(self@.frames =~= with_handlers(before, before.frames.last().try_blocks.drop_last()).frames);
            },
            None => {
                assert(self@.frames =~= before.frames);
            },
        }
    }

    /// How many values the instruction takes off the stack for the caller
    /// to carry out (see `arity`); `None` also when the count overflows.
    fn arity_of(ins: &Instruction<V>) -> (r: Option<usize>)
        requires
            arity(*ins) is Some,
        ensures
            r matches Some(k) ==> k == arity(*ins)->0,
            r is None ==> arity(*ins)->0 > usize::MAX,
    {
        match ins {
            Instruction::ArraySet | Instruction::Slice(false) => Some(3),
            Instruction::Negate | Instruction::Len | Instruction::Str | Instruction::Bytes
            | Instruction::StoreBuiltin(_) | Instruction::Stup(_) | Instruction::Unpack(_)
            | Instruction::Ldm(_) | Instruction::Raise(RaiseErrKind::FromStack)
            | Instruction::Raise(RaiseErrKind::FromStackObj) => Some(1),
            Instruction::Cl0 | Instruction::Cl1 | Instruction::This | Instruction::Builtin(_)
            | Instruction::Ldup(_) | Instruction::Import(_) => Some(0),
            Instruction::MkArr(n) | Instruction::ESwitch(n) => Some(*n),
            Instruction::MkMap(n) | Instruction::Formula(n) => n.checked_mul(2),
            Instruction::NamedFormula(n) => match n.checked_mul(2) {
                Some(d) => d.checked_add(1),
                None => None,
            },
            Instruction::MkFunc(u) => u.checked_add(1),
            _ => Some(2),
        }
    }
}

impl<V: Copy, F: Copy> Machine<V, F> {
    /// Runs one instruction of `code`, the code of the function running
    /// (see `next`): the machine runs the stack, local, jump, `try` and
    /// return instructions itself and hands the others to the caller as an
    /// action. An `Err` ends the call with that error.
    pub fn step(&mut self, code: &Vec<Instruction<V>>) -> (r: Result<Action<V>, Error>)
        requires
            well_formed(old(self)@),
            offsets_ok(code@),
        ensures
            (seen(r), final(self)@) == next(old(self)@, code@),
            well_formed(final(self)@),
    {
        if self.pc >= code.len() {
            return Ok(Action::Done);
        }
        let ins = &code[self.pc];
        self.pc = self.pc + 1;
        let ghost m = self@;
        let n = self.top_len();
        match ins {
            Instruction::Cld(v) => {
                self.push(*v);
                Ok(Action::Next)
            },
            Instruction::Pg45Break | Instruction::Pg45Continue => Ok(Action::Next),
            Instruction::Pop => match self.take(1) {
                Some(_) => {
                    assert(top(m).subrange(0, n - 1) =~= top(m).drop_last());
                    Ok(Action::Next)
                },
                None => {
                    assert(top(m) =~= Seq::<V>::empty());
                    assert(self@.frames =~= m.frames);
                    Err(Error::MalformedStack)
                },
            },
            Instruction::Dup => {
                let v = if n > 0 {
                    self.top_at(n - 1)
                } else {
                    self.null
                };
                self.push(v);
                Ok(Action::Next)
            },
            Instruction::Rot => match self.take(2) {
                Some(t) => {
                    let two = t[0];
                    let one = t[1];
                    let ghost m2 = self@;
                    self.push(two);
                    let ghost m3 = self@;
                    self.push(one);
                    proof {
                        assert(top(m3) == top(m2).push(two));
                        assert(self@.frames =~= with_top(m, top(m2).push(two).push(one)).frames);
                        let vs = top(m);
                        assert(vs.subrange(0, n - 2).push(vs[n - 1]).push(vs[n - 2]) =~= vs.subrange(
                            0,
                            n - 2,
                        ).push(two).push(one));
                    }
                    Ok(Action::Next)
                },
                None => Ok(Action::Raise(Error::MalformedStack)),
            },
            Instruction::Stl(a, b) => match self.take(1) {
                Some(t) => {
                    let local = t[0];
                    proof {
                        assert(top(m).subrange(0, n - 1) =~= top(m).drop_last());
                    }
                    match self.frames.stl((*a, *b), local) {
                        Ok(()) => Ok(Action::Next),
                        Err(e) => Err(e),
                    }
                },
                None => {
                    assert(top(m) =~= Seq::<V>::empty());
                    assert(self@.frames =~= m.frames);
                    Err(Error::MalformedStack)
                },
            },
            Instruction::Ldl(a, b) => {
                match self.load((*a, *b)) {
                    Some(v) => {
                        self.push(v);
                        Ok(Action::Next)
                    },
                    None => Err(Error::MalformedStack),
                }
            },
            Instruction::Jmp(x) => {
                let mut p = crate::executor::ProgramCounter(self.pc);
                match p.jump(*x) {
                    Ok(()) => {
                        self.pc = p.0;
                        Ok(Action::Next)
                    },
                    Err(e) => Err(e),
                }
            },
            Instruction::Ltb(j) => {
                proof {
                    assert(!(code@[old(self)@.pc as int] matches Instruction::Ltb(0)));
                }
                let mut p = crate::executor::ProgramCounter(self.pc);
                match p.jump_forward(*j - 1) {
                    Ok(()) => {
                        self.push_handler(p.0);
                        Ok(Action::Next)
                    },
                    Err(e) => Err(e),
                }
            },
            Instruction::Ftb(size) => {
                self.pop_handler();
                let mut p = crate::executor::ProgramCounter(self.pc);
                match p.jump_forward(*size) {
                    Ok(()) => {
                        self.pc = p.0;
                        Ok(Action::Next)
                    },
                    Err(e) => Err(e),
                }
            },
            Instruction::Fcb => {
                self.error = None;
                Ok(Action::Next)
            },
            Instruction::LoadErr => match self.error {
                Some(e) => {
                    self.push(e);
                    Ok(Action::Next)
                },
                None => Ok(Action::Raise(Error::InvalidWind)),
            },
            Instruction::Raise(RaiseErrKind::CurrentError) => match self.error {
                Some(e) => self.raise(e),
                None => Ok(Action::Next),
            },
            Instruction::Test(_) | Instruction::Ktest(_) | Instruction::Rtest(_) => {
                if n == 0 {
                    Ok(Action::Raise(Error::MalformedStack))
                } else {
                    match self.take(1) {
                        Some(t) => {
                            proof {
                                assert(top(m).subrange(0, n - 1) =~= top(m).drop_last());
                            }
                            Ok(Action::Branch(t[0]))
                        },
                        None => Ok(Action::Raise(Error::MalformedStack)),
                    }
                }
            },
            Instruction::Call(a) => {
                if n == 0 {
                    Ok(Action::Raise(Error::MalformedStack))
                } else if *a >= n {
                    Ok(Action::Raise(Error::InvalidJump))
                } else {
                    Ok(Action::Call(*a, self.top_at(n - *a - 1)))
                }
            },
            Instruction::Return(a) => self.leave(*a),
            _ => {
                match Self::arity_of(ins) {
                    Some(k) => match self.take(k) {
                        Some(t) => Ok(Action::Apply(t)),
                        None => Ok(Action::Raise(Error::MalformedStack)),
                    },
                    None => {
                        let _ = self.take(n);
                        assert(top(m).subrange(0, 0) =~= Seq::<V>::empty());
                        Ok(Action::Raise(Error::MalformedStack))
                    },
                }
            },
        }
    }
}

impl<V: Copy, F: Copy> Machine<V, F> {
    /// Local `ids.1` of the frame `ids.0` levels below the innermost one.
    fn load(&self, ids: (usize, usize)) -> (r: Option<V>)
        ensures
            r == local_at(self.frames.view(), ids),
    {
        let (func, idx) = ids;
        let len = self.frames.frames.len();
        if func >= len {
            return None;
        }
        let at = len - func - 1;
        if idx >= self.frames.frames[at].values.len() {
            None
        } else {
            Some(self.frames.frames[at].values[idx])
        }
    }

    /// Returns `a` values (null when `a` is 0) from the running function:
    /// to the function to return to, whose frame takes them, or out of the
    /// outermost function, which finishes with the last of them.
    fn leave(&mut self, a: usize) -> (r: Result<Action<V>, Error>)
        requires
            well_formed(old(self)@),
        ensures
            (seen(r), final(self)@) == run(Instruction::Return(a), old(self)@),
            well_formed(final(self)@),
    {
        let ghost m = self@;
        let ghost vs = top(m);
        let ghost n = vs.len();
        let t = match self.take(a) {
            Some(t) => t,
            None => return Err(Error::MalformedStack),
        };
        let ghost ret: Seq<V> = if a == 0 {
            seq![m.null]
        } else {
            vs.subrange(n - a, n as int)
        };
        let ghost m1 = self@;
        let last_value = if a == 0 {
            self.null
        } else {
            t[0]
        };
        assert(last_value == ret.last());
        if self.calls.len() == 0 {
            return Ok(Action::Finish(last_value));
        }
        let c = self.calls.pop().unwrap();
        let _ = self.frames.frames.pop();
        self.current = c.0;
        self.pc = c.1;
        let ghost base = self@;
        assert(base.frames =~= m1.frames.drop_last());
        assert(top(base) + ret.subrange(0, 0) =~= top(base));
        assert(base.frames =~= with_top(base, top(base)).frames);
        if a == 0 {
            let null = self.null;
            self.push(null);
            assert(top(base) + ret =~= top(base).push(null));
        } else {
            let mut i = a;
            while i > 0
                invariant
                    i <= a,
                    a == t@.len(),
                    a > 0,
                    ret == t@.reverse(),
                    well_formed(self@),
                    self@ == with_top(base, top(base) + ret.subrange(0, a - i)),
                    top(base) == base.frames.last().values,
                    base.frames.len() > 0,
                decreases i,
            {
                i = i - 1;
                let v = t[i];
                let ghost before = self@;
                self.push(v);
                proof {
                    assert(v == ret[a - i - 1]);
                    assert(top(before) == top(base) + ret.subrange(0, a - i - 1));
                    assert(top(base) + ret.subrange(0, a - i) =~= (top(base) + ret.subrange(
                        0,
                        a - i - 1,
                    )).push(v));
                    assert(self@.frames =~= with_top(base, top(base) + ret.subrange(0, a - i)).frames);
                }
            }
            assert(ret.subrange(0, a as int) =~= ret);
        }
        Ok(Action::Next)
    }
}

impl<V: Copy, F: Copy> Machine<V, F> {
    fn skip(&mut self, a: usize) -> (r: Result<(), Error>)
        requires
            well_formed(old(self)@),
        ensures
            (r, final(self)@) == skipped(old(self)@, a),
            well_formed(final(self)@),
    {
        if a < 2 {
            return Ok(());
        }
        let mut p = crate::executor::ProgramCounter(self.pc);
        match p.jump_forward(a - 1) {
            Ok(()) => {
                self.pc = p.0;
                Ok(())
            },
            Err(e) => Err(e),
        }
    }

    /// Finishes the test that `step` handed over as `Branch(value)`: `ins`
    /// is that test and `truth` says whether the value counts (see
    /// `branched`).
    pub fn resume_branch(&mut self, ins: &Instruction<V>, value: V, truth: bool) -> (r: Result<(), Error>)
        requires
            well_formed(old(self)@),
        ensures
            (r, final(self)@) == branched(old(self)@, *ins, value, truth),
            well_formed(final(self)@),
    {
        match ins {
            Instruction::Test(a) => {
                if truth {
                    Ok(())
                } else {
                    let yes = self.yes;
                    self.push(yes);
                    self.skip(*a)
                }
            },
            Instruction::Ktest(a) => {
                if truth {
                    Ok(())
                } else {
                    self.skip(*a)
                }
            },
            Instruction::Rtest(a) => {
                if truth {
                    match self.skip(*a) {
                        Ok(()) => {
                            self.push(value);
                            Ok(())
                        },
                        Err(e) => Err(e),
                    }
                } else {
                    Ok(())
                }
            },
            _ => Ok(()),
        }
    }

    /// Takes a call's `n` arguments and the called value below them off the
    /// innermost frame, giving the arguments in the order they were pushed;
    /// when fewer are there, empties the frame and gives nothing.
    pub fn take_args(&mut self, n: usize) -> (r: Option<Vec<V>>)
        requires
            well_formed(old(self)@),
        ensures
            well_formed(final(self)@),
            ({
                let vs = top(old(self)@);
                if n + 1 > vs.len() {
                    r is None && final(self)@ == with_top(old(self)@, Seq::empty())
                } else {
                    r matches Some(t) && t@ == vs.subrange(vs.len() - n, vs.len() as int)
                        && final(self)@ == with_top(old(self)@, vs.subrange(0, vs.len() - n - 1))
                }
            }),
    {
        let ghost vs = top(self@);
        let len = self.top_len();
        if n >= len {
            let _ = self.take(len);
            assert(vs.subrange(0, 0) =~= Seq::<V>::empty());
            return None;
        }
        let t = match self.take(n + 1) {
            Some(t) => t,
            None => return None,
        };
        let mut out: Vec<V> = Vec::new();
        let mut i = n;
        while i > 0
            invariant
                i <= n,
                t@.len() == n + 1,
                t@ == vs.subrange(vs.len() - n - 1, vs.len() as int).reverse(),
                n < vs.len(),
                out@ == vs.subrange(vs.len() - n, vs.len() - i),
            decreases i,
        {
            i = i - 1;
            out.push(t[i]);
            assert(out@ =~= vs.subrange(vs.len() - n, vs.len() - i));
        }
        Some(out)
    }

    /// Enters function `f` (see `entered`).
    pub fn enter(&mut self, f: F, args: Vec<V>, slots: usize)
        requires
            well_formed(old(self)@),
        ensures
            final(self)@ == entered(old(self)@, f, args@, slots),
            well_formed(final(self)@),
    {
        let values = pad(args, slots, self.null);
        self.calls.push((self.current, self.pc));
        self.frames.frames.push(Frame::from_values(values));
        self.current = f;
        self.pc = 0;
        let ghost want = entered(old(self)@, f, args@, slots).frames;
        assert forall|j: int| 0 <= j < want.len() implies self@.frames[j] == want[j] by {
            if j == want.len() - 1 {
                assert(self@.frames[j].try_blocks =~= Seq::<usize>::empty());
            }
        }
        assert(self@.frames =~= want);
    }
}

} // verus!
