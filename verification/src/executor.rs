use vstd::prelude::*;
use crate::error::Error;

verus! {

/// The value stack of one function activation, with the stack of the
/// handler addresses of the `try` blocks it has entered.
#[derive(Debug)]
pub struct Frame<V> {
    pub values: Vec<V>,
    pub try_blocks: Vec<usize>,
}

impl<V> Frame<V> {
    /// An empty frame (the capacity is only a hint).
    pub fn new(a: usize) -> (f: Self)
        ensures
            f.values@.len() == 0,
            f.try_blocks@.len() == 0,
    {
        Frame { values: Vec::with_capacity(a), try_blocks: Vec::with_capacity(1) }
    }

    /// A frame holding `v`, with no `try` block entered.
    pub fn from_values(v: Vec<V>) -> (f: Self)
        ensures
            f.values@ == v@,
            f.try_blocks@.len() == 0,
    {
        Frame { values: v, try_blocks: Vec::new() }
    }

    /// Pops the top value; fails with `MalformedStack` on an empty stack.
    pub fn pop_or_error(&mut self) -> (r: Result<V, Error>)
        ensures
            final(self).try_blocks@ == old(self).try_blocks@,
            old(self).values@.len() == 0 ==> (r matches Err(Error::MalformedStack))
                && final(self).values@ == old(self).values@,
            old(self).values@.len() > 0 ==> r == Ok::<V, Error>(old(self).values@.last())
                && final(self).values@ == old(self).values@.drop_last(),
    {
        match self.values.pop() {
            Some(a) => Ok(a),
            _ => Err(Error::MalformedStack),
        }
    }

    /// Pops the top `n` values, the top one first; fails with
    /// `MalformedStack` when fewer than `n` are there (the stack is then
    /// left empty).
    pub fn popn_or_error(&mut self, n: usize) -> (r: Result<Vec<V>, Error>)
        ensures
            final(self).try_blocks@ == old(self).try_blocks@,
            n <= old(self).values@.len() ==> {
                &&& r is Ok
                &&& final(self).values@ == old(self).values@.subrange(
                    0,
                    old(self).values@.len() - n,
                )
                &&& r->Ok_0@ == old(self).values@.subrange(
                    old(self).values@.len() - n,
                    old(self).values@.len() as int,
                ).reverse()
            },
            n > old(self).values@.len() ==> (r matches Err(Error::MalformedStack))
                && final(self).values@.len() == 0,
    {
        let mut out: Vec<V> = Vec::new();
        let ghost orig = self.values@;
        let mut i: usize = 0;
        while i < n
            invariant
                i <= n,
                i <= orig.len(),
                self.try_blocks@ == old(self).try_blocks@,
                orig == old(self).values@,
                self.values@ == orig.subrange(0, orig.len() - i),
                out@ == orig.subrange(orig.len() - i, orig.len() as int).reverse(),
            decreases n - i,
        {
            match self.values.pop() {
                Some(a) => {
                    out.push(a);
                    i = i + 1;
                    assert(out@ =~= orig.subrange(orig.len() - i, orig.len() as int).reverse());
                },
                _ => {
                    return Err(Error::MalformedStack);
                },
            }
        }
        Ok(out)
    }

    /// Leaves the innermost `try` block, giving its handler address.
    pub fn pop_try_block(&mut self) -> (r: Option<usize>)
        ensures
            final(self).values@ == old(self).values@,
            old(self).try_blocks@.len() == 0 ==> r is None && final(self).try_blocks@
                == old(self).try_blocks@,
            old(self).try_blocks@.len() > 0 ==> r == Some(old(self).try_blocks@.last())
                && final(self).try_blocks@ == old(self).try_blocks@.drop_last(),
    {
        self.try_blocks.pop()
    }

    /// The handler address of the innermost `try` block.
    pub fn peek_try_block(&self) -> (r: Option<usize>)
        ensures
            self.try_blocks@.len() == 0 ==> r is None,
            self.try_blocks@.len() > 0 ==> r == Some(self.try_blocks@.last()),
    {
        let n = self.try_blocks.len();
        if n == 0 {
            None
        } else {
            Some(self.try_blocks[n - 1])
        }
    }

    /// Enters a `try` block whose handler is at `val`.
    pub fn push_try_block(&mut self, val: usize)
        ensures
            final(self).values@ == old(self).values@,
            final(self).try_blocks@ == old(self).try_blocks@.push(val),
    {
        self.try_blocks.push(val);
    }
}

/// Leaving the `try` block just entered gives back its handler and the
/// handlers as they were before it.
pub proof fn lemma_try_block_round_trip(handlers: Seq<usize>, h: usize)
    ensures
        handlers.push(h).len() > 0,
        handlers.push(h).last() == h,
        handlers.push(h).drop_last() == handlers,
{
    assert(handlers.push(h).drop_last() =~= handlers);
}

/// A frame as the specification sees it: its values and its `try`
/// handler addresses.
pub struct FrameView<V> {
    pub values: Seq<V>,
    pub try_blocks: Seq<usize>,
}

impl<V> Frame<V> {
    pub open spec fn view(&self) -> FrameView<V> {
        FrameView { values: self.values@, try_blocks: self.try_blocks@ }
    }
}

/// The activations of the running functions, the innermost last.
#[derive(Debug)]
pub struct StackFrame<V> {
    pub frames: Vec<Frame<V>>,
}

/// The position in `frames` of the frame `depth` levels below the innermost.
pub open spec fn frame_at(len: nat, depth: nat) -> int {
    len - depth - 1
}

/// The local `ids.1` of the frame `ids.0` levels below the innermost one,
/// if there is one.
pub open spec fn local_at<V>(fs: Seq<FrameView<V>>, ids: (usize, usize)) -> Option<V> {
    let (depth, idx) = ids;
    if depth < fs.len() && idx < fs[frame_at(fs.len(), depth as nat)].values.len() {
        Some(fs[frame_at(fs.len(), depth as nat)].values[idx as int])
    } else {
        None
    }
}

/// The frames after storing `c` into local `ids.1` of the frame `ids.0`
/// levels below the innermost one: a local inside is overwritten; one just
/// past the end is pushed, and so is local 1 of a frame with no values;
/// anything else (or a missing frame) is refused.
pub open spec fn store_local<V>(fs: Seq<FrameView<V>>, ids: (usize, usize), c: V) -> Option<
    Seq<FrameView<V>>,
> {
    let (depth, idx) = ids;
    if depth >= fs.len() {
        None
    } else {
        let at = frame_at(fs.len(), depth as nat);
        let f = fs[at];
        if idx < f.values.len() {
            Some(fs.update(at, FrameView { values: f.values.update(idx as int, c), try_blocks: f.try_blocks }))
        } else if idx == f.values.len() || (idx == 1 && f.values.len() == 0) {
            Some(fs.update(at, FrameView { values: f.values.push(c), try_blocks: f.try_blocks }))
        } else {
            None
        }
    }
}

/// A local that was stored is loaded back, unless it was local 1 of a frame
/// with no values (that one is stored as local 0).
pub proof fn lemma_load_after_store<V>(fs: Seq<FrameView<V>>, ids: (usize, usize), c: V)
    requires
        store_local(fs, ids, c) is Some,
        !(ids.1 == 1 && fs[frame_at(fs.len(), ids.0 as nat)].values.len() == 0),
    ensures
        local_at(store_local(fs, ids, c)->0, ids) == Some(c),
{
}

/// Storing a local leaves every other local that was there as it was.
pub proof fn lemma_store_keeps_other_locals<V>(
    fs: Seq<FrameView<V>>,
    ids: (usize, usize),
    c: V,
    other: (usize, usize),
)
    requires
        store_local(fs, ids, c) is Some,
        local_at(fs, other) is Some,
        other != ids,
    ensures
        local_at(store_local(fs, ids, c)->0, other) == local_at(fs, other),
{
}

/// Storing a local keeps the number of frames and every `try` handler.
pub proof fn lemma_store_keeps_frames<V>(fs: Seq<FrameView<V>>, ids: (usize, usize), c: V)
    requires
        store_local(fs, ids, c) is Some,
    ensures
        store_local(fs, ids, c)->0.len() == fs.len(),
        forall|k: int|
            0 <= k < fs.len() ==> (#[trigger] store_local(fs, ids, c)->0[k]).try_blocks
                == fs[k].try_blocks,
{
}

/// The frames after pushing `x` onto the innermost one.
pub open spec fn push_top<V>(fs: Seq<FrameView<V>>, x: V) -> Seq<FrameView<V>> {
    fs.update(
        fs.len() - 1,
        FrameView { values: fs.last().values.push(x), try_blocks: fs.last().try_blocks },
    )
}

/// A value stored into a local loads back: after a store that succeeded
/// (other than into local 1 of a frame with no values, which lands in local
/// 0), the local holds the value, so a load of it succeeds and pushes `x`, a
/// clone of the value, onto the innermost frame, while the local still
/// holds the value.
pub proof fn lemma_stored_local_loads_back<V>(fs: Seq<FrameView<V>>, ids: (usize, usize), c: V, x: V)
    requires
        store_local(fs, ids, c) is Some,
        !(ids.1 == 1 && fs[frame_at(fs.len(), ids.0 as nat)].values.len() == 0),
    ensures
        local_at(store_local(fs, ids, c)->0, ids) == Some(c),
        push_top(store_local(fs, ids, c)->0, x).last().values.last() == x,
        local_at(push_top(store_local(fs, ids, c)->0, x), ids) == Some(c),
{
    lemma_load_after_store(fs, ids, c);
    lemma_store_keeps_frames(fs, ids, c);
}

impl<V: Clone> StackFrame<V> {
    pub open spec fn view(&self) -> Seq<FrameView<V>> {
        self.frames@.map_values(|f: Frame<V>| f.view())
    }

    /// One empty frame.
    pub fn new(a: usize) -> (s: Self)
        ensures
            s.view() == seq![FrameView::<V> { values: Seq::empty(), try_blocks: Seq::empty() }],
    {
        let mut frames = Vec::new();
        frames.push(Frame::new(a));
        let s = StackFrame { frames };
        assert(s.view()[0].values =~= Seq::empty());
        assert(s.view()[0].try_blocks =~= Seq::empty());
        assert(s.view() =~= seq![FrameView::<V> { values: Seq::empty(), try_blocks: Seq::empty() }]);
        s
    }

    /// Makes sure there is an innermost frame (pushing an empty one when
    /// there is none) and gives it.
    pub fn current_frame(&mut self) -> (f: &mut Frame<V>)
        ensures
            old(self).frames@.len() == 0 ==> {
                &&& f.values@.len() == 0
                &&& f.try_blocks@.len() == 0
                &&& final(self).frames@ == seq![*final(f)]
            },
            old(self).frames@.len() > 0 ==> {
                &&& *f == old(self).frames@.last()
                &&& final(self).frames@ == old(self).frames@.update(
                    old(self).frames@.len() - 1,
                    *final(f),
                )
            },
    {
        if self.frames.len() == 0 {
            self.frames.push(Frame::new(1));
        }
        let a = self.frames.len() - 1;
        &mut self.frames[a]
    }

    /// Stores `c` in local `ids.1` of the frame `ids.0` levels below the
    /// innermost one (see `store_local`); a refused store is
    /// `MalformedStack` and changes nothing.
    pub fn stl(&mut self, ids: (usize, usize), c: V) -> (r: Result<(), Error>)
        ensures
            match store_local(old(self).view(), ids, c) {
                Some(fs) => r is Ok && final(self).view() == fs,
                None => (r matches Err(Error::MalformedStack)) && final(self).view() == old(
                    self,
                ).view(),
            },
    {
        let ghost fs = self.view();
        let (func, idx) = ids;
        let len = self.frames.len();
        if func >= len {
            return Err(Error::MalformedStack);
        }
        let at = len - func - 1;
        let flen = self.frames[at].values.len();
        if idx >= flen {
            if idx == flen || (idx == 1 && flen == 0) {
                self.frames[at].values.push(c);
                assert(self.view() =~= store_local(fs, ids, c)->0);
                Ok(())
            } else {
                Err(Error::MalformedStack)
            }
        } else {
            self.frames[at].values[idx] = c;
            assert(self.view() =~= store_local(fs, ids, c)->0);
            Ok(())
        }
    }

    /// The value of local `ids.1` of the frame `ids.0` levels below the
    /// innermost one, cloned.
    fn load_local(&self, ids: (usize, usize)) -> (r: Result<V, Error>)
        ensures
            match local_at(self.view(), ids) {
                Some(v) => r matches Ok(x) && cloned(v, x),
                None => r matches Err(Error::MalformedStack),
            },
    {
        let (func, idx) = ids;
        let len = self.frames.len();
        if func >= len {
            return Err(Error::MalformedStack);
        }
        let at = len - func - 1;
        if idx >= self.frames[at].values.len() {
            Err(Error::MalformedStack)
        } else {
            Ok(self.frames[at].values[idx].clone())
        }
    }

    /// Pushes onto the innermost frame a clone of local `ids.1` of the frame
    /// `ids.0` levels below the innermost one; a missing local is
    /// `MalformedStack` and changes nothing.
    pub fn ldl(&mut self, ids: (usize, usize)) -> (r: Result<(), Error>)
        ensures
            match local_at(old(self).view(), ids) {
                Some(v) => {
                    let x = final(self).view().last().values.last();
                    &&& r is Ok
                    &&& cloned(v, x)
                    &&& final(self).view() == push_top(old(self).view(), x)
                },
                None => (r matches Err(Error::MalformedStack)) && final(self).view() == old(
                    self,
                ).view(),
            },
    {
        let ghost fs = self.view();
        let local = self.load_local(ids)?;
        let f = self.current_frame();
        f.values.push(local);
        proof {
            let last = self.view().last();
            assert(self.view() =~= fs.update(
                fs.len() - 1,
                FrameView {
                    values: fs.last().values.push(last.values.last()),
                    try_blocks: fs.last().try_blocks,
                },
            ));
        }
        Ok(())
    }
}

/// A jump by `x` that succeeded is undone by a jump by `-x`.
pub proof fn lemma_jump_back(p: usize, x: i64)
    requires
        0 <= p + x <= usize::MAX,
        x > i64::MIN,
    ensures
        0 <= (p + x) + (-x) <= usize::MAX,
        (p + x) + (-x) == p,
{
}

/// The index of the next instruction to run.
#[derive(Debug, Clone, Copy, PartialEq)]
pub struct ProgramCounter(pub usize);

impl ProgramCounter {
    pub fn from_usize(idx: usize) -> (p: ProgramCounter)
        ensures
            p.0 == idx,
    {
        ProgramCounter(idx)
    }

    pub fn as_usize(self) -> (u: usize)
        ensures
            u == self.0,
    {
        self.0
    }

    /// Moves `x` instructions forward; a target past `usize::MAX` is
    /// `InvalidJump` and leaves the counter where it was.
    pub fn jump_forward(&mut self, x: usize) -> (r: Result<(), Error>)
        ensures
            old(self).0 + x <= usize::MAX ==> r is Ok && final(self).0 == old(self).0 + x,
            old(self).0 + x > usize::MAX ==> (r matches Err(Error::InvalidJump)) && final(self).0
                == old(self).0,
    {
        match self.0.checked_add(x) {
            Some(temp) => {
                self.0 = temp;
                Ok(())
            },
            None => Err(Error::InvalidJump),
        }
    }

    /// Moves by `x` instructions, backwards when `x` is negative; a target
    /// before 0 or past `usize::MAX` is `InvalidJump` and leaves the
    /// counter where it was.
    pub fn jump(&mut self, x: i64) -> (r: Result<(), Error>)
        ensures
            0 <= old(self).0 + x <= usize::MAX ==> r is Ok && final(self).0 == old(self).0 + x,
            !(0 <= old(self).0 + x <= usize::MAX) ==> (r matches Err(Error::InvalidJump))
                && final(self).0 == old(self).0,
    {
        if x == 0 {
            Ok(())
        } else if x < 0 {
            let a: u64 = if x == i64::MIN {
                9223372036854775808u64
            } else {
                (-x) as u64
            };
            if a as u128 > self.0 as u128 {
                return Err(Error::InvalidJump);
            }
            self.0 = self.0 - (a as usize);
            Ok(())
        } else {
            let b: u64 = x as u64;
            if b as u128 + self.0 as u128 > usize::MAX as u128 {
                return Err(Error::InvalidJump);
            }
            self.0 = self.0 + (b as usize);
            Ok(())
        }
    }
}

} // verus!
