use vstd::prelude::*;

verus! {

/// The access flags of an object member, one bit each.
#[derive(Copy, Clone, Debug, PartialEq, Eq, Hash)]
pub struct ObjAccess {
    pub bits: u32,
}

impl ObjAccess {
    /// The member cannot be reassigned.
    pub fn constant() -> (a: ObjAccess)
        ensures
            a.bits == 0b00000001,
    {
        ObjAccess { bits: 0b00000001 }
    }

    /// The member is a method.
    pub fn method() -> (a: ObjAccess)
        ensures
            a.bits == 0b00000010,
    {
        ObjAccess { bits: 0b00000010 }
    }

    /// The member cannot be targeted.
    pub fn untargetable() -> (a: ObjAccess)
        ensures
            a.bits == 0b00000100,
    {
        ObjAccess { bits: 0b00000100 }
    }

    /// No flag.
    pub fn none() -> (a: ObjAccess)
        ensures
            a.bits == 0,
    {
        ObjAccess { bits: 0 }
    }

    pub fn bits(&self) -> (b: u32)
        ensures
            b == self.bits,
    {
        self.bits
    }

    /// Whether every flag of `b` is set in `self`.
    pub fn contains(&self, b: ObjAccess) -> (r: bool)
        ensures
            r == (self.bits & b.bits == b.bits),
    {
        self.bits & b.bits == b.bits
    }

    /// Sets the flags of `b`.
    pub fn insert(&mut self, b: ObjAccess)
        ensures
            final(self).bits == old(self).bits | b.bits,
    {
        self.bits = self.bits | b.bits;
    }

    /// Clears the flags of `b`, keeping the others.
    pub fn clear(&mut self, b: ObjAccess)
        ensures
            final(self).bits == old(self).bits & !b.bits,
    {
        self.bits = self.bits & !b.bits;
    }
}

/// After a flag is set, the flags contain it, and every flag that was set
/// stays set.
pub proof fn lemma_insert_then_contains(a: u32, b: u32, c: u32)
    ensures
        (a | b) & b == b,
        a & c == c ==> (a | b) & c == c,
{
    assert((a | b) & b == b) by (bit_vector);
    assert(a & c == c ==> (a | b) & c == c) by (bit_vector);
}

/// After a flag is cleared, the flags hold none of its bits, and a flag
/// that shares no bit with it keeps its state.
pub proof fn lemma_clear_then_lacks(a: u32, b: u32, c: u32)
    ensures
        (a & !b) & b == 0,
        c & b == 0 ==> ((a & !b) & c == c <==> a & c == c),
{
    assert((a & !b) & b == 0) by (bit_vector);
    assert(c & b == 0 ==> ((a & !b) & c == c <==> a & c == c)) by (bit_vector);
}

/// Setting a flag and then clearing it leaves the flags as clearing it
/// alone would.
pub proof fn lemma_insert_then_clear(a: u32, b: u32)
    ensures
        (a | b) & !b == a & !b,
{
    assert((a | b) & !b == a & !b) by (bit_vector);
}

} // verus!
