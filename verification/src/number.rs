use vstd::prelude::*;
use vstd::arithmetic::power2::{pow2, lemma2_to64, lemma2_to64_rest, lemma_pow2_adds, lemma_pow2_pos};
use vstd::arithmetic::div_mod::{lemma_small_mod, lemma_fundamental_div_mod, lemma_mod_multiples_vanish};
use vstd::arithmetic::mul::lemma_mul_strict_inequality;
use vstd::bits::{lemma_u64_shl_is_mul, lemma_u64_pow2_no_overflow, lemma_u32_pow2_no_overflow, lemma_u16_pow2_no_overflow, lemma_u8_pow2_no_overflow, lemma_u8_shr_is_div, lemma_u16_shr_is_div, lemma_u32_shr_is_div, lemma_u64_shr_is_div};

verus! {

/// An unsigned integer of one of four widths.
#[derive(Copy, Clone, Debug, PartialEq, Eq, Hash, PartialOrd)]
pub enum Unsigned {
    U8(u8),
    U16(u16),
    U32(u32),
    U64(u64),
}

/// The bytes of `a` in the machine's byte order (`to_ne_bytes`). The
/// contract claims they are the little-endian or the big-endian bytes;
/// which of the two, the machine decides, and that is left unsaid.
#[verifier::external_body]
fn ne_bytes_u16(a: u16) -> (r: [u8; 2])
    ensures
        r@ == le_bytes(a as u64, 2) || r@ == le_bytes(a as u64, 2).reverse(),
{
    a.to_ne_bytes()
}

/// The bytes of `a` in the machine's byte order (`to_ne_bytes`). The
/// contract claims they are the little-endian or the big-endian bytes;
/// which of the two, the machine decides, and that is left unsaid.
#[verifier::external_body]
fn ne_bytes_u32(a: u32) -> (r: [u8; 4])
    ensures
        r@ == le_bytes(a as u64, 4) || r@ == le_bytes(a as u64, 4).reverse(),
{
    a.to_ne_bytes()
}

/// The bytes of `a` in the machine's byte order (`to_ne_bytes`). The
/// contract claims they are the little-endian or the big-endian bytes;
/// which of the two, the machine decides, and that is left unsaid.
#[verifier::external_body]
fn ne_bytes_u64(a: u64) -> (r: [u8; 8])
    ensures
        r@ == le_bytes(a, 8) || r@ == le_bytes(a, 8).reverse(),
{
    a.to_ne_bytes()
}

/// The lowest `n` bytes of `a`, least significant first.
pub open spec fn le_bytes(a: u64, n: nat) -> Seq<u8>
    decreases n,
{
    if n == 0 {
        seq![]
    } else {
        seq![a as u8] + le_bytes(a >> 8, (n - 1) as nat)
    }
}

/// `a` and `b` hold the same bytes.
pub fn bytes_eq(a: &[u8], b: &[u8]) -> (r: bool)
    ensures
        r == (a@ == b@),
{
    if a.len() != b.len() {
        return false;
    }
    let mut i: usize = 0;
    while i < a.len()
        invariant
            a@.len() == b@.len(),
            i <= a@.len(),
            forall|j: int| 0 <= j < i ==> a@[j] == b@[j],
        decreases a@.len() - i,
    {
        if a[i] != b[i] {
            return false;
        }
        i = i + 1;
    }
    assert(a@ =~= b@);
    true
}

impl Unsigned {
    /// The number held, whatever its width.
    pub open spec fn value(self) -> nat {
        match self {
            Unsigned::U8(a) => a as nat,
            Unsigned::U16(a) => a as nat,
            Unsigned::U32(a) => a as nat,
            Unsigned::U64(a) => a as nat,
        }
    }

    /// The width in bits.
    pub open spec fn bits(self) -> u8 {
        match self {
            Unsigned::U8(_) => 8,
            Unsigned::U16(_) => 16,
            Unsigned::U32(_) => 32,
            Unsigned::U64(_) => 64,
        }
    }

    /// The rank of the width (0 for `u8` up to 3 for `u64`), the order in
    /// which the variants are declared.
    pub open spec fn rank(self) -> nat {
        match self {
            Unsigned::U8(_) => 0,
            Unsigned::U16(_) => 1,
            Unsigned::U32(_) => 2,
            Unsigned::U64(_) => 3,
        }
    }

    pub open spec fn spec_u8(self) -> u8 {
        match self {
            Unsigned::U8(a) => a,
            Unsigned::U16(b) => b as u8,
            Unsigned::U32(b) => b as u8,
            Unsigned::U64(b) => b as u8,
        }
    }

    pub open spec fn spec_u16(self) -> u16 {
        match self {
            Unsigned::U8(a) => a as u16,
            Unsigned::U16(b) => b,
            Unsigned::U32(b) => b as u16,
            Unsigned::U64(b) => b as u16,
        }
    }

    pub open spec fn spec_u32(self) -> u32 {
        match self {
            Unsigned::U8(a) => a as u32,
            Unsigned::U16(b) => b as u32,
            Unsigned::U32(b) => b,
            Unsigned::U64(b) => b as u32,
        }
    }

    pub open spec fn spec_u64(self) -> u64 {
        match self {
            Unsigned::U8(a) => a as u64,
            Unsigned::U16(b) => b as u64,
            Unsigned::U32(b) => b as u64,
            Unsigned::U64(b) => b,
        }
    }

    pub open spec fn spec_type_name(self) -> Seq<char> {
        match self {
            Unsigned::U8(_) => "u8"@,
            Unsigned::U16(_) => "u16"@,
            Unsigned::U32(_) => "u32"@,
            Unsigned::U64(_) => "u64"@,
        }
    }

    pub fn is_zero(&self) -> (r: bool)
        ensures
            r == (self.value() == 0),
    {
        match self {
            Unsigned::U8(i) => *i == 0,
            Unsigned::U16(i) => *i == 0,
            Unsigned::U32(i) => *i == 0,
            Unsigned::U64(i) => *i == 0,
        }
    }

    pub fn is_one(&self) -> (r: bool)
        ensures
            r == (self.value() == 1),
    {
        match self {
            Unsigned::U8(i) => *i == 1,
            Unsigned::U16(i) => *i == 1,
            Unsigned::U32(i) => *i == 1,
            Unsigned::U64(i) => *i == 1,
        }
    }

    /// The name of the width, as scripts see it.
    pub fn get_type(&self) -> (r: &'static str)
        ensures
            r@ == self.spec_type_name(),
    {
        match self {
            Unsigned::U8(_) => "u8",
            Unsigned::U16(_) => "u16",
            Unsigned::U32(_) => "u32",
            Unsigned::U64(_) => "u64",
        }
    }

    pub fn size(&self) -> (r: u8)
        ensures
            r == self.bits(),
    {
        match self {
            Unsigned::U8(_) => 8u8,
            Unsigned::U16(_) => 16u8,
            Unsigned::U32(_) => 32u8,
            Unsigned::U64(_) => 64u8,
        }
    }

    /// Whether the number is above zero.
    pub fn as_bool(&self) -> (r: bool)
        ensures
            r == (self.value() > 0),
    {
        match self {
            Unsigned::U8(a) => *a > 0,
            Unsigned::U16(a) => *a > 0,
            Unsigned::U32(a) => *a > 0,
            Unsigned::U64(a) => *a > 0,
        }
    }

    /// The number truncated to its lowest 8 bits.
    pub fn u8(self) -> (r: u8)
        ensures
            r == self.spec_u8(),
            r == self.value() % 0x100,
    {
        match self {
            Unsigned::U8(a) => a,
            Unsigned::U16(b) => {
                assert(b as u8 == b % 0x100) by (bit_vector);
                b as u8
            },
            Unsigned::U32(b) => {
                assert(b as u8 == b % 0x100) by (bit_vector);
                b as u8
            },
            Unsigned::U64(b) => {
                assert(b as u8 == b % 0x100) by (bit_vector);
                b as u8
            },
        }
    }

    /// The number truncated to its lowest 16 bits.
    pub fn u16(self) -> (r: u16)
        ensures
            r == self.spec_u16(),
            r == self.value() % 0x10000,
    {
        match self {
            Unsigned::U8(a) => a as u16,
            Unsigned::U16(b) => b,
            Unsigned::U32(b) => {
                assert(b as u16 == b % 0x10000) by (bit_vector);
                b as u16
            },
            Unsigned::U64(b) => {
                assert(b as u16 == b % 0x10000) by (bit_vector);
                b as u16
            },
        }
    }

    /// The number truncated to its lowest 32 bits.
    pub fn u32(self) -> (r: u32)
        ensures
            r == self.spec_u32(),
            r == self.value() % 0x1_0000_0000,
    {
        match self {
            Unsigned::U8(a) => a as u32,
            Unsigned::U16(b) => b as u32,
            Unsigned::U32(b) => b,
            Unsigned::U64(b) => {
                assert(b as u32 == b % 0x1_0000_0000) by (bit_vector);
                b as u32
            },
        }
    }

    /// The number, widened to 64 bits.
    pub fn u64(self) -> (r: u64)
        ensures
            r == self.spec_u64(),
            r == self.value(),
    {
        match self {
            Unsigned::U8(a) => a as u64,
            Unsigned::U16(b) => b as u64,
            Unsigned::U32(b) => b as u64,
            Unsigned::U64(b) => b,
        }
    }

    /// The number as a `usize`, truncated where `usize` is narrower.
    pub fn usize(self) -> (r: usize)
        ensures
            self.value() <= usize::MAX ==> r == self.value(),
    {
        match self {
            Unsigned::U8(a) => a as usize,
            Unsigned::U16(b) => b as usize,
            Unsigned::U32(b) => b as usize,
            Unsigned::U64(b) => b as usize,
        }
    }

    /// The largest number of the width.
    pub open spec fn max_value(self) -> nat {
        match self {
            Unsigned::U8(_) => u8::MAX as nat,
            Unsigned::U16(_) => u16::MAX as nat,
            Unsigned::U32(_) => u32::MAX as nat,
            Unsigned::U64(_) => u64::MAX as nat,
        }
    }

    /// `other` truncated to the width of `self`.
    pub open spec fn fitted(self, other: Unsigned) -> nat {
        match self {
            Unsigned::U8(_) => other.spec_u8() as nat,
            Unsigned::U16(_) => other.spec_u16() as nat,
            Unsigned::U32(_) => other.spec_u32() as nat,
            Unsigned::U64(_) => other.spec_u64() as nat,
        }
    }

    /// A number of the width of `self` holding `v`.
    pub open spec fn with_value(self, v: nat) -> Unsigned {
        match self {
            Unsigned::U8(_) => Unsigned::U8(v as u8),
            Unsigned::U16(_) => Unsigned::U16(v as u16),
            Unsigned::U32(_) => Unsigned::U32(v as u32),
            Unsigned::U64(_) => Unsigned::U64(v as u64),
        }
    }

    /// The order `<` of the type: by width first, then by value.
    pub open spec fn precedes(self, other: Unsigned) -> bool {
        ||| self.rank() < other.rank()
        ||| self.rank() == other.rank() && self.value() < other.value()
    }

    /// `self < other` in the order of the type.
    pub fn less_than(&self, other: &Unsigned) -> (r: bool)
        ensures
            r == self.precedes(*other),
    {
        match (self, other) {
            (Unsigned::U8(a), Unsigned::U8(b)) => *a < *b,
            (Unsigned::U16(a), Unsigned::U16(b)) => *a < *b,
            (Unsigned::U32(a), Unsigned::U32(b)) => *a < *b,
            (Unsigned::U64(a), Unsigned::U64(b)) => *a < *b,
            _ => self.width_rank() < other.width_rank(),
        }
    }

    /// Compares the number with `other` truncated to the width of `self`.
    pub fn cmp(&self, other: &Unsigned) -> (r: std::cmp::Ordering)
        ensures
            r == if self.value() < self.fitted(*other) {
                std::cmp::Ordering::Less
            } else if self.value() == self.fitted(*other) {
                std::cmp::Ordering::Equal
            } else {
                std::cmp::Ordering::Greater
            },
    {
        let a: u64 = self.u64();
        let b: u64 = match self {
            Unsigned::U8(_) => Unsigned::U8(other.u8()).u64(),
            Unsigned::U16(_) => Unsigned::U16(other.u16()).u64(),
            Unsigned::U32(_) => Unsigned::U32(other.u32()).u64(),
            Unsigned::U64(_) => other.u64(),
        };
        if a < b {
            std::cmp::Ordering::Less
        } else if a == b {
            std::cmp::Ordering::Equal
        } else {
            std::cmp::Ordering::Greater
        }
    }

    fn width_rank(&self) -> (r: u8)
        ensures
            r == self.rank(),
    {
        match self {
            Unsigned::U8(_) => 0,
            Unsigned::U16(_) => 1,
            Unsigned::U32(_) => 2,
            Unsigned::U64(_) => 3,
        }
    }

    pub open spec fn spec_rectify(self) -> Unsigned {
        if self.precedes(Unsigned::U64(u8::MAX as u64)) {
            Unsigned::U8(self.spec_u8())
        } else if self.precedes(Unsigned::U64(u16::MAX as u64)) {
            Unsigned::U16(self.spec_u16())
        } else if self.precedes(Unsigned::U64(u32::MAX as u64)) {
            Unsigned::U32(self.spec_u32())
        } else {
            self
        }
    }

    /// Narrows the number to the first width that the type's order puts
    /// below the maximum of the width.
    pub fn rectify(&self) -> (r: Unsigned)
        ensures
            r == self.spec_rectify(),
    {
        if self.less_than(&Unsigned::U64(u8::MAX as u64)) {
            Unsigned::U8(self.u8())
        } else if self.less_than(&Unsigned::U64(u16::MAX as u64)) {
            Unsigned::U16(self.u16())
        } else if self.less_than(&Unsigned::U64(u32::MAX as u64)) {
            Unsigned::U32(self.u32())
        } else {
            *self
        }
    }

    /// Whether `b` holds the machine-order bytes of the rectified number.
    pub fn compare_bytes(&self, b: &[u8]) -> (r: bool)
        ensures
            ({
                let n = self.spec_rectify();
                let bytes = le_bytes(n.value() as u64, (n.bits() / 8) as nat);
                &&& (b@ == bytes && b@ == bytes.reverse()) ==> r
                &&& r ==> (b@ == bytes || b@ == bytes.reverse())
            }),
    {
        let n = self.rectify();
        match n {
            Unsigned::U8(a) => {
                assert(le_bytes(a as u64, 1) =~= seq![a]) by {
                    assert((a as u64) as u8 == a) by (bit_vector);
                    assert(le_bytes((a as u64) >> 8, 0) =~= Seq::<u8>::empty());
                }
                let v = [a];
                assert(v@ =~= seq![a]);
                assert(seq![a].reverse() =~= seq![a]);
                bytes_eq(&v, b)
            },
            Unsigned::U16(a) => {
                let v = ne_bytes_u16(a);
                bytes_eq(&v, b)
            },
            Unsigned::U32(a) => {
                let v = ne_bytes_u32(a);
                bytes_eq(&v, b)
            },
            Unsigned::U64(a) => {
                let v = ne_bytes_u64(a);
                bytes_eq(&v, b)
            },
        }
    }

    /// The quotient, at the width of `self`, of `self` by `other` truncated to
    /// that width; `None` when `other` is zero.
    pub fn try_div(self, other: Unsigned) -> (r: Option<Unsigned>)
        requires
            other.value() != 0 ==> self.fitted(other) != 0,
        ensures
            other.value() == 0 ==> r is None,
            other.value() != 0 ==> r == Some(self.with_value(self.value() / self.fitted(other))),
    {
        if other.is_zero() {
            return None;
        }
        Some(
            match self {
                Unsigned::U8(a) => Unsigned::U8(a / other.u8()),
                Unsigned::U16(a) => Unsigned::U16(a / other.u16()),
                Unsigned::U32(a) => Unsigned::U32(a / other.u32()),
                Unsigned::U64(a) => Unsigned::U64(a / other.u64()),
            },
        )
    }

    pub open spec fn spec_convert(self, b: Unsigned) -> Unsigned {
        if self.bits() >= b.bits() {
            self
        } else {
            b.with_value(self.value())
        }
    }

    /// The number at the wider of its own width and that of `b`.
    pub fn convert(&self, b: Unsigned) -> (r: Unsigned)
        ensures
            r == self.spec_convert(b),
            r.value() == self.value(),
    {
        if self.size() >= b.size() {
            *self
        } else {
            match b {
                Unsigned::U8(_) => Unsigned::U8(self.u8()),
                Unsigned::U16(_) => Unsigned::U16(self.u16()),
                Unsigned::U32(_) => Unsigned::U32(self.u32()),
                Unsigned::U64(_) => Unsigned::U64(self.u64()),
            }
        }
    }

    /// The sum at the width of `self`, `other` truncated to that width.
    pub fn add(self, other: Unsigned) -> (r: Unsigned)
        requires
            self.value() + self.fitted(other) <= self.max_value(),
        ensures
            r == self.with_value(self.value() + self.fitted(other)),
    {
        match self {
            Unsigned::U8(a) => Unsigned::U8(a + other.u8()),
            Unsigned::U16(a) => Unsigned::U16(a + other.u16()),
            Unsigned::U32(a) => Unsigned::U32(a + other.u32()),
            Unsigned::U64(a) => Unsigned::U64(a + other.u64()),
        }
    }

    /// The difference at the width of `self`, `other` truncated to that width.
    pub fn sub(self, other: Unsigned) -> (r: Unsigned)
        requires
            self.fitted(other) <= self.value(),
        ensures
            r == self.with_value((self.value() - self.fitted(other)) as nat),
    {
        match self {
            Unsigned::U8(a) => Unsigned::U8(a - other.u8()),
            Unsigned::U16(a) => Unsigned::U16(a - other.u16()),
            Unsigned::U32(a) => Unsigned::U32(a - other.u32()),
            Unsigned::U64(a) => Unsigned::U64(a - other.u64()),
        }
    }

    /// The product at the width of `self`, `other` truncated to that width.
    pub fn mul(self, other: Unsigned) -> (r: Unsigned)
        requires
            self.value() * self.fitted(other) <= self.max_value(),
        ensures
            r == self.with_value(self.value() * self.fitted(other)),
    {
        match self {
            Unsigned::U8(a) => Unsigned::U8(a * other.u8()),
            Unsigned::U16(a) => Unsigned::U16(a * other.u16()),
            Unsigned::U32(a) => Unsigned::U32(a * other.u32()),
            Unsigned::U64(a) => Unsigned::U64(a * other.u64()),
        }
    }

    pub open spec fn spec_shl(self, other: Unsigned) -> Unsigned {
        match self {
            Unsigned::U8(a) => Unsigned::U8(a << other.spec_u8()),
            Unsigned::U16(a) => Unsigned::U16(a << other.spec_u16()),
            Unsigned::U32(a) => Unsigned::U32(a << other.spec_u32()),
            Unsigned::U64(a) => Unsigned::U64(a << other.spec_u64()),
        }
    }

    pub open spec fn spec_shr(self, other: Unsigned) -> Unsigned {
        match self {
            Unsigned::U8(a) => Unsigned::U8(a >> other.spec_u8()),
            Unsigned::U16(a) => Unsigned::U16(a >> other.spec_u16()),
            Unsigned::U32(a) => Unsigned::U32(a >> other.spec_u32()),
            Unsigned::U64(a) => Unsigned::U64(a >> other.spec_u64()),
        }
    }

    /// Shifts left at the width of `self` by `other` truncated to that width;
    /// the bits shifted out are lost.
    pub fn shl(self, other: Unsigned) -> (r: Unsigned)
        requires
            self.fitted(other) < self.bits(),
        ensures
            r == self.spec_shl(other),
    {
        match self {
            Unsigned::U8(a) => Unsigned::U8(a << other.u8()),
            Unsigned::U16(a) => Unsigned::U16(a << other.u16()),
            Unsigned::U32(a) => Unsigned::U32(a << other.u32()),
            Unsigned::U64(a) => Unsigned::U64(a << other.u64()),
        }
    }

    /// Shifts right at the width of `self` by `other` truncated to that width.
    pub fn shr(self, other: Unsigned) -> (r: Unsigned)
        requires
            self.fitted(other) < self.bits(),
        ensures
            r == self.spec_shr(other),
            r.value() <= self.value(),
    {
        match self {
            Unsigned::U8(a) => {
                let s = other.u8();
                assert(a >> s <= a) by (bit_vector);
                Unsigned::U8(a >> s)
            },
            Unsigned::U16(a) => {
                let s = other.u16();
                assert(a >> s <= a) by (bit_vector);
                Unsigned::U16(a >> s)
            },
            Unsigned::U32(a) => {
                let s = other.u32();
                assert(a >> s <= a) by (bit_vector);
                Unsigned::U32(a >> s)
            },
            Unsigned::U64(a) => {
                let s = other.u64();
                assert(a >> s <= a) by (bit_vector);
                Unsigned::U64(a >> s)
            },
        }
    }

    /// The quotient of `try_div`, or zero (at the wider of `u8` and the width
    /// of `other`) when `other` is zero.
    pub fn div(self, other: Unsigned) -> (r: Unsigned)
        requires
            other.value() != 0 ==> self.fitted(other) != 0,
        ensures
            other.value() == 0 ==> r == Unsigned::U8(0).spec_convert(other),
            other.value() != 0 ==> r == self.with_value(self.value() / self.fitted(other)),
    {
        let zero = Unsigned::U8(0).convert(other);
        match self.try_div(other) {
            Some(q) => q,
            None => zero,
        }
    }
}

impl From<u8> for Unsigned {
    fn from(i: u8) -> (r: Unsigned) {
        Unsigned::U8(i)
    }
}

impl vstd::std_specs::convert::FromSpecImpl<u8> for Unsigned {
    open spec fn obeys_from_spec() -> bool {
        true
    }

    open spec fn from_spec(i: u8) -> Unsigned {
        Unsigned::U8(i)
    }
}

impl From<u16> for Unsigned {
    fn from(i: u16) -> (r: Unsigned) {
        Unsigned::U16(i)
    }
}

impl vstd::std_specs::convert::FromSpecImpl<u16> for Unsigned {
    open spec fn obeys_from_spec() -> bool {
        true
    }

    open spec fn from_spec(i: u16) -> Unsigned {
        Unsigned::U16(i)
    }
}

impl From<u32> for Unsigned {
    fn from(i: u32) -> (r: Unsigned) {
        Unsigned::U32(i)
    }
}

impl vstd::std_specs::convert::FromSpecImpl<u32> for Unsigned {
    open spec fn obeys_from_spec() -> bool {
        true
    }

    open spec fn from_spec(i: u32) -> Unsigned {
        Unsigned::U32(i)
    }
}

impl From<u64> for Unsigned {
    fn from(i: u64) -> (r: Unsigned) {
        Unsigned::U64(i)
    }
}

impl vstd::std_specs::convert::FromSpecImpl<u64> for Unsigned {
    open spec fn obeys_from_spec() -> bool {
        true
    }

    open spec fn from_spec(i: u64) -> Unsigned {
        Unsigned::U64(i)
    }
}

impl From<usize> for Unsigned {
    /// A `usize` keeps its own width: 32 or 64 bits.
    fn from(s: usize) -> (r: Unsigned) {
        if usize::BITS == 32 {
            Unsigned::U32(s as u32)
        } else {
            Unsigned::U64(s as u64)
        }
    }
}

impl vstd::std_specs::convert::FromSpecImpl<usize> for Unsigned {
    open spec fn obeys_from_spec() -> bool {
        true
    }

    open spec fn from_spec(s: usize) -> Unsigned {
        if usize::BITS == 32 {
            Unsigned::U32(s as u32)
        } else {
            Unsigned::U64(s as u64)
        }
    }
}


/// The order of the type is a strict total order: no number comes before
/// itself, it is transitive, and of two different numbers one comes first.
pub proof fn lemma_precedes_strict_total(a: Unsigned, b: Unsigned, c: Unsigned)
    ensures
        !a.precedes(a),
        a.precedes(b) && b.precedes(c) ==> a.precedes(c),
        a != b ==> a.precedes(b) || b.precedes(a),
{
    if a != b && a.rank() == b.rank() && a.value() == b.value() {
        match (a, b) {
            (Unsigned::U8(x), Unsigned::U8(y)) => assert(x == y),
            (Unsigned::U16(x), Unsigned::U16(y)) => assert(x == y),
            (Unsigned::U32(x), Unsigned::U32(y)) => assert(x == y),
            (Unsigned::U64(x), Unsigned::U64(y)) => assert(x == y),
            _ => {},
        }
    }
}

/// A number read as a `u64` keeps its value when it is narrowed.
pub proof fn lemma_rectify_keeps_u64_value(n: u64)
    ensures
        Unsigned::U64(n).spec_rectify().value() == n,
{
    if n < 0xff {
        assert((n as u8) as nat == n);
    } else if n < 0xffff {
        assert((n as u16) as nat == n);
    } else if n < 0xffff_ffff {
        assert((n as u32) as nat == n);
    }
}

/// Converting a number keeps its value, at a width at least as wide as the
/// widths of both numbers.
pub proof fn lemma_convert_keeps_value(a: Unsigned, b: Unsigned)
    ensures
        a.spec_convert(b).value() == a.value(),
        a.spec_convert(b).bits() >= a.bits(),
        a.spec_convert(b).bits() >= b.bits(),
{
    if a.bits() < b.bits() {
        match (a, b) {
            (Unsigned::U8(x), Unsigned::U16(_)) => assert((x as nat) as u16 == x),
            (Unsigned::U8(x), Unsigned::U32(_)) => assert((x as nat) as u32 == x),
            (Unsigned::U8(x), Unsigned::U64(_)) => assert((x as nat) as u64 == x),
            (Unsigned::U16(x), Unsigned::U32(_)) => assert((x as nat) as u32 == x),
            (Unsigned::U16(x), Unsigned::U64(_)) => assert((x as nat) as u64 == x),
            (Unsigned::U32(x), Unsigned::U64(_)) => assert((x as nat) as u64 == x),
            _ => {},
        }
    }
}

/// A sum that fits is undone by taking the same number away again.
pub proof fn lemma_add_then_sub(a: Unsigned, b: Unsigned)
    requires
        a.value() + a.fitted(b) <= a.max_value(),
    ensures
        ({
            let s = a.with_value(a.value() + a.fitted(b));
            &&& s.fitted(b) <= s.value()
            &&& s.with_value((s.value() - s.fitted(b)) as nat) == a
        }),
{
    let v = a.value() + a.fitted(b);
    match a {
        Unsigned::U8(x) => {
            assert((v as u8) as nat == v);
            assert(((v - a.fitted(b)) as nat) as u8 == x);
        },
        Unsigned::U16(x) => {
            assert((v as u16) as nat == v);
            assert(((v - a.fitted(b)) as nat) as u16 == x);
        },
        Unsigned::U32(x) => {
            assert((v as u32) as nat == v);
            assert(((v - a.fitted(b)) as nat) as u32 == x);
        },
        Unsigned::U64(x) => {
            assert((v as u64) as nat == v);
            assert(((v - a.fitted(b)) as nat) as u64 == x);
        },
    }
}

/// A left shift of a `u8` multiplies by a power of two, dropping what
/// passes the width.
proof fn lemma_u8_shl_wraps(x: u8, s: u8)
    requires
        s < 8,
    ensures
        (x << s) as nat == (x as nat * pow2(s as nat)) % 0x100,
{
    let y = x as u64;
    let t = s as u64;
    lemma_u8_pow2_no_overflow(s as nat);
    let p = pow2(s as nat);
    assert(y * p <= u64::MAX) by (nonlinear_arith)
        requires
            y <= u8::MAX,
            p < u8::MAX,
    ;
    lemma_u64_shl_is_mul(y, t);
    assert(((x << s) as u64) == (y << t) % 0x100) by (bit_vector)
        requires
            y == x as u64,
            t == s as u64,
            s < 8,
    ;
}

/// A left shift of a `u16` multiplies by a power of two, dropping what
/// passes the width.
proof fn lemma_u16_shl_wraps(x: u16, s: u16)
    requires
        s < 16,
    ensures
        (x << s) as nat == (x as nat * pow2(s as nat)) % 0x1_0000,
{
    let y = x as u64;
    let t = s as u64;
    lemma_u16_pow2_no_overflow(s as nat);
    let p = pow2(s as nat);
    assert(y * p <= u64::MAX) by (nonlinear_arith)
        requires
            y <= u16::MAX,
            p < u16::MAX,
    ;
    lemma_u64_shl_is_mul(y, t);
    assert(((x << s) as u64) == (y << t) % 0x1_0000) by (bit_vector)
        requires
            y == x as u64,
            t == s as u64,
            s < 16,
    ;
}

/// A left shift of a `u32` multiplies by a power of two, dropping what
/// passes the width.
proof fn lemma_u32_shl_wraps(x: u32, s: u32)
    requires
        s < 32,
    ensures
        (x << s) as nat == (x as nat * pow2(s as nat)) % 0x1_0000_0000,
{
    let y = x as u64;
    let t = s as u64;
    lemma_u32_pow2_no_overflow(s as nat);
    let p = pow2(s as nat);
    assert(y * p <= u64::MAX) by (nonlinear_arith)
        requires
            y <= u32::MAX,
            p < u32::MAX,
    ;
    lemma_u64_shl_is_mul(y, t);
    assert(((x << s) as u64) == (y << t) % 0x1_0000_0000) by (bit_vector)
        requires
            y == x as u64,
            t == s as u64,
            s < 32,
    ;
}

/// A left shift of a `u64` multiplies by a power of two, dropping what
/// passes the width.
proof fn lemma_u64_shl_wraps(x: u64, s: u64)
    requires
        s < 64,
    ensures
        (x << s) as nat == (x as nat * pow2(s as nat)) % 0x1_0000_0000_0000_0000,
{
    lemma2_to64();
    lemma2_to64_rest();
    if s == 0 {
        assert(x << 0 == x) by (bit_vector);
        lemma_small_mod(x as nat, 0x1_0000_0000_0000_0000);
    } else {
        let k = (64 - s) as u64;
        lemma_u64_pow2_no_overflow(k as nat);
        lemma_u64_shl_is_mul(1, k);
        let p: u64 = 1u64 << k;
        assert(p == pow2(k as nat));
        let lo: u64 = x % p;
        let mask: u64 = (p - 1) as u64;
        assert(x << s == (x & mask) << s) by (bit_vector)
            requires
                0 < s < 64,
                k == 64 - s,
                p == 1u64 << k,
                mask == (p - 1) as u64,
        ;
        vstd::bits::lemma_u64_low_bits_mask_is_mod(x, k as nat);
        assert(mask == vstd::bits::low_bits_mask(k as nat) as u64);
        lemma_pow2_adds(k as nat, s as nat);
        assert(pow2(64) == 0x1_0000_0000_0000_0000nat);
        lemma_pow2_pos(s as nat);
        lemma_mul_strict_inequality(lo as int, pow2(k as nat) as int, pow2(s as nat) as int);
        lemma_u64_shl_is_mul(lo, s);
        lemma_fundamental_div_mod(x as int, p as int);
        let q = x as int / p as int;
        let ps = pow2(s as nat) as int;
        assert(x as int * ps == 0x1_0000_0000_0000_0000int * q + lo as int * ps) by (nonlinear_arith)
            requires
                x as int == p as int * q + lo as int,
                0x1_0000_0000_0000_0000int == p as int * ps,
        ;
        lemma_mod_multiples_vanish(q, lo as int * ps, 0x1_0000_0000_0000_0000int);
        lemma_small_mod((lo as int * ps) as nat, 0x1_0000_0000_0000_0000nat);
    }
}

/// Shifts scale by powers of two at the width of `self`: a left shift by
/// `k` (`other` truncated to the width) multiplies by `2^k`, dropping what
/// passes the width; a right shift divides by `2^k`, rounding down. Both
/// keep the width.
pub proof fn lemma_shifts_scale_by_powers_of_two(a: Unsigned, b: Unsigned)
    requires
        a.fitted(b) < a.bits(),
    ensures
        a.spec_shl(b).bits() == a.bits(),
        a.spec_shl(b).value() == (a.value() * pow2(a.fitted(b))) % (a.max_value() + 1),
        a.spec_shr(b).bits() == a.bits(),
        a.spec_shr(b).value() == a.value() / pow2(a.fitted(b)),
{
    match a {
        Unsigned::U8(x) => {
            lemma_u8_shl_wraps(x, b.spec_u8());
            lemma_u8_shr_is_div(x, b.spec_u8());
        },
        Unsigned::U16(x) => {
            lemma_u16_shl_wraps(x, b.spec_u16());
            lemma_u16_shr_is_div(x, b.spec_u16());
        },
        Unsigned::U32(x) => {
            lemma_u32_shl_wraps(x, b.spec_u32());
            lemma_u32_shr_is_div(x, b.spec_u32());
        },
        Unsigned::U64(x) => {
            lemma_u64_shl_wraps(x, b.spec_u64());
            lemma_u64_shr_is_div(x, b.spec_u64());
        },
    }
}

/// The right operand of an operation is taken modulo the width of the
/// left one; a result that fits is held exactly at the width of the left
/// operand; a conversion keeps the value and takes the wider width.
pub proof fn lemma_width_rules(a: Unsigned, b: Unsigned, v: nat)
    ensures
        a.fitted(b) == b.value() % (a.max_value() + 1),
        v <= a.max_value() ==> a.with_value(v).value() == v && a.with_value(v).bits() == a.bits(),
        a.spec_convert(b).value() == a.value(),
        a.spec_convert(b).bits() == if a.bits() >= b.bits() { a.bits() } else { b.bits() },
        a.max_value() + 1 == pow2(a.bits() as nat),
{
    lemma2_to64();
    lemma2_to64_rest();
    match b {
        Unsigned::U8(x) => {
            lemma_small_mod(x as nat, 0x100);
            lemma_small_mod(x as nat, 0x1_0000);
            lemma_small_mod(x as nat, 0x1_0000_0000);
            lemma_small_mod(x as nat, 0x1_0000_0000_0000_0000);
        },
        Unsigned::U16(x) => {
            assert(x as u8 == x % 0x100) by (bit_vector);
            lemma_small_mod(x as nat, 0x1_0000);
            lemma_small_mod(x as nat, 0x1_0000_0000);
            lemma_small_mod(x as nat, 0x1_0000_0000_0000_0000);
        },
        Unsigned::U32(x) => {
            assert(x as u8 == x % 0x100 && x as u16 == x % 0x1_0000) by (bit_vector);
            lemma_small_mod(x as nat, 0x1_0000_0000);
            lemma_small_mod(x as nat, 0x1_0000_0000_0000_0000);
        },
        Unsigned::U64(x) => {
            assert(x as u8 == x % 0x100 && x as u16 == x % 0x1_0000 && x as u32 == x % 0x1_0000_0000) by (bit_vector);
            lemma_small_mod(x as nat, 0x1_0000_0000_0000_0000);
        },
    }
    if v <= a.max_value() {
        match a {
            Unsigned::U8(_) => {
                assert((v as u8) as nat == v);
            },
            Unsigned::U16(_) => {
                assert((v as u16) as nat == v);
            },
            Unsigned::U32(_) => {
                assert((v as u32) as nat == v);
            },
            Unsigned::U64(_) => {
                assert((v as u64) as nat == v);
            },
        }
    }
    if a.bits() < b.bits() {
        match b {
            Unsigned::U8(_) => {
                assert((a.value() as u8) as nat == a.value());
            },
            Unsigned::U16(_) => {
                assert((a.value() as u16) as nat == a.value());
            },
            Unsigned::U32(_) => {
                assert((a.value() as u32) as nat == a.value());
            },
            Unsigned::U64(_) => {
                assert((a.value() as u64) as nat == a.value());
            },
        }
    }
}

/// Narrowing a 64-bit number keeps its value and picks the narrowest width
/// whose maximum lies above it: below `u8::MAX` a byte, below `u16::MAX`
/// two bytes, below `u32::MAX` four, and eight otherwise.
pub proof fn lemma_rectify_narrows(x: u64)
    ensures
        Unsigned::U64(x).spec_rectify().value() == x,
        x < u8::MAX ==> Unsigned::U64(x).spec_rectify().bits() == 8,
        u8::MAX <= x < u16::MAX ==> Unsigned::U64(x).spec_rectify().bits() == 16,
        u16::MAX <= x < u32::MAX ==> Unsigned::U64(x).spec_rectify().bits() == 32,
        u32::MAX <= x ==> Unsigned::U64(x).spec_rectify().bits() == 64,
{
}

} // verus!
