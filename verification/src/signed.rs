use vstd::prelude::*;

verus! {

/// A signed integer with its width: the integer variants of the language's
/// signed numbers.
#[derive(Debug, Clone, Copy, PartialEq, Eq)]
pub enum SignedInt {
    I8(i8),
    I16(i16),
    I32(i32),
    I64(i64),
}

impl SignedInt {
    /// The number's value.
    pub open spec fn value(self) -> int {
        match self {
            SignedInt::I8(a) => a as int,
            SignedInt::I16(a) => a as int,
            SignedInt::I32(a) => a as int,
            SignedInt::I64(a) => a as int,
        }
    }

    /// The number cast to `i8` (`as`: the low bits for a wider number).
    pub open spec fn spec_i8(self) -> i8 {
        match self {
            SignedInt::I8(b) => b,
            SignedInt::I16(b) => b as i8,
            SignedInt::I32(b) => b as i8,
            SignedInt::I64(b) => b as i8,
        }
    }

    #[verifier::when_used_as_spec(spec_i8)]
    pub fn i8(self) -> (r: i8)
        ensures
            r == self.spec_i8(),
    {
        match self {
            SignedInt::I8(b) => b,
            SignedInt::I16(b) => b as i8,
            SignedInt::I32(b) => b as i8,
            SignedInt::I64(b) => b as i8,
        }
    }

    /// The number cast to `i16` (`as`: the low bits for a wider number).
    pub open spec fn spec_i16(self) -> i16 {
        match self {
            SignedInt::I8(b) => b as i16,
            SignedInt::I16(b) => b,
            SignedInt::I32(b) => b as i16,
            SignedInt::I64(b) => b as i16,
        }
    }

    #[verifier::when_used_as_spec(spec_i16)]
    pub fn i16(self) -> (r: i16)
        ensures
            r == self.spec_i16(),
    {
        match self {
            SignedInt::I8(b) => b as i16,
            SignedInt::I16(b) => b,
            SignedInt::I32(b) => b as i16,
            SignedInt::I64(b) => b as i16,
        }
    }

    /// The number cast to `i32` (`as`: the low bits for a wider number).
    pub open spec fn spec_i32(self) -> i32 {
        match self {
            SignedInt::I8(b) => b as i32,
            SignedInt::I16(b) => b as i32,
            SignedInt::I32(b) => b,
            SignedInt::I64(b) => b as i32,
        }
    }

    #[verifier::when_used_as_spec(spec_i32)]
    pub fn i32(self) -> (r: i32)
        ensures
            r == self.spec_i32(),
    {
        match self {
            SignedInt::I8(b) => b as i32,
            SignedInt::I16(b) => b as i32,
            SignedInt::I32(b) => b,
            SignedInt::I64(b) => b as i32,
        }
    }

    /// The number cast to `i64` (`as`: the low bits for a wider number).
    pub open spec fn spec_i64(self) -> i64 {
        match self {
            SignedInt::I8(b) => b as i64,
            SignedInt::I16(b) => b as i64,
            SignedInt::I32(b) => b as i64,
            SignedInt::I64(b) => b,
        }
    }

    #[verifier::when_used_as_spec(spec_i64)]
    pub fn i64(self) -> (r: i64)
        ensures
            r == self.spec_i64(),
    {
        match self {
            SignedInt::I8(b) => b as i64,
            SignedInt::I16(b) => b as i64,
            SignedInt::I32(b) => b as i64,
            SignedInt::I64(b) => b,
        }
    }

    /// The width in bits.
    pub open spec fn spec_size(&self) -> u8 {
        match self {
            SignedInt::I8(_) => 8,
            SignedInt::I16(_) => 16,
            SignedInt::I32(_) => 32,
            SignedInt::I64(_) => 64,
        }
    }

    #[verifier::when_used_as_spec(spec_size)]
    pub fn size(&self) -> (r: u8)
        ensures
            r == self.spec_size(),
    {
        match self {
            SignedInt::I8(_) => 8,
            SignedInt::I16(_) => 16,
            SignedInt::I32(_) => 32,
            SignedInt::I64(_) => 64,
        }
    }

    /// The name of the width.
    pub fn get_type(&self) -> (r: &'static str)
        ensures
            r@ == match self {
                SignedInt::I8(_) => "i8"@,
                SignedInt::I16(_) => "i16"@,
                SignedInt::I32(_) => "i32"@,
                SignedInt::I64(_) => "i64"@,
            },
    {
        proof {
            reveal_strlit("i8");
            reveal_strlit("i16");
            reveal_strlit("i32");
            reveal_strlit("i64");
        }
        match self {
            SignedInt::I8(_) => "i8",
            SignedInt::I16(_) => "i16",
            SignedInt::I32(_) => "i32",
            SignedInt::I64(_) => "i64",
        }
    }

    pub fn is_zero(&self) -> (r: bool)
        ensures
            r == (self.value() == 0),
    {
        match self {
            SignedInt::I8(i) => *i == 0,
            SignedInt::I16(i) => *i == 0,
            SignedInt::I32(i) => *i == 0,
            SignedInt::I64(i) => *i == 0,
        }
    }

    pub fn is_one(&self) -> (r: bool)
        ensures
            r == (self.value() == 1),
    {
        match self {
            SignedInt::I8(i) => *i == 1,
            SignedInt::I16(i) => *i == 1,
            SignedInt::I32(i) => *i == 1,
            SignedInt::I64(i) => *i == 1,
        }
    }

    /// A number counts as true when it is above zero.
    pub fn as_bool(&self) -> (r: bool)
        ensures
            r == (self.value() > 0),
    {
        match self {
            SignedInt::I8(a) => *a > 0,
            SignedInt::I16(a) => *a > 0,
            SignedInt::I32(a) => *a > 0,
            SignedInt::I64(a) => *a > 0,
        }
    }

    /// `other` in the width of `self` (see the casts above).
    pub open spec fn other_in(self, other: SignedInt) -> int {
        match self {
            SignedInt::I8(_) => other.spec_i8() as int,
            SignedInt::I16(_) => other.spec_i16() as int,
            SignedInt::I32(_) => other.spec_i32() as int,
            SignedInt::I64(_) => other.spec_i64() as int,
        }
    }

    /// Whether `v` fits the width of `self`.
    pub open spec fn fits(self, v: int) -> bool {
        match self {
            SignedInt::I8(_) => i8::MIN <= v <= i8::MAX,
            SignedInt::I16(_) => i16::MIN <= v <= i16::MAX,
            SignedInt::I32(_) => i32::MIN <= v <= i32::MAX,
            SignedInt::I64(_) => i64::MIN <= v <= i64::MAX,
        }
    }

    /// The number of the width of `self` whose value is `v`.
    pub open spec fn with_value(self, v: int) -> SignedInt {
        match self {
            SignedInt::I8(_) => SignedInt::I8(v as i8),
            SignedInt::I16(_) => SignedInt::I16(v as i16),
            SignedInt::I32(_) => SignedInt::I32(v as i32),
            SignedInt::I64(_) => SignedInt::I64(v as i64),
        }
    }

    /// `self + other`, `other` taken in the width of `self`; the result
    /// must fit that width.
    pub fn add(self, other: SignedInt) -> (r: SignedInt)
        requires
            self.fits(self.value() + self.other_in(other)),
        ensures
            r == self.with_value(self.value() + self.other_in(other)),
            r.value() == self.value() + self.other_in(other),
    {
        match self {
            SignedInt::I8(i) => SignedInt::I8(i + other.i8()),
            SignedInt::I16(i) => SignedInt::I16(i + other.i16()),
            SignedInt::I32(i) => SignedInt::I32(i + other.i32()),
            SignedInt::I64(i) => SignedInt::I64(i + other.i64()),
        }
    }

    /// `self - other`, `other` taken in the width of `self`; the result
    /// must fit that width.
    pub fn sub(self, other: SignedInt) -> (r: SignedInt)
        requires
            self.fits(self.value() - self.other_in(other)),
        ensures
            r == self.with_value(self.value() - self.other_in(other)),
            r.value() == self.value() - self.other_in(other),
    {
        match self {
            SignedInt::I8(i) => SignedInt::I8(i - other.i8()),
            SignedInt::I16(i) => SignedInt::I16(i - other.i16()),
            SignedInt::I32(i) => SignedInt::I32(i - other.i32()),
            SignedInt::I64(i) => SignedInt::I64(i - other.i64()),
        }
    }

    /// `self * other`, `other` taken in the width of `self`; the result
    /// must fit that width.
    pub fn mul(self, other: SignedInt) -> (r: SignedInt)
        requires
            self.fits(self.value() * self.other_in(other)),
        ensures
            r == self.with_value(self.value() * self.other_in(other)),
            r.value() == self.value() * self.other_in(other),
    {
        match self {
            SignedInt::I8(i) => SignedInt::I8(i * other.i8()),
            SignedInt::I16(i) => SignedInt::I16(i * other.i16()),
            SignedInt::I32(i) => SignedInt::I32(i * other.i32()),
            SignedInt::I64(i) => SignedInt::I64(i * other.i64()),
        }
    }

    /// `self / other` rounded toward zero, `other` taken in the width of
    /// `self`; nothing when that is zero. The quotient must fit the width
    /// (it does not only for the least number over -1).
    pub fn try_div(self, other: SignedInt) -> (r: Option<SignedInt>)
        requires
            self.other_in(other) == -1 ==> self.fits(-self.value()),
        ensures
            self.other_in(other) == 0 <==> r is None,
            r matches Some(q) ==> q == self.with_value(quotient(self.value(), self.other_in(other))),
    {
        let z = match self {
            SignedInt::I8(_) => other.i8() == 0,
            SignedInt::I16(_) => other.i16() == 0,
            SignedInt::I32(_) => other.i32() == 0,
            SignedInt::I64(_) => other.i64() == 0,
        };
        if z {
            return None;
        }
        Some(match self {
            SignedInt::I8(a) => SignedInt::I8(a / other.i8()),
            SignedInt::I16(a) => SignedInt::I16(a / other.i16()),
            SignedInt::I32(a) => SignedInt::I32(a / other.i32()),
            SignedInt::I64(a) => SignedInt::I64(a / other.i64()),
        })
    }
}

/// Division rounded toward zero.
pub open spec fn quotient(a: int, b: int) -> int {
    if a >= 0 {
        a / b
    } else {
        -((-a) / b)
    }
}

/// Division rounds toward zero: the quotient times the divisor falls short
/// of the dividend by less than the divisor, on the dividend's side of
/// zero.
pub proof fn lemma_quotient_rounds_toward_zero(a: int, b: int)
    requires
        b != 0,
    ensures
        ({
            let q = quotient(a, b);
            let r = a - q * b;
            let m = if b < 0 { -b } else { b };
            &&& a >= 0 ==> 0 <= r < m
            &&& a < 0 ==> -m < r <= 0
        }),
{
    if a >= 0 {
        vstd::arithmetic::div_mod::lemma_fundamental_div_mod(a, b);
        assert(0 <= a % b < (if b < 0 { -b } else { b })) by (nonlinear_arith)
            requires
                b != 0,
        ;
        assert(a - (a / b) * b == a % b) by (nonlinear_arith)
            requires
                a == b * (a / b) + (a % b),
        ;
    } else {
        vstd::arithmetic::div_mod::lemma_fundamental_div_mod(-a, b);
        assert(0 <= (-a) % b < (if b < 0 { -b } else { b })) by (nonlinear_arith)
            requires
                b != 0,
        ;
        assert(a - (-((-a) / b)) * b == -((-a) % b)) by (nonlinear_arith)
            requires
                -a == b * ((-a) / b) + ((-a) % b),
        ;
    }
}

/// An operand that fits the width of the left one is taken as it is, and
/// a result that fits is held exactly at that width.
pub proof fn lemma_signed_width_rules(a: SignedInt, b: SignedInt, v: int)
    ensures
        a.fits(b.value()) ==> a.other_in(b) == b.value(),
        a.fits(v) ==> a.with_value(v).value() == v,
{
}

} // verus!
