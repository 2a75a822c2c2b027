//! Fixed-point numbers: a signed 64-bit count of units of 2^-32.
//!
//! Every operation is total. A result that does not fit is replaced by the
//! nearest value that does, and a quotient that is not a whole number of
//! units is rounded toward zero.

use vstd::prelude::*;

verus! {

/// The number of units in 1.
pub const ONE: i64 = 4294967296;

/// The number of units in 1/2.
pub const HALF: i64 = 2147483648;

/// The distance of `v` from zero.
pub open spec fn magnitude(v: int) -> int {
    if v < 0 {
        -v
    } else {
        v
    }
}

/// The value in the range of `i64` that is nearest to `v`.
pub open spec fn saturate(v: int) -> int {
    if v < i64::MIN {
        i64::MIN as int
    } else if v > i64::MAX {
        i64::MAX as int
    } else {
        v
    }
}

/// The quotient `n / d`, rounded toward zero.
pub open spec fn quot(n: int, d: int) -> int
    recommends
        d != 0,
{
    if (n < 0) == (d < 0) {
        magnitude(n) / magnitude(d)
    } else {
        -(magnitude(n) / magnitude(d))
    }
}

/// The units of the sum of two numbers.
pub open spec fn add_spec(a: int, b: int) -> int {
    saturate(a + b)
}

/// The units of the difference of two numbers.
pub open spec fn sub_spec(a: int, b: int) -> int {
    saturate(a - b)
}

/// The units of the product of two numbers.
pub open spec fn mul_spec(a: int, b: int) -> int {
    saturate(quot(a * b, ONE as int))
}

/// The units of the quotient of two numbers.
pub open spec fn div_spec(a: int, b: int) -> int
    recommends
        b != 0,
{
    saturate(quot(a * ONE, b))
}

/// The units of `base` raised to the power `n`, multiplied up from 1 one
/// factor at a time.
pub open spec fn pow_spec(base: int, n: nat) -> int
    decreases n,
{
    if n == 0 {
        ONE as int
    } else {
        mul_spec(pow_spec(base, (n - 1) as nat), base)
    }
}

/// A fixed-point number. `bits` counts units of 2^-32.
#[derive(Clone, Copy, Debug, PartialEq, Eq, Structural)]
pub struct Fixed {
    pub bits: i64,
}

impl View for Fixed {
    type V = int;

    open spec fn view(&self) -> int {
        self.bits as int
    }
}

/// The distance of `v` from zero, in a type that holds it.
pub(crate) fn magnitude_of(v: i64) -> (m: u128)
    ensures
        m == magnitude(v as int),
        m <= 0x8000_0000_0000_0000,
{
    if v >= 0 {
        v as u128
    } else {
        let wide: i128 = v as i128;
        (-wide) as u128
    }
}

/// `m`, negated where `negative` says so, and saturated.
fn with_sign(negative: bool, m: u128) -> (r: i64)
    ensures
        r == saturate(
            if negative {
                -(m as int)
            } else {
                m as int
            },
        ),
{
    if negative {
        if m > 0x8000_0000_0000_0000 {
            i64::MIN
        } else {
            let wide: i128 = m as i128;
            (-wide) as i64
        }
    } else {
        if m > 0x7fff_ffff_ffff_ffff {
            i64::MAX
        } else {
            m as i64
        }
    }
}

/// The magnitude of a product is the product of the magnitudes, and the
/// product is negative where exactly one factor is.
proof fn lemma_magnitude_of_product(a: int, b: int)
    by (nonlinear_arith)
    ensures
        magnitude(a * b) == magnitude(a) * magnitude(b),
        (a * b < 0) <==> ((a < 0) != (b < 0) && a != 0 && b != 0),
{
}

/// `a * b / d`, rounded toward zero and saturated, with the product taken
/// exactly.
fn mul_div(a: i64, b: i64, d: i64) -> (r: i64)
    requires
        d != 0,
    ensures
        r == saturate(quot(a * b, d as int)),
{
    let ma: u128 = magnitude_of(a);
    let mb: u128 = magnitude_of(b);
    let md: u128 = magnitude_of(d);
    assert(ma * mb <= 0x8000_0000_0000_0000 * 0x8000_0000_0000_0000) by (nonlinear_arith)
        requires
            ma <= 0x8000_0000_0000_0000,
            mb <= 0x8000_0000_0000_0000,
    ;
    let q: u128 = ma * mb / md;
    let negative: bool = ((a < 0) != (b < 0)) != (d < 0);
    proof {
        lemma_magnitude_of_product(a as int, b as int);
        if a * b == 0 {
            assert(q == 0);
        }
    }
    with_sign(negative, q)
}

impl Fixed {
    /// The number with the given count of units.
    pub fn from_bits(bits: i64) -> (r: Fixed)
        ensures
            r@ == bits,
    {
        Fixed { bits }
    }

    /// The whole number `n`.
    pub fn from_int(n: i32) -> (r: Fixed)
        ensures
            r@ == n * ONE,
    {
        let wide: i64 = n as i64;
        Fixed { bits: wide * ONE }
    }

    /// The fraction `num / den`.
    pub fn from_ratio(num: i64, den: i64) -> (r: Fixed)
        requires
            den != 0,
        ensures
            r@ == div_spec(num as int, den as int),
    {
        Fixed { bits: mul_div(num, ONE, den) }
    }

    /// The sum of `self` and `other`.
    pub fn add(self, other: Fixed) -> (r: Fixed)
        ensures
            r@ == add_spec(self@, other@),
    {
        let wide: i128 = self.bits as i128 + other.bits as i128;
        if wide < i64::MIN as i128 {
            Fixed { bits: i64::MIN }
        } else if wide > i64::MAX as i128 {
            Fixed { bits: i64::MAX }
        } else {
            Fixed { bits: wide as i64 }
        }
    }

    /// The difference of `self` and `other`.
    pub fn sub(self, other: Fixed) -> (r: Fixed)
        ensures
            r@ == sub_spec(self@, other@),
    {
        let wide: i128 = self.bits as i128 - other.bits as i128;
        if wide < i64::MIN as i128 {
            Fixed { bits: i64::MIN }
        } else if wide > i64::MAX as i128 {
            Fixed { bits: i64::MAX }
        } else {
            Fixed { bits: wide as i64 }
        }
    }

    /// The product of `self` and `other`.
    pub fn mul(self, other: Fixed) -> (r: Fixed)
        ensures
            r@ == mul_spec(self@, other@),
    {
        Fixed { bits: mul_div(self.bits, other.bits, ONE) }
    }

    /// The quotient of `self` by `other`.
    pub fn div(self, other: Fixed) -> (r: Fixed)
        requires
            other@ != 0,
        ensures
            r@ == div_spec(self@, other@),
    {
        Fixed { bits: mul_div(self.bits, ONE, other.bits) }
    }

    /// `self` raised to the power `n`.
    pub fn pow(self, n: usize) -> (r: Fixed)
        ensures
            r@ == pow_spec(self@, n as nat),
    {
        let mut acc: Fixed = Fixed { bits: ONE };
        let mut i: usize = 0;
        while i < n
            invariant
                i <= n,
                acc@ == pow_spec(self@, i as nat),
            decreases n - i,
        {
            acc = acc.mul(self);
            i = i + 1;
        }
        acc
    }
}

} // verus!
