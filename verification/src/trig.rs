//! Sine and cosine of fixed-point angles, in radians.
//!
//! An angle is first brought into one turn, then into the first quarter of
//! it by the symmetries of the sine; there the sine is the odd polynomial
//! of degree fifteen with the coefficients of its power series, evaluated
//! from the innermost factor outward.

use vstd::prelude::*;
use crate::fixed::{magnitude, magnitude_of, Fixed, ONE};

verus! {

/// The units in a quarter turn: those of pi / 2, to the nearest unit.
pub const HALF_PI: i64 = 6746518852;

/// The units in half a turn: twice `HALF_PI`.
pub const PI: i64 = 13493037704;

/// The units in a full turn: four times `HALF_PI`.
pub const TWO_PI: i64 = 26986075408;

/// One factor of the polynomial: `1 - z * t / c`, where `z` is the square of
/// the angle and `t` the factor inside this one.
pub open spec fn series_factor(z: int, t: int, c: int) -> int {
    ONE - (z * t / (ONE as int)) / c
}

/// The outermost factor of the polynomial for the squared angle `z`.
pub open spec fn series_factors(z: int) -> int {
    series_factor(
        z,
        series_factor(
            z,
            series_factor(
                z,
                series_factor(
                    z,
                    series_factor(z, series_factor(z, series_factor(z, ONE as int, 210), 156), 110),
                    72,
                ),
                42,
            ),
            20,
        ),
        6,
    )
}

/// The sine of an angle of `r` units in the first quarter turn.
#[verifier::opaque]
pub open spec fn sin_quarter(r: int) -> int
    recommends
        0 <= r <= HALF_PI,
{
    let s = r * series_factors(r * r / (ONE as int)) / (ONE as int);
    if s > ONE {
        ONE as int
    } else {
        s
    }
}

/// The sine of an angle of `r` units in the first half turn.
pub open spec fn sin_half(r: int) -> int
    recommends
        0 <= r <= PI,
{
    if r <= HALF_PI {
        sin_quarter(r)
    } else {
        sin_quarter(PI - r)
    }
}

/// The sine of an angle of `m` units, `m` not negative.
pub open spec fn sin_turns(m: int) -> int
    recommends
        0 <= m,
{
    let r = m % (TWO_PI as int);
    if r < PI {
        sin_half(r)
    } else {
        -sin_half(r - PI)
    }
}

/// The sine of an angle of `x` units.
pub open spec fn sin_spec(x: int) -> int {
    if x < 0 {
        -sin_turns(-x)
    } else {
        sin_turns(x)
    }
}

/// The cosine of an angle of `x` units: the sine a quarter turn further on.
pub open spec fn cos_spec(x: int) -> int {
    sin_turns(magnitude(x) + HALF_PI)
}

/// Multiplying by a number that is at most 1 does not increase.
proof fn lemma_scaled_product(z: int, t: int)
    by (nonlinear_arith)
    requires
        0 <= z,
        0 <= t <= 4294967296,
    ensures
        0 <= z * t <= z * 4294967296,
        0 <= z * t / 4294967296 <= z,
{
}

/// A factor of the polynomial lies between 1/2 and 1 where the squared
/// angle is at most 3 and the factor inside it at most 1.
proof fn lemma_series_factor_range(z: int, t: int, c: int)
    requires
        0 <= z <= 3 * ONE,
        0 <= t <= ONE,
        6 <= c,
    ensures
        ONE / 2 <= series_factor(z, t, c) <= ONE,
{
    lemma_scaled_product(z, t);
    let q = z * t / (ONE as int);
    assert(0 <= q / c <= q / 6) by (nonlinear_arith)
        requires
            0 <= q,
            6 <= c,
    ;
}

/// The square of an angle in the first quarter turn is at most 3.
proof fn lemma_square_range(r: int)
    by (nonlinear_arith)
    requires
        0 <= r <= 6746518852,
    ensures
        0 <= r * r <= 6746518852 * 6746518852,
        0 <= r * r / 4294967296 <= 3 * 4294967296,
{
}

/// The sine of an angle in the first quarter turn lies between 0 and 1.
pub proof fn lemma_sin_quarter_range(r: int)
    requires
        0 <= r <= HALF_PI,
    ensures
        0 <= sin_quarter(r) <= ONE,
{
    reveal(sin_quarter);
    lemma_square_range(r);
    let z = r * r / (ONE as int);
    let t1 = series_factor(z, ONE as int, 210);
    lemma_series_factor_range(z, ONE as int, 210);
    let t2 = series_factor(z, t1, 156);
    lemma_series_factor_range(z, t1, 156);
    let t3 = series_factor(z, t2, 110);
    lemma_series_factor_range(z, t2, 110);
    let t4 = series_factor(z, t3, 72);
    lemma_series_factor_range(z, t3, 72);
    let t5 = series_factor(z, t4, 42);
    lemma_series_factor_range(z, t4, 42);
    let t6 = series_factor(z, t5, 20);
    lemma_series_factor_range(z, t5, 20);
    let t7 = series_factor(z, t6, 6);
    lemma_series_factor_range(z, t6, 6);
    assert(t7 == series_factors(z));
    lemma_scaled_product(r, t7);
}

/// The sine of every angle lies between -1 and 1, and so does the cosine.
pub proof fn lemma_sin_cos_range(x: int)
    ensures
        -ONE <= sin_spec(x) <= ONE,
        -ONE <= cos_spec(x) <= ONE,
{
    lemma_sin_turns_range(magnitude(x));
    lemma_sin_turns_range(magnitude(x) + HALF_PI);
}

/// The sine of an angle that is not negative lies between -1 and 1.
proof fn lemma_sin_turns_range(m: int)
    requires
        0 <= m,
    ensures
        -ONE <= sin_turns(m) <= ONE,
{
    let r = m % (TWO_PI as int);
    if r < PI {
        if r <= HALF_PI {
            lemma_sin_quarter_range(r);
        } else {
            lemma_sin_quarter_range(PI - r);
        }
    } else {
        let h = r - PI;
        if h <= HALF_PI {
            lemma_sin_quarter_range(h);
        } else {
            lemma_sin_quarter_range(PI - h);
        }
    }
}

/// The sine of the angle zero is 0.
pub proof fn lemma_sin_of_zero()
    ensures
        sin_spec(0) == 0,
        sin_quarter(0) == 0,
{
    reveal(sin_quarter);
    assert(series_factor(0, ONE as int, 210) <= ONE);
    assert(0int * series_factors(0) == 0);
}

/// The cosine of the angle zero is 1: the polynomial reaches 1 exactly at
/// a quarter turn.
pub proof fn lemma_cos_of_zero()
    ensures
        cos_spec(0) == ONE,
        sin_spec(HALF_PI as int) == ONE,
{
    reveal(sin_quarter);
    let z: int = 10597407030;
    assert(6746518852int * 6746518852 == 45515516620391397904);
    assert(45515516620391397904int / 4294967296 == z);
    let t1: int = 4244503453;
    assert(z * 4294967296 / 4294967296 == z);
    assert(z / 210 == 50463843);
    assert(series_factor(z, ONE as int, 210) == t1);
    let t2: int = 4227833370;
    assert(z * t1 == 44980730731681474590);
    assert(44980730731681474590int / 4294967296 == 10472892488);
    assert(10472892488int / 156 == 67133926);
    assert(series_factor(z, t1, 156) == t2);
    let t3: int = 4200133108;
    assert(z * t2 == 44804071076906591100);
    assert(44804071076906591100int / 4294967296 == 10431760707);
    assert(10431760707int / 110 == 94834188);
    assert(series_factor(z, t2, 110) == t3);
    let t4: int = 4151031004;
    assert(z * t3 == 44510520125654949240);
    assert(44510520125654949240int / 4294967296 == 10363413050);
    assert(10363413050int / 72 == 143936292);
    assert(series_factor(z, t3, 72) == t4);
    let t5: int = 4051104000;
    assert(z * t4 == 43990165143537558120);
    assert(43990165143537558120int / 4294967296 == 10242258464);
    assert(10242258464int / 42 == 243863296);
    assert(series_factor(z, t4, 42) == t5);
    let t6: int = 3795182373;
    assert(z * t5 == 42931198008861120000);
    assert(42931198008861120000int / 4294967296 == 9995698465);
    assert(9995698465int / 20 == 499784923);
    assert(series_factor(z, t5, 20) == t6);
    let t7: int = 2734261103;
    assert(z * t6 == 40219092359762282190);
    assert(40219092359762282190int / 4294967296 == 9364237161);
    assert(9364237161int / 6 == 1560706193);
    assert(series_factor(z, t6, 6) == t7);
    assert(series_factors(z) == t7);
    assert(6746518852int * t7 == 18446744077679813756);
    assert(18446744077679813756int / 4294967296 == 4294967296);
    assert(sin_quarter(HALF_PI as int) == ONE);
    assert(6746518852int % 26986075408 == 6746518852);
}

/// The sine is odd and the cosine is even.
pub proof fn lemma_sin_odd_cos_even(x: int)
    ensures
        sin_spec(-x) == -sin_spec(x),
        cos_spec(-x) == cos_spec(x),
{
    if x == 0 {
        lemma_sin_of_zero();
    }
}

/// The sine of an angle short of a full turn by `m` is the sine of `m`,
/// negated; its cosine, a quarter turn further on, follows suit.
proof fn lemma_sin_turns_mirror(m: int)
    requires
        0 <= m <= TWO_PI,
    ensures
        sin_turns(TWO_PI - m) == -sin_turns(m),
        sin_turns(TWO_PI - m + HALF_PI) == sin_turns(m + HALF_PI),
{
    lemma_sin_of_zero();
    if m == 0 || m == TWO_PI {
        assert((TWO_PI as int) % (TWO_PI as int) == 0);
        assert((TWO_PI + HALF_PI) % (TWO_PI as int) == HALF_PI);
    } else {
        assert(m % (TWO_PI as int) == m);
        assert((TWO_PI - m) % (TWO_PI as int) == TWO_PI - m);
        if m + HALF_PI < TWO_PI {
            assert((m + HALF_PI) % (TWO_PI as int) == m + HALF_PI);
        } else {
            assert((m + HALF_PI) % (TWO_PI as int) == m + HALF_PI - TWO_PI);
        }
        if TWO_PI - m + HALF_PI < TWO_PI {
            assert((TWO_PI - m + HALF_PI) % (TWO_PI as int) == TWO_PI - m + HALF_PI);
        } else {
            assert((TWO_PI - m + HALF_PI) % (TWO_PI as int) == HALF_PI - m);
        }
    }
}

/// An angle that is not negative has the sine of the angle a full turn
/// further on.
proof fn lemma_sin_turns_shift(m: int)
    requires
        0 <= m,
    ensures
        sin_turns(m + TWO_PI) == sin_turns(m),
{
    assert((m + TWO_PI) % (TWO_PI as int) == m % (TWO_PI as int));
}

/// Angles a full turn apart have the same sine and the same cosine.
pub proof fn lemma_sin_cos_periodic(x: int)
    ensures
        sin_spec(x + TWO_PI) == sin_spec(x),
        cos_spec(x + TWO_PI) == cos_spec(x),
{
    if x >= 0 {
        lemma_sin_turns_shift(x);
        lemma_sin_turns_shift(x + HALF_PI);
    } else if x + TWO_PI < 0 {
        lemma_sin_turns_shift(-x - TWO_PI);
        lemma_sin_turns_shift(-x - TWO_PI + HALF_PI);
    } else {
        lemma_sin_turns_mirror(-x);
        if x + TWO_PI == 0 {
            lemma_sin_of_zero();
        }
    }
}

/// One factor of the polynomial.
fn series_step(z: u128, t: u128, c: u128) -> (r: u128)
    requires
        z <= 3 * ONE,
        t <= ONE,
        6 <= c,
    ensures
        r == series_factor(z as int, t as int, c as int),
        ONE / 2 <= r <= ONE,
{
    proof {
        lemma_scaled_product(z as int, t as int);
        lemma_series_factor_range(z as int, t as int, c as int);
    }
    let one: u128 = ONE as u128;
    one - (z * t / one) / c
}

/// The sine of an angle in the first quarter turn.
fn sin_quarter_of(r: u128) -> (s: i64)
    requires
        r <= HALF_PI,
    ensures
        s == sin_quarter(r as int),
        0 <= s <= ONE,
{
    proof {
        reveal(sin_quarter);
        lemma_square_range(r as int);
        lemma_sin_quarter_range(r as int);
    }
    let one: u128 = ONE as u128;
    let z: u128 = r * r / one;
    let t1: u128 = series_step(z, one, 210);
    let t2: u128 = series_step(z, t1, 156);
    let t3: u128 = series_step(z, t2, 110);
    let t4: u128 = series_step(z, t3, 72);
    let t5: u128 = series_step(z, t4, 42);
    let t6: u128 = series_step(z, t5, 20);
    let t7: u128 = series_step(z, t6, 6);
    proof {
        lemma_scaled_product(r as int, t7 as int);
    }
    let s: u128 = r * t7 / one;
    if s > one {
        ONE
    } else {
        s as i64
    }
}

/// The sine of an angle in the first half turn.
fn sin_half_of(r: u128) -> (s: i64)
    requires
        r <= PI,
    ensures
        s == sin_half(r as int),
        0 <= s <= ONE,
{
    if r <= HALF_PI as u128 {
        sin_quarter_of(r)
    } else {
        sin_quarter_of(PI as u128 - r)
    }
}

/// The sine of an angle that is not negative.
fn sin_turns_of(m: u128) -> (s: i64)
    ensures
        s == sin_turns(m as int),
        -ONE <= s <= ONE,
{
    let r: u128 = m % (TWO_PI as u128);
    if r < PI as u128 {
        sin_half_of(r)
    } else {
        -sin_half_of(r - PI as u128)
    }
}

impl Fixed {
    /// The sine of `self` radians.
    pub fn sin(self) -> (r: Fixed)
        ensures
            r@ == sin_spec(self@),
            -ONE <= r@ <= ONE,
    {
        let s: i64 = sin_turns_of(magnitude_of(self.bits));
        if self.bits < 0 {
            Fixed { bits: -s }
        } else {
            Fixed { bits: s }
        }
    }

    /// The cosine of `self` radians.
    pub fn cos(self) -> (r: Fixed)
        ensures
            r@ == cos_spec(self@),
            -ONE <= r@ <= ONE,
    {
        Fixed { bits: sin_turns_of(magnitude_of(self.bits) + HALF_PI as u128) }
    }
}

} // verus!
