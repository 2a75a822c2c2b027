//! Fields: functions from a point of the plane to a number, built from sine
//! ridges by scaling and summation.

use vstd::prelude::*;
use crate::fixed::{add_spec, div_spec, magnitude, mul_spec, pow_spec, Fixed, ONE};
use crate::trig::{cos_spec, lemma_sin_cos_range, sin_spec, TWO_PI};

verus! {

/// A field, as a formula.
#[derive(Debug)]
pub enum Field {
    /// `sin(cos(alpha) * x + sin(alpha) * y + offset)`: ridges that run
    /// across the direction `alpha`, shifted by the phase `offset`.
    Sine { alpha: Fixed, offset: Fixed },
    /// `inner(x / factor, y / factor) * factor`.
    Scaled { inner: Box<Field>, factor: Fixed },
    /// The sum of the terms, added up from the first to the last.
    Sum { terms: Vec<Field> },
}

/// What a `Field` stands for: the same formula over unit counts.
pub ghost enum FieldModel {
    /// Sine ridges across the direction `alpha`, shifted by `offset`.
    Sine { alpha: int, offset: int },
    /// `inner` with period and amplitude multiplied by `factor`.
    Scaled { inner: Box<FieldModel>, factor: int },
    /// The sum of `terms`.
    Sum { terms: Seq<FieldModel> },
}

impl FieldModel {
    /// No scaling in the formula is by zero.
    pub open spec fn wf(self) -> bool
        decreases self,
    {
        match self {
            FieldModel::Sine { .. } => true,
            FieldModel::Scaled { inner, factor } => factor != 0 && inner.wf(),
            FieldModel::Sum { terms } => forall|i: int|
                0 <= i < terms.len() ==> (#[trigger] terms[i]).wf(),
        }
    }

    /// The value of the field at the point `(x, y)`.
    pub open spec fn eval(self, x: int, y: int) -> int
        decreases self, 0nat,
    {
        match self {
            FieldModel::Sine { alpha, offset } => sin_spec(
                add_spec(add_spec(mul_spec(cos_spec(alpha), x), mul_spec(sin_spec(alpha), y)), offset),
            ),
            FieldModel::Scaled { inner, factor } => mul_spec(
                inner.eval(div_spec(x, factor), div_spec(y, factor)),
                factor,
            ),
            FieldModel::Sum { terms } => Self::partial_sum(terms, terms.len(), x, y),
        }
    }

    /// The sum of the first `n` of `terms` at the point `(x, y)`.
    pub open spec fn partial_sum(terms: Seq<FieldModel>, n: nat, x: int, y: int) -> int
        decreases terms, n,
    {
        if n == 0 || n > terms.len() {
            0
        } else {
            add_spec(Self::partial_sum(terms, (n - 1) as nat, x, y), terms[n - 1].eval(x, y))
        }
    }
}

impl View for Field {
    type V = FieldModel;

    open spec fn view(&self) -> FieldModel {
        self.model()
    }
}

impl Field {
    /// The formula that `self` holds.
    pub open spec fn model(self) -> FieldModel
        decreases self,
    {
        match self {
            Field::Sine { alpha, offset } => FieldModel::Sine { alpha: alpha@, offset: offset@ },
            Field::Scaled { inner, factor } => FieldModel::Scaled {
                inner: Box::new(inner.model()),
                factor: factor@,
            },
            Field::Sum { terms } => FieldModel::Sum {
                terms: Seq::new(
                    terms.len() as nat,
                    |i: int|
                        if 0 <= i < terms.len() {
                            terms[i].model()
                        } else {
                            FieldModel::Sum { terms: Seq::empty() }
                        },
                ),
            },
        }
    }

    /// The value of the field at the point `(x, y)`.
    pub fn eval(&self, x: Fixed, y: Fixed) -> (r: Fixed)
        requires
            self@.wf(),
        ensures
            r@ == self@.eval(x@, y@),
        decreases self,
    {
        match self {
            Field::Sine { alpha, offset } => {
                let along: Fixed = alpha.cos().mul(x).add(alpha.sin().mul(y));
                along.add(*offset).sin()
            },
            Field::Scaled { inner, factor } => {
                inner.eval(x.div(*factor), y.div(*factor)).mul(*factor)
            },
            Field::Sum { terms } => {
                let mut acc: Fixed = Fixed { bits: 0 };
                let mut i: usize = 0;
                while i < terms.len()
                    invariant
                        i <= terms.len(),
                        self@.wf(),
                        self == (Field::Sum { terms: *terms }),
                        acc@ == FieldModel::partial_sum(self@->terms, i as nat, x@, y@),
                    decreases terms.len() - i,
                {
                    assert(self@->terms[i as int] == terms[i as int]@);
                    let v: Fixed = terms[i].eval(x, y);
                    acc = acc.add(v);
                    i = i + 1;
                }
                acc
            },
        }
    }
}

/// The field of sine ridges with direction `alpha` and phase `offset`.
pub fn sine_field(alpha: Fixed, offset: Fixed) -> (f: Field)
    ensures
        f@ == (FieldModel::Sine { alpha: alpha@, offset: offset@ }),
        f@.wf(),
{
    Field::Sine { alpha, offset }
}

/// `field` with its period and its amplitude both multiplied by `factor`.
pub fn scale(field: Field, factor: Fixed) -> (f: Field)
    requires
        factor@ != 0,
    ensures
        f@ == (FieldModel::Scaled { inner: Box::new(field@), factor: factor@ }),
        f@.wf() == field@.wf(),
{
    Field::Scaled { inner: Box::new(field), factor }
}

/// The angle that a random draw stands for: the draw's share of a full
/// turn, so that draws spread evenly over `u64` give angles spread evenly
/// from 0 up to, not including, a full turn.
pub open spec fn angle_spec(draw: u64) -> int {
    draw * TWO_PI / 18446744073709551616
}

/// One octave of a fractal field: the sine ridges that a pair of draws
/// picks, direction first and phase second, scaled by `factor`. Ridges are
/// no higher than the factor that scales them, so where the factor is zero
/// the octave is the field that is zero everywhere.
pub open spec fn octave_model(draw: (u64, u64), factor: int) -> FieldModel {
    if factor == 0 {
        FieldModel::Sum { terms: Seq::empty() }
    } else {
        FieldModel::Scaled {
            inner: Box::new(
                FieldModel::Sine { alpha: angle_spec(draw.0), offset: angle_spec(draw.1) },
            ),
            factor,
        }
    }
}

/// The fractal field that the draws pick: one octave for each pair, the
/// octave at index `i` scaled by `fall_off` to the power `i`.
pub open spec fn fractal_model(draws: Seq<(u64, u64)>, fall_off: int) -> FieldModel {
    FieldModel::Sum {
        terms: Seq::new(
            draws.len(),
            |i: int| octave_model(draws[i], pow_spec(fall_off, i as nat)),
        ),
    }
}

/// The angle of every draw lies in the turn that starts at 0, and a greater
/// draw never has a smaller angle.
pub proof fn lemma_angle_in_turn(draw: u64, other: u64)
    ensures
        0 <= angle_spec(draw) < TWO_PI,
        draw <= other ==> angle_spec(draw) <= angle_spec(other),
{
    assert(0 <= draw * TWO_PI < 18446744073709551616 * TWO_PI) by (nonlinear_arith)
        requires
            0 <= draw < 18446744073709551616,
            TWO_PI == 26986075408,
    ;
    assert(draw <= other ==> draw * TWO_PI <= other * TWO_PI) by (nonlinear_arith)
        requires
            TWO_PI == 26986075408,
    ;
}

/// The angle that `draw` stands for.
pub fn angle_from_draw(draw: u64) -> (a: Fixed)
    ensures
        a@ == angle_spec(draw),
        0 <= a@ < TWO_PI,
{
    proof {
        lemma_angle_in_turn(draw, draw);
    }
    let wide: u128 = draw as u128 * TWO_PI as u128;
    Fixed { bits: (wide / 18446744073709551616) as i64 }
}

/// The octave that `draw` picks, scaled by `factor`.
fn octave(draw: (u64, u64), factor: Fixed) -> (f: Field)
    ensures
        f@ == octave_model(draw, factor@),
        f@.wf(),
{
    if factor.bits == 0 {
        let f: Field = Field::Sum { terms: Vec::new() };
        assert(f@->terms =~= Seq::empty());
        f
    } else {
        scale(sine_field(angle_from_draw(draw.0), angle_from_draw(draw.1)), factor)
    }
}

/// The fractal field that `draws` picks: one octave for each pair, scaled by
/// the powers of `fall_off`.
pub fn fractal_field_from(draws: &Vec<(u64, u64)>, fall_off: Fixed) -> (f: Field)
    ensures
        f@ == fractal_model(draws@, fall_off@),
        f@->terms.len() == draws.len(),
        f@.wf(),
{
    let mut terms: Vec<Field> = Vec::new();
    let mut i: usize = 0;
    while i < draws.len()
        invariant
            i <= draws.len(),
            terms.len() == i,
            forall|j: int|
                0 <= j < i ==> (#[trigger] terms[j])@ == octave_model(
                    draws[j],
                    pow_spec(fall_off@, j as nat),
                ) && terms[j]@.wf(),
        decreases draws.len() - i,
    {
        terms.push(octave(draws[i], fall_off.pow(i)));
        i = i + 1;
    }
    let f: Field = Field::Sum { terms };
    assert(f@->terms =~= fractal_model(draws@, fall_off@)->terms);
    f
}

/// `rand::random::<u64>()`: one value from the generator of the calling
/// thread, which stops the thread where the system cannot seed it. Nothing
/// is claimed of the value.
#[verifier::external_body]
fn random_draw() -> (draw: u64) {
    rand::random::<u64>()
}

/// A fractal field of `octaves` octaves with random directions and phases,
/// scaled by the powers of `fall_off`.
pub fn fractal_field(octaves: usize, fall_off: Fixed) -> (f: Field)
    ensures
        exists|draws: Seq<(u64, u64)>|
            draws.len() == octaves && f@ == #[trigger] fractal_model(draws, fall_off@),
        f@ is Sum,
        f@->terms.len() == octaves,
        f@.wf(),
{
    let mut draws: Vec<(u64, u64)> = Vec::new();
    while draws.len() < octaves
        invariant
            draws.len() <= octaves,
        decreases octaves - draws.len(),
    {
        let alpha: u64 = random_draw();
        let offset: u64 = random_draw();
        draws.push((alpha, offset));
    }
    fractal_field_from(&draws, fall_off)
}

/// At the origin a field of sine ridges has the sine of its phase, whatever
/// its direction.
pub proof fn lemma_sine_field_at_origin(alpha: Fixed, offset: Fixed)
    ensures
        (FieldModel::Sine { alpha: alpha@, offset: offset@ }).eval(0, 0) == sin_spec(offset@),
{
    assert(cos_spec(alpha@) * 0 == 0);
    assert(sin_spec(alpha@) * 0 == 0);
}

/// A field of sine ridges lies between -1 and 1 everywhere.
pub proof fn lemma_sine_field_range(alpha: int, offset: int, x: int, y: int)
    ensures
        -ONE <= (FieldModel::Sine { alpha, offset }).eval(x, y) <= ONE,
{
    lemma_sin_cos_range(
        add_spec(add_spec(mul_spec(cos_spec(alpha), x), mul_spec(sin_spec(alpha), y)), offset),
    );
}

/// A scaled field has, at `(x, y)`, the value of the field inside it at
/// `(x / factor, y / factor)`, multiplied by `factor`.
pub proof fn lemma_scaled_field_value(inner: FieldModel, factor: int, x: int, y: int)
    requires
        factor != 0,
    ensures
        (FieldModel::Scaled { inner: Box::new(inner), factor }).eval(x, y) == mul_spec(
            inner.eval(div_spec(x, factor), div_spec(y, factor)),
            factor,
        ),
{
}

/// An octave has, at `(x, y)`, the value of its sine ridges at
/// `(x / factor, y / factor)`, multiplied by `factor`, and so never more
/// than the factor away from zero.
pub proof fn lemma_octave_value(draw: (u64, u64), factor: int, x: int, y: int)
    ensures
        octave_model(draw, factor).wf(),
        octave_model(draw, factor).eval(x, y) == mul_spec(
            (FieldModel::Sine { alpha: angle_spec(draw.0), offset: angle_spec(draw.1) }).eval(
                div_spec(x, factor),
                div_spec(y, factor),
            ),
            factor,
        ),
        -magnitude(factor) <= octave_model(draw, factor).eval(x, y) <= magnitude(factor),
{
    let ridges = FieldModel::Sine { alpha: angle_spec(draw.0), offset: angle_spec(draw.1) };
    let v = ridges.eval(div_spec(x, factor), div_spec(y, factor));
    lemma_sine_field_range(
        angle_spec(draw.0),
        angle_spec(draw.1),
        div_spec(x, factor),
        div_spec(y, factor),
    );
    assert(ridges.wf());
    if factor == 0 {
        let none: Seq<FieldModel> = Seq::empty();
        assert(FieldModel::partial_sum(none, 0, x, y) == 0);
        assert(v * 0 == 0);
    } else {
        assert(magnitude(v * factor) / 4294967296 <= magnitude(factor)) by (nonlinear_arith)
            requires
                -4294967296 <= v <= 4294967296,
        ;
    }
}

/// A fractal field has one octave for each pair of draws, whatever the
/// fall-off, and none of its scalings is by zero.
pub proof fn lemma_fractal_octaves(draws: Seq<(u64, u64)>, fall_off: int, i: int)
    requires
        0 <= i < draws.len(),
    ensures
        fractal_model(draws, fall_off)->terms.len() == draws.len(),
        fractal_model(draws, fall_off)->terms[i] == octave_model(
            draws[i],
            pow_spec(fall_off, i as nat),
        ),
        pow_spec(fall_off, 0) == ONE,
        fractal_model(draws, fall_off).wf(),
{
    let terms = fractal_model(draws, fall_off)->terms;
    assert forall|j: int| 0 <= j < terms.len() implies (#[trigger] terms[j]).wf() by {
        lemma_octave_value(draws[j], pow_spec(fall_off, j as nat), 0, 0);
    }
}

/// A fractal field of no octaves is zero everywhere, whatever the fall-off.
pub proof fn lemma_no_octaves_is_zero(fall_off: int, x: int, y: int)
    ensures
        fractal_model(Seq::empty(), fall_off) == (FieldModel::Sum { terms: Seq::empty() }),
        fractal_model(Seq::empty(), fall_off).eval(x, y) == 0,
{
    let none: Seq<FieldModel> = Seq::empty();
    assert(fractal_model(Seq::empty(), fall_off)->terms =~= none);
    assert(FieldModel::partial_sum(none, 0, x, y) == 0);
}

} // verus!
