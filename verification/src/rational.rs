//! Exact rational values for the simplex tableau.
//!
//! A `Rat` holds a numerator and a positive denominator in machine integers.
//! Its mathematical meaning is the pair `(num as int, den as int)`; two values
//! are the same rational exactly when they agree under cross-multiplication.
//! Arithmetic is delegated to the `fraction` crate, which computes the exact
//! reduced result or reports that it does not fit the machine word.
use vstd::prelude::*;

verus! {

/// An exact rational number: `num / den` with `den > 0`.
#[derive(Clone, Copy, PartialEq, Eq, Structural, Debug)]
pub struct Rat {
    pub num: i64,
    pub den: i64,
}

/// A mathematical rational, written as a numerator-denominator pair of
/// unbounded integers with a positive denominator.
pub open spec fn q_wf(a: (int, int)) -> bool {
    a.1 > 0
}

/// The two pairs denote the same rational number.
pub open spec fn q_eq(a: (int, int), b: (int, int)) -> bool {
    a.0 * b.1 == b.0 * a.1
}

/// `a <= b` as rationals (meaningful when both are well formed).
pub open spec fn q_le(a: (int, int), b: (int, int)) -> bool {
    a.0 * b.1 <= b.0 * a.1
}

/// `a < b` as rationals (meaningful when both are well formed).
pub open spec fn q_lt(a: (int, int), b: (int, int)) -> bool {
    a.0 * b.1 < b.0 * a.1
}

pub open spec fn q_zero() -> (int, int) {
    (0int, 1int)
}

pub open spec fn q_one() -> (int, int) {
    (1int, 1int)
}

pub open spec fn q_add(a: (int, int), b: (int, int)) -> (int, int) {
    (a.0 * b.1 + b.0 * a.1, a.1 * b.1)
}

pub open spec fn q_sub(a: (int, int), b: (int, int)) -> (int, int) {
    (a.0 * b.1 - b.0 * a.1, a.1 * b.1)
}

pub open spec fn q_mul(a: (int, int), b: (int, int)) -> (int, int) {
    (a.0 * b.0, a.1 * b.1)
}

/// The reciprocal, with the sign moved into the numerator so that the
/// denominator stays positive; meaningful when `b.0 != 0`.
pub open spec fn q_recip(b: (int, int)) -> (int, int) {
    if b.0 >= 0 {
        (b.1, b.0)
    } else {
        (-b.1, -b.0)
    }
}

pub open spec fn q_div(a: (int, int), b: (int, int)) -> (int, int) {
    q_mul(a, q_recip(b))
}

impl Rat {
    /// The mathematical value of this machine rational.
    pub open spec fn q(self) -> (int, int) {
        (self.num as int, self.den as int)
    }

    /// Well-formedness: the denominator is positive.
    pub open spec fn wf(self) -> bool {
        self.den > 0
    }

    /// The rational `n / 1`.
    pub fn from_int(n: i64) -> (r: Rat)
        ensures
            r == (Rat { num: n, den: 1i64 }),
            r.wf(),
    {
        Rat { num: n, den: 1 }
    }

    /// The rational `num / den` for a positive denominator, kept exactly as
    /// given (no reduction).
    pub fn new(num: i64, den: i64) -> (r: Rat)
        requires
            den > 0,
        ensures
            r == (Rat { num, den }),
            r.wf(),
    {
        Rat { num, den }
    }

    /// The additive inverse, computed exactly.
    pub fn neg(self) -> (r: Rat)
        requires
            self.num > i64::MIN,
        ensures
            r.num as int == -(self.num as int),
            r.den == self.den,
            r.q() == (-self.q().0, self.q().1),
    {
        Rat { num: -self.num, den: self.den }
    }

    /// Whether this value is the rational zero.
    pub fn is_zero(self) -> (r: bool)
        requires
            self.wf(),
        ensures
            r == q_eq(self.q(), q_zero()),
    {
        proof {
            lemma_zero_test(self.q());
        }
        self.num == 0
    }
}

/// A zero numerator is exactly what makes a well-formed pair denote zero.
proof fn lemma_zero_test(a: (int, int))
    requires
        q_wf(a),
    ensures
        q_eq(a, q_zero()) == (a.0 == 0),
{
    assert(a.0 * 1 == a.0) by (nonlinear_arith);
    assert(0 * a.1 == 0) by (nonlinear_arith);
}

/// Rational order is transitive on well-formed pairs.
pub proof fn lemma_q_le_trans(a: (int, int), b: (int, int), c: (int, int))
    requires
        q_wf(a),
        q_wf(b),
        q_wf(c),
        q_le(a, b),
        q_le(b, c),
    ensures
        q_le(a, c),
{
    assert(a.0 * c.1 <= c.0 * a.1) by (nonlinear_arith)
        requires
            a.1 > 0,
            b.1 > 0,
            c.1 > 0,
            a.0 * b.1 <= b.0 * a.1,
            b.0 * c.1 <= c.0 * b.1,
    ;
}

/// A nonstrict bound composes with a strict one.
pub proof fn lemma_q_le_lt_trans(a: (int, int), b: (int, int), c: (int, int))
    requires
        q_wf(a),
        q_wf(b),
        q_wf(c),
        q_le(a, b),
        q_lt(b, c),
    ensures
        q_lt(a, c),
{
    assert(a.0 * c.1 < c.0 * a.1) by (nonlinear_arith)
        requires
            a.1 > 0,
            b.1 > 0,
            c.1 > 0,
            a.0 * b.1 <= b.0 * a.1,
            b.0 * c.1 < c.0 * b.1,
    ;
}

/// Subtracting the product of a nonpositive value and a nonnegative value
/// cannot decrease a rational.
pub proof fn lemma_q_sub_mul_le(c: (int, int), f: (int, int), r: (int, int))
    requires
        q_wf(c),
        q_wf(f),
        q_wf(r),
        f.0 <= 0,
        r.0 >= 0,
    ensures
        q_le(c, q_sub(c, q_mul(f, r))),
        q_wf(q_sub(c, q_mul(f, r))),
{
    assert(c.0 * (c.1 * (f.1 * r.1)) <= (c.0 * (f.1 * r.1) - f.0 * r.0 * c.1) * c.1 && c.1 * (f.1
        * r.1) > 0) by (nonlinear_arith)
        requires
            c.1 > 0,
            f.1 > 0,
            r.1 > 0,
            f.0 <= 0,
            r.0 >= 0,
    ;
}

/// Rational equality is transitive on well-formed pairs.
pub proof fn lemma_q_eq_trans(a: (int, int), b: (int, int), c: (int, int))
    requires
        q_wf(a),
        q_wf(b),
        q_wf(c),
        q_eq(a, b),
        q_eq(b, c),
    ensures
        q_eq(a, c),
{
    assert(a.0 * c.1 == c.0 * a.1) by (nonlinear_arith)
        requires
            a.1 > 0,
            b.1 > 0,
            c.1 > 0,
            a.0 * b.1 == b.0 * a.1,
            b.0 * c.1 == c.0 * b.1,
    ;
}

/// Order respects rational equality: equal pairs compare equally.
pub proof fn lemma_q_le_congr(a: (int, int), b: (int, int), x: (int, int), y: (int, int))
    requires
        q_wf(a),
        q_wf(b),
        q_wf(x),
        q_wf(y),
        q_eq(a, x),
        q_eq(b, y),
    ensures
        q_le(a, b) == q_le(x, y),
        q_lt(a, b) == q_lt(x, y),
{
    assert((a.0 * b.1 <= b.0 * a.1) == (x.0 * y.1 <= y.0 * x.1) && (a.0 * b.1 < b.0 * a.1) == (x.0
        * y.1 < y.0 * x.1)) by (nonlinear_arith)
        requires
            a.1 > 0,
            b.1 > 0,
            x.1 > 0,
            y.1 > 0,
            a.0 * x.1 == x.0 * a.1,
            b.0 * y.1 == y.0 * b.1,
    ;
}

/// A zero numerator respects rational equality.
pub proof fn lemma_q_zero_congr(a: (int, int), b: (int, int))
    requires
        q_wf(a),
        q_wf(b),
        q_eq(a, b),
    ensures
        (a.0 == 0) == (b.0 == 0),
{
    assert((a.0 == 0) == (b.0 == 0)) by (nonlinear_arith)
        requires
            a.1 > 0,
            b.1 > 0,
            a.0 * b.1 == b.0 * a.1,
    ;
}

/// Sums of equal rationals are equal.
pub proof fn lemma_q_add_congr(a: (int, int), b: (int, int), x: (int, int), y: (int, int))
    requires
        q_wf(a),
        q_wf(b),
        q_wf(x),
        q_wf(y),
        q_eq(a, x),
        q_eq(b, y),
    ensures
        q_eq(q_add(a, b), q_add(x, y)),
        q_eq(q_sub(a, b), q_sub(x, y)),
        q_wf(q_add(a, b)),
        q_wf(q_sub(a, b)),
        q_wf(q_add(x, y)),
        q_wf(q_sub(x, y)),
{
    assert(x.1 * y.1 > 0) by (nonlinear_arith)
        requires
            x.1 > 0,
            y.1 > 0,
    ;
    assert((a.0 * b.1) * (x.1 * y.1) == (x.0 * y.1) * (a.1 * b.1)) by (nonlinear_arith)
        requires
            a.0 * x.1 == x.0 * a.1,
    ;
    assert((b.0 * a.1) * (x.1 * y.1) == (y.0 * x.1) * (a.1 * b.1)) by (nonlinear_arith)
        requires
            b.0 * y.1 == y.0 * b.1,
    ;
    assert((a.0 * b.1 + b.0 * a.1) * (x.1 * y.1) == (x.0 * y.1 + y.0 * x.1) * (a.1 * b.1) && (a.0
        * b.1 - b.0 * a.1) * (x.1 * y.1) == (x.0 * y.1 - y.0 * x.1) * (a.1 * b.1) && a.1 * b.1
        > 0) by (nonlinear_arith)
        requires
            a.1 > 0,
            b.1 > 0,
            (a.0 * b.1) * (x.1 * y.1) == (x.0 * y.1) * (a.1 * b.1),
            (b.0 * a.1) * (x.1 * y.1) == (y.0 * x.1) * (a.1 * b.1),
    ;
}

/// Products of equal rationals are equal.
pub proof fn lemma_q_mul_congr(a: (int, int), b: (int, int), x: (int, int), y: (int, int))
    requires
        q_wf(a),
        q_wf(b),
        q_wf(x),
        q_wf(y),
        q_eq(a, x),
        q_eq(b, y),
    ensures
        q_eq(q_mul(a, b), q_mul(x, y)),
        q_wf(q_mul(a, b)),
        q_wf(q_mul(x, y)),
{
    assert(x.1 * y.1 > 0) by (nonlinear_arith)
        requires
            x.1 > 0,
            y.1 > 0,
    ;
    assert((a.0 * b.0) * (x.1 * y.1) == (x.0 * y.0) * (a.1 * b.1) && a.1 * b.1 > 0)
        by (nonlinear_arith)
        requires
            a.1 > 0,
            b.1 > 0,
            x.1 > 0,
            y.1 > 0,
            a.0 * x.1 == x.0 * a.1,
            b.0 * y.1 == y.0 * b.1,
    ;
}

/// Reciprocals of equal nonzero rationals are equal and well formed.
pub proof fn lemma_q_recip_congr(b: (int, int), y: (int, int))
    requires
        q_wf(b),
        q_wf(y),
        q_eq(b, y),
        b.0 != 0,
    ensures
        y.0 != 0,
        q_eq(q_recip(b), q_recip(y)),
        q_wf(q_recip(b)),
        q_wf(q_recip(y)),
{
    lemma_q_zero_congr(b, y);
    assert(q_eq(q_recip(b), q_recip(y)) && q_wf(q_recip(b)) && q_wf(q_recip(y)))
        by (nonlinear_arith)
        requires
            b.1 > 0,
            y.1 > 0,
            b.0 != 0,
            y.0 != 0,
            b.0 * y.1 == y.0 * b.1,
    ;
}

/// A quotient of well-formed pairs with a nonzero divisor is well formed.
pub proof fn lemma_q_div_wf(a: (int, int), b: (int, int))
    requires
        q_wf(a),
        q_wf(b),
        b.0 != 0,
    ensures
        q_wf(q_div(a, b)),
        q_wf(q_mul(a, b)),
        q_wf(q_add(a, b)),
        q_wf(q_sub(a, b)),
{
    assert(q_wf(q_div(a, b)) && q_wf(q_mul(a, b)) && q_wf(q_add(a, b)) && q_wf(q_sub(a, b)))
        by (nonlinear_arith)
        requires
            a.1 > 0,
            b.1 > 0,
            b.0 != 0,
    ;
}

/// Quotients of equal rationals by equal nonzero rationals are equal.
pub proof fn lemma_q_div_congr(a: (int, int), b: (int, int), x: (int, int), y: (int, int))
    requires
        q_wf(a),
        q_wf(b),
        q_wf(x),
        q_wf(y),
        q_eq(a, x),
        q_eq(b, y),
        b.0 != 0,
    ensures
        y.0 != 0,
        q_eq(q_div(a, b), q_div(x, y)),
        q_wf(q_div(a, b)),
{
    lemma_q_recip_congr(b, y);
    lemma_q_mul_congr(a, q_recip(b), x, q_recip(y));
}

/// Exact comparison `a <= b`, by cross-multiplying in a wide integer type.
pub fn rat_le(a: &Rat, b: &Rat) -> (r: bool)
    requires
        a.wf(),
        b.wf(),
    ensures
        r == q_le(a.q(), b.q()),
{
    proof {
        lemma_i64_prod_fits(a.num as int, b.den as int);
        lemma_i64_prod_fits(b.num as int, a.den as int);
    }
    (a.num as i128) * (b.den as i128) <= (b.num as i128) * (a.den as i128)
}

/// Exact comparison `a < b`, by cross-multiplying in a wide integer type.
pub fn rat_lt(a: &Rat, b: &Rat) -> (r: bool)
    requires
        a.wf(),
        b.wf(),
    ensures
        r == q_lt(a.q(), b.q()),
{
    proof {
        lemma_i64_prod_fits(a.num as int, b.den as int);
        lemma_i64_prod_fits(b.num as int, a.den as int);
    }
    (a.num as i128) * (b.den as i128) < (b.num as i128) * (a.den as i128)
}

/// A product of two `i64` values fits in an `i128`.
proof fn lemma_i64_prod_fits(x: int, y: int)
    requires
        i64::MIN <= x <= i64::MAX,
        i64::MIN <= y <= i64::MAX,
    ensures
        i128::MIN <= x * y <= i128::MAX,
{
    assert(i128::MIN <= x * y <= i128::MAX) by (nonlinear_arith)
        requires
            i64::MIN <= x <= i64::MAX,
            i64::MIN <= y <= i64::MAX,
    ;
}


/// The magnitude of an integer.
pub open spec fn int_abs(n: int) -> int {
    if n >= 0 {
        n
    } else {
        -n
    }
}

/// The rational denoted by `a` has a representation within the machine
/// window: some pair of the same value has a magnitude of at most
/// `i64::MAX` in the numerator and a denominator between one and
/// `i64::MAX`. Equivalently (every representation is an integer multiple
/// of the lowest-terms one), the lowest-terms form fits.
pub open spec fn q_fits(a: (int, int)) -> bool {
    exists|n: int, d: int| #[trigger] fits_witness(n, d, a)
}

/// The pair `(n, d)` is an in-window representation of the value of `a`.
pub open spec fn fits_witness(n: int, d: int, a: (int, int)) -> bool {
    0 < d <= i64::MAX && -i64::MAX <= n <= i64::MAX && n * a.1 == a.0 * d
}

/// A pair within the window witnesses its own value's fit.
pub proof fn lemma_q_fits_self(a: (int, int))
    requires
        0 < a.1 <= i64::MAX,
        -i64::MAX <= a.0 <= i64::MAX,
    ensures
        q_fits(a),
{
    assert(fits_witness(a.0, a.1, a));
}

/// The window within which a subtraction `x - y` is certain to go through
/// the machine arithmetic: both cross products, their difference, and the
/// product of denominators stay below the word bound. The backing
/// arithmetic works on a common denominator no larger than `x.1 * y.1` and
/// on numerators no larger than the cross products, so everything it
/// touches fits.
pub open spec fn sub_within(x: (int, int), y: (int, int)) -> bool {
    &&& int_abs(x.0) * y.1 <= i64::MAX
    &&& int_abs(y.0) * x.1 <= i64::MAX
    &&& int_abs(x.0 * y.1 - y.0 * x.1) <= i64::MAX
    &&& x.1 * y.1 <= i64::MAX
}

/// Relies on `fraction`'s `CheckedSub` for `Fraction`: for finite operands
/// the result is the exact difference in lowest terms, or `None` on
/// overflow. Success is promised inside `sub_within`: the backing
/// arithmetic brings both sides to the common denominator `lcm` (at most
/// the product of the reduced denominators), multiplies each numerator up
/// to at most the cross products, and adds or subtracts magnitudes (at
/// most the cross difference, or twice the word bound for the two terms
/// together, which the unsigned word still holds); the reduced result is
/// no larger than those intermediates. No exact failure condition is
/// stated: the common-denominator route can fail on its intermediates even
/// when the lowest-terms difference would fit.
#[verifier::external_body]
pub(crate) fn rat_sub(a: &Rat, b: &Rat) -> (r: Option<Rat>)
    requires
        a.wf(),
        b.wf(),
    ensures
        r matches Some(v) ==> v.wf() && q_eq(v.q(), q_sub(a.q(), b.q())),
        sub_within(a.q(), b.q()) ==> r is Some,
{
    let fa = fraction::Fraction::new_generic(fraction::Sign::Plus, a.num, a.den)?;
    let fb = fraction::Fraction::new_generic(fraction::Sign::Plus, b.num, b.den)?;
    let fr = fraction::CheckedSub::checked_sub(&fa, &fb)?;
    let num = i64::try_from(*fr.numer()?).ok()?;
    let den = i64::try_from(*fr.denom()?).ok()?;
    Some(Rat { num: if fr.is_sign_negative() { -num } else { num }, den })
}

/// Relies on `fraction`'s `CheckedMul` for `Fraction`: for finite operands
/// the result is the exact product in lowest terms, or `None` exactly when
/// that lowest-terms product has no in-window representation. The backing
/// arithmetic divides the cross greatest common divisors out of the
/// operands first, so the only values it forms are the components of the
/// lowest-terms product itself; each component divides the corresponding
/// plain product, which also gives the stated bounds.
#[verifier::external_body]
pub(crate) fn rat_mul(a: &Rat, b: &Rat) -> (r: Option<Rat>)
    requires
        a.wf(),
        b.wf(),
    ensures
        r matches Some(v) ==> v.wf() && q_eq(v.q(), q_mul(a.q(), b.q())),
        r matches Some(v) ==> v.den as int <= a.den as int * b.den as int && int_abs(v.num as int)
            <= int_abs(a.num as int * b.num as int),
        r is Some <==> q_fits(q_mul(a.q(), b.q())),
{
    let fa = fraction::Fraction::new_generic(fraction::Sign::Plus, a.num, a.den)?;
    let fb = fraction::Fraction::new_generic(fraction::Sign::Plus, b.num, b.den)?;
    let fr = fraction::CheckedMul::checked_mul(&fa, &fb)?;
    let num = i64::try_from(*fr.numer()?).ok()?;
    let den = i64::try_from(*fr.denom()?).ok()?;
    Some(Rat { num: if fr.is_sign_negative() { -num } else { num }, den })
}

/// Relies on `fraction`'s `CheckedDiv` for `Fraction`: for finite operands
/// and a nonzero divisor the result is the exact quotient in lowest terms,
/// or `None` exactly when that lowest-terms quotient has no in-window
/// representation. As for the product, the backing arithmetic divides the
/// cross greatest common divisors out first and forms only the components
/// of the lowest-terms quotient.
#[verifier::external_body]
pub(crate) fn rat_div(a: &Rat, b: &Rat) -> (r: Option<Rat>)
    requires
        a.wf(),
        b.wf(),
        b.num != 0,
    ensures
        r matches Some(v) ==> v.wf() && q_eq(v.q(), q_div(a.q(), b.q())),
        r is Some <==> q_fits(q_div(a.q(), b.q())),
{
    let fa = fraction::Fraction::new_generic(fraction::Sign::Plus, a.num, a.den)?;
    let fb = fraction::Fraction::new_generic(fraction::Sign::Plus, b.num, b.den)?;
    let fr = fraction::CheckedDiv::checked_div(&fa, &fb)?;
    let num = i64::try_from(*fr.numer()?).ok()?;
    let den = i64::try_from(*fr.denom()?).ok()?;
    Some(Rat { num: if fr.is_sign_negative() { -num } else { num }, den })
}


/// A product with a zero-valued factor is zero.
pub proof fn lemma_q_mul_zero(a: (int, int), b: (int, int))
    requires
        q_wf(a),
        q_wf(b),
        q_eq(b, q_zero()),
    ensures
        q_eq(q_mul(a, b), q_zero()),
        q_wf(q_mul(a, b)),
{
    lemma_zero_test(b);
    assert(q_eq(q_mul(a, b), q_zero()) && q_wf(q_mul(a, b))) by (nonlinear_arith)
        requires
            a.1 > 0,
            b.1 > 0,
            b.0 == 0,
    ;
}

/// Subtracting a zero-valued pair changes nothing, as rationals.
pub proof fn lemma_q_sub_zero(x: (int, int), y: (int, int))
    requires
        q_wf(x),
        q_wf(y),
        q_eq(y, q_zero()),
    ensures
        q_eq(q_sub(x, y), x),
        q_wf(q_sub(x, y)),
{
    lemma_zero_test(y);
    assert(q_eq(q_sub(x, y), x) && q_wf(q_sub(x, y))) by (nonlinear_arith)
        requires
            x.1 > 0,
            y.1 > 0,
            y.0 == 0,
    ;
}

/// Subtracting a value times one from itself gives zero.
pub proof fn lemma_q_sub_self_one(a: (int, int))
    requires
        q_wf(a),
    ensures
        q_eq(q_sub(a, q_mul(a, q_one())), q_zero()),
{
    assert(q_eq(q_sub(a, q_mul(a, q_one())), q_zero())) by (nonlinear_arith)
        requires
            a.1 > 0,
    ;
}

/// A zero-valued numerator divided by anything nonzero stays zero.
pub proof fn lemma_q_div_zero(a: (int, int), b: (int, int))
    requires
        q_wf(a),
        q_wf(b),
        q_eq(a, q_zero()),
        b.0 != 0,
    ensures
        q_eq(q_div(a, b), q_zero()),
        q_wf(q_div(a, b)),
{
    lemma_zero_test(a);
    lemma_q_div_wf(a, b);
    assert(q_eq(q_div(a, b), q_zero())) by (nonlinear_arith)
        requires
            a.1 > 0,
            b.1 > 0,
            a.0 == 0,
            b.0 != 0,
    ;
}

/// A pair cannot denote zero and a negative value at once.
pub proof fn lemma_q_zero_not_lt(a: (int, int))
    requires
        q_wf(a),
        q_eq(a, q_zero()),
    ensures
        !q_lt(a, q_zero()),
{
    lemma_zero_test(a);
}


/// Multiplying by a one-valued pair keeps the value; a zero-valued left
/// factor or left summand disappears.
pub proof fn lemma_q_mul_one(a: (int, int), b: (int, int))
    requires
        q_wf(a),
        q_wf(b),
        q_eq(a, q_one()),
    ensures
        q_eq(q_mul(a, b), b),
        q_wf(q_mul(a, b)),
{
    assert(q_eq(q_mul(a, b), b) && q_wf(q_mul(a, b))) by (nonlinear_arith)
        requires
            a.1 > 0,
            b.1 > 0,
            a.0 * 1 == 1 * a.1,
    ;
}

/// A zero-valued left factor makes the product zero.
pub proof fn lemma_q_mul_zero_left(a: (int, int), b: (int, int))
    requires
        q_wf(a),
        q_wf(b),
        q_eq(a, q_zero()),
    ensures
        q_eq(q_mul(a, b), q_zero()),
        q_wf(q_mul(a, b)),
{
    lemma_zero_test(a);
    assert(q_eq(q_mul(a, b), q_zero()) && q_wf(q_mul(a, b))) by (nonlinear_arith)
        requires
            a.1 > 0,
            b.1 > 0,
            a.0 == 0,
    ;
}

/// A zero-valued left summand disappears from a sum.
pub proof fn lemma_q_add_zero_left(a: (int, int), b: (int, int))
    requires
        q_wf(a),
        q_wf(b),
        q_eq(a, q_zero()),
    ensures
        q_eq(q_add(a, b), b),
        q_wf(q_add(a, b)),
{
    lemma_zero_test(a);
    assert(q_eq(q_add(a, b), b) && q_wf(q_add(a, b))) by (nonlinear_arith)
        requires
            a.1 > 0,
            b.1 > 0,
            a.0 == 0,
    ;
}


/// The subtraction window is monotone: shrinking the second operand's
/// numerator magnitude and denominator keeps the operation inside it.
pub proof fn lemma_sub_within_mono(x: (int, int), t: (int, int), bn: int, bd: int)
    requires
        q_wf(x),
        q_wf(t),
        int_abs(t.0) <= bn,
        t.1 <= bd,
        int_abs(x.0) * bd + bn * x.1 <= i64::MAX,
        x.1 * bd <= i64::MAX,
    ensures
        sub_within(x, t),
{
    let ax = int_abs(x.0);
    let at = int_abs(t.0);
    assert(ax >= 0 && at >= 0 && bn >= 0);
    assert(ax * t.1 <= ax * bd && at * x.1 <= bn * x.1 && x.1 * t.1 <= x.1 * bd && ax * bd >= 0
        && bn * x.1 >= 0) by (nonlinear_arith)
        requires
            t.1 <= bd,
            ax >= 0,
            at <= bn,
            x.1 > 0,
            t.1 > 0,
            bn >= 0,
            bd > 0,
    ;
    assert(int_abs(x.0 * t.1 - t.0 * x.1) <= ax * t.1 + at * x.1) by (nonlinear_arith)
        requires
            ax == int_abs(x.0),
            at == int_abs(t.0),
            (ax == x.0 || ax == -x.0) && ax >= 0,
            (at == t.0 || at == -t.0) && at >= 0,
            x.1 > 0,
            t.1 > 0,
            int_abs(x.0 * t.1 - t.0 * x.1) == int_abs(x.0 * t.1 - t.0 * x.1),
    ;
}

} // verus!
