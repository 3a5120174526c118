//! The executable scalar of the exact-rational domain.
//!
//! A `Scalar` wraps an arbitrary-precision rational from the `num` crate.
//! The wrapped value is opaque to the verifier; the trusted wrappers in this
//! module state, over the `Qv` model of `crate::rational`, exactly what each
//! `num` operation computes, and everything above this module is verified
//! against those statements. `num` keeps every rational reduced with a
//! positive denominator (`Ratio::new` and all arithmetic normalise), which
//! is why the view of every reachable `Scalar` is well formed.

use vstd::prelude::*;

use crate::rational::{
    q_abs, q_add, q_close, q_div, q_eps, q_eq, q_int, q_le, q_lt, q_mul, q_neg, q_one, q_sub,
    q_zero, lemma_q_cmp_congruence, lemma_q_sign, lemma_q_sign_transfer, Qv,
};

verus! {

#[verifier::external_type_specification]
#[verifier::external_body]
#[verifier::reject_recursive_types(T)]
pub struct ExRatio<T>(num::rational::Ratio<T>);

#[verifier::external_type_specification]
#[verifier::external_body]
pub struct ExBigInt(num::bigint::BigInt);

pub type BigRat = num::rational::Ratio<num::bigint::BigInt>;

/// The numerator of the rational a `BigRat` denotes.
pub uninterp spec fn rnum(r: BigRat) -> int;

/// The denominator of the rational a `BigRat` denotes.
pub uninterp spec fn rden(r: BigRat) -> int;

/// The integer a `BigInt` denotes.
pub uninterp spec fn bval(n: num::bigint::BigInt) -> int;

/// An exact rational scalar. Every reachable value has a well-formed view:
/// a positive denominator.
#[derive(Debug)]
pub struct Scalar {
    r: BigRat,
}

impl View for Scalar {
    type V = Qv;

    closed spec fn view(&self) -> Qv {
        Qv { n: rnum(self.r), d: rden(self.r) }
    }
}

impl Scalar {
    #[verifier::type_invariant]
    pub open spec fn inv(self) -> bool {
        self@.wf()
    }
}

/// `v` is one fraction form of the rational that `s` holds.
pub open spec fn repr_q(s: Scalar, v: Qv) -> bool {
    v.wf() && q_eq(s@, v)
}

/// Relies on `num_bigint::BigInt: From<i64>`.
#[verifier::external_body]
pub(crate) fn big_from_i64(i: i64) -> (r: num::bigint::BigInt)
    ensures
        bval(r) == i as int,
{
    num::bigint::BigInt::from(i)
}

/// Relies on `Mul for &BigInt`: exact integer multiplication.
#[verifier::external_body]
pub(crate) fn big_mul(a: &num::bigint::BigInt, b: &num::bigint::BigInt) -> (r: num::bigint::BigInt)
    ensures
        bval(r) == bval(*a) * bval(*b),
{
    a * b
}

/// Relies on `BigInt::sqrt`: the truncated principal square root
/// (panics on a negative argument, which the precondition excludes).
#[verifier::external_body]
pub(crate) fn big_sqrt(a: &num::bigint::BigInt) -> (r: num::bigint::BigInt)
    requires
        bval(*a) >= 0,
    ensures
        bval(r) >= 0,
        bval(r) * bval(r) <= bval(*a),
        bval(*a) < (bval(r) + 1) * (bval(r) + 1),
{
    a.sqrt()
}

impl Scalar {
    /// Relies on `Ratio::new`: builds the rational `n/d` in reduced form
    /// with a positive denominator (panics only on a zero denominator,
    /// which the precondition excludes).
    #[verifier::external_body]
    fn new_big(n: num::bigint::BigInt, d: num::bigint::BigInt) -> (r: Scalar)
        requires
            bval(d) != 0,
        ensures
            rden(r.r) > 0,
            rnum(r.r) * bval(d) == bval(n) * rden(r.r),
    {
        Scalar { r: num::rational::Ratio::new(n, d) }
    }

    /// Relies on `Add for &Ratio<BigInt>`: exact rational addition.
    #[verifier::external_body]
    pub fn add(&self, o: &Scalar) -> (r: Scalar)
        ensures
            r@.wf(),
            forall|va: Qv, vb: Qv|
                #![trigger repr_q(*self, va), repr_q(*o, vb)]
                repr_q(*self, va) && repr_q(*o, vb) ==> repr_q(r, q_add(va, vb)),
    {
        Scalar { r: &self.r + &o.r }
    }

    /// Relies on `Sub for &Ratio<BigInt>`: exact rational subtraction.
    #[verifier::external_body]
    pub fn sub(&self, o: &Scalar) -> (r: Scalar)
        ensures
            r@.wf(),
            forall|va: Qv, vb: Qv|
                #![trigger repr_q(*self, va), repr_q(*o, vb)]
                repr_q(*self, va) && repr_q(*o, vb) ==> repr_q(r, q_sub(va, vb)),
    {
        Scalar { r: &self.r - &o.r }
    }

    /// Relies on `Mul for &Ratio<BigInt>`: exact rational multiplication.
    #[verifier::external_body]
    pub fn mul(&self, o: &Scalar) -> (r: Scalar)
        ensures
            r@.wf(),
            forall|va: Qv, vb: Qv|
                #![trigger repr_q(*self, va), repr_q(*o, vb)]
                repr_q(*self, va) && repr_q(*o, vb) ==> repr_q(r, q_mul(va, vb)),
    {
        Scalar { r: &self.r * &o.r }
    }

    /// Relies on `Div for &Ratio<BigInt>`: exact rational division
    /// (panics only on a zero divisor, which the precondition excludes).
    #[verifier::external_body]
    pub(crate) fn div(&self, o: &Scalar) -> (r: Scalar)
        requires
            o@.n != 0,
        ensures
            r@.wf(),
            forall|va: Qv, vb: Qv|
                #![trigger repr_q(*self, va), repr_q(*o, vb)]
                repr_q(*self, va) && repr_q(*o, vb) ==> repr_q(r, q_div(va, vb)),
    {
        Scalar { r: &self.r / &o.r }
    }

    /// Relies on `Neg for &Ratio<BigInt>`: exact rational negation.
    #[verifier::external_body]
    pub fn neg(&self) -> (r: Scalar)
        ensures
            r@.wf(),
            forall|va: Qv| #[trigger] repr_q(*self, va) ==> repr_q(r, q_neg(va)),
    {
        Scalar { r: -&self.r }
    }

    /// Relies on `Ord for Ratio<BigInt>`: the order of the denoted rationals.
    #[verifier::external_body]
    pub fn lt(&self, o: &Scalar) -> (r: bool)
        ensures
            r == q_lt(self@, o@),
    {
        self.r < o.r
    }

    /// Relies on `Ord for Ratio<BigInt>`: the order of the denoted rationals.
    #[verifier::external_body]
    pub fn le(&self, o: &Scalar) -> (r: bool)
        ensures
            r == q_le(self@, o@),
    {
        self.r <= o.r
    }

    /// Relies on `PartialEq for Ratio<BigInt>`: equality of the denoted
    /// rationals.
    #[verifier::external_body]
    pub fn eq_exact(&self, o: &Scalar) -> (r: bool)
        ensures
            r == q_eq(self@, o@),
    {
        self.r == o.r
    }

    /// Relies on `Zero::is_zero` for `Ratio`: true exactly of the zero
    /// rational (the numerator of a reduced rational is then zero).
    #[verifier::external_body]
    pub fn is_zero(&self) -> (r: bool)
        ensures
            r == (self@.n == 0),
    {
        num::Zero::is_zero(&self.r)
    }

    /// Relies on `Ratio::round`: the nearest integer, half-way cases away
    /// from zero, so the result differs from the argument by at most 1/2.
    #[verifier::external_body]
    pub(crate) fn round_nearest(&self) -> (r: Scalar)
        ensures
            r@.wf(),
            r@.d == 1,
            -self@.d <= 2 * (r@.n * self@.d - self@.n) <= self@.d,
    {
        Scalar { r: self.r.round() }
    }

    /// Relies on `Ratio::numer`: the numerator of the reduced fraction.
    #[verifier::external_body]
    pub(crate) fn numer_big(&self) -> (r: num::bigint::BigInt)
        ensures
            bval(r) == self@.n,
    {
        self.r.numer().clone()
    }

    /// Relies on `Ratio::denom`: the denominator of the reduced fraction.
    #[verifier::external_body]
    pub(crate) fn denom_big(&self) -> (r: num::bigint::BigInt)
        ensures
            bval(r) == self@.d,
    {
        self.r.denom().clone()
    }

    /// The scalar `i`.
    pub fn from_int(i: i64) -> (r: Scalar)
        ensures
            r@.wf(),
            q_eq(r@, q_int(i as int)),
    {
        let n = big_from_i64(i);
        let d = big_from_i64(1);
        Scalar::new_big(n, d)
    }

    /// The scalar `n/d`.
    pub fn ratio(n: i64, d: i64) -> (r: Scalar)
        requires
            d != 0,
        ensures
            r@.wf(),
            q_eq(r@, Qv { n: n as int, d: d as int }),
    {
        let nb = big_from_i64(n);
        let db = big_from_i64(d);
        Scalar::new_big(nb, db)
    }

    /// The scalar `n/d` for arbitrary-precision parts.
    pub(crate) fn from_big_ratio(n: num::bigint::BigInt, d: num::bigint::BigInt) -> (r: Scalar)
        requires
            bval(d) != 0,
        ensures
            r@.wf(),
            r@.n * bval(d) == bval(n) * r@.d,
    {
        Scalar::new_big(n, d)
    }

    pub fn zero() -> (r: Scalar)
        ensures
            r@.wf(),
            q_eq(r@, q_zero()),
    {
        Scalar::from_int(0)
    }

    pub fn one() -> (r: Scalar)
        ensures
            r@.wf(),
            q_eq(r@, q_one()),
    {
        Scalar::from_int(1)
    }

    /// The fixed comparison tolerance.
    pub(crate) fn eps() -> (r: Scalar)
        ensures
            r@.wf(),
            q_eq(r@, q_eps()),
    {
        Scalar::ratio(1, 1000000000)
    }

    /// Absolute value.
    pub(crate) fn abs_val(&self) -> (r: Scalar)
        ensures
            r@.wf(),
            forall|va: Qv| #[trigger] repr_q(*self, va) ==> repr_q(r, q_abs(va)),
    {
        proof {
            use_type_invariant(&*self);
        }
        let z = Scalar::zero();
        if self.lt(&z) {
            let r = self.neg();
            proof {
                lemma_q_cmp_congruence(self@, self@, z@, q_zero());
                lemma_q_sign(self@);
                assert forall|va: Qv| #[trigger] repr_q(*self, va) implies repr_q(r, q_abs(va)) by {
                    lemma_q_sign_transfer(self@, va);
                    assert(q_abs(va) == q_neg(va));
                }
            }
            r
        } else {
            let r = self.clone();
            proof {
                lemma_q_cmp_congruence(self@, self@, z@, q_zero());
                lemma_q_sign(self@);
                assert forall|va: Qv| #[trigger] repr_q(*self, va) implies repr_q(r, q_abs(va)) by {
                    lemma_q_sign_transfer(self@, va);
                    assert(q_abs(va) == va);
                }
            }
            r
        }
    }
}

impl Scalar {
    /// Relies on `Display for Ratio<BigInt>`: the exact rational as text,
    /// `n/d` in lowest terms, or just `n` for an integer.
    #[verifier::external_body]
    pub fn to_text(&self) -> String {
        format!("{}", self.r)
    }
}

impl Clone for Scalar {
    /// Relies on `Clone for Ratio<BigInt>`: an equal rational.
    #[verifier::external_body]
    fn clone(&self) -> (r: Self)
        ensures
            r@ == self@,
    {
        Scalar { r: self.r.clone() }
    }
}

/// Division that reports the degenerate case instead of faulting: `None`
/// exactly when the divisor is zero, otherwise the exact quotient.
pub fn divide(a: &Scalar, b: &Scalar) -> (r: Option<Scalar>)
    ensures
        (b@.n == 0) <==> (r is None),
        r matches Some(s) ==> s@.wf() && q_eq(s@, q_div(a@, b@)),
{
    proof {
        use_type_invariant(&*a);
        use_type_invariant(&*b);
    }
    if b.is_zero() {
        None
    } else {
        proof {
            assert(repr_q(*a, a@));
            assert(repr_q(*b, b@));
        }
        let s = a.div(b);
        Some(s)
    }
}

/// Equality under the fixed tolerance: true exactly when the two scalars
/// are within `q_eps` of one another.
pub fn eq_eps(a: &Scalar, b: &Scalar) -> (r: bool)
    ensures
        r == q_close(a@, b@),
{
    proof {
        use_type_invariant(&*a);
        use_type_invariant(&*b);
        assert(repr_q(*a, a@));
        assert(repr_q(*b, b@));
    }
    let d = a.sub(b);
    let ad = d.abs_val();
    let e = Scalar::eps();
    let r = ad.lt(&e);
    proof {
        assert(repr_q(d, q_sub(a@, b@)));
        assert(repr_q(ad, q_abs(q_sub(a@, b@))));
        lemma_q_cmp_congruence(ad@, q_abs(q_sub(a@, b@)), e@, q_eps());
    }
    r
}

} // verus!
