//! The mathematical model of the scalar domain: an exact rational number,
//! represented in specifications as a numerator/denominator pair of
//! unbounded integers. Two pairs denote the same rational when they agree
//! under cross multiplication; `q_eq` is that relation, and the `q_*`
//! operations mirror ordinary fraction arithmetic.

use vstd::prelude::*;

verus! {

/// A rational number as a pair of mathematical integers. A pair is
/// well formed when its denominator is positive; every value produced
/// by the executable scalar layer is well formed.
pub ghost struct Qv {
    pub n: int,
    pub d: int,
}

impl Qv {
    /// Well-formedness: a positive denominator.
    pub open spec fn wf(self) -> bool {
        self.d > 0
    }
}

/// The rational `i/1`.
pub open spec fn q_int(i: int) -> Qv {
    Qv { n: i, d: 1 }
}

pub open spec fn q_zero() -> Qv {
    q_int(0)
}

pub open spec fn q_one() -> Qv {
    q_int(1)
}

/// `a` and `b` denote the same rational (cross multiplication).
pub open spec fn q_eq(a: Qv, b: Qv) -> bool {
    a.n * b.d == b.n * a.d
}

/// `a < b` as rationals; the product with `a.d * b.d` makes the form
/// valid for any nonzero denominators, of either sign.
pub open spec fn q_lt(a: Qv, b: Qv) -> bool {
    (a.n * b.d - b.n * a.d) * (a.d * b.d) < 0
}

pub open spec fn q_le(a: Qv, b: Qv) -> bool {
    (a.n * b.d - b.n * a.d) * (a.d * b.d) <= 0
}

pub open spec fn q_add(a: Qv, b: Qv) -> Qv {
    Qv { n: a.n * b.d + b.n * a.d, d: a.d * b.d }
}

pub open spec fn q_sub(a: Qv, b: Qv) -> Qv {
    Qv { n: a.n * b.d - b.n * a.d, d: a.d * b.d }
}

pub open spec fn q_mul(a: Qv, b: Qv) -> Qv {
    Qv { n: a.n * b.n, d: a.d * b.d }
}

/// Exact division; the sign of the divisor's numerator is moved into the
/// numerator of the result so that well-formed arguments with a nonzero
/// divisor yield a well-formed result.
pub open spec fn q_div(a: Qv, b: Qv) -> Qv {
    if b.n >= 0 {
        Qv { n: a.n * b.d, d: a.d * b.n }
    } else {
        Qv { n: -(a.n * b.d), d: -(a.d * b.n) }
    }
}

pub open spec fn q_neg(a: Qv) -> Qv {
    Qv { n: -a.n, d: a.d }
}

/// Absolute value of a well-formed rational.
pub open spec fn q_abs(a: Qv) -> Qv {
    if a.n >= 0 {
        a
    } else {
        q_neg(a)
    }
}

/// The fixed tolerance under which two scalars count as equal.
pub open spec fn q_eps() -> Qv {
    Qv { n: 1, d: 1000000000 }
}

/// `a` and `b` are within the fixed tolerance of one another.
pub open spec fn q_close(a: Qv, b: Qv) -> bool {
    q_lt(q_abs(q_sub(a, b)), q_eps())
}

/// For a well-formed rational the comparisons against zero follow the
/// sign of the numerator.
pub proof fn lemma_q_sign(a: Qv) by (nonlinear_arith)
    requires
        a.wf(),
    ensures
        q_lt(a, q_zero()) == (a.n < 0),
        q_lt(q_zero(), a) == (a.n > 0),
        q_le(a, q_zero()) == (a.n <= 0),
        q_le(q_zero(), a) == (a.n >= 0),
        q_eq(a, q_zero()) == (a.n == 0),
{
}

/// Equal well-formed rationals have numerators of the same sign.
pub proof fn lemma_q_sign_transfer(a: Qv, b: Qv) by (nonlinear_arith)
    requires
        a.wf(),
        b.wf(),
        q_eq(a, b),
    ensures
        (a.n < 0) == (b.n < 0),
        (a.n == 0) == (b.n == 0),
        (a.n > 0) == (b.n > 0),
{
}

pub proof fn lemma_q_eq_sym(a: Qv, b: Qv)
    ensures
        q_eq(a, b) == q_eq(b, a),
{
}

pub proof fn lemma_q_eq_trans(a: Qv, b: Qv, c: Qv) by (nonlinear_arith)
    requires
        b.d != 0,
        q_eq(a, b),
        q_eq(b, c),
    ensures
        q_eq(a, c),
{
}

/// Equal rationals compare equally against equal rationals.
pub proof fn lemma_q_cmp_congruence(a: Qv, a2: Qv, b: Qv, b2: Qv) by (nonlinear_arith)
    requires
        a.wf(),
        a2.wf(),
        b.wf(),
        b2.wf(),
        q_eq(a, a2),
        q_eq(b, b2),
    ensures
        q_lt(a, b) == q_lt(a2, b2),
        q_le(a, b) == q_le(a2, b2),
        q_eq(a, b) == q_eq(a2, b2),
{
}

/// Congruence of addition and subtraction in the left argument.
proof fn lemma_q_add_congruence_left(a: Qv, a2: Qv, b: Qv) by (nonlinear_arith)
    requires
        a.wf(),
        a2.wf(),
        b.wf(),
        q_eq(a, a2),
    ensures
        q_eq(q_add(a, b), q_add(a2, b)),
        q_eq(q_sub(a, b), q_sub(a2, b)),
        q_add(a, b).wf(),
        q_add(a2, b).wf(),
        q_sub(a, b).wf(),
        q_sub(a2, b).wf(),
{
}

/// Congruence of subtraction in the right argument.
proof fn lemma_q_sub_congruence_right(a: Qv, a2: Qv, b: Qv) by (nonlinear_arith)
    requires
        a.wf(),
        a2.wf(),
        b.wf(),
        q_eq(a, a2),
    ensures
        q_eq(q_sub(b, a), q_sub(b, a2)),
        q_sub(b, a).wf(),
        q_sub(b, a2).wf(),
{
}

pub proof fn lemma_q_add_congruence(a: Qv, a2: Qv, b: Qv, b2: Qv)
    requires
        a.wf(),
        a2.wf(),
        b.wf(),
        b2.wf(),
        q_eq(a, a2),
        q_eq(b, b2),
    ensures
        q_eq(q_add(a, b), q_add(a2, b2)),
        q_eq(q_sub(a, b), q_sub(a2, b2)),
        q_add(a, b).wf(),
        q_add(a2, b2).wf(),
        q_sub(a, b).wf(),
        q_sub(a2, b2).wf(),
{
    lemma_q_add_congruence_left(a, a2, b);
    lemma_q_add_congruence_left(b, b2, a2);
    lemma_q_sub_congruence_right(b, b2, a2);
    assert(q_add(a2, b) == q_add(b, a2));
    assert(q_add(a2, b2) == q_add(b2, a2));
    lemma_q_eq_trans(q_add(a, b), q_add(a2, b), q_add(a2, b2));
    lemma_q_eq_trans(q_sub(a, b), q_sub(a2, b), q_sub(a2, b2));
}

/// Tolerance closeness only depends on the rationals denoted.
pub proof fn lemma_q_close_congruence(a: Qv, a2: Qv, b: Qv, b2: Qv)
    requires
        a.wf(),
        a2.wf(),
        b.wf(),
        b2.wf(),
        q_eq(a, a2),
        q_eq(b, b2),
    ensures
        q_close(a, b) == q_close(a2, b2),
{
    lemma_q_add_congruence(a, a2, b, b2);
    lemma_q_abs_congruence(q_sub(a, b), q_sub(a2, b2));
    lemma_q_cmp_congruence(q_abs(q_sub(a, b)), q_abs(q_sub(a2, b2)), q_eps(), q_eps());
}

/// A well-formed rational that is not within tolerance of zero is not
/// zero.
pub proof fn lemma_not_close_zero(a: Qv) by (nonlinear_arith)
    requires
        a.wf(),
        !q_close(a, q_zero()),
    ensures
        a.n != 0,
{
}

/// The order is total on well-formed rationals, and not-below means
/// strictly above.
pub proof fn lemma_q_le_total(a: Qv, b: Qv) by (nonlinear_arith)
    requires
        a.wf(),
        b.wf(),
    ensures
        !q_le(a, b) ==> q_lt(b, a),
        q_lt(a, b) ==> q_le(a, b),
        q_le(a, b) || q_le(b, a),
        q_le(a, b) && !q_lt(a, b) ==> q_eq(a, b),
{
}

/// Adding a zero-numerator rational changes nothing.
pub proof fn lemma_q_add_zero(a: Qv, z: Qv) by (nonlinear_arith)
    requires
        a.wf(),
        z.wf(),
        z.n == 0,
    ensures
        q_eq(q_add(a, z), a),
        q_eq(q_add(z, a), a),
        q_add(a, z).wf(),
        q_add(z, a).wf(),
{
}

/// Multiplying by one changes nothing.
pub proof fn lemma_q_mul_one(a: Qv) by (nonlinear_arith)
    requires
        a.wf(),
    ensures
        q_eq(q_mul(a, q_int(1)), a),
        q_eq(q_mul(q_int(1), a), a),
        q_mul(a, q_int(1)).wf(),
        q_mul(q_int(1), a).wf(),
        q_mul(a, q_int(0)).n == 0,
        q_mul(q_int(0), a).n == 0,
        q_mul(a, q_int(0)).wf(),
        q_mul(q_int(0), a).wf(),
{
}

/// The arithmetic operations preserve well-formedness.
pub proof fn lemma_q_ops_wf(a: Qv, b: Qv) by (nonlinear_arith)
    requires
        a.wf(),
        b.wf(),
    ensures
        q_add(a, b).wf(),
        q_sub(a, b).wf(),
        q_mul(a, b).wf(),
        b.n != 0 ==> q_div(a, b).wf(),
        q_neg(a).wf(),
        q_abs(a).wf(),
{
}

pub proof fn lemma_q_mul_congruence(a: Qv, a2: Qv, b: Qv, b2: Qv) by (nonlinear_arith)
    requires
        a.wf(),
        a2.wf(),
        b.wf(),
        b2.wf(),
        q_eq(a, a2),
        q_eq(b, b2),
    ensures
        q_eq(q_mul(a, b), q_mul(a2, b2)),
        q_mul(a, b).wf(),
        q_mul(a2, b2).wf(),
{
}

pub proof fn lemma_q_abs_congruence(a: Qv, a2: Qv) by (nonlinear_arith)
    requires
        a.wf(),
        a2.wf(),
        q_eq(a, a2),
    ensures
        q_eq(q_abs(a), q_abs(a2)),
        q_abs(a).wf(),
        q_abs(a2).wf(),
{
}

pub proof fn lemma_q_div_congruence(a: Qv, a2: Qv, b: Qv, b2: Qv) by (nonlinear_arith)
    requires
        a.wf(),
        a2.wf(),
        b.wf(),
        b2.wf(),
        b.n != 0,
        b2.n != 0,
        q_eq(a, a2),
        q_eq(b, b2),
    ensures
        q_eq(q_div(a, b), q_div(a2, b2)),
        q_div(a, b).wf(),
        q_div(a2, b2).wf(),
{
}

} // verus!
