//! Planar primitives of the kernel: points and directed segments, with
//! their mathematical views and the local predicates (length, coincidence,
//! interpolation, position along a segment).
//!
//! All coordinates are exact rationals, so the predicates are evaluated
//! exactly: a point is coincident with a segment when it lies on the
//! carrying line (zero cross product) between the endpoints (projection
//! within bounds), which in exact arithmetic is the distance-sum criterion
//! with the tolerance collapsed to equality. Only the Euclidean length
//! itself is approximate, through a scaled integer square root with a
//! stated error bound.

use vstd::prelude::*;

use crate::rational::{
    q_abs, q_add, q_close, q_div, q_eq, q_le, q_lt, q_mul, q_sub, q_zero,
    lemma_q_abs_congruence, lemma_q_add_congruence, lemma_q_cmp_congruence, lemma_q_eq_trans,
    lemma_q_mul_congruence, lemma_q_ops_wf, lemma_q_sign, lemma_q_sign_transfer, Qv,
};
use crate::scalar::{big_from_i64, big_mul, big_sqrt, bval, eq_eps, repr_q, Scalar};

verus! {

/// The mathematical view of a point: a pair of rationals.
pub ghost struct Qpt {
    pub x: Qv,
    pub y: Qv,
}

impl Qpt {
    pub open spec fn wf(self) -> bool {
        self.x.wf() && self.y.wf()
    }
}

/// The mathematical view of a directed segment.
pub ghost struct Qline {
    pub p1: Qpt,
    pub p2: Qpt,
}

impl Qline {
    pub open spec fn wf(self) -> bool {
        self.p1.wf() && self.p2.wf()
    }
}

pub open spec fn qp_sub(a: Qpt, b: Qpt) -> Qpt {
    Qpt { x: q_sub(a.x, b.x), y: q_sub(a.y, b.y) }
}

pub open spec fn qp_add(a: Qpt, b: Qpt) -> Qpt {
    Qpt { x: q_add(a.x, b.x), y: q_add(a.y, b.y) }
}

pub open spec fn qp_scale(a: Qpt, k: Qv) -> Qpt {
    Qpt { x: q_mul(a.x, k), y: q_mul(a.y, k) }
}

pub open spec fn q_dot(a: Qpt, b: Qpt) -> Qv {
    q_add(q_mul(a.x, b.x), q_mul(a.y, b.y))
}

pub open spec fn q_cross(a: Qpt, b: Qpt) -> Qv {
    q_sub(q_mul(a.x, b.y), q_mul(a.y, b.x))
}

/// The two points denote the same pair of rationals.
pub open spec fn qp_eqv(a: Qpt, b: Qpt) -> bool {
    q_eq(a.x, b.x) && q_eq(a.y, b.y)
}

/// The two points are within the fixed tolerance, coordinatewise.
pub open spec fn qp_close(a: Qpt, b: Qpt) -> bool {
    q_close(a.x, b.x) && q_close(a.y, b.y)
}

/// An immutable pair of scalar coordinates.
#[derive(Debug)]
pub struct Point {
    pub x: Scalar,
    pub y: Scalar,
}

impl View for Point {
    type V = Qpt;

    open spec fn view(&self) -> Qpt {
        Qpt { x: self.x@, y: self.y@ }
    }
}

/// `v` is a fraction form, coordinate by coordinate, of the point `p`.
pub open spec fn repr_qp(p: Point, v: Qpt) -> bool {
    v.wf() && q_eq(p@.x, v.x) && q_eq(p@.y, v.y)
}

impl Clone for Point {
    fn clone(&self) -> (r: Self)
        ensures
            r@ == self@,
    {
        Point { x: self.x.clone(), y: self.y.clone() }
    }
}

impl PartialEq for Point {
    /// Equality of points is tolerance equality on both coordinates,
    /// as everywhere in the kernel.
    fn eq(&self, o: &Point) -> (r: bool) {
        eq_eps(&self.x, &o.x) && eq_eps(&self.y, &o.y)
    }
}

impl vstd::std_specs::cmp::PartialEqSpecImpl for Point {
    open spec fn obeys_eq_spec() -> bool {
        true
    }

    open spec fn eq_spec(&self, o: &Point) -> bool {
        qp_close(self@, o@)
    }
}

impl Point {
    /// Componentwise difference.
    pub fn sub(&self, o: &Point) -> (r: Point)
        ensures
            r@.wf(),
            forall|va: Qpt, vb: Qpt|
                #![trigger repr_qp(*self, va), repr_qp(*o, vb)]
                repr_qp(*self, va) && repr_qp(*o, vb) ==> repr_qp(r, qp_sub(va, vb)),
    {
        let r = Point { x: self.x.sub(&o.x), y: self.y.sub(&o.y) };
        proof {
            assert forall|va: Qpt, vb: Qpt|
                repr_qp(*self, va) && repr_qp(*o, vb) implies repr_qp(
                r,
                qp_sub(va, vb),
            ) by {
                assert(repr_q(self.x, va.x));
                assert(repr_q(o.x, vb.x));
                assert(repr_q(self.y, va.y));
                assert(repr_q(o.y, vb.y));
            }
        }
        r
    }

    /// Componentwise sum.
    pub fn add(&self, o: &Point) -> (r: Point)
        ensures
            r@.wf(),
            forall|va: Qpt, vb: Qpt|
                #![trigger repr_qp(*self, va), repr_qp(*o, vb)]
                repr_qp(*self, va) && repr_qp(*o, vb) ==> repr_qp(r, qp_add(va, vb)),
    {
        let r = Point { x: self.x.add(&o.x), y: self.y.add(&o.y) };
        proof {
            assert forall|va: Qpt, vb: Qpt|
                repr_qp(*self, va) && repr_qp(*o, vb) implies repr_qp(
                r,
                qp_add(va, vb),
            ) by {
                assert(repr_q(self.x, va.x));
                assert(repr_q(o.x, vb.x));
                assert(repr_q(self.y, va.y));
                assert(repr_q(o.y, vb.y));
            }
        }
        r
    }

    /// Both coordinates multiplied by `alpha`.
    pub fn scale(&self, alpha: Scalar) -> (r: Point)
        ensures
            r@.wf(),
            forall|va: Qpt, vk: Qv|
                #![trigger repr_qp(*self, va), repr_q(alpha, vk)]
                repr_qp(*self, va) && repr_q(alpha, vk) ==> repr_qp(r, qp_scale(va, vk)),
    {
        let r = Point { x: self.x.mul(&alpha), y: self.y.mul(&alpha) };
        proof {
            assert forall|va: Qpt, vk: Qv|
                repr_qp(*self, va) && repr_q(alpha, vk) implies repr_qp(
                r,
                qp_scale(va, vk),
            ) by {
                assert(repr_q(self.x, va.x));
                assert(repr_q(self.y, va.y));
            }
        }
        r
    }

    /// Scalar product with `other`.
    pub fn dot(&self, other: Point) -> (r: Scalar)
        ensures
            r@.wf(),
            forall|va: Qpt, vb: Qpt|
                #![trigger repr_qp(*self, va), repr_qp(other, vb)]
                repr_qp(*self, va) && repr_qp(other, vb) ==> repr_q(r, q_dot(va, vb)),
    {
        let r = self.x.mul(&other.x).add(&self.y.mul(&other.y));
        proof {
            assert forall|va: Qpt, vb: Qpt|
                repr_qp(*self, va) && repr_qp(other, vb) implies repr_q(
                r,
                q_dot(va, vb),
            ) by {
                assert(repr_q(self.x, va.x));
                assert(repr_q(other.x, vb.x));
                assert(repr_q(self.y, va.y));
                assert(repr_q(other.y, vb.y));
            }
        }
        r
    }
}

/// The z component of the cross product of two plane vectors.
pub(crate) fn cross_scalar(a: &Point, b: &Point) -> (r: Scalar)
    ensures
        r@.wf(),
        forall|va: Qpt, vb: Qpt|
            #![trigger repr_qp(*a, va), repr_qp(*b, vb)]
            repr_qp(*a, va) && repr_qp(*b, vb) ==> repr_q(r, q_cross(va, vb)),
{
    let r = a.x.mul(&b.y).sub(&a.y.mul(&b.x));
    proof {
        assert forall|va: Qpt, vb: Qpt|
            repr_qp(*a, va) && repr_qp(*b, vb) implies repr_q(r, q_cross(va, vb)) by {
            assert(repr_q(a.x, va.x));
            assert(repr_q(b.x, vb.x));
            assert(repr_q(a.y, va.y));
            assert(repr_q(b.y, vb.y));
        }
    }
    r
}

/// The precision of the approximate square root: lengths are computed to
/// within `1/10^12`, well inside the comparison tolerance of `1/10^9`.
pub open spec fn q_prec() -> Qv {
    Qv { n: 1, d: 1000000000000 }
}

/// What `v_distance` promises of its result `r` for an argument with view
/// `p`: exact absolute coordinate deltas for axis-aligned vectors, and for
/// the general case a value `r >= 0` with `r^2 <= x^2 + y^2 < (r + prec)^2`.
pub open spec fn vdist_post(p: Qpt, r: Qv) -> bool {
    let s = q_add(q_mul(p.x, p.x), q_mul(p.y, p.y));
    &&& r.wf()
    &&& q_le(q_zero(), r)
    &&& (p.x.n == 0 ==> q_eq(r, q_abs(p.y)))
    &&& (p.x.n != 0 && p.y.n == 0 ==> q_eq(r, q_abs(p.x)))
    &&& (p.x.n != 0 && p.y.n != 0 ==> {
        &&& q_le(q_mul(r, r), s)
        &&& q_lt(s, q_mul(q_add(r, q_prec()), q_add(r, q_prec())))
    })
    &&& ((p.x.n != 0 || p.y.n != 0) <==> q_lt(q_zero(), r))
}

/// Cross-multiplied square-root bounds, at the integer level: with
/// `t` the truncated root of `n0 * d0 * k^2`, the rational `t/(d0*k)`
/// squares to at most `n0/d0`, and adding `1/k` overshoots it.
proof fn lemma_sqrt_fit(t: int, n0: int, d0: int, k: int) by (nonlinear_arith)
    requires
        t >= 0,
        n0 > 0,
        d0 > 0,
        k > 0,
        t * t <= n0 * d0 * (k * k),
        n0 * d0 * (k * k) < (t + 1) * (t + 1),
    ensures
        t >= 1,
        q_le(q_mul(Qv { n: t, d: d0 * k }, Qv { n: t, d: d0 * k }), Qv { n: n0, d: d0 }),
        q_lt(
            Qv { n: n0, d: d0 },
            q_mul(
                q_add(Qv { n: t, d: d0 * k }, Qv { n: 1, d: k }),
                q_add(Qv { n: t, d: d0 * k }, Qv { n: 1, d: k }),
            ),
        ),
{
}

/// The numerator of a structural sum of squares is non-negative, and zero
/// exactly when both coordinates are zero.
pub(crate) proof fn lemma_sum_squares(x: Qv, y: Qv) by (nonlinear_arith)
    requires
        x.wf(),
        y.wf(),
    ensures
        q_add(q_mul(x, x), q_mul(y, y)).wf(),
        q_add(q_mul(x, x), q_mul(y, y)).n >= 0,
        (q_add(q_mul(x, x), q_mul(y, y)).n == 0) == (x.n == 0 && y.n == 0),
{
}

/// For a well-formed `v`, sign facts of a value equal to `q_abs(v)`.
proof fn lemma_abs_sign(v: Qv, r: Qv) by (nonlinear_arith)
    requires
        v.wf(),
        r.wf(),
        q_eq(r, q_abs(v)),
    ensures
        q_le(q_zero(), r),
        (v.n != 0) == q_lt(q_zero(), r),
{
}

/// Euclidean norm of the vector `p`, exact for axis-aligned vectors and
/// within `q_prec` otherwise (`vdist_post` states the bounds).
pub fn v_distance(p: &Point) -> (r: Scalar)
    ensures
        r@.wf(),
        vdist_post(p@, r@),
{
    proof {
        use_type_invariant(&p.x);
        use_type_invariant(&p.y);
    }
    if p.x.is_zero() {
        let r = p.y.abs_val();
        proof {
            assert(repr_q(p.y, p@.y));
            assert(repr_q(r, q_abs(p@.y)));
            lemma_abs_sign(p@.y, r@);
        }
        r
    } else if p.y.is_zero() {
        let r = p.x.abs_val();
        proof {
            assert(repr_q(p.x, p@.x));
            assert(repr_q(r, q_abs(p@.x)));
            lemma_abs_sign(p@.x, r@);
        }
        r
    } else {
        let xx = p.x.mul(&p.x);
        let yy = p.y.mul(&p.y);
        let s = xx.add(&yy);
        let ghost sv = q_add(q_mul(p@.x, p@.x), q_mul(p@.y, p@.y));
        proof {
            assert(repr_q(p.x, p@.x));
            assert(repr_q(p.y, p@.y));
            assert(repr_q(s, sv));
            lemma_sum_squares(p@.x, p@.y);
            lemma_q_sign_transfer(s@, sv);
        }
        let n0 = s.numer_big();
        let d0 = s.denom_big();
        let k = big_from_i64(1000000000000);
        let ndk = big_mul(&big_mul(&n0, &d0), &big_mul(&k, &k));
        proof {
            assert(bval(ndk) >= 0) by (nonlinear_arith)
                requires
                    bval(ndk) == (s@.n * s@.d) * (1000000000000int * 1000000000000int),
                    s@.n > 0,
                    s@.d > 0,
            ;
        }
        let t = big_sqrt(&ndk);
        let dk = big_mul(&d0, &k);
        proof {
            assert(bval(dk) != 0) by (nonlinear_arith)
                requires
                    bval(dk) == s@.d * 1000000000000int,
                    s@.d > 0,
            ;
        }
        let r = Scalar::from_big_ratio(t, dk);
        proof {
            lemma_sqrt_fit(bval(t), s@.n, s@.d, 1000000000000int);
            let tv = Qv { n: bval(t), d: s@.d * 1000000000000int };
            assert(tv.wf()) by (nonlinear_arith)
                requires
                    s@.d > 0,
                    tv.d == s@.d * 1000000000000int,
            ;
            assert(q_eq(r@, tv));
            // Shift the concrete bounds onto the result's own view and the
            // structural sum of squares.
            let cv = Qv { n: s@.n, d: s@.d };
            assert(cv == s@);
            lemma_q_mul_congruence(r@, tv, r@, tv);
            lemma_q_cmp_congruence(q_mul(r@, r@), q_mul(tv, tv), s@, s@);
            lemma_q_cmp_congruence(q_mul(r@, r@), q_mul(r@, r@), s@, sv);
            let bump = q_add(tv, q_prec());
            let bump_r = q_add(r@, q_prec());
            lemma_q_add_congruence(r@, tv, q_prec(), q_prec());
            lemma_q_mul_congruence(bump_r, bump, bump_r, bump);
            lemma_q_cmp_congruence(s@, s@, q_mul(bump, bump), q_mul(bump_r, bump_r));
            lemma_q_cmp_congruence(s@, sv, q_mul(bump_r, bump_r), q_mul(bump_r, bump_r));
            // Positivity of the result.
            assert(q_lt(q_zero(), tv)) by (nonlinear_arith)
                requires
                    tv.n >= 1,
                    tv.d > 0,
            ;
            lemma_q_sign(tv);
            lemma_q_sign_transfer(r@, tv);
            lemma_q_sign(r@);
        }
        r
    }
}

/// Euclidean distance between two points, with the same exactness and
/// bounds as `v_distance` of their difference.
pub fn p_distance(p1: &Point, p2: &Point) -> (r: Scalar)
    ensures
        r@.wf(),
        vdist_post(qp_sub(p1@, p2@), r@),
{
    proof {
        use_type_invariant(&p1.x);
        use_type_invariant(&p1.y);
        use_type_invariant(&p2.x);
        use_type_invariant(&p2.y);
        assert(repr_qp(*p1, p1@));
        assert(repr_qp(*p2, p2@));
    }
    let d = p1.sub(p2);
    let r = v_distance(&d);
    proof {
        assert(repr_qp(d, qp_sub(p1@, p2@)));
        lemma_vdist_congruence(d@, qp_sub(p1@, p2@), r@);
    }
    r
}

/// `vdist_post` depends only on the rationals the point denotes.
proof fn lemma_vdist_congruence(a: Qpt, b: Qpt, r: Qv)
    requires
        a.wf(),
        b.wf(),
        qp_eqv(a, b),
        vdist_post(a, r),
    ensures
        vdist_post(b, r),
{
    lemma_q_sign_transfer(a.x, b.x);
    lemma_q_sign_transfer(a.y, b.y);
    lemma_q_mul_congruence(a.x, b.x, a.x, b.x);
    lemma_q_mul_congruence(a.y, b.y, a.y, b.y);
    lemma_q_add_congruence(q_mul(a.x, a.x), q_mul(b.x, b.x), q_mul(a.y, a.y), q_mul(b.y, b.y));
    let sa = q_add(q_mul(a.x, a.x), q_mul(a.y, a.y));
    let sb = q_add(q_mul(b.x, b.x), q_mul(b.y, b.y));
    if b.x.n == 0 {
        lemma_q_abs_congruence(a.y, b.y);
        lemma_q_eq_trans(r, q_abs(a.y), q_abs(b.y));
    }
    if b.x.n != 0 && b.y.n == 0 {
        lemma_q_abs_congruence(a.x, b.x);
        lemma_q_eq_trans(r, q_abs(a.x), q_abs(b.x));
    }
    if b.x.n != 0 && b.y.n != 0 {
        lemma_q_mul_congruence(r, r, r, r);
        lemma_q_cmp_congruence(q_mul(r, r), q_mul(r, r), sa, sb);
        let bump = q_add(r, q_prec());
        lemma_q_add_congruence(r, r, q_prec(), q_prec());
        lemma_q_mul_congruence(bump, bump, bump, bump);
        lemma_q_cmp_congruence(sa, sb, q_mul(bump, bump), q_mul(bump, bump));
    }
}

/// A degenerate segment — equal endpoints — is coincident with every
/// point: its direction vector denotes zero, so the collinearity cross
/// product and both projection bounds are zero.
pub proof fn lemma_coincident_degenerate(l: Qline, p: Qpt) by (nonlinear_arith)
    requires
        l.wf(),
        p.wf(),
        qp_eqv(l.p1, l.p2),
    ensures
        coincident_spec(l, p),
{
}

/// Whether a point lies on a segment depends only on the rationals the
/// point denotes.
pub proof fn lemma_coincident_congruence(e: Qline, p: Qpt, p2: Qpt)
    requires
        e.wf(),
        p.wf(),
        p2.wf(),
        qp_eqv(p, p2),
    ensures
        coincident_spec(e, p) == coincident_spec(e, p2),
{
    let dv = qp_sub(e.p2, e.p1);
    let pv = qp_sub(p, e.p1);
    let pv2 = qp_sub(p2, e.p1);
    lemma_q_add_congruence(p.x, p2.x, e.p1.x, e.p1.x);
    lemma_q_add_congruence(p.y, p2.y, e.p1.y, e.p1.y);
    lemma_q_ops_wf(e.p2.x, e.p1.x);
    lemma_q_ops_wf(e.p2.y, e.p1.y);
    lemma_q_mul_congruence(pv.x, pv2.x, dv.y, dv.y);
    lemma_q_mul_congruence(pv.y, pv2.y, dv.x, dv.x);
    lemma_q_add_congruence(
        q_mul(pv.x, dv.y),
        q_mul(pv2.x, dv.y),
        q_mul(pv.y, dv.x),
        q_mul(pv2.y, dv.x),
    );
    lemma_q_mul_congruence(pv.x, pv2.x, dv.x, dv.x);
    lemma_q_mul_congruence(pv.y, pv2.y, dv.y, dv.y);
    lemma_q_add_congruence(
        q_mul(pv.x, dv.x),
        q_mul(pv2.x, dv.x),
        q_mul(pv.y, dv.y),
        q_mul(pv2.y, dv.y),
    );
    lemma_q_ops_wf(dv.x, dv.x);
    lemma_q_ops_wf(dv.y, dv.y);
    lemma_q_ops_wf(q_mul(dv.x, dv.x), q_mul(dv.y, dv.y));
    lemma_q_cmp_congruence(q_cross(pv, dv), q_cross(pv2, dv), q_zero(), q_zero());
    lemma_q_cmp_congruence(q_zero(), q_zero(), q_dot(pv, dv), q_dot(pv2, dv));
    lemma_q_cmp_congruence(q_dot(pv, dv), q_dot(pv2, dv), q_dot(dv, dv), q_dot(dv, dv));
}

/// The projection key `q_dist_along` of a well-formed point on a
/// non-degenerate segment is well formed.
pub proof fn lemma_key_wf(l: Qline, p: Qpt)
    requires
        l.wf(),
        p.wf(),
        !qp_eqv(l.p1, l.p2),
    ensures
        q_dist_along(l, p).wf(),
{
    let dv = qp_sub(l.p2, l.p1);
    lemma_q_ops_wf(l.p2.x, l.p1.x);
    lemma_q_ops_wf(l.p2.y, l.p1.y);
    lemma_q_ops_wf(p.x, l.p1.x);
    lemma_q_ops_wf(p.y, l.p1.y);
    let pv = qp_sub(p, l.p1);
    lemma_q_ops_wf(pv.x, dv.x);
    lemma_q_ops_wf(pv.y, dv.y);
    lemma_q_ops_wf(q_mul(pv.x, dv.x), q_mul(pv.y, dv.y));
    lemma_sum_squares(dv.x, dv.y);
    lemma_q_ops_wf(q_dot(pv, dv), q_dot(dv, dv));
}

/// A directed segment between two points.
#[derive(Debug)]
pub struct Line {
    pub p1: Point,
    pub p2: Point,
}

impl View for Line {
    type V = Qline;

    open spec fn view(&self) -> Qline {
        Qline { p1: self.p1@, p2: self.p2@ }
    }
}

impl Clone for Line {
    fn clone(&self) -> (r: Self)
        ensures
            r@ == self@,
    {
        Line { p1: self.p1.clone(), p2: self.p2.clone() }
    }
}

impl PartialEq for Line {
    fn eq(&self, o: &Line) -> (r: bool) {
        self.p1 == o.p1 && self.p2 == o.p2
    }
}

impl vstd::std_specs::cmp::PartialEqSpecImpl for Line {
    open spec fn obeys_eq_spec() -> bool {
        true
    }

    open spec fn eq_spec(&self, o: &Line) -> bool {
        qp_close(self@.p1, o@.p1) && qp_close(self@.p2, o@.p2)
    }
}

/// The point of the carrying line at parameter `t`: `p1 + (p2 - p1) * t`.
pub open spec fn q_interp(l: Qline, t: Qv) -> Qpt {
    qp_add(l.p1, qp_scale(qp_sub(l.p2, l.p1), t))
}

/// `p` lies on the finite segment `l`: on the carrying line (zero cross
/// product with the direction) with its projection between the endpoints.
/// In exact arithmetic this is the sum-of-distances criterion. For a
/// degenerate segment (equal endpoints) the criterion holds of every
/// point — the cross product and both projection bounds collapse to zero;
/// `lemma_coincident_degenerate` states this explicitly, settling the
/// open case rather than leaving it implicit.
pub open spec fn coincident_spec(l: Qline, p: Qpt) -> bool {
    let dv = qp_sub(l.p2, l.p1);
    let pv = qp_sub(p, l.p1);
    &&& q_eq(q_cross(pv, dv), q_zero())
    &&& q_le(q_zero(), q_dot(pv, dv))
    &&& q_le(q_dot(pv, dv), q_dot(dv, dv))
}

/// The fraction of the way along `l` at which `p` lies: the projection of
/// `p - p1` onto the direction, divided by the squared length. For a
/// coincident point this is the distance from `p1` as a fraction of the
/// segment's length, computed without the radical.
pub open spec fn q_dist_along(l: Qline, p: Qpt) -> Qv {
    let dv = qp_sub(l.p2, l.p1);
    q_div(q_dot(qp_sub(p, l.p1), dv), q_dot(dv, dv))
}

impl Line {
    pub fn new(p1: Point, p2: Point) -> (r: Line)
        ensures
            r@.p1 == p1@,
            r@.p2 == p2@,
    {
        Line { p1, p2 }
    }

    /// The segment's Euclidean length, within `q_prec` (`vdist_post`).
    pub fn len(&self) -> (r: Scalar)
        ensures
            r@.wf(),
            vdist_post(qp_sub(self@.p1, self@.p2), r@),
    {
        p_distance(&self.p1, &self.p2)
    }

    /// Whether `point` lies on this finite segment, exactly. A segment
    /// with equal endpoints counts every point as coincident (the
    /// degenerate case is explicit, not an error).
    pub fn coincident(&self, point: &Point) -> (r: bool)
        ensures
            r == coincident_spec(self@, point@),
            qp_eqv(self@.p1, self@.p2) ==> r,
    {
        proof {
            if qp_eqv(self@.p1, self@.p2) {
                use_type_invariant(&point.x);
                use_type_invariant(&point.y);
                use_type_invariant(&self.p1.x);
                use_type_invariant(&self.p1.y);
                use_type_invariant(&self.p2.x);
                use_type_invariant(&self.p2.y);
                lemma_coincident_degenerate(self@, point@);
            }
        }
        proof {
            use_type_invariant(&self.p1.x);
            use_type_invariant(&self.p1.y);
            use_type_invariant(&self.p2.x);
            use_type_invariant(&self.p2.y);
            use_type_invariant(&point.x);
            use_type_invariant(&point.y);
            assert(repr_qp(self.p1, self@.p1));
            assert(repr_qp(self.p2, self@.p2));
            assert(repr_qp(*point, point@));
        }
        let dv = self.p2.sub(&self.p1);
        let pv = point.sub(&self.p1);
        let ghost dvv = qp_sub(self@.p2, self@.p1);
        let ghost pvv = qp_sub(point@, self@.p1);
        let cr = cross_scalar(&pv, &dv);
        proof {
            assert(repr_qp(dv, dvv));
            assert(repr_qp(pv, pvv));
            assert(repr_q(cr, q_cross(pvv, dvv)));
            lemma_q_sign_transfer(cr@, q_cross(pvv, dvv));
        }
        if !cr.is_zero() {
            return false;
        }
        let dv2 = dv.clone();
        let dv3 = dv.clone();
        let t = pv.dot(dv2);
        let l2 = dv.dot(dv3);
        let z = Scalar::zero();
        proof {
            assert(repr_qp(dv2, dvv));
            assert(repr_qp(dv3, dvv));
            assert(repr_q(t, q_dot(pvv, dvv)));
            assert(repr_q(l2, q_dot(dvv, dvv)));
            lemma_q_cmp_congruence(z@, q_zero(), t@, q_dot(pvv, dvv));
            lemma_q_cmp_congruence(t@, q_dot(pvv, dvv), l2@, q_dot(dvv, dvv));
        }
        z.le(&t) && t.le(&l2)
    }

    /// The point at parameter `alpha` along the carrying line; `alpha`
    /// outside `[0, 1]` extrapolates.
    pub fn interpolate(&self, alpha: Scalar) -> (r: Point)
        ensures
            r@.wf(),
            qp_eqv(r@, q_interp(self@, alpha@)),
    {
        proof {
            use_type_invariant(&self.p1.x);
            use_type_invariant(&self.p1.y);
            use_type_invariant(&self.p2.x);
            use_type_invariant(&self.p2.y);
            use_type_invariant(&alpha);
            assert(repr_qp(self.p1, self@.p1));
            assert(repr_qp(self.p2, self@.p2));
            assert(repr_q(alpha, alpha@));
        }
        let d = self.p2.sub(&self.p1);
        let s = d.scale(alpha);
        let r = self.p1.add(&s);
        proof {
            assert(repr_qp(d, qp_sub(self@.p2, self@.p1)));
            assert(repr_qp(s, qp_scale(qp_sub(self@.p2, self@.p1), alpha@)));
            assert(repr_qp(r, q_interp(self@, alpha@)));
        }
        r
    }

    /// The two halves of this segment split at parameter `alpha`; both
    /// share the interpolated point.
    pub fn split(&self, alpha: Scalar) -> (r: (Line, Line))
        ensures
            r.0@.p1 == self@.p1,
            qp_eqv(r.0@.p2, q_interp(self@, alpha@)),
            qp_eqv(r.1@.p1, q_interp(self@, alpha@)),
            r.1@.p2 == self@.p2,
            r.0@.p2.wf(),
    {
        let mid = self.interpolate(alpha);
        let l1 = Line::new(self.p1.clone(), mid.clone());
        let l2 = Line::new(mid, self.p2.clone());
        (l1, l2)
    }

    /// How far along this segment the point `p` lies, as the exact
    /// projection parameter (`q_dist_along`); meaningful for coincident
    /// points. The segment must not be degenerate.
    pub fn dist_along(&self, p: &Point) -> (r: Scalar)
        requires
            !qp_eqv(self@.p1, self@.p2),
        ensures
            r@.wf(),
            q_eq(r@, q_dist_along(self@, p@)),
    {
        proof {
            use_type_invariant(&self.p1.x);
            use_type_invariant(&self.p1.y);
            use_type_invariant(&self.p2.x);
            use_type_invariant(&self.p2.y);
            use_type_invariant(&p.x);
            use_type_invariant(&p.y);
            assert(repr_qp(self.p1, self@.p1));
            assert(repr_qp(self.p2, self@.p2));
            assert(repr_qp(*p, p@));
        }
        let dv = self.p2.sub(&self.p1);
        let pv = p.sub(&self.p1);
        let ghost dvv = qp_sub(self@.p2, self@.p1);
        let dv2 = dv.clone();
        let dv3 = dv.clone();
        let t = pv.dot(dv2);
        let l2 = dv.dot(dv3);
        proof {
            assert(repr_qp(dv, dvv));
            assert(repr_qp(dv2, dvv));
            assert(repr_qp(dv3, dvv));
            assert(repr_q(t, q_dot(qp_sub(p@, self@.p1), dvv)));
            assert(repr_q(l2, q_dot(dvv, dvv)));
            lemma_sum_squares(dvv.x, dvv.y);
            lemma_q_sign_transfer(l2@, q_dot(dvv, dvv));
        }
        t.div(&l2)
    }
}

/// The start point advanced by one unit along the direction `dir`:
/// `start + dir / |dir|`, with the length from `v_distance` (exact for
/// axis-aligned directions, within `q_prec` otherwise).
pub fn normalize_line(start: &Point, dir: &Point) -> (r: Point)
    requires
        !(q_eq(dir@.x, q_zero()) && q_eq(dir@.y, q_zero())),
    ensures
        r@.wf(),
        exists|vd: Qv|
            {
                &&& #[trigger] vdist_post(dir@, vd)
                &&& q_eq(r@.x, q_add(start@.x, q_mul(dir@.x, q_div(crate::rational::q_one(), vd))))
                &&& q_eq(r@.y, q_add(start@.y, q_mul(dir@.y, q_div(crate::rational::q_one(), vd))))
            },
{
    proof {
        use_type_invariant(&start.x);
        use_type_invariant(&start.y);
        use_type_invariant(&dir.x);
        use_type_invariant(&dir.y);
        assert(repr_qp(*start, start@));
        assert(repr_qp(*dir, dir@));
        lemma_q_sign(dir@.x);
        lemma_q_sign(dir@.y);
    }
    let vd = v_distance(dir);
    let one = Scalar::one();
    proof {
        lemma_q_sign(vd@);
        assert(repr_q(one, crate::rational::q_one()));
        assert(repr_q(vd, vd@));
    }
    let ratio = one.div(&vd);
    let scaled = dir.scale(ratio);
    let r = start.add(&scaled);
    proof {
        assert(repr_q(ratio, q_div(crate::rational::q_one(), vd@)));
        assert(repr_qp(scaled, qp_scale(dir@, q_div(crate::rational::q_one(), vd@))));
        assert(repr_qp(
            r,
            qp_add(start@, qp_scale(dir@, q_div(crate::rational::q_one(), vd@))),
        ));
        assert(vdist_post(dir@, vd@));
    }
    r
}

} // verus!
