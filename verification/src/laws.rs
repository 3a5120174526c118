//! The laws of the kernel, stated and proved over the mathematical model:
//! the composition convention of the affine matrices, the involution of
//! the mirror about an axis through the origin, and the endpoint cases of
//! segment coincidence.

use vstd::prelude::*;

use crate::fold::qm_translate;
use crate::geom::{coincident_spec, qp_add, qp_eqv, Qline, Qpt};
use crate::matrix::{qm_mul, qm_transform, Qmat};
use crate::rational::{q_add, q_eq, q_int, q_mul, q_sub, Qv};

verus! {

/// The product of two translations is the translation by the sum of the
/// offsets, entry by entry.
proof fn lemma_translate_mul(t1: Qpt, t2: Qpt)
    requires
        t1.wf(),
        t2.wf(),
    ensures
        ({
            let m = qm_mul(qm_translate(t1.x, t1.y), qm_translate(t2.x, t2.y));
            &&& q_eq(m.m00, q_int(1)) && q_eq(m.m11, q_int(1)) && q_eq(m.m22, q_int(1))
            &&& m.m01.n == 0 && m.m02.n == 0 && m.m10.n == 0 && m.m12.n == 0
            &&& q_eq(m.m20, q_add(t1.x, t2.x)) && q_eq(m.m21, q_add(t1.y, t2.y))
            &&& m.wf()
        }),
{
    let m = qm_mul(qm_translate(t1.x, t1.y), qm_translate(t2.x, t2.y));
    assert(m.m00.n == m.m00.d && m.m00.d > 0) by (nonlinear_arith)
        requires
            t1.wf(),
            t2.wf(),
            m == qm_mul(qm_translate(t1.x, t1.y), qm_translate(t2.x, t2.y)),
    ;
    assert(m.m11.n == m.m11.d && m.m11.d > 0) by (nonlinear_arith)
        requires
            t1.wf(),
            t2.wf(),
            m == qm_mul(qm_translate(t1.x, t1.y), qm_translate(t2.x, t2.y)),
    ;
    assert(m.m22.n == m.m22.d && m.m22.d > 0) by (nonlinear_arith)
        requires
            t1.wf(),
            t2.wf(),
            m == qm_mul(qm_translate(t1.x, t1.y), qm_translate(t2.x, t2.y)),
    ;
    assert(m.m01.n == 0 && m.m02.n == 0 && m.m10.n == 0 && m.m12.n == 0) by (nonlinear_arith)
        requires
            m == qm_mul(qm_translate(t1.x, t1.y), qm_translate(t2.x, t2.y)),
    ;
    assert(m.m01.d > 0 && m.m02.d > 0 && m.m10.d > 0 && m.m12.d > 0 && m.m20.d > 0 && m.m21.d
        > 0) by (nonlinear_arith)
        requires
            t1.wf(),
            t2.wf(),
            m == qm_mul(qm_translate(t1.x, t1.y), qm_translate(t2.x, t2.y)),
    ;
    lemma_tr_entry_first(t1.x, t1.y, t2.x);
    lemma_tr_entry_second(t1.x, t1.y, t2.y);
}

/// The offset entry formed with the unit in first position denotes the
/// sum of the two offsets.
proof fn lemma_tr_entry_first(a: Qv, b: Qv, c: Qv)
    requires
        a.wf(),
        b.wf(),
        c.wf(),
    ensures
        q_eq(
            q_add(q_add(q_mul(a, q_int(1)), q_mul(b, q_int(0))), q_mul(q_int(1), c)),
            q_add(a, c),
        ),
{
    crate::rational::lemma_q_mul_one(a);
    crate::rational::lemma_q_mul_one(b);
    crate::rational::lemma_q_mul_one(c);
    let ab = q_add(q_mul(a, q_int(1)), q_mul(b, q_int(0)));
    crate::rational::lemma_q_add_zero(q_mul(a, q_int(1)), q_mul(b, q_int(0)));
    crate::rational::lemma_q_eq_trans(ab, q_mul(a, q_int(1)), a);
    crate::rational::lemma_q_add_congruence(ab, a, q_mul(q_int(1), c), c);
}

/// The offset entry formed with the unit in second position denotes the
/// sum of the two offsets.
proof fn lemma_tr_entry_second(a: Qv, b: Qv, c: Qv)
    requires
        a.wf(),
        b.wf(),
        c.wf(),
    ensures
        q_eq(
            q_add(q_add(q_mul(a, q_int(0)), q_mul(b, q_int(1))), q_mul(q_int(1), c)),
            q_add(b, c),
        ),
{
    crate::rational::lemma_q_mul_one(a);
    crate::rational::lemma_q_mul_one(b);
    crate::rational::lemma_q_mul_one(c);
    let ab = q_add(q_mul(a, q_int(0)), q_mul(b, q_int(1)));
    let ba = q_add(q_mul(b, q_int(1)), q_mul(a, q_int(0)));
    crate::rational::lemma_q_add_zero(q_mul(b, q_int(1)), q_mul(a, q_int(0)));
    assert(ab.n == ba.n) by (nonlinear_arith)
        requires
            ab == q_add(q_mul(a, q_int(0)), q_mul(b, q_int(1))),
            ba == q_add(q_mul(b, q_int(1)), q_mul(a, q_int(0))),
    ;
    assert(ab.d == ba.d) by (nonlinear_arith)
        requires
            ab == q_add(q_mul(a, q_int(0)), q_mul(b, q_int(1))),
            ba == q_add(q_mul(b, q_int(1)), q_mul(a, q_int(0))),
    ;
    assert(ab == ba);
    crate::rational::lemma_q_eq_trans(ab, q_mul(b, q_int(1)), b);
    crate::rational::lemma_q_add_congruence(ab, b, q_mul(q_int(1), c), c);
}

/// Applying a matrix that denotes a translation adds the offset to the
/// point.
proof fn lemma_translate_like_action(m: Qmat, tx: Qv, ty: Qv, p: Qpt)
    requires
        m.wf(),
        tx.wf(),
        ty.wf(),
        p.wf(),
        q_eq(m.m00, q_int(1)),
        q_eq(m.m11, q_int(1)),
        m.m01.n == 0,
        m.m10.n == 0,
        q_eq(m.m20, tx),
        q_eq(m.m21, ty),
    ensures
        qp_eqv(qm_transform(m, p), qp_add(p, Qpt { x: tx, y: ty })),
        qm_transform(m, p).wf(),
        qp_add(p, Qpt { x: tx, y: ty }).wf(),
{
    lemma_coord_action(p.x, p.y, m.m00, m.m10, m.m20, tx);
    lemma_coord_action2(p.y, p.x, m.m11, m.m01, m.m21, ty);
    crate::rational::lemma_q_ops_wf(p.x, tx);
    crate::rational::lemma_q_ops_wf(p.y, ty);
}

/// As `lemma_coord_action`, with the two products in the other order, as
/// the second transform coordinate has them.
proof fn lemma_coord_action2(u: Qv, v: Qv, diag: Qv, cross: Qv, off: Qv, t: Qv)
    requires
        u.wf(),
        v.wf(),
        diag.wf(),
        cross.wf(),
        off.wf(),
        t.wf(),
        q_eq(diag, q_int(1)),
        cross.n == 0,
        q_eq(off, t),
    ensures
        q_eq(q_add(q_add(q_mul(v, cross), q_mul(u, diag)), off), q_add(u, t)),
        q_add(q_add(q_mul(v, cross), q_mul(u, diag)), off).wf(),
{
    lemma_coord_action(u, v, diag, cross, off, t);
    assert(q_add(q_mul(v, cross), q_mul(u, diag)) == q_add(q_mul(u, diag), q_mul(v, cross)))
        by (nonlinear_arith);
}

/// One coordinate of a translation-like application: with a unit diagonal
/// entry and a zero cross entry, the result is the coordinate plus the
/// offset.
proof fn lemma_coord_action(u: Qv, v: Qv, diag: Qv, cross: Qv, off: Qv, t: Qv)
    requires
        u.wf(),
        v.wf(),
        diag.wf(),
        cross.wf(),
        off.wf(),
        t.wf(),
        q_eq(diag, q_int(1)),
        cross.n == 0,
        q_eq(off, t),
    ensures
        q_eq(q_add(q_add(q_mul(u, diag), q_mul(v, cross)), off), q_add(u, t)),
        q_add(q_add(q_mul(u, diag), q_mul(v, cross)), off).wf(),
{
    let s1 = q_mul(u, diag);
    let s2 = q_mul(v, cross);
    assert(q_eq(s1, u) && s1.wf()) by (nonlinear_arith)
        requires
            u.wf(),
            diag.wf(),
            q_eq(diag, q_int(1)),
            s1 == q_mul(u, diag),
    ;
    assert(s2.n == 0 && s2.wf()) by (nonlinear_arith)
        requires
            v.wf(),
            cross.wf(),
            cross.n == 0,
            s2 == q_mul(v, cross),
    ;
    crate::rational::lemma_q_add_zero(s1, s2);
    crate::rational::lemma_q_eq_trans(q_add(s1, s2), s1, u);
    crate::rational::lemma_q_add_congruence(q_add(s1, s2), u, off, t);
}

/// The composition convention of the matrices, fixed unambiguously:
/// applying `translate(a, b) * translate(c, d)` to any point equals first
/// translating the point by `(a, b)` and then by `(c, d)`.
pub proof fn lemma_translate_composition(t1: Qpt, t2: Qpt, p: Qpt)
    requires
        t1.wf(),
        t2.wf(),
        p.wf(),
    ensures
        qp_eqv(
            qm_transform(qm_mul(qm_translate(t1.x, t1.y), qm_translate(t2.x, t2.y)), p),
            qm_transform(qm_translate(t2.x, t2.y), qm_transform(qm_translate(t1.x, t1.y), p)),
        ),
{
    let prod = qm_mul(qm_translate(t1.x, t1.y), qm_translate(t2.x, t2.y));
    lemma_translate_mul(t1, t2);
    crate::rational::lemma_q_ops_wf(t1.x, t2.x);
    crate::rational::lemma_q_ops_wf(t1.y, t2.y);
    lemma_translate_like_action(prod, q_add(t1.x, t2.x), q_add(t1.y, t2.y), p);
    lemma_translate_like_action(qm_translate(t1.x, t1.y), t1.x, t1.y, p);
    let mid = qm_transform(qm_translate(t1.x, t1.y), p);
    lemma_translate_like_action(qm_translate(t2.x, t2.y), t2.x, t2.y, mid);
    // p + (t1 + t2) equals (p + t1) + t2, coordinate by coordinate.
    lemma_add_shuffle(p.x, t1.x, t2.x);
    lemma_add_shuffle(p.y, t1.y, t2.y);
    crate::rational::lemma_q_eq_trans(
        qm_transform(prod, p).x,
        q_add(p.x, q_add(t1.x, t2.x)),
        q_add(q_add(p.x, t1.x), t2.x),
    );
    crate::rational::lemma_q_eq_trans(
        qm_transform(prod, p).y,
        q_add(p.y, q_add(t1.y, t2.y)),
        q_add(q_add(p.y, t1.y), t2.y),
    );
    crate::rational::lemma_q_add_congruence(
        mid.x,
        q_add(p.x, t1.x),
        t2.x,
        t2.x,
    );
    crate::rational::lemma_q_add_congruence(
        mid.y,
        q_add(p.y, t1.y),
        t2.y,
        t2.y,
    );
    crate::rational::lemma_q_eq_sym(qm_transform(qm_translate(t2.x, t2.y), mid).x, q_add(mid.x, t2.x));
    crate::rational::lemma_q_eq_trans(
        qm_transform(prod, p).x,
        q_add(q_add(p.x, t1.x), t2.x),
        q_add(mid.x, t2.x),
    );
    crate::rational::lemma_q_eq_trans(
        qm_transform(prod, p).x,
        q_add(mid.x, t2.x),
        qm_transform(qm_translate(t2.x, t2.y), mid).x,
    );
    crate::rational::lemma_q_eq_trans(
        qm_transform(prod, p).y,
        q_add(q_add(p.y, t1.y), t2.y),
        q_add(mid.y, t2.y),
    );
    crate::rational::lemma_q_eq_trans(
        qm_transform(prod, p).y,
        q_add(mid.y, t2.y),
        qm_transform(qm_translate(t2.x, t2.y), mid).y,
    );
}

/// Associativity of rational addition, in the shuffled form the
/// composition law needs.
proof fn lemma_add_shuffle(a: Qv, b: Qv, c: Qv)
    requires
        a.wf(),
        b.wf(),
        c.wf(),
    ensures
        q_eq(q_add(a, q_add(b, c)), q_add(q_add(a, b), c)),
        q_add(a, q_add(b, c)).wf(),
        q_add(q_add(a, b), c).wf(),
{
    let l = q_add(a, q_add(b, c));
    let r = q_add(q_add(a, b), c);
    assert(l.n == r.n && l.d == r.d && l.d > 0) by (nonlinear_arith)
        requires
            a.wf(),
            b.wf(),
            c.wf(),
            l == q_add(a, q_add(b, c)),
            r == q_add(q_add(a, b), c),
    ;
    assert(l == r);
}

/// A segment is coincident with both of its endpoints: the degenerate
/// cases of the coincidence predicate hold exactly.
pub proof fn lemma_coincident_endpoints(l: Qline) by (nonlinear_arith)
    requires
        l.wf(),
    ensures
        coincident_spec(l, l.p1),
        coincident_spec(l, l.p2),
{
}

/// The two mirror coefficients lie on the unit circle: for a direction
/// that is not the zero vector, `A^2 + B^2` denotes 1, where `A` and `B`
/// are the linear entries of `qm_mirror`.
proof fn lemma_mirror_circle(dx: Qv, dy: Qv)
    requires
        dx.wf(),
        dy.wf(),
        !(dx.n == 0 && dy.n == 0),
    ensures
        ({
            let m = crate::fold::qm_mirror(dx, dy);
            &&& q_eq(q_add(q_mul(m.m00, m.m00), q_mul(m.m01, m.m01)), q_int(1))
            &&& m.m00.wf() && m.m01.wf()
        }),
{
    let l2 = q_add(q_mul(dx, dx), q_mul(dy, dy));
    let s0 = q_sub(q_mul(dx, dx), q_mul(dy, dy));
    let num_b = q_mul(q_int(2), q_mul(dx, dy));
    let m = crate::fold::qm_mirror(dx, dy);
    let p = dx.n * dy.d;
    let q = dy.n * dx.d;
    let e = dx.d * dy.d;
    assert(l2.n == p * p + q * q && l2.d == e * e && s0.n == p * p - q * q && s0.d == e * e
        && num_b.n == 2 * (dx.n * dy.n) && num_b.d == e) by (nonlinear_arith)
        requires
            l2 == q_add(q_mul(dx, dx), q_mul(dy, dy)),
            s0 == q_sub(q_mul(dx, dx), q_mul(dy, dy)),
            num_b == q_mul(q_int(2), q_mul(dx, dy)),
            p == dx.n * dy.d,
            q == dy.n * dx.d,
            e == dx.d * dy.d,
    ;
    assert(l2.n > 0 && e > 0) by (nonlinear_arith)
        requires
            dx.d > 0,
            dy.d > 0,
            !(dx.n == 0 && dy.n == 0),
            l2.n == p * p + q * q,
            p == dx.n * dy.d,
            q == dy.n * dx.d,
            e == dx.d * dy.d,
    ;
    let an = m.m00.n;
    let ad = m.m00.d;
    let bn = m.m01.n;
    let bd = m.m01.d;
    assert(an == s0.n * l2.d && ad == s0.d * l2.n && bn == num_b.n * l2.d && bd == num_b.d
        * l2.n) by (nonlinear_arith)
        requires
            l2.n > 0,
            m.m00 == crate::rational::q_div(s0, l2),
            m.m01 == crate::rational::q_div(num_b, l2),
            an == m.m00.n,
            ad == m.m00.d,
            bn == m.m01.n,
            bd == m.m01.d,
    ;
    let r0 = p * p + q * q;
    let sq = p * p - q * q;
    let t2 = 2 * (p * q);
    assert(sq * sq + t2 * t2 == r0 * r0) by (nonlinear_arith)
        requires
            r0 == p * p + q * q,
            sq == p * p - q * q,
            t2 == 2 * (p * q),
    ;
    assert(an == sq * (e * e) && ad == (e * e) * r0 && bn == t2 * e && bd == e * r0)
        by (nonlinear_arith)
        requires
            an == s0.n * l2.d,
            ad == s0.d * l2.n,
            bn == num_b.n * l2.d,
            bd == num_b.d * l2.n,
            s0.n == p * p - q * q,
            s0.d == e * e,
            l2.n == p * p + q * q,
            l2.d == e * e,
            num_b.n == 2 * (dx.n * dy.n),
            num_b.d == e,
            r0 == p * p + q * q,
            sq == p * p - q * q,
            t2 == 2 * (p * q),
            p == dx.n * dy.d,
            q == dy.n * dx.d,
            e == dx.d * dy.d,
    ;
    let f = ((e * e) * e) * r0;
    assert(an * bd == sq * f && bn * ad == t2 * f && ad * bd == f * r0) by (nonlinear_arith)
        requires
            an == sq * (e * e),
            ad == (e * e) * r0,
            bn == t2 * e,
            bd == e * r0,
            f == ((e * e) * e) * r0,
    ;
    assert((sq * f) * (sq * f) + (t2 * f) * (t2 * f) == (f * r0) * (f * r0)) by (nonlinear_arith)
        requires
            sq * sq + t2 * t2 == r0 * r0,
    ;
    assert((an * an) * (bd * bd) + (bn * bn) * (ad * ad) == (ad * ad) * (bd * bd))
        by (nonlinear_arith)
        requires
            an * bd == sq * f,
            bn * ad == t2 * f,
            ad * bd == f * r0,
            (sq * f) * (sq * f) + (t2 * f) * (t2 * f) == (f * r0) * (f * r0),
    ;
    assert(ad > 0 && bd > 0) by (nonlinear_arith)
        requires
            ad == (e * e) * r0,
            bd == e * r0,
            e > 0,
            r0 == l2.n,
            l2.n > 0,
    ;
    assert(q_eq(q_add(q_mul(m.m00, m.m00), q_mul(m.m01, m.m01)), q_int(1))) by (nonlinear_arith)
        requires
            (an * an) * (bd * bd) + (bn * bn) * (ad * ad) == (ad * ad) * (bd * bd),
            an == m.m00.n,
            ad == m.m00.d,
            bn == m.m01.n,
            bd == m.m01.d,
    ;
}

/// Reflecting a point twice across the same axis through the origin
/// returns the original point, exactly: the mirror map of `qm_mirror` is
/// an involution.
pub proof fn lemma_mirror_involution(dx: Qv, dy: Qv, p: Qpt)
    requires
        dx.wf(),
        dy.wf(),
        p.wf(),
        !(dx.n == 0 && dy.n == 0),
    ensures
        qp_eqv(
            qm_transform(
                crate::fold::qm_mirror(dx, dy),
                qm_transform(crate::fold::qm_mirror(dx, dy), p),
            ),
            p,
        ),
{
    lemma_mirror_circle(dx, dy);
    let m = crate::fold::qm_mirror(dx, dy);
    let an = m.m00.n;
    let ad = m.m00.d;
    let bn = m.m01.n;
    let bd = m.m01.d;
    assert((an * an) * (bd * bd) + (bn * bn) * (ad * ad) == (ad * ad) * (bd * bd));
    let un = p.x.n;
    let ud = p.x.d;
    let vn = p.y.n;
    let vd = p.y.d;
    let q1 = qm_transform(m, p);
    let q2 = qm_transform(m, q1);
    // The structural components of the first application.
    let g1 = (un * an) * (vd * bd);
    let g2 = (vn * bn) * (ud * ad);
    let g3 = (un * bn) * (vd * ad);
    let g4 = (vn * an) * (ud * bd);
    let nn1 = g1 + g2;
    let dd1 = (ud * ad) * (vd * bd);
    let nn2 = g3 - g4;
    let dd2 = (ud * bd) * (vd * ad);
    assert(q1.x.n == nn1 && q1.x.d == dd1 && q1.y.d == dd2);
    assert(q1.y.n == (un * bn) * (vd * ad) + (vn * -an) * (ud * bd));
    assert((vn * -an) * (ud * bd) == -g4) by (nonlinear_arith)
        requires
            g4 == (vn * an) * (ud * bd),
    ;
    assert(q1.y.n == nn2);
    // The structural components of the second application.
    let xn2 = (nn1 * an) * (dd2 * bd) + (nn2 * bn) * (dd1 * ad);
    let xd2 = (dd1 * ad) * (dd2 * bd);
    let yn2 = (nn1 * bn) * (dd2 * ad) + (nn2 * -an) * (dd1 * bd);
    let yd2 = (dd1 * bd) * (dd2 * ad);
    assert(q2.x.n == xn2 && q2.x.d == xd2 && q2.y.d == yd2);
    assert(q2.y.n == (nn1 * bn) * (dd2 * ad) + (nn2 * -an) * (dd1 * bd));
    assert(q2.y.n == yn2);
    // Both denominators of the intermediate point agree.
    assert(dd2 == dd1) by (nonlinear_arith)
        requires
            dd1 == (ud * ad) * (vd * bd),
            dd2 == (ud * bd) * (vd * ad),
    ;
    // The abscissa numerator collapses through the circle identity.
    let c1 = (an * an) * (bd * bd);
    let c2 = (bn * bn) * (ad * ad);
    let c3 = (ad * ad) * (bd * bd);
    let innx = nn1 * (an * bd) + nn2 * (bn * ad);
    assert(g2 * (an * bd) == g4 * (bn * ad)) by (nonlinear_arith)
        requires
            g2 == (vn * bn) * (ud * ad),
            g4 == (vn * an) * (ud * bd),
    ;
    assert(g1 * (an * bd) == (un * vd) * c1) by (nonlinear_arith)
        requires
            g1 == (un * an) * (vd * bd),
            c1 == (an * an) * (bd * bd),
    ;
    assert(g3 * (bn * ad) == (un * vd) * c2) by (nonlinear_arith)
        requires
            g3 == (un * bn) * (vd * ad),
            c2 == (bn * bn) * (ad * ad),
    ;
    assert(innx == (g1 + g2) * (an * bd) + (g3 - g4) * (bn * ad));
    assert(innx == (un * vd) * c1 + (un * vd) * c2) by (nonlinear_arith)
        requires
            innx == (g1 + g2) * (an * bd) + (g3 - g4) * (bn * ad),
            g2 * (an * bd) == g4 * (bn * ad),
            g1 * (an * bd) == (un * vd) * c1,
            g3 * (bn * ad) == (un * vd) * c2,
    ;
    assert(innx == (un * vd) * c3) by (nonlinear_arith)
        requires
            innx == (un * vd) * c1 + (un * vd) * c2,
            c1 + c2 == c3,
    ;
    // The ordinate numerator collapses the same way.
    let inny = nn1 * (bn * ad) - nn2 * (an * bd);
    assert(g1 * (bn * ad) == g3 * (an * bd)) by (nonlinear_arith)
        requires
            g1 == (un * an) * (vd * bd),
            g3 == (un * bn) * (vd * ad),
    ;
    assert(g2 * (bn * ad) == (vn * ud) * c2) by (nonlinear_arith)
        requires
            g2 == (vn * bn) * (ud * ad),
            c2 == (bn * bn) * (ad * ad),
    ;
    assert(g4 * (an * bd) == (vn * ud) * c1) by (nonlinear_arith)
        requires
            g4 == (vn * an) * (ud * bd),
            c1 == (an * an) * (bd * bd),
    ;
    assert(inny == (g1 + g2) * (bn * ad) - (g3 - g4) * (an * bd));
    assert(inny == (vn * ud) * c3) by (nonlinear_arith)
        requires
            inny == (g1 + g2) * (bn * ad) - (g3 - g4) * (an * bd),
            g1 * (bn * ad) == g3 * (an * bd),
            g2 * (bn * ad) == (vn * ud) * c2,
            g4 * (an * bd) == (vn * ud) * c1,
            c1 + c2 == c3,
    ;
    // Regroup the second application over the collapsed numerators.
    let u1 = nn1 * (an * bd);
    let u2 = nn2 * (bn * ad);
    assert((nn1 * an) * (dd1 * bd) == dd1 * u1) by (nonlinear_arith)
        requires
            u1 == nn1 * (an * bd),
    ;
    assert((nn2 * bn) * (dd1 * ad) == dd1 * u2) by (nonlinear_arith)
        requires
            u2 == nn2 * (bn * ad),
    ;
    assert(dd1 * u1 + dd1 * u2 == dd1 * innx) by (nonlinear_arith)
        requires
            innx == u1 + u2,
    ;
    assert(xn2 == dd1 * innx);
    let w1 = nn1 * (bn * ad);
    let w2 = nn2 * (an * bd);
    assert((nn1 * bn) * (dd1 * ad) == dd1 * w1) by (nonlinear_arith)
        requires
            w1 == nn1 * (bn * ad),
    ;
    assert((nn2 * -an) * (dd1 * bd) == -(dd1 * w2)) by (nonlinear_arith)
        requires
            w2 == nn2 * (an * bd),
    ;
    assert(dd1 * w1 - dd1 * w2 == dd1 * inny) by (nonlinear_arith)
        requires
            inny == w1 - w2,
    ;
    assert(yn2 == dd1 * inny);
    // Conclude the two cross-multiplied equalities.
    assert(xd2 == dd1 * (dd1 * (ad * bd))) by (nonlinear_arith)
        requires
            xd2 == (dd1 * ad) * (dd2 * bd),
            dd2 == dd1,
    ;
    assert(yd2 == dd1 * (dd1 * (ad * bd))) by (nonlinear_arith)
        requires
            yd2 == (dd1 * bd) * (dd2 * ad),
            dd2 == dd1,
    ;
    assert(dd1 * (ad * bd) == (ud * vd) * c3) by (nonlinear_arith)
        requires
            dd1 == (ud * ad) * (vd * bd),
            c3 == (ad * ad) * (bd * bd),
    ;
    assert(xn2 * ud == un * xd2) by (nonlinear_arith)
        requires
            xn2 == dd1 * innx,
            innx == (un * vd) * c3,
            xd2 == dd1 * (dd1 * (ad * bd)),
            dd1 * (ad * bd) == (ud * vd) * c3,
    ;
    assert(yn2 * vd == vn * yd2) by (nonlinear_arith)
        requires
            yn2 == dd1 * inny,
            inny == (vn * ud) * c3,
            yd2 == dd1 * (dd1 * (ad * bd)),
            dd1 * (ad * bd) == (ud * vd) * c3,
    ;
    assert(q_eq(q2.x, p.x));
    assert(q_eq(q2.y, p.y));
}

} // verus!
