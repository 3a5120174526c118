//! 3x3 homogeneous matrices over the exact scalar, in the row-vector
//! convention: a point transforms as `x' = x*m00 + y*m10 + m20`,
//! `y' = x*m01 + y*m11 + m21`, and applying `a.mul(&b)` equals applying
//! `a` and then `b`.

use vstd::prelude::*;

use crate::geom::{qp_eqv, Point, Qpt};
use crate::rational::{q_add, q_div, q_eq, q_int, q_mul, q_neg, q_sub, q_zero, Qv,
    lemma_q_add_congruence, lemma_q_mul_congruence, lemma_q_sign_transfer};
use crate::scalar::{repr_q, Scalar};

verus! {

/// The mathematical view of a matrix: nine rationals, row by row.
pub ghost struct Qmat {
    pub m00: Qv,
    pub m01: Qv,
    pub m02: Qv,
    pub m10: Qv,
    pub m11: Qv,
    pub m12: Qv,
    pub m20: Qv,
    pub m21: Qv,
    pub m22: Qv,
}

impl Qmat {
    pub open spec fn wf(self) -> bool {
        &&& self.m00.wf()
        &&& self.m01.wf()
        &&& self.m02.wf()
        &&& self.m10.wf()
        &&& self.m11.wf()
        &&& self.m12.wf()
        &&& self.m20.wf()
        &&& self.m21.wf()
        &&& self.m22.wf()
    }
}

/// Entrywise denotational equality.
pub open spec fn qm_eqv(a: Qmat, b: Qmat) -> bool {
    &&& q_eq(a.m00, b.m00)
    &&& q_eq(a.m01, b.m01)
    &&& q_eq(a.m02, b.m02)
    &&& q_eq(a.m10, b.m10)
    &&& q_eq(a.m11, b.m11)
    &&& q_eq(a.m12, b.m12)
    &&& q_eq(a.m20, b.m20)
    &&& q_eq(a.m21, b.m21)
    &&& q_eq(a.m22, b.m22)
}

pub open spec fn qm_identity() -> Qmat {
    Qmat {
        m00: q_int(1),
        m01: q_int(0),
        m02: q_int(0),
        m10: q_int(0),
        m11: q_int(1),
        m12: q_int(0),
        m20: q_int(0),
        m21: q_int(0),
        m22: q_int(1),
    }
}

/// `p` mapped by `m` in the row-vector convention.
pub open spec fn qm_transform(m: Qmat, p: Qpt) -> Qpt {
    Qpt {
        x: q_add(q_add(q_mul(p.x, m.m00), q_mul(p.y, m.m10)), m.m20),
        y: q_add(q_add(q_mul(p.x, m.m01), q_mul(p.y, m.m11)), m.m21),
    }
}

/// The matrix product `a * b`; applying it equals applying `a` then `b`.
pub open spec fn qm_mul(a: Qmat, b: Qmat) -> Qmat {
    Qmat {
        m00: q_add(q_add(q_mul(a.m00, b.m00), q_mul(a.m01, b.m10)), q_mul(a.m02, b.m20)),
        m01: q_add(q_add(q_mul(a.m00, b.m01), q_mul(a.m01, b.m11)), q_mul(a.m02, b.m21)),
        m02: q_add(q_add(q_mul(a.m00, b.m02), q_mul(a.m01, b.m12)), q_mul(a.m02, b.m22)),
        m10: q_add(q_add(q_mul(a.m10, b.m00), q_mul(a.m11, b.m10)), q_mul(a.m12, b.m20)),
        m11: q_add(q_add(q_mul(a.m10, b.m01), q_mul(a.m11, b.m11)), q_mul(a.m12, b.m21)),
        m12: q_add(q_add(q_mul(a.m10, b.m02), q_mul(a.m11, b.m12)), q_mul(a.m12, b.m22)),
        m20: q_add(q_add(q_mul(a.m20, b.m00), q_mul(a.m21, b.m10)), q_mul(a.m22, b.m20)),
        m21: q_add(q_add(q_mul(a.m20, b.m01), q_mul(a.m21, b.m11)), q_mul(a.m22, b.m21)),
        m22: q_add(q_add(q_mul(a.m20, b.m02), q_mul(a.m21, b.m12)), q_mul(a.m22, b.m22)),
    }
}

/// The determinant, by cofactor expansion along the first row.
pub open spec fn qm_det(m: Qmat) -> Qv {
    q_add(
        q_sub(
            q_mul(m.m00, q_sub(q_mul(m.m11, m.m22), q_mul(m.m12, m.m21))),
            q_mul(m.m01, q_sub(q_mul(m.m10, m.m22), q_mul(m.m12, m.m20))),
        ),
        q_mul(m.m02, q_sub(q_mul(m.m10, m.m21), q_mul(m.m11, m.m20))),
    )
}

/// The inverse: the transposed cofactor matrix, entry by entry over the
/// determinant.
pub open spec fn qm_inverse(m: Qmat) -> Qmat {
    let det = qm_det(m);
    Qmat {
        m00: q_div(q_sub(q_mul(m.m11, m.m22), q_mul(m.m12, m.m21)), det),
        m01: q_div(q_sub(q_mul(m.m02, m.m21), q_mul(m.m01, m.m22)), det),
        m02: q_div(q_sub(q_mul(m.m01, m.m12), q_mul(m.m02, m.m11)), det),
        m10: q_div(q_sub(q_mul(m.m12, m.m20), q_mul(m.m10, m.m22)), det),
        m11: q_div(q_sub(q_mul(m.m00, m.m22), q_mul(m.m02, m.m20)), det),
        m12: q_div(q_sub(q_mul(m.m02, m.m10), q_mul(m.m00, m.m12)), det),
        m20: q_div(q_sub(q_mul(m.m10, m.m21), q_mul(m.m11, m.m20)), det),
        m21: q_div(q_sub(q_mul(m.m01, m.m20), q_mul(m.m00, m.m21)), det),
        m22: q_div(q_sub(q_mul(m.m00, m.m11), q_mul(m.m01, m.m10)), det),
    }
}

/// Mapping a point is unchanged when the matrix and the point are replaced
/// by denotationally equal ones.
pub proof fn lemma_qm_transform_congruence(m: Qmat, m2: Qmat, p: Qpt, p2: Qpt)
    requires
        m.wf(),
        m2.wf(),
        p.wf(),
        p2.wf(),
        qm_eqv(m, m2),
        qp_eqv(p, p2),
    ensures
        qm_transform(m, p).wf(),
        qm_transform(m2, p2).wf(),
        qp_eqv(qm_transform(m, p), qm_transform(m2, p2)),
{
    lemma_q_mul_congruence(p.x, p2.x, m.m00, m2.m00);
    lemma_q_mul_congruence(p.y, p2.y, m.m10, m2.m10);
    lemma_q_add_congruence(q_mul(p.x, m.m00), q_mul(p2.x, m2.m00), q_mul(p.y, m.m10), q_mul(p2.y, m2.m10));
    lemma_q_add_congruence(
        q_add(q_mul(p.x, m.m00), q_mul(p.y, m.m10)),
        q_add(q_mul(p2.x, m2.m00), q_mul(p2.y, m2.m10)),
        m.m20,
        m2.m20,
    );
    lemma_q_mul_congruence(p.x, p2.x, m.m01, m2.m01);
    lemma_q_mul_congruence(p.y, p2.y, m.m11, m2.m11);
    lemma_q_add_congruence(q_mul(p.x, m.m01), q_mul(p2.x, m2.m01), q_mul(p.y, m.m11), q_mul(p2.y, m2.m11));
    lemma_q_add_congruence(
        q_add(q_mul(p.x, m.m01), q_mul(p.y, m.m11)),
        q_add(q_mul(p2.x, m2.m01), q_mul(p2.y, m2.m11)),
        m.m21,
        m2.m21,
    );
}

/// Congruence of the three-term row/column product that forms each entry
/// of a matrix product.
proof fn lemma_entry_congruence(
    a: Qv, a2: Qv, b: Qv, b2: Qv, c: Qv, c2: Qv, d: Qv, d2: Qv, e: Qv, e2: Qv, f: Qv, f2: Qv,
)
    requires
        a.wf() && a2.wf() && b.wf() && b2.wf() && c.wf() && c2.wf(),
        d.wf() && d2.wf() && e.wf() && e2.wf() && f.wf() && f2.wf(),
        q_eq(a, a2) && q_eq(b, b2) && q_eq(c, c2),
        q_eq(d, d2) && q_eq(e, e2) && q_eq(f, f2),
    ensures
        q_eq(
            q_add(q_add(q_mul(a, b), q_mul(c, d)), q_mul(e, f)),
            q_add(q_add(q_mul(a2, b2), q_mul(c2, d2)), q_mul(e2, f2)),
        ),
        q_add(q_add(q_mul(a, b), q_mul(c, d)), q_mul(e, f)).wf(),
        q_add(q_add(q_mul(a2, b2), q_mul(c2, d2)), q_mul(e2, f2)).wf(),
{
    lemma_q_mul_congruence(a, a2, b, b2);
    lemma_q_mul_congruence(c, c2, d, d2);
    lemma_q_mul_congruence(e, e2, f, f2);
    lemma_q_add_congruence(q_mul(a, b), q_mul(a2, b2), q_mul(c, d), q_mul(c2, d2));
    lemma_q_add_congruence(
        q_add(q_mul(a, b), q_mul(c, d)),
        q_add(q_mul(a2, b2), q_mul(c2, d2)),
        q_mul(e, f),
        q_mul(e2, f2),
    );
}

/// The matrix product only depends on the rationals the entries denote.
pub proof fn lemma_qm_mul_congruence(a: Qmat, a2: Qmat, b: Qmat, b2: Qmat)
    requires
        a.wf(),
        a2.wf(),
        b.wf(),
        b2.wf(),
        qm_eqv(a, a2),
        qm_eqv(b, b2),
    ensures
        qm_mul(a, b).wf(),
        qm_mul(a2, b2).wf(),
        qm_eqv(qm_mul(a, b), qm_mul(a2, b2)),
{
    lemma_entry_congruence(
        a.m00, a2.m00, b.m00, b2.m00, a.m01, a2.m01, b.m10, b2.m10, a.m02, a2.m02, b.m20, b2.m20,
    );
    lemma_entry_congruence(
        a.m00, a2.m00, b.m01, b2.m01, a.m01, a2.m01, b.m11, b2.m11, a.m02, a2.m02, b.m21, b2.m21,
    );
    lemma_entry_congruence(
        a.m00, a2.m00, b.m02, b2.m02, a.m01, a2.m01, b.m12, b2.m12, a.m02, a2.m02, b.m22, b2.m22,
    );
    lemma_entry_congruence(
        a.m10, a2.m10, b.m00, b2.m00, a.m11, a2.m11, b.m10, b2.m10, a.m12, a2.m12, b.m20, b2.m20,
    );
    lemma_entry_congruence(
        a.m10, a2.m10, b.m01, b2.m01, a.m11, a2.m11, b.m11, b2.m11, a.m12, a2.m12, b.m21, b2.m21,
    );
    lemma_entry_congruence(
        a.m10, a2.m10, b.m02, b2.m02, a.m11, a2.m11, b.m12, b2.m12, a.m12, a2.m12, b.m22, b2.m22,
    );
    lemma_entry_congruence(
        a.m20, a2.m20, b.m00, b2.m00, a.m21, a2.m21, b.m10, b2.m10, a.m22, a2.m22, b.m20, b2.m20,
    );
    lemma_entry_congruence(
        a.m20, a2.m20, b.m01, b2.m01, a.m21, a2.m21, b.m11, b2.m11, a.m22, a2.m22, b.m21, b2.m21,
    );
    lemma_entry_congruence(
        a.m20, a2.m20, b.m02, b2.m02, a.m21, a2.m21, b.m12, b2.m12, a.m22, a2.m22, b.m22, b2.m22,
    );
}

/// Entrywise denotational equality is transitive through well-formed
/// matrices.
pub proof fn lemma_qm_eqv_trans(a: Qmat, b: Qmat, c: Qmat)
    requires
        b.wf(),
        qm_eqv(a, b),
        qm_eqv(b, c),
    ensures
        qm_eqv(a, c),
{
    crate::rational::lemma_q_eq_trans(a.m00, b.m00, c.m00);
    crate::rational::lemma_q_eq_trans(a.m01, b.m01, c.m01);
    crate::rational::lemma_q_eq_trans(a.m02, b.m02, c.m02);
    crate::rational::lemma_q_eq_trans(a.m10, b.m10, c.m10);
    crate::rational::lemma_q_eq_trans(a.m11, b.m11, c.m11);
    crate::rational::lemma_q_eq_trans(a.m12, b.m12, c.m12);
    crate::rational::lemma_q_eq_trans(a.m20, b.m20, c.m20);
    crate::rational::lemma_q_eq_trans(a.m21, b.m21, c.m21);
    crate::rational::lemma_q_eq_trans(a.m22, b.m22, c.m22);
}

/// A 3x3 matrix of scalars.
#[derive(Debug)]
pub struct Matrix33 {
    pub(crate) m00: Scalar,
    pub(crate) m01: Scalar,
    pub(crate) m02: Scalar,
    pub(crate) m10: Scalar,
    pub(crate) m11: Scalar,
    pub(crate) m12: Scalar,
    pub(crate) m20: Scalar,
    pub(crate) m21: Scalar,
    pub(crate) m22: Scalar,
}

impl View for Matrix33 {
    type V = Qmat;

    closed spec fn view(&self) -> Qmat {
        Qmat {
            m00: self.m00@,
            m01: self.m01@,
            m02: self.m02@,
            m10: self.m10@,
            m11: self.m11@,
            m12: self.m12@,
            m20: self.m20@,
            m21: self.m21@,
            m22: self.m22@,
        }
    }
}

impl Matrix33 {
    #[verifier::type_invariant]
    pub open spec fn inv(self) -> bool {
        self@.wf()
    }
}

impl Clone for Matrix33 {
    fn clone(&self) -> (r: Self)
        ensures
            r@ == self@,
    {
        proof {
            use_type_invariant(&*self);
        }
        Matrix33 {
            m00: self.m00.clone(),
            m01: self.m01.clone(),
            m02: self.m02.clone(),
            m10: self.m10.clone(),
            m11: self.m11.clone(),
            m12: self.m12.clone(),
            m20: self.m20.clone(),
            m21: self.m21.clone(),
            m22: self.m22.clone(),
        }
    }
}

impl Matrix33 {
    /// The matrix with the three given rows.
    pub fn new(row0: (Scalar, Scalar, Scalar), row1: (Scalar, Scalar, Scalar), row2: (
        Scalar,
        Scalar,
        Scalar,
    )) -> (r: Matrix33)
        ensures
            r@.m00 == row0.0@ && r@.m01 == row0.1@ && r@.m02 == row0.2@,
            r@.m10 == row1.0@ && r@.m11 == row1.1@ && r@.m12 == row1.2@,
            r@.m20 == row2.0@ && r@.m21 == row2.1@ && r@.m22 == row2.2@,
            r@.wf(),
    {
        proof {
            use_type_invariant(&row0.0);
            use_type_invariant(&row0.1);
            use_type_invariant(&row0.2);
            use_type_invariant(&row1.0);
            use_type_invariant(&row1.1);
            use_type_invariant(&row1.2);
            use_type_invariant(&row2.0);
            use_type_invariant(&row2.1);
            use_type_invariant(&row2.2);
        }
        Matrix33 {
            m00: row0.0,
            m01: row0.1,
            m02: row0.2,
            m10: row1.0,
            m11: row1.1,
            m12: row1.2,
            m20: row2.0,
            m21: row2.1,
            m22: row2.2,
        }
    }

    /// The entry in row `r`, column `c`.
    pub fn at(&self, r: usize, c: usize) -> (e: &Scalar)
        requires
            r < 3,
            c < 3,
        ensures
            r == 0 && c == 0 ==> e@ == self@.m00,
            r == 0 && c == 1 ==> e@ == self@.m01,
            r == 0 && c == 2 ==> e@ == self@.m02,
            r == 1 && c == 0 ==> e@ == self@.m10,
            r == 1 && c == 1 ==> e@ == self@.m11,
            r == 1 && c == 2 ==> e@ == self@.m12,
            r == 2 && c == 0 ==> e@ == self@.m20,
            r == 2 && c == 1 ==> e@ == self@.m21,
            r == 2 && c == 2 ==> e@ == self@.m22,
    {
        if r == 0 {
            if c == 0 {
                &self.m00
            } else if c == 1 {
                &self.m01
            } else {
                &self.m02
            }
        } else if r == 1 {
            if c == 0 {
                &self.m10
            } else if c == 1 {
                &self.m11
            } else {
                &self.m12
            }
        } else {
            if c == 0 {
                &self.m20
            } else if c == 1 {
                &self.m21
            } else {
                &self.m22
            }
        }
    }

    /// The identity mapping.
    pub fn identity() -> (r: Matrix33)
        ensures
            r@.wf(),
            qm_eqv(r@, qm_identity()),
    {
        Matrix33::new(
            (Scalar::one(), Scalar::zero(), Scalar::zero()),
            (Scalar::zero(), Scalar::one(), Scalar::zero()),
            (Scalar::zero(), Scalar::zero(), Scalar::one()),
        )
    }

    /// Scaling of the two axes.
    pub fn scale(sx: Scalar, sy: Scalar) -> (r: Matrix33)
        ensures
            r@.wf(),
            r@.m00 == sx@ && r@.m11 == sy@,
            q_eq(r@.m01, q_zero()) && q_eq(r@.m02, q_zero()) && q_eq(r@.m10, q_zero()),
            q_eq(r@.m12, q_zero()) && q_eq(r@.m20, q_zero()) && q_eq(r@.m21, q_zero()),
            q_eq(r@.m22, q_int(1)),
    {
        Matrix33::new(
            (sx, Scalar::zero(), Scalar::zero()),
            (Scalar::zero(), sy, Scalar::zero()),
            (Scalar::zero(), Scalar::zero(), Scalar::one()),
        )
    }

    /// Shear by `hx` and `hy`.
    pub fn shear(hx: Scalar, hy: Scalar) -> (r: Matrix33)
        ensures
            r@.wf(),
            r@.m01 == hx@ && r@.m10 == hy@,
            q_eq(r@.m00, q_int(1)) && q_eq(r@.m11, q_int(1)) && q_eq(r@.m22, q_int(1)),
            q_eq(r@.m02, q_zero()) && q_eq(r@.m12, q_zero()) && q_eq(r@.m20, q_zero()),
            q_eq(r@.m21, q_zero()),
    {
        Matrix33::new(
            (Scalar::one(), hx, Scalar::zero()),
            (hy, Scalar::one(), Scalar::zero()),
            (Scalar::zero(), Scalar::zero(), Scalar::one()),
        )
    }

    /// Rotation given by the sine and cosine of the angle; in this exact
    /// domain the caller supplies the pair instead of an angle.
    pub fn rotate(s: Scalar, c: Scalar) -> (r: Matrix33)
        ensures
            r@.wf(),
            r@.m00 == c@ && r@.m01 == s@ && r@.m11 == c@,
            q_eq(r@.m10, q_neg(s@)),
            q_eq(r@.m02, q_zero()) && q_eq(r@.m12, q_zero()) && q_eq(r@.m20, q_zero()),
            q_eq(r@.m21, q_zero()),
            q_eq(r@.m22, q_int(1)),
    {
        proof {
            use_type_invariant(&s);
            assert(repr_q(s, s@));
        }
        let ns = s.neg();
        let cc = c.clone();
        Matrix33::new(
            (c, s, Scalar::zero()),
            (ns, cc, Scalar::zero()),
            (Scalar::zero(), Scalar::zero(), Scalar::one()),
        )
    }

    /// Translation by `(tx, ty)`.
    pub fn translate(tx: Scalar, ty: Scalar) -> (r: Matrix33)
        ensures
            r@.wf(),
            r@.m20 == tx@ && r@.m21 == ty@,
            q_eq(r@.m00, q_int(1)) && q_eq(r@.m11, q_int(1)) && q_eq(r@.m22, q_int(1)),
            q_eq(r@.m01, q_zero()) && q_eq(r@.m02, q_zero()) && q_eq(r@.m10, q_zero()),
            q_eq(r@.m12, q_zero()),
    {
        Matrix33::new(
            (Scalar::one(), Scalar::zero(), Scalar::zero()),
            (Scalar::zero(), Scalar::one(), Scalar::zero()),
            (tx, ty, Scalar::one()),
        )
    }

    /// Map a point: `x' = x*m00 + y*m10 + m20`, `y' = x*m01 + y*m11 + m21`.
    pub fn transform(&self, p: Point) -> (r: Point)
        ensures
            r@.wf(),
            qm_transform(self@, p@).wf(),
            qp_eqv(r@, qm_transform(self@, p@)),
    {
        proof {
            use_type_invariant(&*self);
            use_type_invariant(&p.x);
            use_type_invariant(&p.y);
            assert(repr_q(p.x, p@.x));
            assert(repr_q(p.y, p@.y));
            assert(repr_q(self.m00, self@.m00));
            assert(repr_q(self.m01, self@.m01));
            assert(repr_q(self.m10, self@.m10));
            assert(repr_q(self.m11, self@.m11));
            assert(repr_q(self.m20, self@.m20));
            assert(repr_q(self.m21, self@.m21));
        }
        let x = p.x.mul(&self.m00).add(&p.y.mul(&self.m10)).add(&self.m20);
        let y = p.x.mul(&self.m01).add(&p.y.mul(&self.m11)).add(&self.m21);
        Point { x, y }
    }

    /// The matrix product; applying it is applying `self`, then `other`.
    pub fn mul(&self, other: &Matrix33) -> (r: Matrix33)
        ensures
            r@.wf(),
            qm_mul(self@, other@).wf(),
            qm_eqv(r@, qm_mul(self@, other@)),
    {
        proof {
            use_type_invariant(&*self);
            use_type_invariant(&*other);
            assert(repr_q(self.m00, self@.m00));
            assert(repr_q(self.m01, self@.m01));
            assert(repr_q(self.m02, self@.m02));
            assert(repr_q(self.m10, self@.m10));
            assert(repr_q(self.m11, self@.m11));
            assert(repr_q(self.m12, self@.m12));
            assert(repr_q(self.m20, self@.m20));
            assert(repr_q(self.m21, self@.m21));
            assert(repr_q(self.m22, self@.m22));
            assert(repr_q(other.m00, other@.m00));
            assert(repr_q(other.m01, other@.m01));
            assert(repr_q(other.m02, other@.m02));
            assert(repr_q(other.m10, other@.m10));
            assert(repr_q(other.m11, other@.m11));
            assert(repr_q(other.m12, other@.m12));
            assert(repr_q(other.m20, other@.m20));
            assert(repr_q(other.m21, other@.m21));
            assert(repr_q(other.m22, other@.m22));
        }
        let m00 = self.m00.mul(&other.m00).add(&self.m01.mul(&other.m10)).add(
            &self.m02.mul(&other.m20),
        );
        let m01 = self.m00.mul(&other.m01).add(&self.m01.mul(&other.m11)).add(
            &self.m02.mul(&other.m21),
        );
        let m02 = self.m00.mul(&other.m02).add(&self.m01.mul(&other.m12)).add(
            &self.m02.mul(&other.m22),
        );
        let m10 = self.m10.mul(&other.m00).add(&self.m11.mul(&other.m10)).add(
            &self.m12.mul(&other.m20),
        );
        let m11 = self.m10.mul(&other.m01).add(&self.m11.mul(&other.m11)).add(
            &self.m12.mul(&other.m21),
        );
        let m12 = self.m10.mul(&other.m02).add(&self.m11.mul(&other.m12)).add(
            &self.m12.mul(&other.m22),
        );
        let m20 = self.m20.mul(&other.m00).add(&self.m21.mul(&other.m10)).add(
            &self.m22.mul(&other.m20),
        );
        let m21 = self.m20.mul(&other.m01).add(&self.m21.mul(&other.m11)).add(
            &self.m22.mul(&other.m21),
        );
        let m22 = self.m20.mul(&other.m02).add(&self.m21.mul(&other.m12)).add(
            &self.m22.mul(&other.m22),
        );
        Matrix33 { m00, m01, m02, m10, m11, m12, m20, m21, m22 }
    }

    /// The determinant.
    pub fn det(&self) -> (r: Scalar)
        ensures
            r@.wf(),
            qm_det(self@).wf(),
            q_eq(r@, qm_det(self@)),
    {
        proof {
            use_type_invariant(&*self);
            assert(repr_q(self.m00, self@.m00));
            assert(repr_q(self.m01, self@.m01));
            assert(repr_q(self.m02, self@.m02));
            assert(repr_q(self.m10, self@.m10));
            assert(repr_q(self.m11, self@.m11));
            assert(repr_q(self.m12, self@.m12));
            assert(repr_q(self.m20, self@.m20));
            assert(repr_q(self.m21, self@.m21));
            assert(repr_q(self.m22, self@.m22));
        }
        let c0 = self.m00.mul(&self.m11.mul(&self.m22).sub(&self.m12.mul(&self.m21)));
        let c1 = self.m01.mul(&self.m10.mul(&self.m22).sub(&self.m12.mul(&self.m20)));
        let c2 = self.m02.mul(&self.m10.mul(&self.m21).sub(&self.m11.mul(&self.m20)));
        c0.sub(&c1).add(&c2)
    }

    /// The inverse, for a matrix whose determinant is not zero.
    pub fn inverse(&self) -> (r: Matrix33)
        requires
            !q_eq(qm_det(self@), q_zero()),
        ensures
            r@.wf(),
            qm_inverse(self@).wf(),
            qm_eqv(r@, qm_inverse(self@)),
    {
        proof {
            use_type_invariant(&*self);
            assert(repr_q(self.m00, self@.m00));
            assert(repr_q(self.m01, self@.m01));
            assert(repr_q(self.m02, self@.m02));
            assert(repr_q(self.m10, self@.m10));
            assert(repr_q(self.m11, self@.m11));
            assert(repr_q(self.m12, self@.m12));
            assert(repr_q(self.m20, self@.m20));
            assert(repr_q(self.m21, self@.m21));
            assert(repr_q(self.m22, self@.m22));
        }
        let det = self.det();
        proof {
            crate::rational::lemma_q_sign(qm_det(self@));
            lemma_q_sign_transfer(det@, qm_det(self@));
            assert(repr_q(det, qm_det(self@)));
        }
        let m00 = self.m11.mul(&self.m22).sub(&self.m12.mul(&self.m21)).div(&det);
        let m01 = self.m02.mul(&self.m21).sub(&self.m01.mul(&self.m22)).div(&det);
        let m02 = self.m01.mul(&self.m12).sub(&self.m02.mul(&self.m11)).div(&det);
        let m10 = self.m12.mul(&self.m20).sub(&self.m10.mul(&self.m22)).div(&det);
        let m11 = self.m00.mul(&self.m22).sub(&self.m02.mul(&self.m20)).div(&det);
        let m12 = self.m02.mul(&self.m10).sub(&self.m00.mul(&self.m12)).div(&det);
        let m20 = self.m10.mul(&self.m21).sub(&self.m11.mul(&self.m20)).div(&det);
        let m21 = self.m01.mul(&self.m20).sub(&self.m00.mul(&self.m21)).div(&det);
        let m22 = self.m00.mul(&self.m11).sub(&self.m01.mul(&self.m10)).div(&det);
        Matrix33 { m00, m01, m02, m10, m11, m12, m20, m21, m22 }
    }
}

} // verus!
