//! Polygons, shapes and skeletons.
//!
//! A polygon is an ordered sequence of at least three points with an
//! implicitly closed boundary (edge `i` joins point `i-1` to point `i`,
//! wrapping around) and an affine transform that records the mapping back
//! to the polygon's unfolded source frame. The predicates here are the
//! shoelace area, the orientation test, ray-casting containment, boundary
//! coincidence and the right-angle corner count.

use vstd::prelude::*;

use crate::geom::{
    coincident_spec, cross_scalar, q_cross, q_dot, qp_eqv, qp_sub, repr_qp, Line, Point, Qline, Qpt,
};
use crate::matrix::{
    lemma_qm_transform_congruence, qm_det, qm_eqv, qm_identity, qm_inverse, qm_transform, Matrix33,
    Qmat,
};
use crate::rational::{
    q_abs, q_add, q_div, q_eq, q_int, q_le, q_lt, q_mul, q_neg, q_sub, q_zero,
    lemma_q_cmp_congruence, lemma_q_sign, lemma_q_sign_transfer, Qv,
};
use crate::scalar::{repr_q, Scalar};

verus! {

/// The views of a sequence of points.
pub open spec fn pts_view(v: Seq<Point>) -> Seq<Qpt> {
    v.map_values(|p: Point| p@)
}

/// Every point of the sequence is well formed.
pub open spec fn pts_wf(pts: Seq<Qpt>) -> bool {
    forall|i: int| 0 <= i < pts.len() ==> (#[trigger] pts[i]).wf()
}

/// The mathematical view of a polygon.
pub ghost struct Qpoly {
    pub pts: Seq<Qpt>,
    pub mat: Qmat,
}

impl Qpoly {
    pub open spec fn wf(self) -> bool {
        self.pts.len() >= 3 && pts_wf(self.pts) && self.mat.wf()
    }
}

/// Boundary edge `i` of a point sequence: from point `i-1` (wrapping) to
/// point `i`.
pub open spec fn poly_edge(pts: Seq<Qpt>, i: int) -> Qline {
    Qline { p1: pts[if i == 0 { pts.len() - 1 } else { i - 1 }], p2: pts[i] }
}

/// The doubled signed area: the sum over the edges of
/// `(x2 - x1) * (y2 + y1)`, over the first `n` edges.
pub open spec fn q_area2(pts: Seq<Qpt>, n: int) -> Qv
    decreases n,
{
    if n <= 0 {
        q_zero()
    } else {
        let e = poly_edge(pts, n - 1);
        q_add(q_area2(pts, n - 1), q_mul(q_sub(e.p2.x, e.p1.x), q_add(e.p2.y, e.p1.y)))
    }
}

/// The absolute area: half the absolute doubled signed sum.
pub open spec fn q_area(pts: Seq<Qpt>) -> Qv {
    q_div(q_abs(q_area2(pts, pts.len() as int)), q_int(2))
}

/// The ray-casting parity over the first `n` boundary segments (here
/// segment `i` joins point `i` to point `i+1`, wrapping).
pub open spec fn q_inside(pts: Seq<Qpt>, t: Qpt, n: int) -> bool
    decreases n,
{
    if n <= 0 {
        false
    } else {
        let c = q_inside(pts, t, n - 1);
        if q_edge_crosses(pts, t, n - 1) {
            !c
        } else {
            c
        }
    }
}

/// The ray through `t` crosses segment `i`-to-`i+1`: the endpoints
/// straddle `t`'s height and `t` is left of the crossing abscissa.
pub open spec fn q_edge_crosses(pts: Seq<Qpt>, t: Qpt, i: int) -> bool {
    let p1 = poly_seg(pts, i).p1;
    let p2 = poly_seg(pts, i).p2;
    &&& q_lt(t.y, p1.y) != q_lt(t.y, p2.y)
    &&& q_lt(
        t.x,
        q_add(q_div(q_mul(q_sub(p2.x, p1.x), q_sub(t.y, p1.y)), q_sub(p2.y, p1.y)), p1.x),
    )
}

/// Boundary segment `i` of the ray-casting and coincidence loops: from
/// point `i` to point `i+1`, wrapping.
pub open spec fn poly_seg(pts: Seq<Qpt>, i: int) -> Qline {
    Qline { p1: pts[i], p2: pts[if i + 1 == pts.len() { 0int } else { i + 1 }] }
}

/// `t` lies on some boundary segment.
pub open spec fn poly_coincident_spec(pts: Seq<Qpt>, t: Qpt) -> bool {
    exists|i: int| 0 <= i < pts.len() && #[trigger] coincident_spec(poly_seg(pts, i), t)
}

/// `t` is inside or on the boundary.
pub open spec fn poly_contains_spec(pts: Seq<Qpt>, t: Qpt) -> bool {
    q_inside(pts, t, pts.len() as int) || poly_coincident_spec(pts, t)
}

/// Adjacent edges `i-1` (wrapping) and `i` meet at an angle that is a
/// multiple of a right angle: their directions are parallel or
/// perpendicular, an exact test in this domain.
pub open spec fn is_corner(pts: Seq<Qpt>, i: int) -> bool {
    let e1 = poly_edge(pts, if i == 0 { pts.len() - 1 } else { i - 1 });
    let e2 = poly_edge(pts, i);
    let u = qp_sub(e1.p2, e1.p1);
    let v = qp_sub(e2.p2, e2.p1);
    q_eq(q_cross(u, v), q_zero()) || q_eq(q_dot(u, v), q_zero())
}

/// The number of corner pairs among the first `n` edges.
pub open spec fn corners_count(pts: Seq<Qpt>, n: int) -> int
    decreases n,
{
    if n <= 0 {
        0
    } else {
        corners_count(pts, n - 1) + if is_corner(pts, n - 1) {
            1int
        } else {
            0int
        }
    }
}

/// The corner pairs among the first `n` edges, in boundary order: for
/// each corner at edge `i`, the pair of its preceding edge and edge `i`.
pub open spec fn corners_seq(pts: Seq<Qpt>, n: int) -> Seq<(Qline, Qline)>
    decreases n,
{
    if n <= 0 {
        Seq::empty()
    } else {
        let r = corners_seq(pts, n - 1);
        if is_corner(pts, n - 1) {
            r.push(
                (
                    poly_edge(
                        pts,
                        if n - 1 == 0 {
                            pts.len() - 1
                        } else {
                            n - 2
                        },
                    ),
                    poly_edge(pts, n - 1),
                ),
            )
        } else {
            r
        }
    }
}

/// An ordered boundary of at least three points, with the transform that
/// maps this polygon's frame back to its unfolded source.
#[derive(Debug)]
pub struct Polygon {
    pub points: Vec<Point>,
    pub transform: Matrix33,
}

impl View for Polygon {
    type V = Qpoly;

    open spec fn view(&self) -> Qpoly {
        Qpoly { pts: pts_view(self.points@), mat: self.transform@ }
    }
}

impl Clone for Polygon {
    fn clone(&self) -> (r: Self)
        ensures
            r@ == self@,
    {
        let r = Polygon { points: clone_points(&self.points), transform: self.transform.clone() };
        proof {
            assert(pts_view(r.points@) =~= pts_view(self.points@));
        }
        r
    }
}

/// Clone a vector of points; the views are unchanged.
pub(crate) fn clone_points(v: &Vec<Point>) -> (r: Vec<Point>)
    ensures
        r@.len() == v@.len(),
        forall|i: int| 0 <= i < v@.len() ==> #[trigger] r@[i]@ == v@[i]@,
{
    let mut r: Vec<Point> = Vec::new();
    let mut i: usize = 0;
    while i < v.len()
        invariant
            i <= v@.len(),
            r@.len() == i,
            forall|j: int| 0 <= j < i ==> #[trigger] r@[j]@ == v@[j]@,
        decreases v@.len() - i,
    {
        r.push(v[i].clone());
        i = i + 1;
    }
    r
}

/// Materialise the well-formedness of every point in the vector, which
/// the scalar invariants guarantee.
pub(crate) fn seed_points(v: &Vec<Point>)
    ensures
        pts_wf(pts_view(v@)),
{
    let mut i: usize = 0;
    while i < v.len()
        invariant
            i <= v@.len(),
            forall|j: int| 0 <= j < i ==> (#[trigger] pts_view(v@)[j]).wf(),
        decreases v@.len() - i,
    {
        let p = &v[i];
        proof {
            use_type_invariant(&p.x);
            use_type_invariant(&p.y);
            assert(pts_view(v@)[i as int] == v@[i as int]@);
        }
        i = i + 1;
    }
}

impl Polygon {
    /// A polygon over the given boundary with the identity transform.
    pub fn new(points: Vec<Point>) -> (r: Polygon)
        requires
            points@.len() >= 3,
        ensures
            r@.wf(),
            r@.pts == pts_view(points@),
            qm_eqv(r@.mat, qm_identity()),
    {
        seed_points(&points);
        Polygon { points, transform: Matrix33::identity() }
    }

    /// A polygon over the given boundary with the given transform.
    pub fn with_transform(points: Vec<Point>, transform: Matrix33) -> (r: Polygon)
        requires
            points@.len() >= 3,
        ensures
            r@.wf(),
            r@.pts == pts_view(points@),
            r@.mat == transform@,
    {
        seed_points(&points);
        proof {
            use_type_invariant(&transform);
        }
        Polygon { points, transform }
    }

    /// The boundary as a vector of directed segments, edge `i` joining
    /// point `i-1` (wrapping) to point `i`.
    pub fn edges(&self) -> (r: Vec<Line>)
        requires
            self@.wf(),
        ensures
            r@.len() == self@.pts.len(),
            forall|i: int| 0 <= i < r@.len() ==> #[trigger] r@[i]@ == poly_edge(self@.pts, i),
    {
        let mut r: Vec<Line> = Vec::new();
        let mut previous: usize = self.points.len() - 1;
        let mut i: usize = 0;
        while i < self.points.len()
            invariant
                self@.wf(),
                self@.pts.len() == self.points@.len(),
                i <= self.points@.len(),
                previous == if i == 0 {
                    self.points@.len() - 1
                } else {
                    i - 1
                },
                r@.len() == i,
                forall|j: int| 0 <= j < i ==> #[trigger] r@[j]@ == poly_edge(self@.pts, j),
            decreases self.points@.len() - i,
        {
            let edge = Line::new(self.points[previous].clone(), self.points[i].clone());
            r.push(edge);
            proof {
                assert(self@.pts[i as int] == self.points@[i as int]@);
                assert(self@.pts[previous as int] == self.points@[previous as int]@);
            }
            previous = i;
            i = i + 1;
        }
        r
    }

    /// The doubled signed shoelace sum over all edges.
    fn double_signed_area(&self) -> (r: Scalar)
        requires
            self@.wf(),
        ensures
            r@.wf(),
            q_area2(self@.pts, self@.pts.len() as int).wf(),
            q_eq(r@, q_area2(self@.pts, self@.pts.len() as int)),
    {
        let edges = self.edges();
        let mut sum = Scalar::zero();
        let mut i: usize = 0;
        proof {
            assert(repr_q(sum, q_area2(self@.pts, 0)));
        }
        while i < edges.len()
            invariant
                self@.wf(),
                edges@.len() == self@.pts.len(),
                forall|j: int|
                    0 <= j < edges@.len() ==> #[trigger] edges@[j]@ == poly_edge(self@.pts, j),
                i <= edges@.len(),
                sum@.wf(),
                repr_q(sum, q_area2(self@.pts, i as int)),
            decreases edges@.len() - i,
        {
            let e = &edges[i];
            proof {
                use_type_invariant(&e.p1.x);
                use_type_invariant(&e.p1.y);
                use_type_invariant(&e.p2.x);
                use_type_invariant(&e.p2.y);
                assert(e@ == poly_edge(self@.pts, i as int));
                assert(repr_q(e.p2.x, poly_edge(self@.pts, i as int).p2.x));
                assert(repr_q(e.p1.x, poly_edge(self@.pts, i as int).p1.x));
                assert(repr_q(e.p2.y, poly_edge(self@.pts, i as int).p2.y));
                assert(repr_q(e.p1.y, poly_edge(self@.pts, i as int).p1.y));
            }
            let term = e.p2.x.sub(&e.p1.x).mul(&e.p2.y.add(&e.p1.y));
            sum = sum.add(&term);
            i = i + 1;
        }
        sum
    }

    /// The enclosed area: half the absolute shoelace sum, exactly.
    pub fn area(&self) -> (r: Scalar)
        requires
            self@.wf(),
        ensures
            r@.wf(),
            q_area(self@.pts).wf(),
            q_eq(r@, q_area(self@.pts)),
    {
        let s = self.double_signed_area();
        let a = s.abs_val();
        let two = Scalar::from_int(2);
        proof {
            assert(repr_q(s, q_area2(self@.pts, self@.pts.len() as int)));
            assert(repr_q(a, q_abs(q_area2(self@.pts, self@.pts.len() as int))));
            assert(repr_q(two, q_int(2)));
            lemma_q_sign_transfer(two@, q_int(2));
        }
        a.div(&two)
    }

    /// True when the boundary runs clockwise (non-negative doubled signed
    /// area): such a polygon counts as a hole when areas are aggregated.
    pub fn is_hole(&self) -> (r: bool)
        requires
            self@.wf(),
        ensures
            r == q_le(q_zero(), q_area2(self@.pts, self@.pts.len() as int)),
    {
        let s = self.double_signed_area();
        let z = Scalar::zero();
        proof {
            lemma_q_cmp_congruence(
                z@,
                q_zero(),
                s@,
                q_area2(self@.pts, self@.pts.len() as int),
            );
        }
        z.le(&s)
    }

    /// Strict interior test by ray-casting parity.
    pub fn inside(&self, test: &Point) -> (r: bool)
        requires
            self@.wf(),
        ensures
            r == q_inside(self@.pts, test@, self@.pts.len() as int),
    {
        proof {
            use_type_invariant(&test.x);
            use_type_invariant(&test.y);
        }
        let end = self.points.len();
        let mut contains = false;
        let mut offset: usize = 0;
        while offset < end
            invariant
                self@.wf(),
                test@.wf(),
                end == self.points@.len(),
                self@.pts.len() == self.points@.len(),
                offset <= end,
                contains == q_inside(self@.pts, test@, offset as int),
            decreases end - offset,
        {
            let p1 = &self.points[offset];
            let p2 = &self.points[if offset + 1 == end {
                0
            } else {
                offset + 1
            }];
            let ghost v1 = self@.pts[offset as int];
            let ghost v2 = self@.pts[if offset + 1 == end {
                0int
            } else {
                offset as int + 1
            }];
            proof {
                assert(v1 == p1@ && v2 == p2@);
                use_type_invariant(&p1.x);
                use_type_invariant(&p1.y);
                use_type_invariant(&p2.x);
                use_type_invariant(&p2.y);
            }
            let b1 = test.y.lt(&p1.y);
            let b2 = test.y.lt(&p2.y);
            if b1 != b2 {
                proof {
                    lemma_straddle_nonzero(test@.y, v1.y, v2.y);
                    assert(repr_q(p2.x, v2.x));
                    assert(repr_q(p1.x, v1.x));
                    assert(repr_q(test.x, test@.x));
                    assert(repr_q(test.y, test@.y));
                    assert(repr_q(p1.y, v1.y));
                    assert(repr_q(p2.y, v2.y));
                }
                let dy = p2.y.sub(&p1.y);
                proof {
                    assert(repr_q(dy, q_sub(v2.y, v1.y)));
                    lemma_q_sign_transfer(dy@, q_sub(v2.y, v1.y));
                }
                let num = p2.x.sub(&p1.x).mul(&test.y.sub(&p1.y));
                let frac = num.div(&dy);
                let bound = frac.add(&p1.x);
                proof {
                    assert(repr_q(
                        bound,
                        q_add(
                            q_div(q_mul(q_sub(v2.x, v1.x), q_sub(test@.y, v1.y)), q_sub(v2.y, v1.y)),
                            v1.x,
                        ),
                    ));
                    lemma_q_cmp_congruence(
                        test@.x,
                        test@.x,
                        bound@,
                        q_add(
                            q_div(q_mul(q_sub(v2.x, v1.x), q_sub(test@.y, v1.y)), q_sub(v2.y, v1.y)),
                            v1.x,
                        ),
                    );
                }
                if test.x.lt(&bound) {
                    contains = !contains;
                }
            }
            offset = offset + 1;
        }
        contains
    }

    /// Boundary test: `test` lies on some edge of this polygon.
    pub fn coincident(&self, test: &Point) -> (r: bool)
        requires
            self@.wf(),
        ensures
            r == poly_coincident_spec(self@.pts, test@),
    {
        let end = self.points.len();
        let mut offset: usize = 0;
        while offset < end
            invariant
                self@.wf(),
                end == self.points@.len(),
                self@.pts.len() == self.points@.len(),
                offset <= end,
                forall|i: int|
                    0 <= i < offset ==> !#[trigger] coincident_spec(poly_seg(self@.pts, i), test@),
            decreases end - offset,
        {
            let l_test = Line::new(
                self.points[offset].clone(),
                self.points[if offset + 1 == end {
                    0
                } else {
                    offset + 1
                }].clone(),
            );
            if l_test.coincident(test) {
                proof {
                    assert(l_test@ == poly_seg(self@.pts, offset as int));
                    assert(poly_coincident_spec(self@.pts, test@));
                }
                return true;
            }
            offset = offset + 1;
        }
        false
    }

    /// `test` is contained: strictly inside or on the boundary.
    pub fn contains(&self, test: &Point) -> (r: bool)
        requires
            self@.wf(),
        ensures
            r == poly_contains_spec(self@.pts, test@),
    {
        self.inside(test) || self.coincident(test)
    }

    /// The pairs of adjacent edges that meet at a multiple of a right
    /// angle, in boundary order: entry `i` of the result is the `i`-th
    /// corner's pair of adjacent edges (`corners_seq`).
    pub fn corners(&self) -> (r: Vec<(Line, Line)>)
        requires
            self@.wf(),
        ensures
            r@.len() == corners_count(self@.pts, self@.pts.len() as int),
            r@.len() == corners_seq(self@.pts, self@.pts.len() as int).len(),
            forall|i: int|
                0 <= i < r@.len() ==> (#[trigger] r@[i]).0@ == corners_seq(
                    self@.pts,
                    self@.pts.len() as int,
                )[i].0 && r@[i].1@ == corners_seq(self@.pts, self@.pts.len() as int)[i].1,
    {
        let edges = self.edges();
        let mut r: Vec<(Line, Line)> = Vec::new();
        let mut previous: usize = edges.len() - 1;
        let mut i: usize = 0;
        while i < edges.len()
            invariant
                self@.wf(),
                edges@.len() == self@.pts.len(),
                forall|j: int|
                    0 <= j < edges@.len() ==> #[trigger] edges@[j]@ == poly_edge(self@.pts, j),
                i <= edges@.len(),
                previous == if i == 0 {
                    edges@.len() - 1
                } else {
                    i - 1
                },
                r@.len() == corners_count(self@.pts, i as int),
                r@.len() == corners_seq(self@.pts, i as int).len(),
                forall|j: int|
                    0 <= j < r@.len() ==> (#[trigger] r@[j]).0@ == corners_seq(
                        self@.pts,
                        i as int,
                    )[j].0 && r@[j].1@ == corners_seq(self@.pts, i as int)[j].1,
            decreases edges@.len() - i,
        {
            let e1 = &edges[previous];
            let e2 = &edges[i];
            let ghost ge1 = poly_edge(self@.pts, previous as int);
            let ghost ge2 = poly_edge(self@.pts, i as int);
            let ghost gu = qp_sub(ge1.p2, ge1.p1);
            let ghost gv = qp_sub(ge2.p2, ge2.p1);
            proof {
                use_type_invariant(&e1.p1.x);
                use_type_invariant(&e1.p1.y);
                use_type_invariant(&e1.p2.x);
                use_type_invariant(&e1.p2.y);
                use_type_invariant(&e2.p1.x);
                use_type_invariant(&e2.p1.y);
                use_type_invariant(&e2.p2.x);
                use_type_invariant(&e2.p2.y);
                assert(e1@ == ge1);
                assert(e2@ == ge2);
                assert(repr_qp(e1.p1, ge1.p1));
                assert(repr_qp(e1.p2, ge1.p2));
                assert(repr_qp(e2.p1, ge2.p1));
                assert(repr_qp(e2.p2, ge2.p2));
            }
            let u = e1.p2.sub(&e1.p1);
            let vdir = e2.p2.sub(&e2.p1);
            let vdir2 = vdir.clone();
            let cr = cross_scalar(&u, &vdir);
            let dt = u.dot(vdir2);
            proof {
                assert(repr_qp(u, gu));
                assert(repr_qp(vdir, gv));
                assert(repr_qp(vdir2, gv));
                assert(repr_q(cr, q_cross(gu, gv)));
                assert(repr_q(dt, q_dot(gu, gv)));
                lemma_q_sign_transfer(cr@, q_cross(gu, gv));
                lemma_q_sign_transfer(dt@, q_dot(gu, gv));
                lemma_q_sign(q_cross(gu, gv));
                lemma_q_sign(q_dot(gu, gv));
            }
            let is_c = cr.is_zero() || dt.is_zero();
            proof {
                assert(is_c == is_corner(self@.pts, i as int));
            }
            if is_c {
                r.push((e1.clone(), e2.clone()));
            }
            proof {
                assert(corners_seq(self@.pts, i as int + 1) == if is_corner(
                    self@.pts,
                    i as int,
                ) {
                    corners_seq(self@.pts, i as int).push((ge1, ge2))
                } else {
                    corners_seq(self@.pts, i as int)
                });
            }
            previous = i;
            i = i + 1;
        }
        r
    }

    /// Exactly four edges meeting at four right-angle corners.
    pub fn square(&self) -> (r: bool)
        requires
            self@.wf(),
        ensures
            r == (corners_count(self@.pts, self@.pts.len() as int) == 4 && self@.pts.len() == 4),
    {
        let c = self.corners();
        if c.len() == 4 {
            if self.edges().len() == 4 {
                return true;
            }
        }
        false
    }

    /// The polygon mapped back to its unfolded source frame through the
    /// inverse of the accumulated transform.
    pub fn source_poly(&self) -> (r: Polygon)
        requires
            self@.wf(),
            !q_eq(qm_det(self@.mat), q_zero()),
        ensures
            r@.wf(),
            r@.pts.len() == self@.pts.len(),
            forall|i: int|
                0 <= i < self@.pts.len() ==> qp_eqv(
                    #[trigger] r@.pts[i],
                    qm_transform(qm_inverse(self@.mat), self@.pts[i]),
                ),
            qm_eqv(r@.mat, qm_inverse(self@.mat)),
    {
        let affine = self.transform.inverse();
        let mut points: Vec<Point> = Vec::new();
        let mut i: usize = 0;
        while i < self.points.len()
            invariant
                self@.wf(),
                !q_eq(qm_det(self@.mat), q_zero()),
                self@.pts.len() == self.points@.len(),
                affine@.wf(),
                qm_inverse(self@.mat).wf(),
                qm_eqv(affine@, qm_inverse(self@.mat)),
                i <= self.points@.len(),
                points@.len() == i,
                forall|j: int|
                    0 <= j < i ==> qp_eqv(
                        #[trigger] pts_view(points@)[j],
                        qm_transform(qm_inverse(self@.mat), self@.pts[j]),
                    ),
            decreases self.points@.len() - i,
        {
            let p = self.points[i].clone();
            let ghost pv = self@.pts[i as int];
            proof {
                use_type_invariant(&p.x);
                use_type_invariant(&p.y);
                assert(p@ == pv);
            }
            let q = affine.transform(p);
            proof {
                lemma_qm_transform_congruence(affine@, qm_inverse(self@.mat), pv, pv);
                crate::rational::lemma_q_eq_trans(
                    q@.x,
                    qm_transform(affine@, pv).x,
                    qm_transform(qm_inverse(self@.mat), pv).x,
                );
                crate::rational::lemma_q_eq_trans(
                    q@.y,
                    qm_transform(affine@, pv).y,
                    qm_transform(qm_inverse(self@.mat), pv).y,
                );
            }
            let ghost before = points@;
            points.push(q);
            proof {
                assert(pts_view(points@)[i as int] == q@);
                assert forall|j: int| 0 <= j < i implies #[trigger] pts_view(points@)[j]
                    == pts_view(before)[j] by {
                    assert(points@[j] == before[j]);
                }
            }
            i = i + 1;
        }
        Polygon::with_transform(points, affine)
    }
}

/// If one boundary endpoint is below a height and the other is not, the
/// heights differ, so the interpolation denominator is nonzero.
proof fn lemma_straddle_nonzero(t: Qv, a: Qv, b: Qv) by (nonlinear_arith)
    requires
        t.wf(),
        a.wf(),
        b.wf(),
        q_lt(t, a) != q_lt(t, b),
    ensures
        q_sub(b, a).n != 0,
{
}

/// A set of polygons whose net area counts holes negatively.
pub struct Shape {
    pub polys: Vec<Polygon>,
}

/// The views of a sequence of polygons.
pub open spec fn polys_view(v: Seq<Polygon>) -> Seq<Qpoly> {
    v.map_values(|p: Polygon| p@)
}

pub open spec fn polys_wf(ps: Seq<Qpoly>) -> bool {
    forall|i: int| 0 <= i < ps.len() ==> (#[trigger] ps[i]).wf()
}

/// The net area of the first `n` polygons: each fill adds its area, each
/// hole (clockwise boundary) subtracts it.
pub open spec fn q_shape_area(ps: Seq<Qpoly>, n: int) -> Qv
    decreases n,
{
    if n <= 0 {
        q_zero()
    } else {
        let pts = ps[n - 1].pts;
        let a = q_area(pts);
        let t = if q_le(q_zero(), q_area2(pts, pts.len() as int)) {
            q_neg(a)
        } else {
            a
        };
        q_add(q_shape_area(ps, n - 1), t)
    }
}

impl Shape {
    pub fn new(polys: Vec<Polygon>) -> (r: Shape)
        ensures
            r.polys@ == polys@,
    {
        Shape { polys }
    }

    /// The net enclosed area, holes counted negatively.
    pub fn area(self) -> (r: Scalar)
        requires
            polys_wf(polys_view(self.polys@)),
        ensures
            r@.wf(),
            q_eq(r@, q_shape_area(polys_view(self.polys@), self.polys@.len() as int)),
    {
        let mut a = Scalar::zero();
        let mut i: usize = 0;
        proof {
            assert(repr_q(a, q_shape_area(polys_view(self.polys@), 0)));
        }
        while i < self.polys.len()
            invariant
                polys_wf(polys_view(self.polys@)),
                i <= self.polys@.len(),
                a@.wf(),
                repr_q(a, q_shape_area(polys_view(self.polys@), i as int)),
            decreases self.polys@.len() - i,
        {
            let p = &self.polys[i];
            let ghost pv = polys_view(self.polys@)[i as int];
            proof {
                assert(p@ == pv);
            }
            let term = p.area();
            proof {
                assert(repr_q(term, q_area(pv.pts)));
            }
            let signed = if p.is_hole() {
                term.neg()
            } else {
                term
            };
            proof {
                let av = q_area(pv.pts);
                let tv = if q_le(q_zero(), q_area2(pv.pts, pv.pts.len() as int)) {
                    q_neg(av)
                } else {
                    av
                };
                assert(repr_q(signed, tv));
            }
            a = a.add(&signed);
            i = i + 1;
        }
        a
    }
}

/// An ordered collection of crease lines.
pub struct Skeleton {
    pub lines: Vec<Line>,
}

impl Skeleton {
    pub fn new(lines: Vec<Line>) -> (r: Skeleton)
        ensures
            r.lines@ == lines@,
    {
        Skeleton { lines }
    }

    /// A new skeleton with `line` appended.
    pub fn push(self, line: Line) -> (r: Skeleton)
        ensures
            r.lines@.len() == self.lines@.len() + 1,
            forall|i: int|
                0 <= i < self.lines@.len() ==> #[trigger] r.lines@[i]@ == self.lines@[i]@,
            r.lines@[self.lines@.len() as int]@ == line@,
    {
        let mut lines = clone_lines(&self.lines);
        lines.push(line);
        Skeleton { lines }
    }

    /// The crease lines.
    pub fn lines(self) -> (r: Vec<Line>)
        ensures
            r@.len() == self.lines@.len(),
            forall|i: int| 0 <= i < r@.len() ==> #[trigger] r@[i]@ == self.lines@[i]@,
    {
        clone_lines(&self.lines)
    }

    /// The number of crease lines.
    pub fn len(self) -> (r: usize)
        ensures
            r == self.lines@.len(),
    {
        self.lines.len()
    }
}

/// Clone a vector of lines; the views are unchanged.
pub(crate) fn clone_lines(v: &Vec<Line>) -> (r: Vec<Line>)
    ensures
        r@.len() == v@.len(),
        forall|i: int| 0 <= i < v@.len() ==> #[trigger] r@[i]@ == v@[i]@,
{
    let mut r: Vec<Line> = Vec::new();
    let mut i: usize = 0;
    while i < v.len()
        invariant
            i <= v@.len(),
            r@.len() == i,
            forall|j: int| 0 <= j < i ==> #[trigger] r@[j]@ == v@[j]@,
        decreases v@.len() - i,
    {
        r.push(v[i].clone());
        i = i + 1;
    }
    r
}

} // verus!
