//! The fold engine: the affine reflection across a fold line, and the
//! flipping of lines and polygons across it.
//!
//! The reflection is built as the composition of a translation taking the
//! fold line through the origin, the mirror about the line's direction
//! (the two rotations and the axis mirror of the classical construction,
//! combined symbolically so the matrix stays exact: the sine and cosine
//! only ever occur in the products `c^2 - s^2` and `2cs`, which are
//! rational), and the translation back.

use vstd::prelude::*;

use crate::geom::{coincident_spec, qp_close, qp_eqv, Line, Point, Qline, Qpt};
use crate::intersect::{intersect_discrete, seg_den, seg_params_valid, seg_point};
use crate::matrix::{
    lemma_qm_eqv_trans, lemma_qm_mul_congruence, lemma_qm_transform_congruence, qm_eqv, qm_mul,
    qm_transform, Matrix33, Qmat,
};
use crate::polygon::{pts_view, Polygon, Qpoly};
use crate::rational::{
    q_add, q_div, q_eq, q_int, q_mul, q_neg, q_sub, q_zero, lemma_q_eq_trans, lemma_q_ops_wf,
    lemma_q_sign_transfer, Qv,
};
use crate::scalar::{repr_q, Scalar};

verus! {

/// The translation matrix by `(tx, ty)`, as a view.
pub open spec fn qm_translate(tx: Qv, ty: Qv) -> Qmat {
    Qmat {
        m00: q_int(1),
        m01: q_int(0),
        m02: q_int(0),
        m10: q_int(0),
        m11: q_int(1),
        m12: q_int(0),
        m20: tx,
        m21: ty,
        m22: q_int(1),
    }
}

/// The mirror about the direction `(dx, dy)` through the origin: linear
/// part `[(dx^2 - dy^2, 2 dx dy), (2 dx dy, dy^2 - dx^2)] / (dx^2 + dy^2)`.
pub open spec fn qm_mirror(dx: Qv, dy: Qv) -> Qmat {
    let l2 = q_add(q_mul(dx, dx), q_mul(dy, dy));
    let a = q_div(q_sub(q_mul(dx, dx), q_mul(dy, dy)), l2);
    let b = q_div(q_mul(q_int(2), q_mul(dx, dy)), l2);
    Qmat {
        m00: a,
        m01: b,
        m02: q_int(0),
        m10: b,
        m11: q_neg(a),
        m12: q_int(0),
        m20: q_int(0),
        m21: q_int(0),
        m22: q_int(1),
    }
}

/// The affine reflection across the line through `v1` and `v2`: translate
/// `v1` to the origin, mirror about the direction, translate back.
pub open spec fn reflect_mat(v1: Qpt, v2: Qpt) -> Qmat {
    let dx = q_sub(v2.x, v1.x);
    let dy = q_sub(v2.y, v1.y);
    qm_mul(
        qm_mul(qm_translate(q_neg(v1.x), q_neg(v1.y)), qm_mirror(dx, dy)),
        qm_translate(v1.x, v1.y),
    )
}

/// The mirror image of `p` across the line through `v1` and `v2`.
pub open spec fn reflect_point(v1: Qpt, v2: Qpt, p: Qpt) -> Qpt {
    qm_transform(reflect_mat(v1, v2), p)
}

/// The affine reflection across the (non-degenerate) line through the two
/// vertices.
pub fn reflect_matrix(vertex1: &Point, vertex2: &Point) -> (r: Matrix33)
    requires
        !qp_eqv(vertex1@, vertex2@),
    ensures
        r@.wf(),
        reflect_mat(vertex1@, vertex2@).wf(),
        qm_eqv(r@, reflect_mat(vertex1@, vertex2@)),
{
    proof {
        use_type_invariant(&vertex1.x);
        use_type_invariant(&vertex1.y);
        use_type_invariant(&vertex2.x);
        use_type_invariant(&vertex2.y);
        assert(repr_q(vertex1.x, vertex1@.x));
        assert(repr_q(vertex1.y, vertex1@.y));
        assert(repr_q(vertex2.x, vertex2@.x));
        assert(repr_q(vertex2.y, vertex2@.y));
    }
    let ghost gdx = q_sub(vertex2@.x, vertex1@.x);
    let ghost gdy = q_sub(vertex2@.y, vertex1@.y);
    let ghost gl2 = q_add(q_mul(gdx, gdx), q_mul(gdy, gdy));
    let dx = vertex2.x.sub(&vertex1.x);
    let dy = vertex2.y.sub(&vertex1.y);
    let xx = dx.mul(&dx);
    let yy = dy.mul(&dy);
    let l2 = xx.add(&yy);
    proof {
        assert(repr_q(dx, gdx));
        assert(repr_q(dy, gdy));
        assert(repr_q(l2, gl2));
        crate::geom::lemma_sum_squares(gdx, gdy);
        lemma_q_sign_transfer(l2@, gl2);
    }
    let a = xx.sub(&yy).div(&l2);
    let two = Scalar::from_int(2);
    let b = two.mul(&dx.mul(&dy)).div(&l2);
    proof {
        assert(repr_q(two, q_int(2)));
        assert(repr_q(a, q_div(q_sub(q_mul(gdx, gdx), q_mul(gdy, gdy)), gl2)));
        assert(repr_q(b, q_div(q_mul(q_int(2), q_mul(gdx, gdy)), gl2)));
    }
    let na = a.neg();
    let b2 = b.clone();
    let mirror = Matrix33::new(
        (a, b, Scalar::zero()),
        (b2, na, Scalar::zero()),
        (Scalar::zero(), Scalar::zero(), Scalar::one()),
    );
    let t1 = Matrix33::translate(vertex1.x.neg(), vertex1.y.neg());
    let t2 = Matrix33::translate(vertex1.x.clone(), vertex1.y.clone());
    proof {
        assert(qm_mirror(gdx, gdy).wf()) by {
            lemma_q_ops_wf(q_mul(gdx, gdx), q_mul(gdy, gdy));
            lemma_q_ops_wf(gdx, gdx);
            lemma_q_ops_wf(gdy, gdy);
            lemma_q_ops_wf(gdx, gdy);
            lemma_q_ops_wf(q_sub(q_mul(gdx, gdx), q_mul(gdy, gdy)), gl2);
            lemma_q_ops_wf(q_int(2), q_mul(gdx, gdy));
            lemma_q_ops_wf(q_mul(q_int(2), q_mul(gdx, gdy)), gl2);
            lemma_q_ops_wf(qm_mirror(gdx, gdy).m00, qm_mirror(gdx, gdy).m00);
        }
        assert(qm_eqv(mirror@, qm_mirror(gdx, gdy)));
        assert(qm_translate(q_neg(vertex1@.x), q_neg(vertex1@.y)).wf()) by {
            lemma_q_ops_wf(vertex1@.x, vertex1@.y);
        }
        assert(qm_eqv(t1@, qm_translate(q_neg(vertex1@.x), q_neg(vertex1@.y))));
        assert(qm_translate(vertex1@.x, vertex1@.y).wf());
        assert(qm_eqv(t2@, qm_translate(vertex1@.x, vertex1@.y)));
    }
    let u = t1.mul(&mirror);
    let r = u.mul(&t2);
    proof {
        lemma_qm_mul_congruence(
            t1@,
            qm_translate(q_neg(vertex1@.x), q_neg(vertex1@.y)),
            mirror@,
            qm_mirror(gdx, gdy),
        );
        lemma_qm_eqv_trans(
            u@,
            qm_mul(t1@, mirror@),
            qm_mul(qm_translate(q_neg(vertex1@.x), q_neg(vertex1@.y)), qm_mirror(gdx, gdy)),
        );
        lemma_qm_mul_congruence(
            u@,
            qm_mul(qm_translate(q_neg(vertex1@.x), q_neg(vertex1@.y)), qm_mirror(gdx, gdy)),
            t2@,
            qm_translate(vertex1@.x, vertex1@.y),
        );
        lemma_qm_eqv_trans(r@, qm_mul(u@, t2@), reflect_mat(vertex1@, vertex2@));
    }
    r
}

/// Both endpoints of `line` reflected across the fold line.
pub fn flip_line(line: &Line, vertex1: &Point, vertex2: &Point) -> (r: Line)
    requires
        !qp_eqv(vertex1@, vertex2@),
    ensures
        r@.wf(),
        qp_eqv(r@.p1, reflect_point(vertex1@, vertex2@, line@.p1)),
        qp_eqv(r@.p2, reflect_point(vertex1@, vertex2@, line@.p2)),
{
    proof {
        use_type_invariant(&line.p1.x);
        use_type_invariant(&line.p1.y);
        use_type_invariant(&line.p2.x);
        use_type_invariant(&line.p2.y);
    }
    let affine = reflect_matrix(vertex1, vertex2);
    let q1 = affine.transform(line.p1.clone());
    let q2 = affine.transform(line.p2.clone());
    proof {
        lemma_qm_transform_congruence(
            affine@,
            reflect_mat(vertex1@, vertex2@),
            line@.p1,
            line@.p1,
        );
        lemma_q_eq_trans(
            q1@.x,
            qm_transform(affine@, line@.p1).x,
            reflect_point(vertex1@, vertex2@, line@.p1).x,
        );
        lemma_q_eq_trans(
            q1@.y,
            qm_transform(affine@, line@.p1).y,
            reflect_point(vertex1@, vertex2@, line@.p1).y,
        );
        lemma_qm_transform_congruence(
            affine@,
            reflect_mat(vertex1@, vertex2@),
            line@.p2,
            line@.p2,
        );
        lemma_q_eq_trans(
            q2@.x,
            qm_transform(affine@, line@.p2).x,
            reflect_point(vertex1@, vertex2@, line@.p2).x,
        );
        lemma_q_eq_trans(
            q2@.y,
            qm_transform(affine@, line@.p2).y,
            reflect_point(vertex1@, vertex2@, line@.p2).y,
        );
    }
    Line { p1: q1, p2: q2 }
}

/// Fold a line across the fold segment: where the line crosses it, the
/// part on `line.p1`'s side stays and the rest is reflected, both halves
/// sharing the crossing point; where it does not cross, the whole line is
/// reflected.
pub fn fold_line(line: &Line, vertex1: &Point, vertex2: &Point) -> (r: Vec<Line>)
    requires
        !qp_eqv(vertex1@, vertex2@),
    ensures
        ({
            let fold = Qline { p1: vertex1@, p2: vertex2@ };
            if !q_eq(seg_den(line@, fold), q_zero()) && seg_params_valid(line@, fold) {
                &&& r@.len() == 2
                &&& qp_eqv(r@[0]@.p1, seg_point(line@, fold))
                &&& r@[0]@.p2 == line@.p1
                &&& qp_eqv(r@[1]@.p1, seg_point(line@, fold))
                &&& qp_eqv(r@[1]@.p2, reflect_point(vertex1@, vertex2@, line@.p2))
            } else {
                &&& r@.len() == 1
                &&& qp_eqv(r@[0]@.p1, reflect_point(vertex1@, vertex2@, line@.p1))
                &&& qp_eqv(r@[0]@.p2, reflect_point(vertex1@, vertex2@, line@.p2))
            }
        }),
{
    let fold = Line::new(vertex1.clone(), vertex2.clone());
    let intersect = intersect_discrete(line, &fold);
    match intersect {
        Some(p) => {
            proof {
                use_type_invariant(&line.p1.x);
                use_type_invariant(&line.p1.y);
                use_type_invariant(&line.p2.x);
                use_type_invariant(&line.p2.y);
            }
            let l1 = Line { p1: p.clone(), p2: line.p1.clone() };
            let affine = reflect_matrix(vertex1, vertex2);
            let q2 = affine.transform(line.p2.clone());
            proof {
                lemma_qm_transform_congruence(
                    affine@,
                    reflect_mat(vertex1@, vertex2@),
                    line@.p2,
                    line@.p2,
                );
                lemma_q_eq_trans(
                    q2@.x,
                    qm_transform(affine@, line@.p2).x,
                    reflect_point(vertex1@, vertex2@, line@.p2).x,
                );
                lemma_q_eq_trans(
                    q2@.y,
                    qm_transform(affine@, line@.p2).y,
                    reflect_point(vertex1@, vertex2@, line@.p2).y,
                );
            }
            let l2 = Line { p1: p, p2: q2 };
            let mut r: Vec<Line> = Vec::new();
            r.push(l1);
            r.push(l2);
            r
        },
        None => {
            let mut r: Vec<Line> = Vec::new();
            r.push(flip_line(line, vertex1, vertex2));
            r
        },
    }
}

/// A polygon reflected across the fold line: every vertex mirrored, the
/// boundary order reversed to restore the winding, and the reflection
/// composed onto the accumulated transform.
pub fn flip_polygon(poly: &Polygon, vertex1: &Point, vertex2: &Point) -> (r: Polygon)
    requires
        poly@.wf(),
        !qp_eqv(vertex1@, vertex2@),
    ensures
        r@.wf(),
        flipped_of(poly@, vertex1@, vertex2@, r@),
{
    let affine = reflect_matrix(vertex1, vertex2);
    let n = poly.points.len();
    let mut poly_f: Vec<Point> = Vec::new();
    let mut i: usize = 0;
    while i < n
        invariant
            poly@.wf(),
            n == poly.points@.len(),
            poly@.pts.len() == n,
            affine@.wf(),
            reflect_mat(vertex1@, vertex2@).wf(),
            qm_eqv(affine@, reflect_mat(vertex1@, vertex2@)),
            i <= n,
            poly_f@.len() == i,
            forall|j: int|
                0 <= j < i ==> qp_eqv(
                    #[trigger] pts_view(poly_f@)[j],
                    reflect_point(vertex1@, vertex2@, poly@.pts[n - 1 - j]),
                ),
        decreases n - i,
    {
        let p = poly.points[n - 1 - i].clone();
        let ghost pv = poly@.pts[n - 1 - i as int];
        proof {
            assert(p@ == pv);
            use_type_invariant(&p.x);
            use_type_invariant(&p.y);
        }
        let q = affine.transform(p);
        proof {
            lemma_qm_transform_congruence(affine@, reflect_mat(vertex1@, vertex2@), pv, pv);
            lemma_q_eq_trans(
                q@.x,
                qm_transform(affine@, pv).x,
                reflect_point(vertex1@, vertex2@, pv).x,
            );
            lemma_q_eq_trans(
                q@.y,
                qm_transform(affine@, pv).y,
                reflect_point(vertex1@, vertex2@, pv).y,
            );
        }
        let ghost before = pts_view(poly_f@);
        poly_f.push(q);
        proof {
            assert(pts_view(poly_f@)[i as int] == q@);
            assert forall|j: int| 0 <= j < i implies #[trigger] pts_view(poly_f@)[j] == before[j]
                by {
                assert(poly_f@[j] == poly_f@.subrange(0, i as int)[j]);
            }
        }
        i = i + 1;
    }
    let t = poly.transform.mul(&affine);
    proof {
        use_type_invariant(&poly.transform);
        lemma_qm_mul_congruence(
            poly@.mat,
            poly@.mat,
            affine@,
            reflect_mat(vertex1@, vertex2@),
        );
        lemma_qm_eqv_trans(
            t@,
            qm_mul(poly@.mat, affine@),
            qm_mul(poly@.mat, reflect_mat(vertex1@, vertex2@)),
        );
    }
    Polygon::with_transform(poly_f, t)
}

/// `g` is `f` reflected across the fold line: the mirrored vertices in
/// reversed order, and the reflection composed onto the transform.
pub open spec fn flipped_of(f: Qpoly, v1: Qpt, v2: Qpt, g: Qpoly) -> bool {
    &&& g.pts.len() == f.pts.len()
    &&& forall|j: int|
        0 <= j < f.pts.len() ==> qp_eqv(
            #[trigger] g.pts[j],
            reflect_point(v1, v2, f.pts[f.pts.len() - 1 - j]),
        )
    &&& qm_eqv(g.mat, qm_mul(f.mat, reflect_mat(v1, v2)))
}

/// The views of the rows of in-progress boundaries.
pub open spec fn rows_view(v: Seq<Vec<Point>>) -> Seq<Seq<Qpt>> {
    v.map_values(|row: Vec<Point>| pts_view(row@))
}

/// The views of the registered resume entries.
pub open spec fn resume_view(v: Seq<(Point, usize)>) -> Seq<(Qpt, int)> {
    v.map_values(|pr: (Point, usize)| (pr.0@, pr.1 as int))
}

/// The row index registered to resume at a point within tolerance of
/// `key`, if any; the most recently registered entry wins, as a map
/// overwritten on insertion would have it.
pub open spec fn lookup_spec(resume: Seq<(Qpt, int)>, key: Qpt) -> Option<int>
    decreases resume.len(),
{
    if resume.len() == 0 {
        None
    } else if qp_close(resume.last().0, key) {
        Some(resume.last().1)
    } else {
        lookup_spec(resume.drop_last(), key)
    }
}

/// The first cut pair from index `k` on whose points the edge reaches:
/// one of the pair's points is coincident on the edge and is not (within
/// tolerance) the edge's start, and it comes first in the pair returned.
pub open spec fn edge_pair_choice(inter: Seq<(Qpt, Qpt)>, e: Qline, k: int) -> Option<(Qpt, Qpt)>
    decreases inter.len() - k,
{
    if k < 0 || k >= inter.len() {
        None
    } else if coincident_spec(e, inter[k].0) && !qp_close(e.p1, inter[k].0) {
        Some((inter[k].0, inter[k].1))
    } else if coincident_spec(e, inter[k].1) && !qp_close(e.p1, inter[k].1) {
        Some((inter[k].1, inter[k].0))
    } else {
        edge_pair_choice(inter, e, k + 1)
    }
}

/// The state of the boundary walk: the in-progress fragment boundaries,
/// the index of the one being filled, and the resume registrations.
pub ghost struct WalkState {
    pub rows: Seq<Seq<Qpt>>,
    pub cur: int,
    pub resume: Seq<(Qpt, int)>,
}

/// One step of the boundary walk over edge `e`: append the edge's start
/// to the current row; when the edge reaches a cut point, append it too,
/// register the paired point to resume the current row, switch to the row
/// registered at the reached point (or open a new one), and seed the new
/// current row with the cut point unless the edge ends exactly there.
pub open spec fn walk_step(st: WalkState, pts: Seq<Qpt>, inter: Seq<(Qpt, Qpt)>, e: int) -> WalkState {
    let edge = crate::polygon::poly_edge(pts, e);
    let rows1 = st.rows.update(st.cur, st.rows[st.cur].push(edge.p1));
    match edge_pair_choice(inter, edge, 0) {
        None => WalkState { rows: rows1, cur: st.cur, resume: st.resume },
        Some(pr) => {
            let rows2 = rows1.update(st.cur, rows1[st.cur].push(pr.0));
            let resume2 = st.resume.push((pr.1, st.cur));
            let cur3 = match lookup_spec(resume2, pr.0) {
                Some(ix) => ix,
                None => rows2.len() as int,
            };
            let rows3 = match lookup_spec(resume2, pr.0) {
                Some(_) => rows2,
                None => rows2.push(Seq::empty()),
            };
            let rows4 = if !qp_close(edge.p2, pr.0) {
                rows3.update(cur3, rows3[cur3].push(pr.0))
            } else {
                rows3
            };
            WalkState { rows: rows4, cur: cur3, resume: resume2 }
        },
    }
}

/// The edge processed at step `j`: the walk starts at edge 1 so that the
/// appended edge starts are the vertices in their original order, and
/// wraps to edge 0 last.
pub open spec fn walk_edge(len: int, j: int) -> int {
    if j + 1 == len {
        0int
    } else {
        j + 1
    }
}

/// The boundary walk after `n` steps, from a single empty row.
pub open spec fn walk(pts: Seq<Qpt>, inter: Seq<(Qpt, Qpt)>, n: int) -> WalkState
    decreases n,
{
    if n <= 0 {
        WalkState { rows: seq![Seq::<Qpt>::empty()], cur: 0, resume: Seq::empty() }
    } else {
        walk_step(walk(pts, inter, n - 1), pts, inter, walk_edge(pts.len() as int, n - 1))
    }
}

/// The rows that become fragments: those with at least three vertices,
/// in order, over the first `k` rows.
pub open spec fn rows_keep(rows: Seq<Seq<Qpt>>, k: int) -> Seq<Seq<Qpt>>
    decreases k,
{
    if k <= 0 {
        Seq::empty()
    } else {
        let r = rows_keep(rows, k - 1);
        if rows[k - 1].len() >= 3 {
            r.push(rows[k - 1])
        } else {
            r
        }
    }
}

/// With no cut pairs the walk never switches rows: it fills the single
/// row with the vertices in order.
proof fn lemma_walk_no_crossing(pts: Seq<Qpt>, n: int)
    requires
        0 <= n <= pts.len(),
        pts.len() >= 1,
    ensures
        walk(pts, Seq::empty(), n).rows == seq![pts.subrange(0, n)],
        walk(pts, Seq::empty(), n).cur == 0,
        walk(pts, Seq::empty(), n).resume == Seq::<(Qpt, int)>::empty(),
    decreases n,
{
    if n <= 0 {
        assert(walk(pts, Seq::empty(), 0).rows =~~= seq![pts.subrange(0, 0)]);
    } else {
        lemma_walk_no_crossing(pts, n - 1);
        let e = walk_edge(pts.len() as int, n - 1);
        assert(edge_pair_choice(Seq::empty(), crate::polygon::poly_edge(pts, e), 0) is None);
        assert(crate::polygon::poly_edge(pts, e).p1 == pts[n - 1]);
        assert(pts.subrange(0, n - 1).push(pts[n - 1]) =~= pts.subrange(0, n));
        assert(walk(pts, Seq::empty(), n).rows =~~= seq![pts.subrange(0, n)]);
    }
}

/// What splitting promises. Each fragment is a well-formed polygon that
/// inherits the parent's transform unchanged. For some valid boundary
/// intersection of the fold line, the fragments' boundaries are exactly
/// the rows of the boundary walk (`walk`) that reached three vertices, in
/// order; in particular, with no boundary crossing the sole fragment
/// carries the parent's boundary unchanged.
pub open spec fn split_post(p: Qpoly, v1: Qpt, v2: Qpt, frags: Seq<Qpoly>) -> bool {
    &&& forall|i: int|
        0 <= i < frags.len() ==> (#[trigger] frags[i]).wf() && frags[i].mat == p.mat
    &&& exists|inter: Seq<(Qpt, Qpt)>, cands: Seq<Qpt>, sorted: Seq<Qpt>|
        #![trigger crate::intersect::intersect_poly_post(
            Qline { p1: v1, p2: v2 }, p.pts, false, cands, sorted, inter,
        )]
        {
            &&& crate::intersect::intersect_poly_post(
                Qline { p1: v1, p2: v2 },
                p.pts,
                false,
                cands,
                sorted,
                inter,
            )
            &&& {
                let rows = walk(p.pts, inter, p.pts.len() as int).rows;
                let keep = rows_keep(rows, rows.len() as int);
                &&& frags.len() == keep.len()
                &&& forall|i: int| 0 <= i < frags.len() ==> (#[trigger] frags[i]).pts == keep[i]
            }
            &&& (inter.len() == 0 ==> frags.len() == 1 && frags[0].pts == p.pts)
        }
}

/// Append a point to row `i`.
fn push_at(polys: &mut Vec<Vec<Point>>, i: usize, p: Point)
    requires
        i < old(polys)@.len(),
    ensures
        final(polys)@.len() == old(polys)@.len(),
        forall|j: int|
            0 <= j < final(polys)@.len() && j != i ==> final(polys)@[j] == old(polys)@[j],
        final(polys)@[i as int]@ == old(polys)@[i as int]@.push(p),
{
    let mut row = polys.remove(i);
    row.push(p);
    polys.insert(i, row);
    proof {
        assert forall|j: int| 0 <= j < polys@.len() && j != i implies polys@[j] == old(
            polys,
        )@[j] by {
            if j < i {
                assert(polys@[j] == old(polys)@.remove(i as int)[j]);
            } else {
                assert(polys@[j] == old(polys)@.remove(i as int)[j - 1]);
            }
        }
    }
}

/// The row index waiting to resume at a point within tolerance of `key`,
/// if any: exactly `lookup_spec`, the most recent registration winning.
fn lookup_resume(resume: &Vec<(Point, usize)>, key: &Point) -> (r: Option<usize>)
    ensures
        match r {
            Some(ix) => lookup_spec(resume_view(resume@), key@) == Some(ix as int)
                && exists|m: int| 0 <= m < resume@.len() && ix == (#[trigger] resume@[m]).1,
            None => lookup_spec(resume_view(resume@), key@) is None,
        },
{
    let ghost sv = resume_view(resume@);
    let mut m: usize = resume.len();
    proof {
        assert(sv.subrange(0, resume@.len() as int) =~= sv);
    }
    while m > 0
        invariant
            sv == resume_view(resume@),
            m <= resume@.len(),
            lookup_spec(sv, key@) == lookup_spec(sv.subrange(0, m as int), key@),
        decreases m,
    {
        m = m - 1;
        proof {
            assert(sv.subrange(0, m as int + 1).last() == sv[m as int]);
            assert(sv.subrange(0, m as int + 1).drop_last() =~= sv.subrange(0, m as int));
            assert(sv[m as int] == (resume@[m as int].0@, resume@[m as int].1 as int));
        }
        if resume[m].0 == *key {
            return Some(resume[m].1);
        }
    }
    proof {
        assert(sv.subrange(0, 0) =~= Seq::<(Qpt, int)>::empty());
    }
    None
}

/// Split a polygon by the fold line through `v1` and `v2`.
///
/// The boundary is walked edge by edge, starting at the first edge so
/// that the vertices are appended in their original order; each
/// in-progress fragment grows until a cut point is reached, where the
/// walk switches to the fragment registered to resume at that point (or
/// opens a new one). The walk is mirrored exactly by the `walk`
/// specification; rows that never grow to three vertices are dropped.
/// Splitting moves no coordinate, so each fragment inherits the parent's
/// transform.
pub fn split_polygon(poly: &Polygon, v1: &Point, v2: &Point) -> (r: Vec<Polygon>)
    requires
        poly@.wf(),
        !qp_eqv(v1@, v2@),
    ensures
        split_post(poly@, v1@, v2@, crate::polygon::polys_view(r@)),
{
    let fold = Line::new(v1.clone(), v2.clone());
    let intersections = crate::intersect::intersect_poly_inf(fold, poly);
    let ghost ginter = crate::intersect::pairs_view(intersections@);
    let ghost base = poly@.pts;
    let edges = poly.edges();
    let n = edges.len();
    let mut polys: Vec<Vec<Point>> = Vec::new();
    let first: Vec<Point> = Vec::new();
    polys.push(first);
    let mut cur: usize = 0;
    let mut resume: Vec<(Point, usize)> = Vec::new();
    let mut j: usize = 0;
    proof {
        assert(rows_view(polys@) =~~= seq![Seq::<Qpt>::empty()]);
        assert(resume_view(resume@) =~= Seq::<(Qpt, int)>::empty());
    }
    while j < n
        invariant
            poly@.wf(),
            base == poly@.pts,
            ginter == crate::intersect::pairs_view(intersections@),
            n == base.len(),
            edges@.len() == base.len(),
            forall|j2: int|
                0 <= j2 < edges@.len() ==> #[trigger] edges@[j2]@ == crate::polygon::poly_edge(
                    base,
                    j2,
                ),
            j <= n,
            polys@.len() >= 1,
            cur < polys@.len(),
            forall|m: int| 0 <= m < resume@.len() ==> (#[trigger] resume@[m]).1 < polys@.len(),
            rows_view(polys@) == walk(base, ginter, j as int).rows,
            cur as int == walk(base, ginter, j as int).cur,
            resume_view(resume@) == walk(base, ginter, j as int).resume,
        decreases n - j,
    {
        let ei = if j + 1 == n {
            0
        } else {
            j + 1
        };
        let edge = &edges[ei];
        let ghost ev = crate::polygon::poly_edge(base, ei as int);
        let ghost st = walk(base, ginter, j as int);
        let ghost stn = walk(base, ginter, j as int + 1);
        let ghost cur0 = cur as int;
        proof {
            assert(edge@ == ev);
            assert(ei as int == walk_edge(base.len() as int, j as int));
            assert(stn == walk_step(st, base, ginter, ei as int));
        }
        let ghost rows0 = rows_view(polys@);
        push_at(&mut polys, cur, edge.p1.clone());
        proof {
            assert(rows_view(polys@) =~~= rows0.update(
                cur as int,
                rows0[cur as int].push(ev.p1),
            ));
        }
        let mut co: Option<(Point, Point)> = None;
        let mut k: usize = 0;
        while k < intersections.len()
            invariant
                ginter == crate::intersect::pairs_view(intersections@),
                edge@ == ev,
                k <= intersections@.len(),
                co is None ==> edge_pair_choice(ginter, ev, 0) == edge_pair_choice(
                    ginter,
                    ev,
                    k as int,
                ),
                co matches Some(pr) ==> edge_pair_choice(ginter, ev, 0) == Some((pr.0@, pr.1@)),
            decreases intersections@.len() - k,
        {
            if co.is_none() {
                let pa = &intersections[k].0;
                let pb = &intersections[k].1;
                proof {
                    assert(pa@ == ginter[k as int].0);
                    assert(pb@ == ginter[k as int].1);
                }
                if edge.coincident(pa) && !(edge.p1 == *pa) {
                    co = Some((pa.clone(), pb.clone()));
                } else if edge.coincident(pb) && !(edge.p1 == *pb) {
                    co = Some((pb.clone(), pa.clone()));
                } else {
                    proof {
                        assert(edge_pair_choice(ginter, ev, k as int) == edge_pair_choice(
                            ginter,
                            ev,
                            k as int + 1,
                        ));
                    }
                }
            }
            k = k + 1;
        }
        match co {
            Some(pr) => {
                let (a, b) = pr;
                let ghost ga = a@;
                let ghost gb = b@;
                proof {
                    assert(edge_pair_choice(ginter, ev, 0) == Some((ga, gb)));
                }
                let ghost rows1 = rows_view(polys@);
                push_at(&mut polys, cur, a.clone());
                proof {
                    assert(rows_view(polys@) =~~= rows1.update(
                        cur as int,
                        rows1[cur as int].push(ga),
                    ));
                }
                let ghost rv0 = resume_view(resume@);
                resume.push((b, cur));
                proof {
                    assert(resume_view(resume@) =~= rv0.push((gb, cur0)));
                }
                match lookup_resume(&resume, &a) {
                    Some(ix) => {
                        cur = ix;
                    },
                    None => {
                        let fresh: Vec<Point> = Vec::new();
                        let ghost rows2 = rows_view(polys@);
                        polys.push(fresh);
                        proof {
                            assert(rows_view(polys@) =~~= rows2.push(Seq::<Qpt>::empty()));
                        }
                        cur = polys.len() - 1;
                    },
                }
                if !(edge.p2 == a) {
                    let ghost rows3 = rows_view(polys@);
                    push_at(&mut polys, cur, a.clone());
                    proof {
                        assert(rows_view(polys@) =~~= rows3.update(
                            cur as int,
                            rows3[cur as int].push(ga),
                        ));
                    }
                }
                proof {
                    assert(rows_view(polys@) == stn.rows);
                    assert(cur as int == stn.cur);
                    assert(resume_view(resume@) == stn.resume);
                }
            },
            None => {
                proof {
                    assert(edge_pair_choice(ginter, ev, 0) is None);
                    assert(rows_view(polys@) == stn.rows);
                }
            },
        }
        j = j + 1;
    }
    let mut r: Vec<Polygon> = Vec::new();
    let mut f: usize = 0;
    let ghost grows = rows_view(polys@);
    while f < polys.len()
        invariant
            poly@.wf(),
            base == poly@.pts,
            grows == rows_view(polys@),
            f <= polys@.len(),
            crate::polygon::polys_view(r@).len() == rows_keep(grows, f as int).len(),
            forall|i2: int|
                0 <= i2 < crate::polygon::polys_view(r@).len() ==> (
                #[trigger] crate::polygon::polys_view(r@)[i2]).wf()
                    && crate::polygon::polys_view(r@)[i2].mat == poly@.mat
                    && crate::polygon::polys_view(r@)[i2].pts == rows_keep(grows, f as int)[i2],
        decreases polys@.len() - f,
    {
        let row = &polys[f];
        if row.len() >= 3 {
            let ghost before = crate::polygon::polys_view(r@);
            let frag = Polygon::with_transform(
                crate::polygon::clone_points(row),
                poly.transform.clone(),
            );
            proof {
                assert(frag@.pts =~= grows[f as int]);
            }
            r.push(frag);
            proof {
                assert(crate::polygon::polys_view(r@) =~~= before.push(frag@));
            }
        }
        f = f + 1;
    }
    proof {
        let wk = walk(base, ginter, base.len() as int);
        assert(grows == wk.rows);
        if ginter.len() == 0 {
            assert(ginter =~= Seq::<(Qpt, Qpt)>::empty());
            lemma_walk_no_crossing(base, base.len() as int);
            assert(seq![base.subrange(0, base.len() as int)] =~~= seq![base]);
            assert(wk.rows == seq![base]);
            assert(rows_keep(wk.rows, 0) =~= Seq::<Seq<Qpt>>::empty());
            assert(rows_keep(wk.rows, 1) =~~= seq![base]);
        }
        assert(split_post(poly@, v1@, v2@, crate::polygon::polys_view(r@)));
    }
    r
}

/// Fold a polygon across the fold line: split it along the line, keep
/// every fragment that contains the anchor unchanged, and reflect every
/// fragment that does not.
pub fn fold_polygon(poly: &Polygon, vertex1: &Point, vertex2: &Point, anchor: &Point) -> (r: Vec<
    Polygon,
>)
    requires
        poly@.wf(),
        !qp_eqv(vertex1@, vertex2@),
    ensures
        exists|frags: Seq<Qpoly>|
            {
                &&& #[trigger] split_post(poly@, vertex1@, vertex2@, frags)
                &&& crate::polygon::polys_view(r@).len() == frags.len()
                &&& forall|i: int|
                    0 <= i < frags.len() ==> if crate::polygon::poly_contains_spec(
                        (#[trigger] frags[i]).pts,
                        anchor@,
                    ) {
                        crate::polygon::polys_view(r@)[i] == frags[i]
                    } else {
                        flipped_of(frags[i], vertex1@, vertex2@, crate::polygon::polys_view(r@)[i])
                    }
            },
{
    let frags = split_polygon(poly, vertex1, vertex2);
    let ghost gfrags = crate::polygon::polys_view(frags@);
    let mut r: Vec<Polygon> = Vec::new();
    let mut i: usize = 0;
    while i < frags.len()
        invariant
            !qp_eqv(vertex1@, vertex2@),
            gfrags == crate::polygon::polys_view(frags@),
            forall|j: int| 0 <= j < gfrags.len() ==> (#[trigger] gfrags[j]).wf(),
            i <= frags@.len(),
            crate::polygon::polys_view(r@).len() == i,
            forall|j: int|
                0 <= j < i ==> if crate::polygon::poly_contains_spec(
                    (#[trigger] gfrags[j]).pts,
                    anchor@,
                ) {
                    crate::polygon::polys_view(r@)[j] == gfrags[j]
                } else {
                    flipped_of(gfrags[j], vertex1@, vertex2@, crate::polygon::polys_view(r@)[j])
                },
        decreases frags@.len() - i,
    {
        let frag = &frags[i];
        proof {
            assert(frag@ == gfrags[i as int]);
        }
        let ghost before = crate::polygon::polys_view(r@);
        if frag.contains(anchor) {
            r.push(frag.clone());
        } else {
            r.push(flip_polygon(frag, vertex1, vertex2));
        }
        proof {
            assert(crate::polygon::polys_view(r@) =~~= before.push(r@[r@.len() - 1]@));
        }
        i = i + 1;
    }
    proof {
        assert(split_post(poly@, vertex1@, vertex2@, gfrags));
    }
    r
}

} // verus!
