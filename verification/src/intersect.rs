//! The intersection engine: infinite-line and discrete-segment
//! intersection, and the boundary-validated intersection of a line with a
//! polygon's boundary.

use vstd::prelude::*;

use crate::geom::{
    coincident_spec, cross_scalar, q_cross, q_dist_along, qp_add, qp_close, qp_eqv, qp_scale,
    qp_sub, repr_qp, Line, Point, Qline, Qpt,
};
use crate::polygon::{poly_edge, Polygon};
use crate::rational::{
    q_close, q_div, q_eq, q_le, q_lt, q_mul, q_one, q_sub, q_zero, lemma_not_close_zero,
    lemma_q_close_congruence, lemma_q_cmp_congruence, lemma_q_sign, lemma_q_sign_transfer, Qv,
};
use crate::scalar::{divide, eq_eps, repr_q, Scalar};

verus! {

/// The denominator of the infinite-intersection formula:
/// `(x1-x2)(y3-y4) - (y1-y2)(x3-x4)`.
pub open spec fn inf_det(a: Qline, b: Qline) -> Qv {
    q_sub(
        q_mul(q_sub(a.p1.x, a.p2.x), q_sub(b.p1.y, b.p2.y)),
        q_mul(q_sub(a.p1.y, a.p2.y), q_sub(b.p1.x, b.p2.x)),
    )
}

/// The abscissa of the intersection of the two carrying lines.
pub open spec fn inf_x(a: Qline, b: Qline) -> Qv {
    q_div(
        q_sub(
            q_mul(
                q_sub(q_mul(a.p1.x, a.p2.y), q_mul(a.p1.y, a.p2.x)),
                q_sub(b.p1.x, b.p2.x),
            ),
            q_mul(
                q_sub(a.p1.x, a.p2.x),
                q_sub(q_mul(b.p1.x, b.p2.y), q_mul(b.p1.y, b.p2.x)),
            ),
        ),
        inf_det(a, b),
    )
}

/// The ordinate of the intersection of the two carrying lines.
pub open spec fn inf_y(a: Qline, b: Qline) -> Qv {
    q_div(
        q_sub(
            q_mul(
                q_sub(q_mul(a.p1.x, a.p2.y), q_mul(a.p1.y, a.p2.x)),
                q_sub(b.p1.y, b.p2.y),
            ),
            q_mul(
                q_sub(a.p1.y, a.p2.y),
                q_sub(q_mul(b.p1.x, b.p2.y), q_mul(b.p1.y, b.p2.x)),
            ),
        ),
        inf_det(a, b),
    )
}

/// Intersection of the two carrying lines, extended to infinity. `None`
/// exactly when the determinant is within tolerance of zero (near-parallel
/// lines are treated as parallel); otherwise the exact intersection point
/// of the standard two-by-two determinant formula.
pub fn intersect_inf(a: &Line, b: &Line) -> (r: Option<Point>)
    ensures
        (r is None) <==> q_close(inf_det(a@, b@), q_zero()),
        r matches Some(p) ==> p@.wf() && q_eq(p@.x, inf_x(a@, b@)) && q_eq(p@.y, inf_y(a@, b@))
            && inf_x(a@, b@).wf() && inf_y(a@, b@).wf(),
{
    proof {
        use_type_invariant(&a.p1.x);
        use_type_invariant(&a.p1.y);
        use_type_invariant(&a.p2.x);
        use_type_invariant(&a.p2.y);
        use_type_invariant(&b.p1.x);
        use_type_invariant(&b.p1.y);
        use_type_invariant(&b.p2.x);
        use_type_invariant(&b.p2.y);
        assert(repr_q(a.p1.x, a@.p1.x));
        assert(repr_q(a.p1.y, a@.p1.y));
        assert(repr_q(a.p2.x, a@.p2.x));
        assert(repr_q(a.p2.y, a@.p2.y));
        assert(repr_q(b.p1.x, b@.p1.x));
        assert(repr_q(b.p1.y, b@.p1.y));
        assert(repr_q(b.p2.x, b@.p2.x));
        assert(repr_q(b.p2.y, b@.p2.y));
    }
    let d = a.p1.x.sub(&a.p2.x).mul(&b.p1.y.sub(&b.p2.y)).sub(
        &a.p1.y.sub(&a.p2.y).mul(&b.p1.x.sub(&b.p2.x)),
    );
    let z = Scalar::zero();
    proof {
        assert(repr_q(d, inf_det(a@, b@)));
        lemma_q_close_congruence(d@, inf_det(a@, b@), z@, q_zero());
    }
    if eq_eps(&d, &z) {
        return None;
    }
    proof {
        lemma_not_close_zero(inf_det(a@, b@));
        lemma_q_sign_transfer(d@, inf_det(a@, b@));
    }
    let ta = a.p1.x.mul(&a.p2.y).sub(&a.p1.y.mul(&a.p2.x));
    let tb = b.p1.x.mul(&b.p2.y).sub(&b.p1.y.mul(&b.p2.x));
    let x_out = ta.mul(&b.p1.x.sub(&b.p2.x)).sub(&a.p1.x.sub(&a.p2.x).mul(&tb)).div(&d);
    let y_out = ta.mul(&b.p1.y.sub(&b.p2.y)).sub(&a.p1.y.sub(&a.p2.y).mul(&tb)).div(&d);
    proof {
        assert(repr_q(x_out, inf_x(a@, b@)));
        assert(repr_q(y_out, inf_y(a@, b@)));
    }
    Some(Point { x: x_out, y: y_out })
}

/// The shared denominator of the discrete-intersection parameters: the
/// cross product of the two direction vectors.
pub open spec fn seg_den(a: Qline, b: Qline) -> Qv {
    q_cross(qp_sub(a.p2, a.p1), qp_sub(b.p2, b.p1))
}

/// The first parameter of the discrete intersection.
pub open spec fn seg_s(a: Qline, b: Qline) -> Qv {
    q_div(q_cross(qp_sub(a.p2, a.p1), qp_sub(a.p1, b.p1)), seg_den(a, b))
}

/// The second parameter of the discrete intersection.
pub open spec fn seg_t(a: Qline, b: Qline) -> Qv {
    q_div(q_cross(qp_sub(b.p2, b.p1), qp_sub(a.p1, b.p1)), seg_den(a, b))
}

/// Both parameters lie in the valid ranges: `0 <= s < 1` and
/// `0 <= t <= 1`. The asymmetric bounds break the tie when chained
/// segments share an endpoint.
pub open spec fn seg_params_valid(a: Qline, b: Qline) -> bool {
    &&& q_le(q_zero(), seg_s(a, b))
    &&& q_lt(seg_s(a, b), q_one())
    &&& q_le(q_zero(), seg_t(a, b))
    &&& q_le(seg_t(a, b), q_one())
}

/// The point the discrete intersection reports: `a.p1 + (a.p2 - a.p1) * t`.
pub open spec fn seg_point(a: Qline, b: Qline) -> Qpt {
    qp_add(a.p1, qp_scale(qp_sub(a.p2, a.p1), seg_t(a, b)))
}

/// Discrete-segment intersection by the parametric cross-product form:
/// `Some` exactly when the direction cross product is nonzero and both
/// parameters fall in the valid ranges; the reported point is then exact.
pub fn intersect_discrete(a: &Line, b: &Line) -> (r: Option<Point>)
    ensures
        (r is Some) <==> (!q_eq(seg_den(a@, b@), q_zero()) && seg_params_valid(a@, b@)),
        r matches Some(p) ==> p@.wf() && qp_eqv(p@, seg_point(a@, b@))
            && seg_point(a@, b@).wf(),
{
    proof {
        use_type_invariant(&a.p1.x);
        use_type_invariant(&a.p1.y);
        use_type_invariant(&a.p2.x);
        use_type_invariant(&a.p2.y);
        use_type_invariant(&b.p1.x);
        use_type_invariant(&b.p1.y);
        use_type_invariant(&b.p2.x);
        use_type_invariant(&b.p2.y);
        assert(repr_qp(a.p2, a@.p2));
        assert(repr_qp(a.p1, a@.p1));
        assert(repr_qp(b.p2, b@.p2));
        assert(repr_qp(b.p1, b@.p1));
    }
    let s1 = a.p2.sub(&a.p1);
    let s2 = b.p2.sub(&b.p1);
    let c1 = a.p1.sub(&b.p1);
    proof {
        assert(repr_qp(s1, qp_sub(a@.p2, a@.p1)));
        assert(repr_qp(s2, qp_sub(b@.p2, b@.p1)));
        assert(repr_qp(c1, qp_sub(a@.p1, b@.p1)));
    }
    let den = cross_scalar(&s1, &s2);
    let num_s = cross_scalar(&s1, &c1);
    let num_t = cross_scalar(&s2, &c1);
    proof {
        assert(repr_q(den, seg_den(a@, b@)));
        assert(repr_q(num_s, q_cross(qp_sub(a@.p2, a@.p1), qp_sub(a@.p1, b@.p1))));
        assert(repr_q(num_t, q_cross(qp_sub(b@.p2, b@.p1), qp_sub(a@.p1, b@.p1))));
        lemma_q_sign(seg_den(a@, b@));
        lemma_q_sign_transfer(den@, seg_den(a@, b@));
    }
    let x = divide(&num_s, &den);
    let y = divide(&num_t, &den);
    if x.is_none() || y.is_none() {
        return None;
    }
    let s = x.unwrap();
    let t = y.unwrap();
    let z = Scalar::zero();
    let one = Scalar::one();
    proof {
        crate::rational::lemma_q_div_congruence(
            num_s@,
            q_cross(qp_sub(a@.p2, a@.p1), qp_sub(a@.p1, b@.p1)),
            den@,
            seg_den(a@, b@),
        );
        crate::rational::lemma_q_eq_trans(
            s@,
            q_div(num_s@, den@),
            q_div(q_cross(qp_sub(a@.p2, a@.p1), qp_sub(a@.p1, b@.p1)), seg_den(a@, b@)),
        );
        crate::rational::lemma_q_div_congruence(
            num_t@,
            q_cross(qp_sub(b@.p2, b@.p1), qp_sub(a@.p1, b@.p1)),
            den@,
            seg_den(a@, b@),
        );
        crate::rational::lemma_q_eq_trans(
            t@,
            q_div(num_t@, den@),
            q_div(q_cross(qp_sub(b@.p2, b@.p1), qp_sub(a@.p1, b@.p1)), seg_den(a@, b@)),
        );
        lemma_q_cmp_congruence(z@, q_zero(), s@, seg_s(a@, b@));
        lemma_q_cmp_congruence(s@, seg_s(a@, b@), one@, q_one());
        lemma_q_cmp_congruence(z@, q_zero(), t@, seg_t(a@, b@));
        lemma_q_cmp_congruence(t@, seg_t(a@, b@), one@, q_one());
    }
    if z.le(&s) && s.lt(&one) && z.le(&t) && t.le(&one) {
        let p = a.p1.add(&s1.scale(t));
        proof {
            assert(repr_q(t, seg_t(a@, b@)));
            assert(repr_qp(p, qp_add(a@.p1, qp_scale(qp_sub(a@.p2, a@.p1), seg_t(a@, b@)))));
        }
        return Some(p);
    }
    None
}

/// The slope of the segment: `None` exactly for a vertical (or
/// degenerate) segment, otherwise the exact rise over run.
pub fn gradient(l: &Line) -> (r: Option<Scalar>)
    ensures
        (r is None) <==> q_eq(q_sub(l@.p2.x, l@.p1.x), q_zero()),
        r matches Some(g) ==> g@.wf() && q_eq(
            g@,
            q_div(q_sub(l@.p2.y, l@.p1.y), q_sub(l@.p2.x, l@.p1.x)),
        ),
{
    proof {
        use_type_invariant(&l.p1.x);
        use_type_invariant(&l.p1.y);
        use_type_invariant(&l.p2.x);
        use_type_invariant(&l.p2.y);
        assert(repr_q(l.p2.y, l@.p2.y));
        assert(repr_q(l.p1.y, l@.p1.y));
        assert(repr_q(l.p2.x, l@.p2.x));
        assert(repr_q(l.p1.x, l@.p1.x));
    }
    let dy = l.p2.y.sub(&l.p1.y);
    let dx = l.p2.x.sub(&l.p1.x);
    proof {
        assert(repr_q(dy, q_sub(l@.p2.y, l@.p1.y)));
        assert(repr_q(dx, q_sub(l@.p2.x, l@.p1.x)));
        lemma_q_sign(q_sub(l@.p2.x, l@.p1.x));
        lemma_q_sign_transfer(dx@, q_sub(l@.p2.x, l@.p1.x));
    }
    match divide(&dy, &dx) {
        None => None,
        Some(g) => {
            proof {
                crate::rational::lemma_q_div_congruence(
                    dy@,
                    q_sub(l@.p2.y, l@.p1.y),
                    dx@,
                    q_sub(l@.p2.x, l@.p1.x),
                );
                crate::rational::lemma_q_eq_trans(
                    g@,
                    q_div(dy@, dx@),
                    q_div(q_sub(l@.p2.y, l@.p1.y), q_sub(l@.p2.x, l@.p1.x)),
                );
            }
            Some(g)
        },
    }
}

/// The raw intersection of the query line with one edge exists, in the
/// chosen mode.
pub open spec fn cand_exists(l: Qline, e: Qline, discrete: bool) -> bool {
    if discrete {
        !q_eq(seg_den(l, e), q_zero()) && seg_params_valid(l, e)
    } else {
        !q_close(inf_det(l, e), q_zero())
    }
}

/// The raw intersection point, in the chosen mode.
pub open spec fn cand_point(l: Qline, e: Qline, discrete: bool) -> Qpt {
    if discrete {
        seg_point(l, e)
    } else {
        Qpt { x: inf_x(l, e), y: inf_y(l, e) }
    }
}

/// Edge `i` contributes a candidate: the raw intersection exists and the
/// point is coincident on that finite boundary edge (the re-validation
/// that discards points on an edge's infinite extension).
pub open spec fn cand_kept(l: Qline, pts: Seq<Qpt>, i: int, discrete: bool) -> bool {
    &&& cand_exists(l, poly_edge(pts, i), discrete)
    &&& coincident_spec(poly_edge(pts, i), cand_point(l, poly_edge(pts, i), discrete))
}

/// `c` is, in edge order, the sequence of validated candidate points over
/// the first `n` edges: one for each contributing edge, denotationally
/// equal to that edge's raw intersection point and lying on the edge.
pub open spec fn is_cand_seq(l: Qline, pts: Seq<Qpt>, discrete: bool, c: Seq<Qpt>, n: int) -> bool
    decreases n,
{
    if n <= 0 {
        c.len() == 0
    } else if cand_kept(l, pts, n - 1, discrete) {
        &&& c.len() >= 1
        &&& c.last().wf()
        &&& qp_eqv(c.last(), cand_point(l, poly_edge(pts, n - 1), discrete))
        &&& coincident_spec(poly_edge(pts, n - 1), c.last())
        &&& is_cand_seq(l, pts, discrete, c.drop_last(), n - 1)
    } else {
        is_cand_seq(l, pts, discrete, c, n - 1)
    }
}

/// Adjacent-pairs ordering along the query line by the projection key.
pub open spec fn sorted_along(l: Qline, s: Seq<Qpt>) -> bool {
    forall|i: int|
        0 <= i < s.len() - 1 ==> q_le(
            #[trigger] q_dist_along(l, s[i]),
            q_dist_along(l, s[i + 1]),
        )
}

/// Collapse runs of points within tolerance of the last kept point, over
/// the first `n` entries.
pub open spec fn dedup_close(s: Seq<Qpt>, n: int) -> Seq<Qpt>
    decreases n,
{
    if n <= 0 {
        Seq::empty()
    } else {
        let d = dedup_close(s, n - 1);
        if d.len() > 0 && qp_close(s[n - 1], d.last()) {
            d
        } else {
            d.push(s[n - 1])
        }
    }
}

/// The first `k` consecutive entry/exit pairs of a sequence.
pub open spec fn seq_pairs(s: Seq<Qpt>, k: int) -> Seq<(Qpt, Qpt)>
    decreases k,
{
    if k <= 0 {
        Seq::empty()
    } else {
        seq_pairs(s, k - 1).push((s[2 * (k - 1)], s[2 * (k - 1) + 1]))
    }
}

/// The views of a vector of point pairs.
pub open spec fn pairs_view(v: Seq<(Point, Point)>) -> Seq<(Qpt, Qpt)> {
    v.map_values(|pr: (Point, Point)| (pr.0@, pr.1@))
}

/// What the polygon intersection promises: some candidate sequence built
/// edge by edge, some reordering of it sorted along the query line, whose
/// deduplication either pairs up into the result (even count) or is
/// inconsistent (odd count) and yields the empty result.
pub open spec fn intersect_poly_post(
    l: Qline,
    pts: Seq<Qpt>,
    discrete: bool,
    cands: Seq<Qpt>,
    sorted: Seq<Qpt>,
    out: Seq<(Qpt, Qpt)>,
) -> bool {
    &&& is_cand_seq(l, pts, discrete, cands, pts.len() as int)
    &&& sorted.to_multiset() == cands.to_multiset()
    &&& sorted_along(l, sorted)
    &&& {
        let dd = dedup_close(sorted, sorted.len() as int);
        if dd.len() % 2 == 0 {
            out == seq_pairs(dd, dd.len() as int / 2)
        } else {
            out.len() == 0
        }
    }
}

/// Compare two candidate points by their projection along the line.
fn key_le(line: &Line, a: &Point, b: &Point) -> (r: bool)
    requires
        !qp_eqv(line@.p1, line@.p2),
    ensures
        r == q_le(q_dist_along(line@, a@), q_dist_along(line@, b@)),
{
    proof {
        use_type_invariant(&line.p1.x);
        use_type_invariant(&line.p1.y);
        use_type_invariant(&line.p2.x);
        use_type_invariant(&line.p2.y);
        use_type_invariant(&a.x);
        use_type_invariant(&a.y);
        use_type_invariant(&b.x);
        use_type_invariant(&b.y);
        crate::geom::lemma_key_wf(line@, a@);
        crate::geom::lemma_key_wf(line@, b@);
    }
    let ka = line.dist_along(a);
    let kb = line.dist_along(b);
    proof {
        lemma_q_cmp_congruence(
            ka@,
            q_dist_along(line@, a@),
            kb@,
            q_dist_along(line@, b@),
        );
    }
    ka.le(&kb)
}

/// The position at which `p` is inserted into the sorted prefix: after
/// every entry whose key is not above `p`'s.
fn find_pos(line: &Line, out: &Vec<Point>, p: &Point) -> (pos: usize)
    requires
        !qp_eqv(line@.p1, line@.p2),
    ensures
        pos <= out@.len(),
        forall|k: int|
            0 <= k < pos ==> q_le(
                #[trigger] q_dist_along(line@, crate::polygon::pts_view(out@)[k]),
                q_dist_along(line@, p@),
            ),
        pos < out@.len() ==> !q_le(
            q_dist_along(line@, crate::polygon::pts_view(out@)[pos as int]),
            q_dist_along(line@, p@),
        ),
{
    let mut j: usize = 0;
    while j < out.len()
        invariant
            !qp_eqv(line@.p1, line@.p2),
            j <= out@.len(),
            forall|k: int|
                0 <= k < j ==> q_le(
                    #[trigger] q_dist_along(line@, crate::polygon::pts_view(out@)[k]),
                    q_dist_along(line@, p@),
                ),
        decreases out@.len() - j,
    {
        if !key_le(line, &out[j], p) {
            return j;
        }
        j = j + 1;
    }
    j
}

/// Sort the candidate points by their projection along the query line,
/// by insertion into a fresh vector; the points (as a multiset of views)
/// are unchanged.
fn sort_candidates(line: &Line, cands: &Vec<Point>) -> (r: Vec<Point>)
    requires
        !qp_eqv(line@.p1, line@.p2),
    ensures
        crate::polygon::pts_view(r@).to_multiset() == crate::polygon::pts_view(
            cands@,
        ).to_multiset(),
        sorted_along(line@, crate::polygon::pts_view(r@)),
        crate::polygon::pts_wf(crate::polygon::pts_view(r@)),
{
    broadcast use vstd::seq_lib::group_to_multiset_ensures;

    proof {
        use_type_invariant(&line.p1.x);
        use_type_invariant(&line.p1.y);
        use_type_invariant(&line.p2.x);
        use_type_invariant(&line.p2.y);
    }
    let mut out: Vec<Point> = Vec::new();
    let mut i: usize = 0;
    proof {
        assert(crate::polygon::pts_view(cands@.subrange(0, 0)) =~= Seq::<Qpt>::empty());
        assert(crate::polygon::pts_view(out@) =~= Seq::<Qpt>::empty());
    }
    while i < cands.len()
        invariant
            line@.wf(),
            !qp_eqv(line@.p1, line@.p2),
            i <= cands@.len(),
            crate::polygon::pts_view(out@).to_multiset() == crate::polygon::pts_view(
                cands@.subrange(0, i as int),
            ).to_multiset(),
            sorted_along(line@, crate::polygon::pts_view(out@)),
            crate::polygon::pts_wf(crate::polygon::pts_view(out@)),
        decreases cands@.len() - i,
    {
        let p = cands[i].clone();
        proof {
            use_type_invariant(&p.x);
            use_type_invariant(&p.y);
        }
        let pos = find_pos(line, &out, &p);
        let ghost before = crate::polygon::pts_view(out@);
        let ghost keyp = q_dist_along(line@, p@);
        proof {
            crate::geom::lemma_key_wf(line@, p@);
            if pos < out@.len() {
                crate::geom::lemma_key_wf(line@, before[pos as int]);
                crate::rational::lemma_q_le_total(
                    q_dist_along(line@, before[pos as int]),
                    keyp,
                );
            }
        }
        out.insert(pos, p);
        proof {
            let after = crate::polygon::pts_view(out@);
            let prefix = crate::polygon::pts_view(cands@.subrange(0, i as int));
            assert(after =~= before.insert(pos as int, p@));
            vstd::seq_lib::to_multiset_insert(before, pos as int, p@);
            vstd::seq_lib::to_multiset_build(prefix, p@);
            assert(cands@.subrange(0, i as int + 1) =~= cands@.subrange(0, i as int).push(
                cands@[i as int],
            ));
            assert(crate::polygon::pts_view(cands@.subrange(0, i as int + 1)) =~= prefix.push(
                p@,
            ));
            assert forall|k: int| 0 <= k < after.len() - 1 implies q_le(
                #[trigger] q_dist_along(line@, after[k]),
                q_dist_along(line@, after[k + 1]),
            ) by {
                if k + 1 < pos as int {
                    assert(after[k] == before[k] && after[k + 1] == before[k + 1]);
                } else if k + 1 == pos as int {
                    assert(after[k] == before[k] && after[k + 1] == p@);
                } else if k == pos as int {
                    assert(after[k] == p@ && after[k + 1] == before[k]);
                    crate::geom::lemma_key_wf(line@, before[k]);
                    crate::rational::lemma_q_le_total(q_dist_along(line@, before[k]), keyp);
                } else {
                    assert(after[k] == before[k - 1] && after[k + 1] == before[k]);
                }
            }
        }
        i = i + 1;
    }
    proof {
        assert(cands@.subrange(0, cands@.len() as int) =~= cands@);
    }
    out
}

/// Collapse candidates within tolerance of the last kept one.
pub(crate) fn dedup_candidates(v: &Vec<Point>) -> (r: Vec<Point>)
    ensures
        crate::polygon::pts_view(r@) == dedup_close(
            crate::polygon::pts_view(v@),
            v@.len() as int,
        ),
{
    let ghost s = crate::polygon::pts_view(v@);
    let mut r: Vec<Point> = Vec::new();
    let mut i: usize = 0;
    proof {
        assert(crate::polygon::pts_view(r@) =~= dedup_close(s, 0));
    }
    while i < v.len()
        invariant
            s == crate::polygon::pts_view(v@),
            i <= v@.len(),
            crate::polygon::pts_view(r@) == dedup_close(s, i as int),
        decreases v@.len() - i,
    {
        let c = &v[i];
        let keep: bool;
        if r.len() == 0 {
            keep = true;
        } else {
            let last = r.len() - 1;
            keep = !(*c == r[last]);
        }
        if keep {
            let ghost before = crate::polygon::pts_view(r@);
            r.push(c.clone());
            proof {
                assert(crate::polygon::pts_view(r@) =~= before.push(c@));
            }
        }
        i = i + 1;
    }
    r
}

/// Intersection of a query line with every boundary edge of a polygon,
/// re-validated against the finite edges, ordered along the query line,
/// deduplicated, and paired into entry/exit segments. An odd number of
/// candidates is an inconsistent state and yields the empty result.
fn intersect_poly(line: Line, other: &Polygon, discrete: bool) -> (r: Vec<(Point, Point)>)
    requires
        other@.wf(),
        !qp_eqv(line@.p1, line@.p2),
    ensures
        exists|cands: Seq<Qpt>, sorted: Seq<Qpt>|
            intersect_poly_post(line@, other@.pts, discrete, cands, sorted, pairs_view(r@)),
{
    let edges = other.edges();
    let mut candidates: Vec<Point> = Vec::new();
    let mut i: usize = 0;
    proof {
        assert(crate::polygon::pts_view(candidates@) =~= Seq::<Qpt>::empty());
    }
    while i < edges.len()
        invariant
            other@.wf(),
            !qp_eqv(line@.p1, line@.p2),
            edges@.len() == other@.pts.len(),
            forall|j: int|
                0 <= j < edges@.len() ==> #[trigger] edges@[j]@ == poly_edge(other@.pts, j),
            i <= edges@.len(),
            is_cand_seq(
                line@,
                other@.pts,
                discrete,
                crate::polygon::pts_view(candidates@),
                i as int,
            ),
        decreases edges@.len() - i,
    {
        let boundary = &edges[i];
        let ghost e = poly_edge(other@.pts, i as int);
        proof {
            assert(boundary@ == e);
            use_type_invariant(&boundary.p1.x);
            use_type_invariant(&boundary.p1.y);
            use_type_invariant(&boundary.p2.x);
            use_type_invariant(&boundary.p2.y);
        }
        let point: Option<Point> = if discrete {
            intersect_discrete(&line, boundary)
        } else {
            intersect_inf(&line, boundary)
        };
        let ghost before = crate::polygon::pts_view(candidates@);
        match point {
            Some(p) => {
                proof {
                    assert(qp_eqv(p@, cand_point(line@, e, discrete)));
                }
                if boundary.coincident(&p) {
                    candidates.push(p);
                    proof {
                        let after = crate::polygon::pts_view(candidates@);
                        assert(after =~= before.push(candidates@.last()@));
                        assert(after.drop_last() =~= before);
                        crate::geom::lemma_coincident_congruence(
                            e,
                            after.last(),
                            cand_point(line@, e, discrete),
                        );
                        assert(cand_kept(line@, other@.pts, i as int, discrete));
                        assert(is_cand_seq(line@, other@.pts, discrete, after, i as int + 1));
                    }
                } else {
                    proof {
                        crate::geom::lemma_coincident_congruence(
                            e,
                            p@,
                            cand_point(line@, e, discrete),
                        );
                        assert(!cand_kept(line@, other@.pts, i as int, discrete));
                    }
                }
            },
            None => {
                proof {
                    assert(!cand_exists(line@, e, discrete));
                }
            },
        }
        i = i + 1;
    }
    let sorted = sort_candidates(&line, &candidates);
    let dd = dedup_candidates(&sorted);
    let ghost gc = crate::polygon::pts_view(candidates@);
    let ghost gs = crate::polygon::pts_view(sorted@);
    let ghost gd = dedup_close(gs, gs.len() as int);
    let mut segments: Vec<(Point, Point)> = Vec::new();
    if dd.len() % 2 != 0 {
        proof {
            assert(pairs_view(segments@) =~= Seq::<(Qpt, Qpt)>::empty());
            assert(intersect_poly_post(
                line@,
                other@.pts,
                discrete,
                gc,
                gs,
                pairs_view(segments@),
            ));
        }
        return segments;
    }
    let half = dd.len() / 2;
    let mut k: usize = 0;
    proof {
        assert(pairs_view(segments@) =~= seq_pairs(gd, 0));
    }
    let ddn = dd.len();
    while k < half
        invariant
            gd == crate::polygon::pts_view(dd@),
            half == dd@.len() / 2,
            ddn == dd@.len(),
            dd@.len() % 2 == 0,
            k <= half,
            pairs_view(segments@) == seq_pairs(gd, k as int),
        decreases half - k,
    {
        proof {
            assert(2 * (half as int) == dd@.len());
            assert(2 * (k as int) + 1 < dd@.len());
        }
        let a = dd[2 * k].clone();
        let b = dd[2 * k + 1].clone();
        let ghost before = pairs_view(segments@);
        segments.push((a, b));
        proof {
            assert(pairs_view(segments@) =~= before.push((gd[2 * (k as int)], gd[2 * (k as int)
                + 1])));
        }
        k = k + 1;
    }
    proof {
        assert(gd.len() as int / 2 == half as int);
        assert(intersect_poly_post(line@, other@.pts, discrete, gc, gs, pairs_view(segments@)));
    }
    segments
}

/// The entry/exit segments where `line`, taken as a finite segment,
/// crosses the polygon's boundary; empty when it does not intersect.
pub fn intersect_poly_discrete(line: Line, other: &Polygon) -> (r: Vec<(Point, Point)>)
    requires
        other@.wf(),
        !qp_eqv(line@.p1, line@.p2),
    ensures
        exists|cands: Seq<Qpt>, sorted: Seq<Qpt>|
            intersect_poly_post(line@, other@.pts, true, cands, sorted, pairs_view(r@)),
{
    intersect_poly(line, other, true)
}

/// The entry/exit segments where `line`, extended to infinity in both
/// directions, crosses the polygon's boundary; empty when it does not
/// intersect.
pub fn intersect_poly_inf(line: Line, other: &Polygon) -> (r: Vec<(Point, Point)>)
    requires
        other@.wf(),
        !qp_eqv(line@.p1, line@.p2),
    ensures
        exists|cands: Seq<Qpt>, sorted: Seq<Qpt>|
            intersect_poly_post(line@, other@.pts, false, cands, sorted, pairs_view(r@)),
{
    intersect_poly(line, other, false)
}


/// `p` lies on some boundary edge of the point sequence.
pub open spec fn on_boundary(pts: Seq<Qpt>, p: Qpt) -> bool {
    exists|i: int| 0 <= i < pts.len() && coincident_spec(#[trigger] poly_edge(pts, i), p)
}

/// Every validated candidate lies on some boundary edge.
proof fn lemma_cand_elems(l: Qline, pts: Seq<Qpt>, discrete: bool, c: Seq<Qpt>, n: int)
    requires
        is_cand_seq(l, pts, discrete, c, n),
        n <= pts.len(),
    ensures
        forall|x: Qpt| c.contains(x) ==> on_boundary(pts, x),
    decreases n,
{
    if n <= 0 {
    } else if cand_kept(l, pts, n - 1, discrete) {
        lemma_cand_elems(l, pts, discrete, c.drop_last(), n - 1);
        assert forall|x: Qpt| c.contains(x) implies on_boundary(pts, x) by {
            let ix = choose|ix: int| 0 <= ix < c.len() && c[ix] == x;
            if ix == c.len() - 1 {
                assert(coincident_spec(poly_edge(pts, n - 1), c.last()));
            } else {
                assert(c.drop_last()[ix] == x);
                assert(c.drop_last().contains(x));
            }
        }
    } else {
        lemma_cand_elems(l, pts, discrete, c, n - 1);
    }
}

/// Deduplication keeps only elements of the original sequence.
proof fn lemma_dedup_elems(s: Seq<Qpt>, n: int)
    requires
        n <= s.len(),
    ensures
        forall|x: Qpt| dedup_close(s, n).contains(x) ==> s.contains(x),
    decreases n,
{
    if n <= 0 {
    } else {
        lemma_dedup_elems(s, n - 1);
        let d = dedup_close(s, n - 1);
        let dd = dedup_close(s, n);
        assert forall|x: Qpt| dd.contains(x) implies s.contains(x) by {
            if !(d.len() > 0 && qp_close(s[n - 1], d.last())) {
                let ix = choose|ix: int| 0 <= ix < dd.len() && dd[ix] == x;
                if ix == dd.len() - 1 {
                    assert(s[n - 1] == x);
                } else {
                    assert(d[ix] == x);
                    assert(d.contains(x));
                }
            }
        }
    }
}

/// Every point of every reported pair lies on the polygon's boundary.
pub proof fn lemma_intersect_on_boundary(
    l: Qline,
    pts: Seq<Qpt>,
    discrete: bool,
    cands: Seq<Qpt>,
    sorted: Seq<Qpt>,
    out: Seq<(Qpt, Qpt)>,
)
    requires
        intersect_poly_post(l, pts, discrete, cands, sorted, out),
    ensures
        forall|j: int|
            0 <= j < out.len() ==> on_boundary(pts, (#[trigger] out[j]).0) && on_boundary(
                pts,
                out[j].1,
            ),
{
    broadcast use vstd::seq_lib::group_to_multiset_ensures;

    lemma_cand_elems(l, pts, discrete, cands, pts.len() as int);
    let dd = dedup_close(sorted, sorted.len() as int);
    lemma_dedup_elems(sorted, sorted.len() as int);
    if dd.len() % 2 == 0 {
        lemma_seq_pairs_len(dd, dd.len() as int / 2);
        assert forall|j: int| 0 <= j < out.len() implies on_boundary(pts, (#[trigger] out[j]).0)
            && on_boundary(pts, out[j].1) by {
            lemma_pairs_elems(dd, dd.len() as int / 2, j);
            assert(dd.contains(out[j].0) && dd.contains(out[j].1));
            assert(sorted.contains(out[j].0) && sorted.contains(out[j].1));
            assert(cands.to_multiset().count(out[j].0) > 0);
            assert(cands.to_multiset().count(out[j].1) > 0);
            assert(cands.contains(out[j].0) && cands.contains(out[j].1));
        }
    }
}

/// The paired sequence has one entry per consecutive pair.
proof fn lemma_seq_pairs_len(s: Seq<Qpt>, k: int)
    requires
        0 <= k,
    ensures
        seq_pairs(s, k).len() == k,
    decreases k,
{
    if k > 0 {
        lemma_seq_pairs_len(s, k - 1);
    }
}

/// The components of the paired sequence are entries of the source.
proof fn lemma_pairs_elems(s: Seq<Qpt>, k: int, j: int)
    requires
        2 * k <= s.len(),
        0 <= j < k,
    ensures
        seq_pairs(s, k)[j] == (s[2 * j], s[2 * j + 1]),
        s.contains(s[2 * j]),
        s.contains(s[2 * j + 1]),
    decreases k,
{
    lemma_seq_pairs_len(s, k);
    lemma_seq_pairs_len(s, k - 1);
    if j == k - 1 {
        assert(seq_pairs(s, k) == seq_pairs(s, k - 1).push((s[2 * (k - 1)], s[2 * (k - 1)
            + 1])));
        assert(0 <= 2 * j < s.len() && s[2 * j] == s[2 * j]);
        assert(0 <= 2 * j + 1 < s.len() && s[2 * j + 1] == s[2 * j + 1]);
    } else {
        lemma_pairs_elems(s, k - 1, j);
        assert(seq_pairs(s, k)[j] == seq_pairs(s, k - 1)[j]);
    }
}

/// The entry/exit segments that boundary edge `i` of the slicing polygon
/// contributes: the edge's discrete crossings of the other boundary, or,
/// when there are none and one of its endpoints is contained in the other
/// polygon, the crossings of the edge's infinite extension.
pub open spec fn slice_choice(spts: Seq<Qpt>, opts: Seq<Qpt>, i: int, seg: Seq<(Qpt, Qpt)>) -> bool {
    let e = poly_edge(spts, i);
    exists|dseg: Seq<(Qpt, Qpt)>, c1: Seq<Qpt>, s1: Seq<Qpt>|
        #![trigger intersect_poly_post(e, opts, true, c1, s1, dseg)]
        {
            &&& intersect_poly_post(e, opts, true, c1, s1, dseg)
            &&& if dseg.len() == 0 && (crate::polygon::poly_contains_spec(opts, e.p1)
                || crate::polygon::poly_contains_spec(opts, e.p2)) {
                exists|c2: Seq<Qpt>, s2: Seq<Qpt>|
                    #![trigger intersect_poly_post(e, opts, false, c2, s2, seg)]
                    intersect_poly_post(e, opts, false, c2, s2, seg)
            } else {
                seg == dseg
            }
        }
}

/// The chosen per-edge segment lists, concatenated over the first `k`.
pub open spec fn flat_segs(chosen: Seq<Seq<(Qpt, Qpt)>>, k: int) -> Seq<(Qpt, Qpt)>
    decreases k,
{
    if k <= 0 {
        Seq::empty()
    } else {
        flat_segs(chosen, k - 1) + chosen[k - 1]
    }
}

/// The views of a vector of segments, as endpoint pairs.
pub open spec fn lines_pairs(v: Seq<Line>) -> Seq<(Qpt, Qpt)> {
    v.map_values(|l: Line| (l@.p1, l@.p2))
}

impl Polygon {
    /// The edges of this polygon that slice `other`: edge by edge, the
    /// discrete crossings of `other`, or, where there are none but an
    /// endpoint is contained, the crossings of the edge's infinite
    /// extension (`slice_choice`), concatenated in edge order. Every
    /// endpoint of every returned segment lies on `other`'s boundary.
    pub fn slicey_edges(self, other: Polygon) -> (r: Vec<Line>)
        requires
            self@.wf(),
            other@.wf(),
            forall|i: int|
                0 <= i < self@.pts.len() ==> !qp_eqv(
                    (#[trigger] poly_edge(self@.pts, i)).p1,
                    poly_edge(self@.pts, i).p2,
                ),
        ensures
            forall|j: int|
                0 <= j < r@.len() ==> on_boundary(other@.pts, (#[trigger] r@[j])@.p1)
                    && on_boundary(other@.pts, r@[j]@.p2),
            exists|chosen: Seq<Seq<(Qpt, Qpt)>>|
                {
                    &&& chosen.len() == self@.pts.len()
                    &&& forall|i: int|
                        0 <= i < chosen.len() ==> slice_choice(
                            self@.pts,
                            other@.pts,
                            i,
                            #[trigger] chosen[i],
                        )
                    &&& lines_pairs(r@) == flat_segs(chosen, chosen.len() as int)
                },
    {
        let edges = self.edges();
        let mut candidates: Vec<Line> = Vec::new();
        let ghost mut chosen: Seq<Seq<(Qpt, Qpt)>> = Seq::empty();
        let mut i: usize = 0;
        proof {
            assert(lines_pairs(candidates@) =~= flat_segs(chosen, 0));
        }
        while i < edges.len()
            invariant
                self@.wf(),
                other@.wf(),
                forall|i2: int|
                    0 <= i2 < self@.pts.len() ==> !qp_eqv(
                        (#[trigger] poly_edge(self@.pts, i2)).p1,
                        poly_edge(self@.pts, i2).p2,
                    ),
                edges@.len() == self@.pts.len(),
                forall|j: int|
                    0 <= j < edges@.len() ==> #[trigger] edges@[j]@ == poly_edge(self@.pts, j),
                i <= edges@.len(),
                chosen.len() == i,
                forall|i2: int|
                    0 <= i2 < chosen.len() ==> slice_choice(
                        self@.pts,
                        other@.pts,
                        i2,
                        #[trigger] chosen[i2],
                    ),
                lines_pairs(candidates@) == flat_segs(chosen, chosen.len() as int),
                forall|j: int|
                    0 <= j < candidates@.len() ==> on_boundary(
                        other@.pts,
                        (#[trigger] candidates@[j])@.p1,
                    ) && on_boundary(other@.pts, candidates@[j]@.p2),
            decreases edges@.len() - i,
        {
            let edge = &edges[i];
            proof {
                assert(edge@ == poly_edge(self@.pts, i as int));
            }
            let mut intersection = intersect_poly_discrete(edge.clone(), &other);
            proof {
                let (c1, s1) = choose|c1: Seq<Qpt>, s1: Seq<Qpt>|
                    intersect_poly_post(
                        edge@,
                        other@.pts,
                        true,
                        c1,
                        s1,
                        pairs_view(intersection@),
                    );
                lemma_intersect_on_boundary(
                    edge@,
                    other@.pts,
                    true,
                    c1,
                    s1,
                    pairs_view(intersection@),
                );
            }
            if intersection.len() == 0 {
                if other.contains(&edge.p1) || other.contains(&edge.p2) {
                    intersection = intersect_poly_inf(edge.clone(), &other);
                    proof {
                        let (c2, s2) = choose|c2: Seq<Qpt>, s2: Seq<Qpt>|
                            intersect_poly_post(
                                edge@,
                                other@.pts,
                                false,
                                c2,
                                s2,
                                pairs_view(intersection@),
                            );
                        lemma_intersect_on_boundary(
                            edge@,
                            other@.pts,
                            false,
                            c2,
                            s2,
                            pairs_view(intersection@),
                        );
                    }
                }
            }
            proof {
                assert(slice_choice(
                    self@.pts,
                    other@.pts,
                    i as int,
                    pairs_view(intersection@),
                ));
            }
            let ghost flat0 = lines_pairs(candidates@);
            let mut m: usize = 0;
            while m < intersection.len()
                invariant
                    forall|j: int|
                        0 <= j < pairs_view(intersection@).len() ==> on_boundary(
                            other@.pts,
                            (#[trigger] pairs_view(intersection@)[j]).0,
                        ) && on_boundary(other@.pts, pairs_view(intersection@)[j].1),
                    m <= intersection@.len(),
                    lines_pairs(candidates@) == flat0 + pairs_view(intersection@).subrange(
                        0,
                        m as int,
                    ),
                    forall|j: int|
                        0 <= j < candidates@.len() ==> on_boundary(
                            other@.pts,
                            (#[trigger] candidates@[j])@.p1,
                        ) && on_boundary(other@.pts, candidates@[j]@.p2),
                decreases intersection@.len() - m,
            {
                let p1 = intersection[m].0.clone();
                let p2 = intersection[m].1.clone();
                proof {
                    assert(pairs_view(intersection@)[m as int].0 == p1@);
                    assert(pairs_view(intersection@)[m as int].1 == p2@);
                }
                let ghost lp0 = lines_pairs(candidates@);
                candidates.push(Line::new(p1, p2));
                proof {
                    assert(lines_pairs(candidates@) =~= lp0.push(
                        pairs_view(intersection@)[m as int],
                    ));
                    assert(flat0 + pairs_view(intersection@).subrange(0, m as int + 1)
                        =~= (flat0 + pairs_view(intersection@).subrange(0, m as int)).push(
                        pairs_view(intersection@)[m as int],
                    ));
                }
                m = m + 1;
            }
            proof {
                assert(pairs_view(intersection@).subrange(
                    0,
                    intersection@.len() as int,
                ) =~= pairs_view(intersection@));
                let chosen0 = chosen;
                chosen = chosen.push(pairs_view(intersection@));
                assert(chosen.drop_last() =~= chosen0);
                assert(flat_segs(chosen, chosen.len() as int) == flat_segs(
                    chosen,
                    chosen.len() as int - 1,
                ) + chosen[chosen.len() - 1]);
                lemma_flat_segs_prefix(chosen, chosen.len() as int - 1);
            }
            i = i + 1;
        }
        proof {
            assert(lines_pairs(candidates@) == flat_segs(chosen, chosen.len() as int));
        }
        candidates
    }
}

/// `flat_segs` over the first `k` lists only reads those lists.
proof fn lemma_flat_segs_prefix(chosen: Seq<Seq<(Qpt, Qpt)>>, k: int)
    requires
        0 <= k < chosen.len(),
    ensures
        flat_segs(chosen, k) == flat_segs(chosen.drop_last(), k),
    decreases k,
{
    if k > 0 {
        lemma_flat_segs_prefix(chosen, k - 1);
        assert(chosen.drop_last()[k - 1] == chosen[k - 1]);
    }
}

} // verus!
