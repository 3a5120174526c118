//! Numeric hygiene and mesh assembly for emission.
//!
//! Before a mesh is emitted, coordinates are snapped to the exact values 0
//! and 1 when within tolerance, and quantised to the nearest multiple of
//! `1/base` when that loses less than the tolerance — this bounds the
//! growth of rational denominators across repeated folds without ever
//! silently moving a point by more than the tolerance. Deduplication then
//! identifies two points exactly when their snapped, quantised forms are
//! equal, which is what makes the emitted point list stable. The byte-level
//! mesh format and all file output live outside this crate; this module
//! only assembles the point lists, facet indices and unfolded polygons.

use vstd::prelude::*;

use crate::geom::{qp_eqv, Line, Point, Qline, Qpt};
use crate::intersect::{dedup_close, dedup_candidates, intersect_discrete, seg_den,
    seg_params_valid, seg_point};
use crate::matrix::qm_det;
use crate::polygon::{polys_view, polys_wf, pts_view, pts_wf, Polygon, Skeleton};
use crate::rational::{
    q_abs, q_close, q_div, q_eq, q_int, q_le, q_lt, q_mul, q_one, q_sub, q_zero,
    lemma_q_close_congruence, lemma_q_cmp_congruence, lemma_q_eq_trans, lemma_q_le_total,
    lemma_q_sign, lemma_q_sign_transfer, Qv,
};
use crate::scalar::{eq_eps, repr_q, Scalar};

verus! {

/// A coordinate within tolerance of 0 or 1 is replaced by that exact
/// value; any other coordinate is kept.
pub open spec fn q_snap(v: Qv) -> Qv {
    if q_close(v, q_zero()) {
        q_zero()
    } else if q_close(v, q_one()) {
        q_one()
    } else {
        v
    }
}

/// Snap one coordinate.
fn snap_coord(x: &Scalar) -> (r: Scalar)
    ensures
        r@.wf(),
        q_eq(r@, q_snap(x@)),
{
    proof {
        use_type_invariant(&*x);
    }
    let z = Scalar::zero();
    let one = Scalar::one();
    proof {
        lemma_q_close_congruence(x@, x@, z@, q_zero());
        lemma_q_close_congruence(x@, x@, one@, q_one());
    }
    if eq_eps(x, &z) {
        z
    } else if eq_eps(x, &one) {
        one
    } else {
        x.clone()
    }
}

/// Snap both coordinates of a point to the exact boundary values 0 and 1
/// where they are within tolerance.
pub fn snap(p: &Point) -> (r: Point)
    ensures
        r@.wf(),
        q_eq(r@.x, q_snap(p@.x)),
        q_eq(r@.y, q_snap(p@.y)),
{
    Point { x: snap_coord(&p.x), y: snap_coord(&p.y) }
}

/// `k` is an integer nearest to the rational `v`: within one half.
pub open spec fn near_int(k: int, v: Qv) -> bool {
    q_le(q_abs(q_sub(q_int(k), v)), Qv { n: 1, d: 2 })
}

/// The cross-multiplied form in which the rounding wrapper states its
/// result is the `near_int` bound.
proof fn lemma_round_near(k: int, v: Qv) by (nonlinear_arith)
    requires
        v.wf(),
        -v.d <= 2 * (k * v.d - v.n) <= v.d,
    ensures
        near_int(k, v),
{
}

/// `near_int` and the acceptance test only depend on the rational denoted.
proof fn lemma_near_congruence(k: int, v: Qv, v2: Qv)
    requires
        v.wf(),
        v2.wf(),
        q_eq(v, v2),
    ensures
        near_int(k, v) == near_int(k, v2),
{
    crate::rational::lemma_q_add_congruence(q_int(k), q_int(k), v, v2);
    crate::rational::lemma_q_abs_congruence(q_sub(q_int(k), v), q_sub(q_int(k), v2));
    lemma_q_cmp_congruence(
        q_abs(q_sub(q_int(k), v)),
        q_abs(q_sub(q_int(k), v2)),
        Qv { n: 1, d: 2 },
        Qv { n: 1, d: 2 },
    );
}

/// What quantising one coordinate `x` to base `b` promises of its result
/// `r`: for some integer `k` nearest to `x * b`, either the multiple
/// `k / b` is within tolerance of `x` and `r` denotes exactly that
/// multiple, or it is not and `r` denotes `x` unchanged.
pub open spec fn qntz_rel(r: Qv, x: Qv, b: Qv) -> bool {
    exists|k: int|
        {
            &&& #[trigger] near_int(k, q_mul(x, b))
            &&& if q_close(q_div(q_int(k), b), x) {
                q_eq(r, q_div(q_int(k), b))
            } else {
                q_eq(r, x)
            }
        }
}

/// Quantise one coordinate to the nearest multiple of `1/base`, keeping
/// the original when rounding would move it by the tolerance or more:
/// the multiple is taken exactly when it is within tolerance (`qntz_rel`).
fn qntz_coord(x: &Scalar, base: &Scalar) -> (r: Scalar)
    requires
        q_lt(q_zero(), base@),
    ensures
        r@.wf(),
        r@ == x@ || (q_close(r@, x@) && exists|n: int| q_eq(r@, q_div(q_int(n), base@))),
        qntz_rel(r@, x@, base@),
{
    proof {
        use_type_invariant(&*x);
        use_type_invariant(&*base);
        lemma_q_sign(base@);
        assert(repr_q(*x, x@));
        assert(repr_q(*base, base@));
    }
    let t = x.mul(base);
    let n = t.round_nearest();
    proof {
        assert(repr_q(n, q_int(n@.n)));
        lemma_round_near(n@.n, t@);
        lemma_near_congruence(n@.n, t@, q_mul(x@, base@));
    }
    let q = n.div(base);
    proof {
        assert(repr_q(q, q_div(q_int(n@.n), base@)));
    }
    if eq_eps(&q, x) {
        proof {
            lemma_q_close_congruence(q@, q_div(q_int(n@.n), base@), x@, x@);
            assert(near_int(n@.n, q_mul(x@, base@)));
            assert(qntz_rel(q@, x@, base@));
        }
        q
    } else {
        let r = x.clone();
        proof {
            lemma_q_close_congruence(q@, q_div(q_int(n@.n), base@), x@, x@);
            assert(near_int(n@.n, q_mul(x@, base@)));
            assert(qntz_rel(r@, x@, base@));
        }
        r
    }
}

/// Round each coordinate to the nearest multiple of `1/base`, accepting
/// the rounded value exactly when it stays within tolerance of the
/// original (`qntz_rel`, coordinate by coordinate): the result never
/// diverges from the argument by the tolerance or more, and whenever the
/// nearest multiple is within tolerance the result is that multiple.
pub fn qntz(p: &Point, base: &Scalar) -> (r: Point)
    requires
        q_lt(q_zero(), base@),
    ensures
        r@.wf(),
        r@.x == p@.x || (q_close(r@.x, p@.x) && exists|n: int|
            q_eq(r@.x, q_div(q_int(n), base@))),
        r@.y == p@.y || (q_close(r@.y, p@.y) && exists|n: int|
            q_eq(r@.y, q_div(q_int(n), base@))),
        qntz_rel(r@.x, p@.x, base@),
        qntz_rel(r@.y, p@.y, base@),
{
    proof {
        use_type_invariant(&p.x);
        use_type_invariant(&p.y);
    }
    Point { x: qntz_coord(&p.x, base), y: qntz_coord(&p.y, base) }
}

/// A mesh ready for emission: the source points on the flat sheet, the
/// facets as indices into the point list, and the folded destination
/// points, one per source point.
pub struct Mesh {
    pub src: Vec<Point>,
    pub facets: Vec<Vec<usize>>,
    pub dst: Vec<Point>,
}

/// Lexicographic order on points, exactly.
pub open spec fn q_lex_le(a: Qpt, b: Qpt) -> bool {
    q_lt(a.x, b.x) || (q_eq(a.x, b.x) && q_le(a.y, b.y))
}

fn pt_lex_le(a: &Point, b: &Point) -> (r: bool)
    ensures
        r == q_lex_le(a@, b@),
{
    a.x.lt(&b.x) || (a.x.eq_exact(&b.x) && a.y.le(&b.y))
}

/// The lexicographic order is total on well-formed points.
proof fn lemma_lex_total(a: Qpt, b: Qpt)
    requires
        a.wf(),
        b.wf(),
    ensures
        q_lex_le(a, b) || q_lex_le(b, a),
{
    lemma_q_le_total(a.x, b.x);
    lemma_q_le_total(b.x, a.x);
    lemma_q_le_total(a.y, b.y);
    lemma_q_le_total(b.y, a.y);
    crate::rational::lemma_q_eq_sym(a.x, b.x);
}

/// Adjacent-pairs lexicographic sortedness.
pub open spec fn sorted_lex(s: Seq<Qpt>) -> bool {
    forall|i: int| 0 <= i < s.len() - 1 ==> q_lex_le(#[trigger] s[i], s[i + 1])
}

/// Insertion position in a lexicographically sorted prefix.
fn find_pos_lex(out: &Vec<Point>, p: &Point) -> (pos: usize)
    ensures
        pos <= out@.len(),
        forall|k: int| 0 <= k < pos ==> q_lex_le(#[trigger] pts_view(out@)[k], p@),
        pos < out@.len() ==> !q_lex_le(pts_view(out@)[pos as int], p@),
{
    let mut j: usize = 0;
    while j < out.len()
        invariant
            j <= out@.len(),
            forall|k: int| 0 <= k < j ==> q_lex_le(#[trigger] pts_view(out@)[k], p@),
        decreases out@.len() - j,
    {
        if !pt_lex_le(&out[j], p) {
            return j;
        }
        j = j + 1;
    }
    j
}

/// Sort points lexicographically by insertion; the multiset of views is
/// unchanged.
fn sort_points_lex(v: &Vec<Point>) -> (r: Vec<Point>)
    ensures
        pts_view(r@).to_multiset() == pts_view(v@).to_multiset(),
        sorted_lex(pts_view(r@)),
{
    broadcast use vstd::seq_lib::group_to_multiset_ensures;

    let mut out: Vec<Point> = Vec::new();
    let mut i: usize = 0;
    proof {
        assert(pts_view(v@.subrange(0, 0)) =~= Seq::<Qpt>::empty());
        assert(pts_view(out@) =~= Seq::<Qpt>::empty());
    }
    while i < v.len()
        invariant
            i <= v@.len(),
            pts_view(out@).to_multiset() == pts_view(v@.subrange(0, i as int)).to_multiset(),
            sorted_lex(pts_view(out@)),
            pts_wf(pts_view(out@)),
        decreases v@.len() - i,
    {
        let p = v[i].clone();
        proof {
            use_type_invariant(&p.x);
            use_type_invariant(&p.y);
        }
        let pos = find_pos_lex(&out, &p);
        let ghost before = pts_view(out@);
        proof {
            if pos < out@.len() {
                lemma_lex_total(before[pos as int], p@);
            }
        }
        out.insert(pos, p);
        proof {
            let after = pts_view(out@);
            let prefix = pts_view(v@.subrange(0, i as int));
            assert(after =~= before.insert(pos as int, p@));
            vstd::seq_lib::to_multiset_insert(before, pos as int, p@);
            vstd::seq_lib::to_multiset_build(prefix, p@);
            assert(v@.subrange(0, i as int + 1) =~= v@.subrange(0, i as int).push(v@[i as int]));
            assert(pts_view(v@.subrange(0, i as int + 1)) =~= prefix.push(p@));
            assert forall|k: int| 0 <= k < after.len() - 1 implies q_lex_le(
                #[trigger] after[k],
                after[k + 1],
            ) by {
                if k + 1 < pos as int {
                    assert(after[k] == before[k] && after[k + 1] == before[k + 1]);
                } else if k + 1 == pos as int {
                    assert(after[k] == before[k] && after[k + 1] == p@);
                } else if k == pos as int {
                    assert(after[k] == p@ && after[k + 1] == before[k]);
                    lemma_lex_total(before[k], p@);
                } else {
                    assert(after[k] == before[k - 1] && after[k + 1] == before[k]);
                }
            }
        }
        i = i + 1;
    }
    proof {
        assert(v@.subrange(0, v@.len() as int) =~= v@);
    }
    out
}

/// The views of a sequence of crease lines.
pub open spec fn lines_view(v: Seq<Line>) -> Seq<Qline> {
    v.map_values(|l: Line| l@)
}

/// The discrete crossing of two creases, as a (possibly empty) point list.
pub open spec fn pair_cross(a: Qline, b: Qline) -> Seq<Qpt> {
    if !q_eq(seg_den(a, b), q_zero()) && seg_params_valid(a, b) {
        seq![seg_point(a, b)]
    } else {
        Seq::empty()
    }
}

/// The crossings of crease `i` with the creases from `j` on.
pub open spec fn crossings_from(ls: Seq<Qline>, i: int, j: int) -> Seq<Qpt>
    decreases ls.len() - j,
{
    if j < 0 || j >= ls.len() {
        Seq::empty()
    } else {
        pair_cross(ls[i], ls[j]) + crossings_from(ls, i, j + 1)
    }
}

/// All pairwise crease crossings, from crease `i` on.
pub open spec fn crossings(ls: Seq<Qline>, i: int) -> Seq<Qpt>
    decreases ls.len() - i,
{
    if i < 0 || i >= ls.len() {
        Seq::empty()
    } else {
        crossings_from(ls, i, i + 1) + crossings(ls, i + 1)
    }
}

/// The crease endpoints, from crease `k` on.
pub open spec fn endpoints_seq(ls: Seq<Qline>, k: int) -> Seq<Qpt>
    decreases ls.len() - k,
{
    if k < 0 || k >= ls.len() {
        Seq::empty()
    } else {
        seq![ls[k].p1, ls[k].p2] + endpoints_seq(ls, k + 1)
    }
}

/// The corner points a skeleton determines: every pairwise crease
/// crossing followed by every crease endpoint.
pub open spec fn skel_points(ls: Seq<Qline>) -> Seq<Qpt> {
    crossings(ls, 0) + endpoints_seq(ls, 0)
}

/// `a` denotes, point for point, the same rationals as `b`.
pub open spec fn pts_corr(a: Seq<Qpt>, b: Seq<Qpt>) -> bool {
    a.len() == b.len() && forall|m: int|
        0 <= m < a.len() ==> (#[trigger] a[m]).wf() && qp_eqv(a[m], b[m])
}

/// The corner points that a skeleton's creases determine: every pairwise
/// crossing of two creases and every crease endpoint (`skel_points`),
/// ordered lexicographically and with points within tolerance of the last
/// kept point collapsed. The facet list itself is not derived here.
pub(crate) fn facets(skel: Skeleton) -> (r: (Vec<Point>, Vec<Vec<usize>>))
    ensures
        r.1@.len() == 0,
        exists|collected: Seq<Qpt>, s: Seq<Qpt>|
            #![trigger pts_corr(collected, skel_points(lines_view(skel.lines@))), sorted_lex(s)]
            {
                &&& pts_corr(collected, skel_points(lines_view(skel.lines@)))
                &&& sorted_lex(s)
                &&& s.to_multiset() == collected.to_multiset()
                &&& pts_view(r.0@) == dedup_close(s, s.len() as int)
            },
{
    let ghost lsv = lines_view(skel.lines@);
    let mut points: Vec<Point> = Vec::new();
    let ghost mut built: Seq<Qpt> = Seq::empty();
    let n = skel.lines.len();
    let mut i: usize = 0;
    proof {
        assert(pts_view(points@) =~= Seq::<Qpt>::empty());
        assert(crossings(lsv, 0) =~= built + crossings(lsv, 0));
    }
    while i < n
        invariant
            n == skel.lines@.len(),
            lsv == lines_view(skel.lines@),
            i <= n,
            pts_corr(pts_view(points@), built),
            crossings(lsv, 0) == built + crossings(lsv, i as int),
        decreases n - i,
    {
        let mut j: usize = i + 1;
        proof {
            assert(crossings(lsv, i as int) == crossings_from(lsv, i as int, i as int + 1)
                + crossings(lsv, i as int + 1));
            assert(built + crossings(lsv, i as int) =~= built + crossings_from(
                lsv,
                i as int,
                i as int + 1,
            ) + crossings(lsv, i as int + 1));
        }
        while j < n
            invariant
                n == skel.lines@.len(),
                lsv == lines_view(skel.lines@),
                i < n,
                i < j,
                j <= n,
                pts_corr(pts_view(points@), built),
                crossings(lsv, 0) == built + crossings_from(lsv, i as int, j as int)
                    + crossings(lsv, i as int + 1),
            decreases n - j,
        {
            let ghost pc = pair_cross(lsv[i as int], lsv[j as int]);
            proof {
                assert(skel.lines@[i as int]@ == lsv[i as int]);
                assert(skel.lines@[j as int]@ == lsv[j as int]);
                assert(crossings_from(lsv, i as int, j as int) == pc + crossings_from(
                    lsv,
                    i as int,
                    j as int + 1,
                ));
            }
            if let Some(p) = intersect_discrete(&skel.lines[i], &skel.lines[j]) {
                let ghost built0 = built;
                let ghost pts0 = pts_view(points@);
                points.push(p);
                proof {
                    built = built.push(seg_point(lsv[i as int], lsv[j as int]));
                    assert(pc =~= seq![seg_point(lsv[i as int], lsv[j as int])]);
                    assert(pts_view(points@) =~= pts0.push(points@.last()@));
                    assert(built0 + pc + crossings_from(lsv, i as int, j as int + 1)
                        =~= built + crossings_from(lsv, i as int, j as int + 1));
                    assert(built0 + pc + crossings_from(lsv, i as int, j as int + 1)
                        + crossings(lsv, i as int + 1) =~= built + crossings_from(
                        lsv,
                        i as int,
                        j as int + 1,
                    ) + crossings(lsv, i as int + 1));
                    assert(built0 + crossings_from(lsv, i as int, j as int) + crossings(
                        lsv,
                        i as int + 1,
                    ) =~= built0 + pc + crossings_from(lsv, i as int, j as int + 1) + crossings(
                        lsv,
                        i as int + 1,
                    ));
                }
            } else {
                proof {
                    assert(pc =~= Seq::<Qpt>::empty());
                    assert(built + crossings_from(lsv, i as int, j as int) + crossings(
                        lsv,
                        i as int + 1,
                    ) =~= built + crossings_from(lsv, i as int, j as int + 1) + crossings(
                        lsv,
                        i as int + 1,
                    ));
                }
            }
            j = j + 1;
        }
        proof {
            assert(crossings_from(lsv, i as int, n as int) =~= Seq::<Qpt>::empty());
            assert(built + crossings_from(lsv, i as int, n as int) + crossings(
                lsv,
                i as int + 1,
            ) =~= built + crossings(lsv, i as int + 1));
        }
        i = i + 1;
    }
    proof {
        assert(crossings(lsv, n as int) =~= Seq::<Qpt>::empty());
        assert(built + crossings(lsv, n as int) =~= built);
        assert(skel_points(lsv) == crossings(lsv, 0) + endpoints_seq(lsv, 0));
    }
    let ghost cbuilt = built;
    let ghost mut ebuilt: Seq<Qpt> = Seq::empty();
    let mut k: usize = 0;
    proof {
        assert(endpoints_seq(lsv, 0) =~= ebuilt + endpoints_seq(lsv, 0));
        assert(pts_view(points@) =~= pts_view(points@));
    }
    while k < n
        invariant
            n == skel.lines@.len(),
            lsv == lines_view(skel.lines@),
            k <= n,
            cbuilt == crossings(lsv, 0),
            pts_corr(pts_view(points@), cbuilt + ebuilt),
            endpoints_seq(lsv, 0) == ebuilt + endpoints_seq(lsv, k as int),
        decreases n - k,
    {
        let lk = &skel.lines[k];
        proof {
            assert(lk@ == lsv[k as int]);
            assert(endpoints_seq(lsv, k as int) == seq![lsv[k as int].p1, lsv[k as int].p2]
                + endpoints_seq(lsv, k as int + 1));
            use_type_invariant(&lk.p1.x);
            use_type_invariant(&lk.p1.y);
            use_type_invariant(&lk.p2.x);
            use_type_invariant(&lk.p2.y);
        }
        let ghost pts0 = pts_view(points@);
        let ghost eb0 = ebuilt;
        points.push(lk.p1.clone());
        points.push(lk.p2.clone());
        proof {
            ebuilt = ebuilt.push(lsv[k as int].p1).push(lsv[k as int].p2);
            assert(pts_view(points@) =~= pts0.push(lsv[k as int].p1).push(lsv[k as int].p2));
            assert(cbuilt + ebuilt =~= (cbuilt + eb0).push(lsv[k as int].p1).push(
                lsv[k as int].p2,
            ));
            assert(eb0 + (seq![lsv[k as int].p1, lsv[k as int].p2] + endpoints_seq(
                lsv,
                k as int + 1,
            )) =~= ebuilt + endpoints_seq(lsv, k as int + 1));
            assert(eb0 + endpoints_seq(lsv, k as int) =~= eb0 + (seq![
                lsv[k as int].p1,
                lsv[k as int].p2,
            ] + endpoints_seq(lsv, k as int + 1)));
        }
        k = k + 1;
    }
    proof {
        assert(endpoints_seq(lsv, n as int) =~= Seq::<Qpt>::empty());
        assert(ebuilt + endpoints_seq(lsv, n as int) =~= ebuilt);
        assert(cbuilt + ebuilt =~= skel_points(lsv));
        assert(pts_corr(pts_view(points@), skel_points(lsv)));
    }
    let sorted = sort_points_lex(&points);
    let deduped = dedup_candidates(&sorted);
    let facet_list: Vec<Vec<usize>> = Vec::new();
    proof {
        assert(sorted_lex(pts_view(sorted@)));
        assert(pts_corr(pts_view(points@), skel_points(lines_view(skel.lines@))));
    }
    (deduped, facet_list)
}

/// The mapping from a source point to its folded destination, supplied by
/// the orchestrator that tracked the folds.
pub trait Folds {
    /// The final position of `src` after applying all the folds.
    fn transform(&self, src: &Point) -> Point;
}

/// Assemble the mesh data of a skeleton: the deduplicated corner points
/// (`facets`' point list: pairwise crease crossings and crease endpoints,
/// ordered and collapsed) as sources, and, for each source point, its
/// image under the folds as the destination — each destination satisfies
/// whatever contract the `Folds` implementation carries, applied to its
/// source point.
pub fn from_skeleton<F: Folds>(skel: Skeleton, folds: &F) -> (r: Mesh)
    ensures
        r.dst@.len() == r.src@.len(),
        r.facets@.len() == 0,
        exists|s: Seq<Qpt>|
            #![trigger sorted_lex(s)]
            sorted_lex(s) && pts_view(r.src@) == dedup_close(s, s.len() as int),
        forall|i: int|
            0 <= i < r.src@.len() ==> call_ensures(
                F::transform,
                (folds, &r.src@[i]),
                #[trigger] r.dst@[i],
            ),
{
    let (points, facet_list) = facets(skel);
    let mut dst: Vec<Point> = Vec::new();
    let mut i: usize = 0;
    while i < points.len()
        invariant
            i <= points@.len(),
            dst@.len() == i,
            forall|m: int|
                0 <= m < i ==> call_ensures(
                    F::transform,
                    (folds, &points@[m]),
                    #[trigger] dst@[m],
                ),
        decreases points@.len() - i,
    {
        dst.push(folds.transform(&points[i]));
        i = i + 1;
    }
    Mesh { src: points, facets: facet_list, dst }
}

/// The index of a point exactly equal (as a rational pair) to `key`.
fn find_exact(dst: &Vec<Point>, key: &Point) -> (r: Option<usize>)
    ensures
        r matches Some(ix) ==> ix < dst@.len() && qp_eqv(pts_view(dst@)[ix as int], key@),
        r is None ==> forall|m: int|
            0 <= m < dst@.len() ==> !qp_eqv(#[trigger] pts_view(dst@)[m], key@),
{
    let mut m: usize = 0;
    while m < dst.len()
        invariant
            m <= dst@.len(),
            forall|j: int| 0 <= j < m ==> !qp_eqv(#[trigger] pts_view(dst@)[j], key@),
        decreases dst@.len() - m,
    {
        let d = &dst[m];
        if d.x.eq_exact(&key.x) && d.y.eq_exact(&key.y) {
            return Some(m);
        }
        m = m + 1;
    }
    None
}

/// `kp` is the deduplication key of the vertex `v`: both coordinates
/// snapped and then quantised to base `b`.
pub open spec fn quantized_key(kp: Qpt, v: Qpt, b: Qv) -> bool {
    qntz_rel(kp.x, q_snap(v.x), b) && qntz_rel(kp.y, q_snap(v.y), b)
}

/// `qntz_rel` only depends on the rationals its arguments denote.
proof fn lemma_qntz_rel_congruence(r: Qv, r2: Qv, x: Qv, x2: Qv, b: Qv)
    requires
        r.wf(),
        r2.wf(),
        x.wf(),
        x2.wf(),
        b.wf(),
        b.n > 0,
        q_eq(r, r2),
        q_eq(x, x2),
        qntz_rel(r, x, b),
    ensures
        qntz_rel(r2, x2, b),
{
    let k = choose|k: int|
        {
            &&& #[trigger] near_int(k, q_mul(x, b))
            &&& if q_close(q_div(q_int(k), b), x) {
                q_eq(r, q_div(q_int(k), b))
            } else {
                q_eq(r, x)
            }
        };
    crate::rational::lemma_q_mul_congruence(x, x2, b, b);
    lemma_near_congruence(k, q_mul(x, b), q_mul(x2, b));
    crate::rational::lemma_q_ops_wf(q_int(k), b);
    lemma_q_close_congruence(q_div(q_int(k), b), q_div(q_int(k), b), x, x2);
    crate::rational::lemma_q_eq_sym(r, r2);
    if q_close(q_div(q_int(k), b), x) {
        lemma_q_eq_trans(r2, r, q_div(q_int(k), b));
    } else {
        lemma_q_eq_trans(r2, r, x);
        lemma_q_eq_trans(r2, x, x2);
    }
    assert(near_int(k, q_mul(x2, b)) && (if q_close(q_div(q_int(k), b), x2) {
        q_eq(r2, q_div(q_int(k), b))
    } else {
        q_eq(r2, x2)
    }));
}

/// Assemble the mesh data of a set of folded polygons: each vertex is
/// snapped and quantised to its deduplication key; distinct keys become
/// the destination points, their images through the inverse transforms the
/// source points, and each polygon becomes a facet of indices. Two
/// destination points are never exactly equal, which is what makes the
/// emitted text stable: facet `i`, position `j` indexes the key of vertex
/// `j` of polygon `i` (`quantized_key`). Each unfolded polygon carries its
/// source polygon's vertex count, vertex `j` being the source point its
/// facet entry indexes.
pub fn from_polys(polys: Vec<Polygon>, base: &Scalar) -> (r: (Mesh, Vec<Polygon>))
    requires
        polys_wf(polys_view(polys@)),
        forall|i: int|
            0 <= i < polys@.len() ==> !q_eq(
                qm_det((#[trigger] polys_view(polys@)[i]).mat),
                q_zero(),
            ),
        q_lt(q_zero(), base@),
    ensures
        r.0.src@.len() == r.0.dst@.len(),
        r.0.facets@.len() == polys@.len(),
        r.1@.len() == polys@.len(),
        forall|i: int, j: int|
            0 <= i < j < r.0.dst@.len() ==> !qp_eqv(
                #[trigger] pts_view(r.0.dst@)[i],
                #[trigger] pts_view(r.0.dst@)[j],
            ),
        forall|i: int|
            0 <= i < r.0.facets@.len() ==> forall|j: int|
                0 <= j < (#[trigger] r.0.facets@[i])@.len() ==> (#[trigger] r.0.facets@[i]@[j])
                    < r.0.dst@.len(),
        forall|i: int|
            0 <= i < r.0.facets@.len() ==> (#[trigger] r.0.facets@[i])@.len() == polys_view(
                polys@,
            )[i].pts.len(),
        forall|i: int, j: int|
            0 <= i < r.0.facets@.len() && 0 <= j < r.0.facets@[i]@.len() ==> quantized_key(
                pts_view(r.0.dst@)[(#[trigger] r.0.facets@[i]@[j]) as int],
                polys_view(polys@)[i].pts[j],
                base@,
            ),
        forall|i: int|
            0 <= i < r.1@.len() ==> (#[trigger] polys_view(r.1@)[i]).pts.len() == polys_view(
                polys@,
            )[i].pts.len(),
        forall|i: int, j: int|
            0 <= i < r.1@.len() && 0 <= j < polys_view(r.1@)[i].pts.len() ==> polys_view(
                r.1@,
            )[i].pts[j] == pts_view(r.0.src@)[(#[trigger] r.0.facets@[i]@[j]) as int],
{
    proof {
        use_type_invariant(&*base);
    }
    let mut src: Vec<Point> = Vec::new();
    let mut dst: Vec<Point> = Vec::new();
    let mut facet_list: Vec<Vec<usize>> = Vec::new();
    let mut unfolded: Vec<Polygon> = Vec::new();
    let mut pi: usize = 0;
    while pi < polys.len()
        invariant
            base@.wf(),
            polys_wf(polys_view(polys@)),
            forall|i: int|
                0 <= i < polys@.len() ==> !q_eq(
                    qm_det((#[trigger] polys_view(polys@)[i]).mat),
                    q_zero(),
                ),
            q_lt(q_zero(), base@),
            pi <= polys@.len(),
            src@.len() == dst@.len(),
            facet_list@.len() == pi,
            unfolded@.len() == pi,
            pts_wf(pts_view(dst@)),
            pts_wf(pts_view(src@)),
            forall|i: int, j: int|
                0 <= i < j < dst@.len() ==> !qp_eqv(
                    #[trigger] pts_view(dst@)[i],
                    #[trigger] pts_view(dst@)[j],
                ),
            forall|i: int|
                0 <= i < facet_list@.len() ==> forall|j: int|
                    0 <= j < (#[trigger] facet_list@[i])@.len() ==> (
                    #[trigger] facet_list@[i]@[j]) < dst@.len(),
            forall|i: int|
                0 <= i < facet_list@.len() ==> (#[trigger] facet_list@[i])@.len() == polys_view(
                    polys@,
                )[i].pts.len(),
            forall|i: int, j: int|
                0 <= i < facet_list@.len() && 0 <= j < facet_list@[i]@.len() ==> quantized_key(
                    pts_view(dst@)[(#[trigger] facet_list@[i]@[j]) as int],
                    polys_view(polys@)[i].pts[j],
                    base@,
                ),
            forall|i: int|
                0 <= i < unfolded@.len() ==> (#[trigger] polys_view(unfolded@)[i]).pts.len()
                    == polys_view(polys@)[i].pts.len(),
            forall|i: int, j: int|
                0 <= i < unfolded@.len() && 0 <= j < polys_view(unfolded@)[i].pts.len()
                    ==> polys_view(unfolded@)[i].pts[j] == pts_view(src@)[(
                #[trigger] facet_list@[i]@[j]) as int],
        decreases polys@.len() - pi,
    {
        let poly = &polys[pi];
        proof {
            assert(poly@ == polys_view(polys@)[pi as int]);
        }
        let inverse = poly.transform.inverse();
        let mut facet: Vec<usize> = Vec::new();
        let mut orig: Vec<Point> = Vec::new();
        let npts = poly.points.len();
        let mut vi: usize = 0;
        while vi < npts
            invariant
                base@.wf(),
                q_lt(q_zero(), base@),
                npts == poly.points@.len(),
                poly@.wf(),
                vi <= npts,
                poly@ == polys_view(polys@)[pi as int],
                pi < polys@.len(),
                facet_list@.len() == pi,
                unfolded@.len() == pi,
                q_lt(q_zero(), base@),
                src@.len() == dst@.len(),
                facet@.len() == vi,
                orig@.len() == vi,
                pts_wf(pts_view(dst@)),
                pts_wf(pts_view(src@)),
                forall|i: int, j: int|
                    0 <= i < j < dst@.len() ==> !qp_eqv(
                        #[trigger] pts_view(dst@)[i],
                        #[trigger] pts_view(dst@)[j],
                    ),
                forall|j: int| 0 <= j < facet@.len() ==> (#[trigger] facet@[j]) < dst@.len(),
                forall|j: int|
                    0 <= j < vi ==> quantized_key(
                        pts_view(dst@)[(#[trigger] facet@[j]) as int],
                        poly@.pts[j],
                        base@,
                    ),
                forall|j: int|
                    0 <= j < vi ==> pts_view(orig@)[j] == pts_view(src@)[(
                    #[trigger] facet@[j]) as int],
                forall|i: int|
                    0 <= i < facet_list@.len() ==> forall|j: int|
                        0 <= j < (#[trigger] facet_list@[i])@.len() ==> (
                        #[trigger] facet_list@[i]@[j]) < dst@.len(),
                forall|i: int|
                    0 <= i < facet_list@.len() ==> (#[trigger] facet_list@[i])@.len()
                        == polys_view(polys@)[i].pts.len(),
                forall|i: int, j: int|
                    0 <= i < facet_list@.len() && 0 <= j < facet_list@[i]@.len()
                        ==> quantized_key(
                        pts_view(dst@)[(#[trigger] facet_list@[i]@[j]) as int],
                        polys_view(polys@)[i].pts[j],
                        base@,
                    ),
                forall|i: int|
                    0 <= i < unfolded@.len() ==> (#[trigger] polys_view(unfolded@)[i]).pts.len()
                        == polys_view(polys@)[i].pts.len(),
                forall|i: int, j: int|
                    0 <= i < unfolded@.len() && 0 <= j < polys_view(unfolded@)[i].pts.len()
                        ==> polys_view(unfolded@)[i].pts[j] == pts_view(src@)[(
                    #[trigger] facet_list@[i]@[j]) as int],
            decreases npts - vi,
        {
            let point = &poly.points[vi];
            proof {
                use_type_invariant(&point.x);
                use_type_invariant(&point.y);
                lemma_q_sign(base@);
            }
            let snapped = snap(point);
            let key = qntz(&snapped, base);
            proof {
                assert(point@ == poly@.pts[vi as int]);
                lemma_qntz_rel_congruence(
                    key@.x,
                    key@.x,
                    snapped@.x,
                    q_snap(point@.x),
                    base@,
                );
                lemma_qntz_rel_congruence(
                    key@.y,
                    key@.y,
                    snapped@.y,
                    q_snap(point@.y),
                    base@,
                );
                assert(quantized_key(key@, poly@.pts[vi as int], base@));
            }
            let ix: usize;
            match find_exact(&dst, &key) {
                Some(found) => {
                    ix = found;
                    proof {
                        crate::rational::lemma_q_eq_sym(pts_view(dst@)[ix as int].x, key@.x);
                        crate::rational::lemma_q_eq_sym(pts_view(dst@)[ix as int].y, key@.y);
                        lemma_qntz_rel_congruence(
                            key@.x,
                            pts_view(dst@)[ix as int].x,
                            q_snap(point@.x),
                            q_snap(point@.x),
                            base@,
                        );
                        lemma_qntz_rel_congruence(
                            key@.y,
                            pts_view(dst@)[ix as int].y,
                            q_snap(point@.y),
                            q_snap(point@.y),
                            base@,
                        );
                        assert(quantized_key(
                            pts_view(dst@)[ix as int],
                            poly@.pts[vi as int],
                            base@,
                        ));
                    }
                },
                None => {
                    let back = inverse.transform(key.clone());
                    let snapped_back = snap(&back);
                    let ghost sbefore = pts_view(src@);
                    src.push(qntz(&snapped_back, base));
                    let ghost dbefore = pts_view(dst@);
                    dst.push(key.clone());
                    proof {
                        assert(pts_view(src@) =~= sbefore.push(pts_view(src@).last()));
                        assert(pts_view(dst@) =~= dbefore.push(key@));
                        assert forall|i: int, j: int| 0 <= i < j < dst@.len() implies !qp_eqv(
                            #[trigger] pts_view(dst@)[i],
                            #[trigger] pts_view(dst@)[j],
                        ) by {
                            if j == dst@.len() - 1 {
                                assert(!qp_eqv(dbefore[i], key@));
                                crate::rational::lemma_q_eq_sym(dbefore[i].x, key@.x);
                                crate::rational::lemma_q_eq_sym(dbefore[i].y, key@.y);
                            }
                        }
                    }
                    ix = dst.len() - 1;
                },
            }
            facet.push(ix);
            orig.push(src[ix].clone());
            proof {
                assert(pts_view(orig@) =~= pts_view(orig@.drop_last()).push(
                    pts_view(src@)[ix as int],
                ));
                assert forall|j: int| 0 <= j < vi + 1 implies pts_view(orig@)[j] == pts_view(
                    src@,
                )[(#[trigger] facet@[j]) as int] by {
                    if j < vi {
                        assert(orig@[j] == orig@.drop_last()[j]);
                    }
                }
            }
            vi = vi + 1;
        }
        let ghost flbefore = facet_list@;
        let ghost ufbefore = polys_view(unfolded@);
        facet_list.push(facet);
        unfolded.push(Polygon::new(orig));
        proof {
            assert(polys_view(unfolded@) =~~= ufbefore.push(unfolded@.last()@));
            assert(forall|i: int| 0 <= i < pi ==> facet_list@[i] == flbefore[i]);
        }
        pi = pi + 1;
    }
    (Mesh { src, facets: facet_list, dst }, unfolded)
}

} // verus!
