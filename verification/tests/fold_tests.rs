use origami::fold::{fold_polygon, reflect_matrix, split_polygon};
use origami::geom::Point;
use origami::polygon::{Polygon, Skeleton};
use origami::geom::Line;
use origami::scalar::{eq_eps, Scalar};
use origami::write::{from_polys, from_skeleton, qntz, snap, Folds};

fn fp(x: i64, y: i64) -> Point {
    Point { x: Scalar::from_int(x), y: Scalar::from_int(y) }
}

fn fpf(xn: i64, xd: i64, yn: i64, yd: i64) -> Point {
    Point { x: Scalar::ratio(xn, xd), y: Scalar::ratio(yn, yd) }
}

#[test]
fn test_reflect_involution_scenario() {
    let v1 = fp(0, 1);
    let v2 = fp(3, 2);
    let m = reflect_matrix(&v1, &v2);
    let q = fpf(7, 3, -5, 4);
    let twice = m.transform(m.transform(q.clone()));
    assert_eq!(q, twice);
}

#[test]
fn test_split_no_crossing() {
    let poly = Polygon::new(vec![fp(0, 0), fp(2, 0), fp(2, 2), fp(0, 2)]);
    let frags = split_polygon(&poly, &fp(0, 5), &fp(2, 5));
    assert_eq!(1, frags.len());
    assert_eq!(vec![fp(0, 0), fp(2, 0), fp(2, 2), fp(0, 2)], frags[0].points);
}

#[test]
fn test_fold_area_conservation() {
    let poly = Polygon::new(vec![fp(0, 0), fp(2, 0), fp(2, 2), fp(0, 2)]);
    let total = poly.area();
    let frags = fold_polygon(&poly, &fp(0, 1), &fp(2, 1), &fp(0, 2));
    assert_eq!(2, frags.len());
    assert!(eq_eps(&frags[0].area(), &Scalar::from_int(2)));
    assert!(eq_eps(&frags[1].area(), &Scalar::from_int(2)));
    let sum = frags[0].area().add(&frags[1].area());
    assert!(eq_eps(&total, &Scalar::from_int(4)));
    assert!(eq_eps(&sum, &Scalar::from_int(4)));
}

#[test]
fn test_fold_round_trip() {
    let poly = Polygon::new(vec![fp(0, 0), fp(2, 0), fp(2, 2), fp(0, 2)]);
    let frags = fold_polygon(&poly, &fp(0, 1), &fp(2, 1), &fp(0, 2));
    for frag in &frags {
        let back = frag.source_poly();
        assert!(eq_eps(&back.area(), &Scalar::from_int(2)));
    }
}

#[test]
fn test_fold_anchor_unreflected() {
    let poly = Polygon::new(vec![fp(0, 0), fp(2, 0), fp(2, 2), fp(0, 2)]);
    let anchor = fp(0, 2);
    let frags = fold_polygon(&poly, &fp(0, 1), &fp(2, 1), &anchor);
    let mut containing = 0;
    for frag in &frags {
        if frag.contains(&anchor) {
            containing += 1;
        }
    }
    assert!(containing >= 1);
}

#[test]
fn test_snap() {
    let q = snap(&fpf(1, 10000000000, 9999999999, 10000000000));
    assert_eq!(fp(0, 1), q);
    let kept = snap(&fpf(1, 2, 1, 3));
    assert_eq!(fpf(1, 2, 1, 3), kept);
}

#[test]
fn test_qntz() {
    let base = Scalar::from_int(3);
    let kept = qntz(&fpf(1, 3, 2, 3), &base);
    assert_eq!(fpf(1, 3, 2, 3), kept);

    let base2 = Scalar::from_int(2);
    let unchanged = qntz(&fpf(1, 3, 0, 1), &base2);
    assert_eq!(fpf(1, 3, 0, 1), unchanged);

    let close = qntz(&fpf(10000000001, 20000000000, 0, 1), &base2);
    assert_eq!(fpf(1, 2, 0, 1), close);
}

#[test]
fn test_square_corners() {
    let sq = Polygon::new(vec![fp(0, 0), fp(2, 0), fp(2, 2), fp(0, 2)]);
    assert!(sq.square());
    assert_eq!(4, sq.corners().len());
    let tri = Polygon::new(vec![fp(0, 0), fp(2, 0), fp(1, 3)]);
    assert!(!tri.square());
}

#[test]
fn test_skeleton_push_len() {
    let sk = Skeleton::new(vec![Line::new(fp(0, 0), fp(1, 1))]);
    let sk2 = sk.push(Line::new(fp(0, 1), fp(1, 0)));
    assert_eq!(2, sk2.len());
}

struct Still;

impl Folds for Still {
    fn transform(&self, src: &Point) -> Point {
        src.clone()
    }
}

#[test]
fn test_from_skeleton_counts() {
    let sk = Skeleton::new(vec![
        Line::new(fp(0, 0), fp(1, 1)),
        Line::new(fp(0, 1), fp(1, 0)),
    ]);
    let mesh = from_skeleton(sk, &Still);
    assert_eq!(5, mesh.src.len());
    assert_eq!(mesh.src.len(), mesh.dst.len());
    assert!(mesh.src.contains(&fpf(1, 2, 1, 2)));
}

#[test]
fn test_from_polys_dedup() {
    let t1 = Polygon::new(vec![fp(0, 0), fp(1, 0), fp(1, 1)]);
    let t2 = Polygon::new(vec![fp(0, 0), fp(1, 1), fp(0, 1)]);
    let (mesh, unfolded) = from_polys(vec![t1, t2], &Scalar::from_int(1));
    assert_eq!(4, mesh.dst.len());
    assert_eq!(mesh.src.len(), mesh.dst.len());
    assert_eq!(2, mesh.facets.len());
    assert_eq!(3, mesh.facets[0].len());
    assert_eq!(3, mesh.facets[1].len());
    assert_eq!(2, unfolded.len());
}
