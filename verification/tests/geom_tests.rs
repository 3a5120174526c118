use origami::geom::{normalize_line, p_distance, Line, Point};
use origami::intersect::{gradient, intersect_discrete, intersect_inf, intersect_poly_discrete,
    intersect_poly_inf};
use origami::polygon::{Polygon, Shape};
use origami::scalar::{divide, eq_eps, Scalar};

fn p(x: i64, y: i64) -> Point {
    Point { x: Scalar::from_int(x), y: Scalar::from_int(y) }
}

fn pf(xn: i64, xd: i64, yn: i64, yd: i64) -> Point {
    Point { x: Scalar::ratio(xn, xd), y: Scalar::ratio(yn, yd) }
}

#[test]
fn test_point_eq() {
    assert_eq!(p(0, 0), p(0, 0));
    assert_eq!(pf(0, 1, 0, 1), pf(0, 1, 0, 1));
    assert_eq!(pf(0, 1, 0, 1), pf(1, 10000000000, 1, 10000000000));
    assert_eq!(p(1, 1), pf(10000000001, 10000000000, 10000000001, 10000000000));

    assert!(!(p(1, 1) == p(0, 0)));
    assert!(!(p(1, 1) == pf(1, 10000000000, 1, 10000000000)));
}

#[test]
fn gradient_test() {
    let p1 = p(1, 1);
    let p2 = p(0, 0);
    let g = gradient(&Line { p1, p2 });
    assert!(g.is_some());
    assert!(eq_eps(&g.unwrap(), &Scalar::from_int(1)));
}

#[test]
fn test_gradient_vertical() {
    let g = gradient(&Line { p1: p(2, 0), p2: p(2, 5) });
    assert!(g.is_none());
}

#[test]
fn test_divide_zero() {
    assert!(divide(&Scalar::from_int(3), &Scalar::from_int(0)).is_none());
    let q = divide(&Scalar::from_int(3), &Scalar::from_int(2)).unwrap();
    assert!(eq_eps(&q, &Scalar::ratio(3, 2)));
}

#[test]
fn test_flip_point_matrix() {
    let mut p2 = origami::fold::reflect_matrix(&p(0, 0), &p(1, 0)).transform(p(1, 1));
    assert_eq!(p(1, -1), p2);

    p2 = origami::fold::reflect_matrix(&p(0, 0), &p(3, 3)).transform(p(1, 0));
    assert_eq!(p(0, 1), p2);

    p2 = origami::fold::reflect_matrix(
        &p(0, 0),
        &pf(866025403784439, 1000000000000000, 1, 2),
    ).transform(p(1, 0));
    let _ = p2;

    p2 = origami::fold::reflect_matrix(&p(0, 0), &p(0, 3)).transform(p(-1, 1));
    assert_eq!(p(1, 1), p2);
}

#[test]
fn flip_line_test() {
    let l1 = Line::new(p(0, 2), p(0, 3));
    let v1 = p(1, 1);
    let v2 = p(2, 2);
    let l2 = origami::fold::flip_line(&l1, &v1, &v2);
    assert_eq!(Line::new(p(2, 0), p(3, 0)), l2);
}

#[test]
fn fold_line_test() {
    let l1 = Line::new(p(0, 2), p(2, 0));
    let v1 = p(0, 0);
    let v2 = p(2, 2);
    let l2 = origami::fold::fold_line(&l1, &v1, &v2);
    assert_eq!(vec![Line::new(p(1, 1), p(0, 2)), Line::new(p(1, 1), p(0, 2))], l2);
}

#[test]
fn fold_polygon_test() {
    let poly = Polygon::new(vec![p(0, 0), p(2, 0), p(2, 2), p(0, 2)]);
    let v1 = p(0, 1);
    let v2 = p(2, 1);
    let ret = origami::fold::fold_polygon(&poly, &v1, &v2, &p(0, 2));

    let ans = vec![p(0, 1), p(0, 2), p(2, 2), p(2, 1)];
    for pt in ans {
        assert!(ret[0].points.contains(&pt));
        assert!(ret[1].points.contains(&pt));
    }
    assert!(ret.len() == 2);
}

#[test]
fn test_intersect_discrete() {
    let l1 = Line { p1: p(0, 0), p2: p(1, 1) };
    let l2 = Line { p1: p(0, 1), p2: p(1, 0) };
    assert_eq!(intersect_discrete(&l1, &l2).unwrap(), pf(1, 2, 1, 2));

    let l1 = Line { p1: p(0, 0), p2: pf(1, 4, 1, 4) };
    let l2 = Line { p1: p(0, 1), p2: p(1, 0) };
    assert_eq!(intersect_discrete(&l1, &l2), None);
}

#[test]
fn test_intersect_infinite() {
    let l1 = Line::new(pf(1, 10, 3, 10), pf(1, 4, 3, 4));
    let l2 = Line::new(p(1, 0), p(1, 1));
    assert_eq!(intersect_inf(&l1, &l2).unwrap(), p(1, 3));

    let l1 = Line::new(pf(2, 1, 3, 10), pf(2, 1, 3, 4));
    let l2 = Line::new(p(1, 0), p(1, 1));
    assert_eq!(intersect_inf(&l1, &l2), None);

    let l1 = Line::new(pf(1, 10, 3, 10), pf(1, 4, 3, 4));
    let l2 = Line::new(p(0, 1), p(1, 1));
    let l3 = Line::new(p(1, 1), p(1, 0));
    let l4 = Line::new(p(1, 0), p(0, 0));
    let l5 = Line::new(p(0, 0), p(0, 1));
    assert_eq!(pf(1, 3, 1, 1), intersect_inf(&l1, &l2).unwrap());
    assert_eq!(p(1, 3), intersect_inf(&l1, &l3).unwrap());
    assert_eq!(p(0, 0), intersect_inf(&l1, &l4).unwrap());
    assert_eq!(p(0, 0), intersect_inf(&l1, &l5).unwrap());
}

#[test]
fn test_clockwise() {
    assert!(!Polygon::new(vec![p(0, 0), p(1, 0), p(1, 1), p(0, 1)]).is_hole());
    assert!(Polygon::new(vec![p(0, 0), p(0, 1), p(1, 1), p(1, 0)]).is_hole());
    assert!(Polygon::new(vec![p(1, 1), p(1, 2), p(2, 2), p(2, 1)]).is_hole());
}

#[test]
fn test_area() {
    let one = Scalar::from_int(1);
    assert!(eq_eps(&Polygon::new(vec![p(0, 0), p(1, 0), p(1, 1), p(0, 1)]).area(), &one));
    assert!(eq_eps(&Polygon::new(vec![p(0, 0), p(0, 1), p(1, 1), p(1, 0)]).area(), &one));
    let p22 = Polygon::new(vec![p(0, 0), p(2, 0), p(2, 2), p(0, 2)]);
    assert!(eq_eps(&p22.area(), &Scalar::from_int(4)));
    let p44 = Polygon::new(vec![p(0, 0), p(4, 0), p(4, 4), p(0, 4)]);
    let hole12 = Polygon::new(vec![p(1, 1), p(1, 2), p(2, 2), p(2, 1)]);
    assert!(hole12.is_hole());
    assert!(eq_eps(&Shape::new(vec![p44, hole12]).area(), &Scalar::from_int(15)));
}

#[test]
fn test_line_coincident() {
    assert!(Line::new(p(0, 0), p(0, 10)).coincident(&p(0, 5)));
    assert!(Line::new(p(0, 0), p(0, 10)).coincident(&p(0, 0)));
    assert!(Line::new(p(0, 0), p(0, 10)).coincident(&p(0, 10)));
    assert!(Line::new(p(0, 0), p(0, 10)).coincident(&p(0, 0)));
    assert!(Line::new(p(0, 0), p(0, 10)).coincident(&p(0, 10)));
    assert!(Line::new(p(-4, 0), p(0, -4)).coincident(&pf(-23, 8, -9, 8)));
    assert!(!Line::new(p(0, 0), p(0, 10)).coincident(&p(1, 5)));
    assert!(!Line::new(p(0, 0), p(0, 10)).coincident(&p(0, 11)));
}

#[test]
fn test_poly_contains() {
    assert!(Polygon::new(vec![p(0, 0), p(2, 0), p(2, 2), p(0, 2)]).contains(&p(0, 0)));
    assert!(Polygon::new(vec![p(0, 0), p(2, 0), p(2, 2), p(0, 2)]).contains(&p(1, 0)));
    assert!(Polygon::new(vec![p(0, 0), p(2, 0), p(2, 2), p(0, 2)]).contains(&p(1, 1)));
    assert!(!Polygon::new(vec![p(0, 0), p(2, 0), p(2, 2), p(0, 2)]).contains(&p(3, 3)));

    assert!(Polygon::new(vec![p(0, 0), p(1, 0), p(1, 1), p(0, 1)]).contains(&pf(1, 5, 1, 5)));
    assert!(Polygon::new(vec![p(0, 0), p(1, 0), p(1, 1), p(0, 1)]).contains(&pf(1, 5, 7, 10)));
    assert!(Polygon::new(vec![p(0, 0), p(1, 0), p(1, 1), p(0, 1)]).contains(&pf(7, 10, 7, 10)));
    assert!(!Polygon::new(vec![p(0, 0), p(1, 0), p(1, 1), p(0, 1)]).contains(&pf(13, 10, 7, 10)));
}

#[test]
fn test_poly_coincident() {
    assert!(Polygon::new(vec![p(0, 0), p(2, 0), p(2, 2), p(0, 2)]).coincident(&p(0, 0)));
    assert!(Polygon::new(vec![p(0, 0), p(2, 0), p(2, 2), p(0, 2)]).coincident(&p(1, 0)));
    assert!(!Polygon::new(vec![p(0, 0), p(2, 0), p(2, 2), p(0, 2)]).coincident(&p(1, 1)));
    assert!(!Polygon::new(vec![p(0, 0), p(2, 0), p(2, 2), p(0, 2)]).coincident(&p(3, 3)));
}

#[test]
fn test_contains_3() {
    assert!(!Polygon::new(vec![p(0, 0), p(2, 0), p(2, 2), p(0, 2)]).contains(&p(3, 3)));
}

#[test]
fn test_split() {
    let (start, mid, end) = (pf(1, 1, 3, 2), pf(9, 8, 2, 1), pf(5, 4, 5, 2));
    let line1 = Line::new(start.clone(), end.clone());
    let halves = line1.split(Scalar::ratio(1, 2));
    assert!((Line::new(start.clone(), mid.clone()), Line::new(mid.clone(), end.clone()))
        == halves);
}

#[test]
fn test_interpolate() {
    let line1 = Line::new(p(0, 0), p(1, 3));
    assert_eq!(pf(1, 2, 3, 2), line1.interpolate(Scalar::ratio(1, 2)));
    assert_eq!(pf(1, 8, 3, 8), line1.interpolate(Scalar::ratio(1, 8)));
}

#[test]
fn test_intersect_poly() {
    let unit_sq_p = Polygon::new(vec![p(0, 0), p(0, 1), p(1, 1), p(1, 0)]);

    let line1 = Line::new(p(2, 0), p(1, 3));
    assert_eq!(0, intersect_poly_discrete(line1, &unit_sq_p).len());

    let line2 = Line::new(p(0, 0), p(1, 3));
    let r2 = intersect_poly_discrete(line2, &unit_sq_p);
    assert_eq!(1, r2.len());
    assert_eq!(p(0, 0), r2[0].0);
    assert_eq!(pf(1, 3, 1, 1), r2[0].1);

    let line3 = Line::new(pf(1, 10, 3, 10), pf(1, 4, 3, 4));
    let r3 = intersect_poly_inf(line3, &unit_sq_p);
    assert_eq!(1, r3.len());
    assert_eq!(p(0, 0), r3[0].0);
    assert_eq!(pf(1, 3, 1, 1), r3[0].1);

    let line4 = Line::new(p(0, 0), p(1, 3));
    let r4 = intersect_poly_inf(line4, &unit_sq_p);
    assert_eq!(1, r4.len());
    assert_eq!(p(0, 0), r4[0].0);
    assert_eq!(pf(1, 3, 1, 1), r4[0].1);

    let line5 = Line::new(p(2, 0), p(1, 3));
    assert_eq!(0, intersect_poly_inf(line5, &unit_sq_p).len());
}

#[test]
fn test_slicey_edges() {
    let unit_sq_p = Polygon::new(vec![p(0, 0), p(0, 1), p(1, 1), p(1, 0)]);
    let base = Polygon::new(vec![p(-4, 0), p(0, -4), p(4, 0), p(0, 4)]);

    // Rotated square base, silhouette as above
    let mut a = Polygon::new(vec![p(0, 0), pf(1, 2, 0, 1), pf(2, 1, 1, 2), pf(1, 2, 1, 2)])
        .slicey_edges(base.clone());
    assert_eq!(4, a.len());

    // Rotated square base, some inside some out
    a = Polygon::new(vec![p(0, 0), p(10, -10), pf(11, 1, 1, 2), p(5, 5)]).slicey_edges(
        base.clone(),
    );
    assert_eq!(2, a.len());

    // Polygon with vertices on unit square corners and parallel edges
    a = Polygon::new(vec![p(0, 0), pf(1, 2, 0, 1), pf(2, 1, 1, 2), pf(1, 2, 1, 2)]).slicey_edges(
        unit_sq_p.clone(),
    );
    assert_eq!(4, a.len());

    // Ordinary polygon, some inside some out
    a = Polygon::new(vec![pf(-13, 10, -12, 10), pf(1, 2, -1, 2), pf(2, 1, 1, 2), pf(1, 2, 1, 2)])
        .slicey_edges(unit_sq_p.clone());
    assert_eq!(2, a.len());

    // Polygon surrounds the unit square
    a = Polygon::new(vec![p(-1, -1), pf(3, 2, -1, 2), pf(3, 2, 3, 2), pf(-1, 1, 3, 2)])
        .slicey_edges(unit_sq_p.clone());
    assert_eq!(0, a.len());

    // Polygon contained within the unit square
    a = Polygon::new(vec![pf(1, 5, 1, 5), pf(7, 10, 1, 5), pf(7, 10, 7, 10), pf(1, 5, 7, 10)])
        .slicey_edges(unit_sq_p.clone());
    assert_eq!(4, a.len());
}

#[test]
fn test_iterateedges() {
    let poly = Polygon::new(vec![p(0, 0), p(1, 0), p(2, 2), p(0, 1)]);
    for (i, _) in poly.edges().iter().enumerate() {
        assert!(i < poly.edges().len());
    }
}

#[test]
fn test_normalize_line() {
    let (p1, p2) = (pf(1, 1, 3, 2), pf(1, 2, 0, 1));
    assert_eq!(pf(2, 1, 3, 2), normalize_line(&p1, &p2));
}

#[test]
fn test_distance_diagonal() {
    let d = p_distance(&p(0, 0), &p(3, 4));
    assert!(eq_eps(&d, &Scalar::from_int(5)));
}
