use origami::geom::Point;
use origami::matrix::Matrix33;
use origami::scalar::{eq_eps, Scalar};

fn mp(x: i64, y: i64) -> Point {
    Point { x: Scalar::from_int(x), y: Scalar::from_int(y) }
}

fn mpf(xn: i64, xd: i64, yn: i64, yd: i64) -> Point {
    Point { x: Scalar::ratio(xn, xd), y: Scalar::ratio(yn, yd) }
}

fn s(i: i64) -> Scalar {
    Scalar::from_int(i)
}

fn entry_is(m: &Matrix33, r: usize, c: usize, v: i64) -> bool {
    eq_eps(m.at(r, c), &Scalar::from_int(v))
}

#[test]
fn test_mul() {
    let a = Matrix33::new((s(1), s(2), s(3)), (s(4), s(5), s(6)), (s(7), s(8), s(9)));
    let b = Matrix33::new((s(10), s(11), s(12)), (s(13), s(14), s(15)), (s(16), s(17), s(18)));
    let c = a.mul(&b);
    assert!(entry_is(&c, 0, 0, 84));
    assert!(entry_is(&c, 0, 1, 90));
    assert!(entry_is(&c, 0, 2, 96));
    assert!(entry_is(&c, 1, 0, 201));
    assert!(entry_is(&c, 1, 1, 216));
    assert!(entry_is(&c, 1, 2, 231));
    assert!(entry_is(&c, 2, 0, 318));
    assert!(entry_is(&c, 2, 1, 342));
    assert!(entry_is(&c, 2, 2, 366));
}

#[test]
fn test_scale() {
    assert_eq!(
        mpf(-5, 2, 28, 1),
        Matrix33::scale(s(-1), s(4)).transform(mpf(5, 2, 7, 1)),
    );
}

#[test]
fn test_rotate() {
    // a quarter turn, given by its sine and cosine
    assert_eq!(mp(1, 0), Matrix33::rotate(s(1), s(0)).transform(mp(0, -1)));
}

#[test]
fn test_translate() {
    assert_eq!(mpf(6, 1, -1, 2), Matrix33::translate(s(4), Scalar::ratio(-5, 2)).transform(
        mp(2, 2),
    ));
}

#[test]
fn test_combined() {
    let m = Matrix33::scale(Scalar::ratio(5, 2), Scalar::ratio(3, 2)).mul(
        &Matrix33::translate(s(-4), s(-4)),
    );
    assert_eq!(mpf(-3, 2, -5, 2), m.transform(mp(1, 1)));
    assert_eq!(mpf(1, 1, -7, 1), m.transform(mp(2, -2)));
}

#[test]
fn test_flip_about_y3() {
    let m = Matrix33::translate(s(0), s(-3)).mul(&Matrix33::scale(s(1), s(-1))).mul(
        &Matrix33::translate(s(0), s(3)),
    );
    assert_eq!(mp(4, 2), m.transform(mp(4, 4)));
    assert_eq!(mpf(5, 2, 5, 1), m.transform(mpf(5, 2, 1, 1)));
}

#[test]
fn test_det_inverse() {
    let m = Matrix33::new((s(2), s(0), s(0)), (s(0), s(4), s(0)), (s(1), s(1), s(1)));
    assert!(eq_eps(&m.det(), &s(8)));
    let inv = m.inverse();
    let prod = m.mul(&inv);
    assert!(entry_is(&prod, 0, 0, 1));
    assert!(entry_is(&prod, 0, 1, 0));
    assert!(entry_is(&prod, 1, 0, 0));
    assert!(entry_is(&prod, 1, 1, 1));
    assert!(entry_is(&prod, 2, 0, 0));
    assert!(entry_is(&prod, 2, 1, 0));
    assert!(entry_is(&prod, 2, 2, 1));
}
