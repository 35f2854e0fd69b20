use cpge::geometry::space3::{Line3, Plane3, Plane3Intersection};
use cpge::linear::vector::Vector;
use cpge::traits::near_zero::NearZero;
use std::ops::{Add, Div, Mul, Neg, Sub};

/// A real number whose zero test tolerates rounding.
#[derive(Copy, Clone, Debug, PartialEq, PartialOrd)]
struct R(f64);

impl NearZero for R {
    fn near_zero_spec(&self) -> bool {
        self.0.abs() <= 1e-9
    }

    fn is_near_zero(&self) -> bool {
        self.0.abs() <= 1e-9
    }
}

impl Add for R {
    type Output = R;
    fn add(self, rhs: R) -> R {
        R(self.0 + rhs.0)
    }
}

impl Sub for R {
    type Output = R;
    fn sub(self, rhs: R) -> R {
        R(self.0 - rhs.0)
    }
}

impl Mul for R {
    type Output = R;
    fn mul(self, rhs: R) -> R {
        R(self.0 * rhs.0)
    }
}

impl Div for R {
    type Output = R;
    fn div(self, rhs: R) -> R {
        R(self.0 / rhs.0)
    }
}

impl Neg for R {
    type Output = R;
    fn neg(self) -> R {
        R(-self.0)
    }
}

const Z: R = R(0.0);
const O: R = R(1.0);

fn p(a: f64, b: f64, c: f64) -> Vector<R, 3> {
    Vector::new([R(a), R(b), R(c)])
}

fn cartesian(a: f64, b: f64, c: f64, d: f64) -> Plane3<R> {
    Plane3::Cartesian([R(a), R(b), R(c), R(d)])
}

#[test]
fn points_on_a_cartesian_plane() {
    let plane = cartesian(0.0, 0.0, 1.0, 0.0);
    assert!(plane.is_in(&p(1.0, 2.0, 0.0), Z));
    assert!(!plane.is_in(&p(1.0, 2.0, 1.0), Z));
    assert!(plane.is_in_float(&p(5.0, -3.0, 0.0), Z));
    assert!(!plane.is_in_float(&p(5.0, -3.0, 0.5), Z));
}

#[test]
fn points_on_a_parametric_plane() {
    let plane = Plane3::Parametric(p(0.0, 0.0, 1.0), p(1.0, 0.0, 0.0), p(0.0, 1.0, 0.0));
    assert!(plane.is_in(&p(3.0, 4.0, 1.0), Z));
    assert!(!plane.is_in(&p(3.0, 4.0, 0.0), Z));
    assert!(plane.is_in_float(&p(-2.0, 7.0, 1.0), Z));
}

#[test]
fn cartesian_to_parametric() {
    let plane = cartesian(1.0, 1.0, 1.0, -3.0);
    match plane.to_parametric(Z, O) {
        Plane3::Parametric(point, u, v) => {
            assert_eq!(point.scalars, [R(3.0), Z, Z]);
            assert_eq!(u.scalars, [R(-1.0), R(1.0), Z]);
            assert_eq!(v.scalars, [R(-1.0), R(-1.0), R(2.0)]);
        }
        _ => panic!("expected a parametric plane"),
    }
    // the same plane, so it holds the same points
    let param = plane.to_parametric(Z, O);
    assert!(param.is_in_float(&p(0.0, 3.0, 0.0), Z));
    assert!(param.is_in_float(&p(1.0, 1.0, 1.0), Z));
    assert!(!param.is_in_float(&p(1.0, 1.0, 2.0), Z));
    // a plane already parametric is kept
    let again = param.to_parametric(Z, O);
    assert!(matches!(again, Plane3::Parametric(..)));
}

#[test]
fn parametric_to_cartesian() {
    let plane = Plane3::Parametric(p(1.0, 2.0, 3.0), p(1.0, 1.0, 0.0), p(0.0, 1.0, 1.0));
    let cart = plane.to_cartesian(Z, O).expect("u and v span a plane");
    assert!(matches!(cart, Plane3::Cartesian(_)));
    for q in [p(1.0, 2.0, 3.0), p(2.0, 3.0, 3.0), p(1.0, 3.0, 4.0), p(3.0, 5.0, 4.0)] {
        assert!(cart.is_in_float(&q, Z));
    }
    assert!(!cart.is_in_float(&p(0.0, 0.0, 0.0), Z));
    // colinear directions do not span a plane
    let flat = Plane3::Parametric(p(0.0, 0.0, 0.0), p(1.0, 0.0, 0.0), p(2.0, 0.0, 0.0));
    assert!(flat.to_cartesian(Z, O).is_none());
    // a Cartesian plane is kept
    assert!(matches!(cart.to_cartesian(Z, O), Some(Plane3::Cartesian(_))));
}

#[test]
fn planes_compare() {
    let plane = cartesian(1.0, 1.0, 1.0, -3.0);
    assert!(plane.eq(&plane, Z, O));
    assert!(!plane.ne(&plane, Z, O));
    assert!(!plane.eq(&cartesian(1.0, 1.0, 1.0, -4.0), Z, O));
    let param = plane.to_parametric(Z, O);
    assert!(plane.eq(&param, Z, O));
    assert!(param.eq(&plane, Z, O));
    let other = Plane3::Parametric(p(0.0, 0.0, 3.0), p(1.0, 0.0, -1.0), p(0.0, 1.0, -1.0));
    assert!(param.eq(&other, Z, O));
    let shifted = Plane3::Parametric(p(0.0, 0.0, 4.0), p(1.0, 0.0, -1.0), p(0.0, 1.0, -1.0));
    assert!(param.ne(&shifted, Z, O));
    // with no coefficient of the second above epsilon, the first must be near zero
    assert!(cartesian(0.0, 0.0, 0.0, 0.0).eq(&cartesian(0.0, 0.0, 0.0, 0.0), Z, O));
    // a negative leading coefficient, and proportional equations
    let x_is_one = cartesian(-1.0, 0.0, 0.0, 1.0);
    assert!(x_is_one.eq(&x_is_one, Z, O));
    assert!(cartesian(2.0, 0.0, 0.0, -2.0).eq(&cartesian(1.0, 0.0, 0.0, -1.0), Z, O));
    assert!(cartesian(1.0, 2.0, 3.0, 4.0).eq(&cartesian(-2.0, -4.0, -6.0, -8.0), Z, O));
    assert!(!cartesian(1.0, 2.0, 3.0, 4.0).eq(&cartesian(1.0, 2.0, 3.0, 5.0), Z, O));
    assert!(!cartesian(0.0, 0.0, 0.0, 0.0).eq(&cartesian(1.0, 0.0, 0.0, 0.0), Z, O));
}

#[test]
fn two_planes_meet_on_a_line() {
    let floor = cartesian(0.0, 0.0, 1.0, 0.0);
    let wall = cartesian(1.0, 0.0, 0.0, 0.0);
    assert!(floor.intersects_in_line(&wall, O));
    match floor.intersection(&wall, O) {
        Plane3Intersection::Line(Line3::Cartesian(rows)) => {
            assert_eq!(rows[0], [O, Z, Z, Z]);
            assert_eq!(rows[1], [Z, Z, O, Z]);
        }
        _ => panic!("expected a line"),
    }
    let param = Plane3::Parametric(p(0.0, 0.0, 0.0), p(1.0, 0.0, 0.0), p(0.0, 1.0, 0.0));
    assert!(!floor.intersects_in_line(&param, O));
    // a plane does not meet itself in a line
    assert!(!floor.intersects_in_line(&floor, O));
}

#[test]
fn lines_check() {
    let floor = [Z, Z, O, Z];
    let wall = [O, Z, Z, Z];
    assert!(Line3::Cartesian([floor, wall]).is_line(Z, O));
    assert!(!Line3::Cartesian([floor, floor]).is_line(Z, O));
    assert!(Line3::Parametric(p(1.0, 2.0, 3.0), p(0.0, 0.0, 0.0)).is_line(Z, O));
    assert!(!Line3::Parametric(p(1.0, 2.0, 3.0), p(1.0, 0.0, 0.0)).is_line(Z, O));
}
