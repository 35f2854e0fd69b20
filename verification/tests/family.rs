use cpge::linear::family::{
    as_basis, empty, is_generator, is_independent, minimal_independent, only_zero, standard_basis,
    VectorBasis,
};
use cpge::linear::vector::Vector;
use cpge::traits::near_zero::NearZero;
use std::ops::{Add, Div, Mul, Neg};

/// A real number whose zero test tolerates rounding.
#[derive(Copy, Clone, Debug, PartialEq)]
struct R(f64);

impl NearZero for R {
    fn near_zero_spec(&self) -> bool {
        self.0.abs() <= f64::EPSILON
    }

    fn is_near_zero(&self) -> bool {
        self.0.abs() <= f64::EPSILON
    }
}

impl Add for R {
    type Output = R;
    fn add(self, rhs: R) -> R {
        R(self.0 + rhs.0)
    }
}

impl Mul for R {
    type Output = R;
    fn mul(self, rhs: R) -> R {
        R(self.0 * rhs.0)
    }
}

impl Div for R {
    type Output = R;
    fn div(self, rhs: R) -> R {
        R(self.0 / rhs.0)
    }
}

impl Neg for R {
    type Output = R;
    fn neg(self) -> R {
        R(-self.0)
    }
}

fn v2(a: f64, b: f64) -> Vector<R, 2> {
    Vector::new([R(a), R(b)])
}

fn v3(a: f64, b: f64, c: f64) -> Vector<R, 3> {
    Vector::new([R(a), R(b), R(c)])
}

const Z: R = R(0.0);
const O: R = R(1.0);

#[test]
fn colinear_vectors_are_dependent() {
    assert!(!is_independent(&[v2(1.0, 2.0), v2(2.0, 4.0)], Z, O));
}

#[test]
fn non_colinear_vectors_are_independent() {
    assert!(is_independent(&[v2(1.0, 2.0), v2(2.0, 2.0)], Z, O));
}

#[test]
fn independence_edge_cases() {
    // the empty family is independent, the family of the zero vector is not
    assert!(is_independent::<R, 2>(&empty::<R, 2>(), Z, O));
    assert!(!is_independent::<R, 2>(&only_zero::<R, 2>(Z), Z, O));
    // more vectors than the dimension
    assert!(!is_independent(&[v2(1.0, 0.0), v2(0.0, 1.0), v2(1.0, 1.0)], Z, O));
    // fewer vectors than the dimension
    assert!(is_independent(&[v3(1.0, 0.0, 1.0), v3(0.0, 1.0, 1.0)], Z, O));
}

#[test]
fn generators_of_the_plane() {
    assert!(is_generator(&[v2(1.0, 2.0), v2(2.0, 2.0)], Z, O));
    assert!(!is_generator(&[v2(1.0, 2.0), v2(2.0, 4.0)], Z, O));
    assert!(!is_generator(&[v2(1.0, 2.0)], Z, O));
}

#[test]
fn standard_basis_family() {
    let basis = standard_basis::<R, 3>(Z, O);
    assert_eq!(basis.len(), 3);
    assert_eq!(basis[0].scalars, [O, Z, Z]);
    assert_eq!(basis[1].scalars, [Z, O, Z]);
    assert_eq!(basis[2].scalars, [Z, Z, O]);
    assert!(is_independent(&basis, Z, O));
    assert!(is_generator(&basis, Z, O));
    let zero = only_zero::<R, 3>(Z);
    assert_eq!(zero.len(), 1);
    assert_eq!(zero[0].scalars, [Z, Z, Z]);
}

#[test]
fn family_as_basis() {
    let b = as_basis(&[v2(1.0, 2.0), v2(3.0, 4.0)], Z, O).expect("a basis");
    assert_eq!(*b.vectors(), [[R(1.0), R(2.0)], [R(3.0), R(4.0)]]);
    let m = b.as_matrix(Z);
    // the columns of the matrix are the vectors
    assert_eq!(m.data, [[R(1.0), R(3.0)], [R(2.0), R(4.0)]]);
    assert!(as_basis(&[v2(1.0, 2.0), v2(2.0, 4.0)], Z, O).is_none());
    assert!(as_basis(&[v2(1.0, 2.0)], Z, O).is_none());
    let standard = VectorBasis::<R, 2>::standard_basis(Z, O);
    assert_eq!(*standard.vectors(), [[O, Z], [Z, O]]);
}

#[test]
fn minimal_independent_family() {
    let family = [v2(1.0, 2.0), v2(2.0, 4.0), v2(0.0, 1.0), v2(5.0, 5.0)];
    let kept = minimal_independent(&family, Z, O);
    assert_eq!(kept.len(), 2);
    assert_eq!(kept[0].scalars, [R(1.0), R(2.0)]);
    assert_eq!(kept[1].scalars, [R(0.0), R(1.0)]);
    assert!(minimal_independent::<R, 2>(&[], Z, O).is_empty());
}

#[test]
fn family_holding_zero_is_dependent() {
    assert!(!is_independent(&[v2(0.0, 0.0), v2(1.0, 1.0)], Z, O));
    assert!(!is_independent(&[v2(1.0, 1.0), v2(0.0, 0.0)], Z, O));
}
