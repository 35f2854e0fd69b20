use cpge::linear::gauss::MatrixRowOperation;
use cpge::linear::heap_matrix::HeapMatrix;
use cpge::linear::matrix::Matrix;
use cpge::linear::space::VectorSpace;
use cpge::linear::vector::Vector;
use cpge::traits::near_zero::NearZero;
use std::ops::{Add, Div, Mul, Neg};

/// A real number whose zero test tolerates rounding.
#[derive(Copy, Clone, Debug, PartialEq)]
struct R(f64);

impl NearZero for R {
    fn near_zero_spec(&self) -> bool {
        self.0.abs() <= f64::EPSILON
    }

    fn is_near_zero(&self) -> bool {
        self.0.abs() <= f64::EPSILON
    }
}

impl Add for R {
    type Output = R;
    fn add(self, rhs: R) -> R {
        R(self.0 + rhs.0)
    }
}

impl Mul for R {
    type Output = R;
    fn mul(self, rhs: R) -> R {
        R(self.0 * rhs.0)
    }
}

impl Div for R {
    type Output = R;
    fn div(self, rhs: R) -> R {
        R(self.0 / rhs.0)
    }
}

impl Neg for R {
    type Output = R;
    fn neg(self) -> R {
        R(-self.0)
    }
}

const Z: R = R(0.0);
const O: R = R(1.0);

fn space<const N: usize>(rows: &[[f64; N]]) -> VectorSpace<R, N> {
    let family = rows.iter().map(|r| Vector::new(r.map(R))).collect();
    VectorSpace::new(family, Z, O).expect("reducible")
}

#[test]
fn lines_of_the_plane() {
    assert!(space(&[[1.0, 2.0]]).is_line());
    assert!(space(&[[1.0, 0.0], [2.0, 0.0]]).is_line());
    assert!(!space(&[[1.0, 0.0], [1.0, 1.0]]).is_line());
}

#[test]
fn planes_of_the_space() {
    assert!(space(&[[1.0, 0.0, 0.0], [0.0, 1.0, 0.0]]).is_plane());
    let line = space(&[[1.0, 0.0]]);
    assert!(line.is_line() && line.is_plane());
}

#[test]
fn whole_spaces() {
    let whole: VectorSpace<R, 3> = VectorSpace::whole_space(Z, O);
    assert!(whole.is_whole_space());
    assert_eq!(whole.family.len(), 3);
    assert!(whole.is_in(&Vector::new([R(1.0), R(-2.0), R(5.0)]), Z));
    assert!(space(&[[1.0, 0.0], [0.0, 2.0]]).is_whole_space());
}

#[test]
fn vectors_in_a_line() {
    let line = space(&[[1.0, 0.0]]);
    assert_eq!(line.family.len(), 1);
    assert!(line.is_in(&Vector::new([R(3.0), Z]), Z));
    assert!(!line.is_in(&Vector::new([R(3.0), R(1.0)]), Z));
}

#[test]
fn row_operation_matrices() {
    let swap = MatrixRowOperation::<R>::Swap(0, 1).as_matrix::<2>(Z, O);
    assert_eq!(swap.data, [[Z, O], [O, Z]]);
    let add = MatrixRowOperation::Add(1, R(2.0), 0).as_matrix::<2>(Z, O);
    assert_eq!(add.data, [[O, Z], [R(2.0), O]]);
    let mul = MatrixRowOperation::Mul(0, R(3.0)).as_matrix::<2>(Z, O);
    assert_eq!(mul.data, [[R(3.0), Z], [Z, O]]);
    // the product of the matrices, first operation first
    let steps = [MatrixRowOperation::Mul(0, R(3.0)), MatrixRowOperation::Add(1, R(2.0), 0)];
    let comp = MatrixRowOperation::composition_matrix::<2>(&steps, Z, O);
    assert_eq!(comp.data, [[R(3.0), Z], [R(2.0), O]]);
    let none = MatrixRowOperation::<R>::composition_matrix::<2>(&[], Z, O);
    assert_eq!(none.data, [[O, Z], [Z, O]]);
}

#[test]
fn operation_matrix_does_the_operation() {
    let m = Matrix::from_array([[1i64, 2, 3], [4, 5, 6]]);
    for op in [
        MatrixRowOperation::Add(1, 2i64, 0),
        MatrixRowOperation::Add(0, -3i64, 0),
        MatrixRowOperation::Mul(1, 5i64),
        MatrixRowOperation::Swap(0, 1),
    ] {
        let e = op.as_matrix::<2>(0, 1);
        let product = e.product(&m, 0);
        let mut replayed = HeapMatrix::new(vec![1i64, 2, 3, 4, 5, 6], 2, 3);
        replayed.replay_steps_mut(&[op]);
        assert_eq!(product.data.concat(), replayed.data);
    }
}

#[test]
fn recorded_composition_inverts_an_invertible_matrix() {
    let mut m = HeapMatrix::new(vec![R(2.0), R(4.0), R(1.0), R(3.0)], 2, 2);
    let c = m.record_composition_rref_mut::<2>(Z, O).expect("reducible");
    assert_eq!(m.data, vec![O, Z, Z, O]);
    let expected = [[1.5, -2.0], [-0.5, 1.0]];
    for i in 0..2 {
        for j in 0..2 {
            assert!((c.data[i][j].0 - expected[i][j]).abs() < 1e-12);
        }
    }
    // the steps of the elimination alone
    let mut g = HeapMatrix::new(vec![R(2.0), R(4.0), R(1.0), R(3.0)], 2, 2);
    let e = g.record_composition_gaussian_elimination_mut::<2>(Z, O);
    assert_eq!(g.data, vec![O, R(2.0), Z, O]);
    assert_eq!(e.data, [[R(0.5), Z], [R(-0.5), O]]);
}

#[test]
fn composition_and_recording_orders() {
    let steps = [MatrixRowOperation::Mul(0, 3i64), MatrixRowOperation::Add(1, 2i64, 0)];
    // last operation first
    let comp = MatrixRowOperation::composition_matrix::<2>(&steps, 0, 1);
    let mut reversed = HeapMatrix::new(vec![1i64, 0, 0, 1], 2, 2);
    reversed.replay_steps_mut(&[steps[1], steps[0]]);
    assert_eq!(comp.data.concat(), reversed.data);
    assert_eq!(comp.data, [[3, 0], [2, 1]]);
}
