use cpge::linear::gauss::MatrixRowOperation;
use cpge::linear::heap_matrix::HeapMatrix;
use cpge::linear::matrix::{DoubleRREF, Matrix};
use cpge::linear::view::{InvertError, MatrixView};
use cpge::traits::near_zero::NearZero;
use std::ops::{Add, Div, Mul, Neg, Sub};

/// A real number whose zero test tolerates rounding.
#[derive(Copy, Clone, Debug, PartialEq)]
struct R(f64);

impl NearZero for R {
    fn near_zero_spec(&self) -> bool {
        self.0.abs() <= f64::EPSILON
    }

    fn is_near_zero(&self) -> bool {
        self.0.abs() <= f64::EPSILON
    }
}

impl Add for R {
    type Output = R;
    fn add(self, rhs: R) -> R {
        R(self.0 + rhs.0)
    }
}

impl Sub for R {
    type Output = R;
    fn sub(self, rhs: R) -> R {
        R(self.0 - rhs.0)
    }
}

impl Mul for R {
    type Output = R;
    fn mul(self, rhs: R) -> R {
        R(self.0 * rhs.0)
    }
}

impl Div for R {
    type Output = R;
    fn div(self, rhs: R) -> R {
        R(self.0 / rhs.0)
    }
}

impl Neg for R {
    type Output = R;
    fn neg(self) -> R {
        R(-self.0)
    }
}

fn matrix(rows: usize, cols: usize, values: &[f64]) -> HeapMatrix<R> {
    HeapMatrix::new(values.iter().map(|&x| R(x)).collect(), rows, cols)
}

fn values(m: &HeapMatrix<R>) -> Vec<f64> {
    m.data.iter().map(|x| x.0).collect()
}

fn close(a: &[f64], b: &[f64]) -> bool {
    a.len() == b.len() && a.iter().zip(b).all(|(x, y)| (x - y).abs() < 1e-9)
}

#[test]
fn gaussian_elimination_records_its_steps() {
    let mut m = matrix(2, 2, &[2.0, 4.0, 1.0, 3.0]);
    let steps = m.record_gaussian_elimination_mut(R(1.0));
    assert_eq!(values(&m), vec![1.0, 2.0, 0.0, 1.0]);
    assert_eq!(steps.len(), 5);
    assert!(matches!(steps[0], MatrixRowOperation::Swap(0, 0)));
    assert!(matches!(steps[1], MatrixRowOperation::Mul(0, R(x)) if x == 0.5));
    assert!(matches!(steps[2], MatrixRowOperation::Add(1, R(x), 0) if x == -1.0));

    // replaying the steps on the matrix before gives the matrix after
    let mut again = matrix(2, 2, &[2.0, 4.0, 1.0, 3.0]);
    again.replay_steps_mut(&steps);
    assert_eq!(values(&again), values(&m));
}

#[test]
fn gaussian_elimination_swaps_a_zero_pivot() {
    let mut m = matrix(2, 2, &[0.0, 1.0, 2.0, 0.0]);
    let steps = m.record_gaussian_elimination_mut(R(1.0));
    assert!(matches!(steps[0], MatrixRowOperation::Swap(0, 1)));
    assert_eq!(values(&m), vec![1.0, 0.0, 0.0, 1.0]);
}

#[test]
fn column_without_pivot_is_skipped() {
    let mut m = matrix(2, 2, &[0.0, 1.0, 0.0, 2.0]);
    let steps = m.record_gaussian_elimination_mut(R(1.0));
    // column 0 has no pivot, so column 1 pivots on row 0 and row 1 is cleared below it
    assert!(matches!(steps[0], MatrixRowOperation::Swap(0, 0)));
    assert_eq!(values(&m), vec![0.0, 1.0, 0.0, 0.0]);
    assert_eq!(m.rank_float(), 1);
}

#[test]
fn equal_rows_without_first_pivot() {
    let mut m = matrix(2, 2, &[0.0, 1.0, 0.0, 1.0]);
    m.record_gaussian_elimination_mut(R(1.0));
    assert_eq!(values(&m), vec![0.0, 1.0, 0.0, 0.0]);
    assert_eq!(m.rank_float(), 1);
}

#[test]
fn rank_of_echelon_matrix() {
    let m = matrix(3, 3, &[1.0, 2.0, 3.0, 0.0, 1.0, 4.0, 0.0, 0.0, 0.0]);
    assert_eq!(m.rank_float(), 2);
}

#[test]
fn rref_of_invertible_matrix_is_identity() {
    let mut m = matrix(3, 3, &[2.0, 1.0, 1.0, 1.0, 3.0, 2.0, 1.0, 0.0, 0.0]);
    let steps = m.record_rref_mut(R(1.0)).unwrap();
    assert!(m.as_view().is_identity_float(R(0.0), R(1.0)));
    let mut again = matrix(3, 3, &[2.0, 1.0, 1.0, 1.0, 3.0, 2.0, 1.0, 0.0, 0.0]);
    again.replay_steps_mut(&steps);
    assert!(close(&values(&again), &values(&m)));
}

#[test]
fn reduction_without_pivot_gives_none() {
    // a zero row above a non-zero one: the rank is one, but row 1 is reached... it has no pivot
    let mut m = matrix(2, 2, &[0.0, 0.0, 1.0, 1.0]);
    assert!(m.record_reduced_row_echelon_mut().is_some());
    let mut n = matrix(3, 2, &[1.0, 0.0, 0.0, 0.0, 0.0, 1.0]);
    assert!(n.record_reduced_row_echelon_mut().is_none());
}

#[test]
fn invert_examples() {
    let data = [R(4.0), R(7.0), R(2.0), R(6.0)];
    let v = MatrixView::from_slice(&data, 2, 2);
    let inv = v.invert(R(0.0), R(1.0)).unwrap().unwrap();
    assert!(close(&values(&inv), &[0.6, -0.7, -0.2, 0.4]));

    let singular = [R(1.0), R(2.0), R(4.0), R(8.0)];
    let s = MatrixView::from_slice(&singular, 2, 2);
    assert_eq!(s.invert(R(0.0), R(1.0)).unwrap().err(), Some(InvertError::NotInvertible));

    let wide = [R(1.0), R(2.0), R(3.0), R(4.0), R(5.0), R(6.0)];
    let w = MatrixView::from_slice(&wide, 2, 3);
    assert_eq!(w.invert(R(0.0), R(1.0)).unwrap().err(), Some(InvertError::NotSquare));
}

#[test]
fn is_invertible_examples() {
    let id = HeapMatrix::identity(5, R(0.0), R(1.0));
    assert_eq!(id.as_view().is_invertible(R(1.0)), Some(true));
    let n = [R(1.0), R(2.0), R(4.0), R(8.0)];
    assert_eq!(MatrixView::from_slice(&n, 2, 2).is_invertible(R(1.0)), Some(false));
}

#[test]
fn determinants() {
    let mut m2 = matrix(2, 2, &[1.0, 2.0, 3.0, 4.0]);
    assert_eq!(m2.determinant_mut(R(0.0), R(1.0)), Some(R(-2.0)));
    let mut m3 = matrix(3, 3, &[2.0, 0.0, 1.0, 1.0, 3.0, 2.0, 1.0, 1.0, 1.0]);
    // 2 (3 - 2) - 1 (0 - 1) + 1 (0 - 3) = 0
    assert_eq!(m3.determinant_mut(R(0.0), R(1.0)), Some(R(0.0)));
    let mut m4 = matrix(4, 4, &[
        2.0, 0.0, 0.0, 0.0,
        0.0, 3.0, 0.0, 0.0,
        0.0, 0.0, 1.0, 0.0,
        0.0, 0.0, 0.0, 5.0,
    ]);
    let d = m4.determinant_mut(R(0.0), R(1.0)).unwrap();
    assert!((d.0 - 30.0).abs() < 1e-9);
    let mut swapped = matrix(4, 4, &[
        0.0, 1.0, 0.0, 0.0,
        1.0, 0.0, 0.0, 0.0,
        0.0, 0.0, 1.0, 0.0,
        0.0, 0.0, 0.0, 1.0,
    ]);
    let d = swapped.determinant_mut(R(0.0), R(1.0)).unwrap();
    assert!((d.0 + 1.0).abs() < 1e-9);
    let mut wide = matrix(2, 3, &[1.0, 2.0, 3.0, 4.0, 5.0, 6.0]);
    assert_eq!(wide.determinant_mut(R(0.0), R(1.0)), None);
}

#[test]
fn elimination_with_right_matrix() {
    let mut m = matrix(2, 2, &[2.0, 0.0, 0.0, 4.0]);
    let mut right = HeapMatrix::identity(2, R(0.0), R(1.0));
    m.gaussian_elimination_mut_with_right(&mut right, R(1.0));
    assert_eq!(values(&m), vec![1.0, 0.0, 0.0, 1.0]);
    assert_eq!(values(&right), vec![0.5, 0.0, 0.0, 0.25]);
}

#[test]
fn rref_with_right_gives_the_inverse() {
    let mut m = matrix(2, 2, &[4.0, 7.0, 2.0, 6.0]);
    let mut right = HeapMatrix::identity(2, R(0.0), R(1.0));
    assert!(m.rref_mut_with_right(&mut right, R(1.0)));
    assert!(close(&values(&right), &[0.6, -0.7, -0.2, 0.4]));

    let mut e = matrix(2, 2, &[1.0, 2.0, 0.0, 1.0]);
    let mut r = HeapMatrix::identity(2, R(0.0), R(1.0));
    assert!(e.reduced_row_echelon_mut_with_right(&mut r));
    assert_eq!(values(&e), vec![1.0, 0.0, 0.0, 1.0]);
    assert_eq!(values(&r), vec![1.0, -2.0, 0.0, 1.0]);

    let mut bad = matrix(3, 2, &[1.0, 0.0, 0.0, 0.0, 0.0, 1.0]);
    let mut untouched = HeapMatrix::identity(3, R(0.0), R(1.0));
    assert!(!bad.reduced_row_echelon_mut_with_right(&mut untouched));
    assert_eq!(values(&untouched), vec![1.0, 0.0, 0.0, 0.0, 1.0, 0.0, 0.0, 0.0, 1.0]);
}

#[test]
fn double_rref_replays_on_the_second_matrix() {
    let mut pair = (
        Matrix::from_array([[R(2.0), R(0.0)], [R(0.0), R(4.0)]]),
        Matrix::from_array([[R(1.0), R(0.0)], [R(0.0), R(1.0)]]),
    );
    assert!(pair.rref_mut(R(1.0)));
    let first: Vec<f64> = pair.0.data.iter().flatten().map(|x| x.0).collect();
    let second: Vec<f64> = pair.1.data.iter().flatten().map(|x| x.0).collect();
    assert_eq!(first, vec![1.0, 0.0, 0.0, 1.0]);
    assert_eq!(second, vec![0.5, 0.0, 0.0, 0.25]);
}

#[test]
fn integer_division_breaks_the_reduced_form() {
    // over integers the pivot 2 is scaled by 1 / 2 == 0: its row is cleared, and a zero row is
    // left above a row that is not zero, which is no echelon form
    let mut m = HeapMatrix::new(vec![2i64, 0, 0, 1], 2, 2);
    assert!(m.record_rref_mut(1).is_some());
    assert_eq!(m.data, vec![0, 0, 0, 1]);
    // with pivots 1 and -1 it goes through
    let mut n = HeapMatrix::new(vec![1i64, 2, -1, -1], 2, 2);
    assert!(n.record_rref_mut(1).is_some());
    assert_eq!(n.data, vec![1, 0, 0, 1]);
}
