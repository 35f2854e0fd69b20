use cpge::linear::application::Application;
use cpge::linear::matrix::Matrix;
use cpge::linear::solver::{LinearSolutions, LinearSolver};
use cpge::linear::vector::Vector;
use cpge::traits::near_zero::NearZero;
use std::ops::{Add, Div, Mul, Neg, Sub};

/// A real number whose zero test tolerates rounding.
#[derive(Copy, Clone, Debug, PartialEq)]
struct R(f64);

impl NearZero for R {
    fn near_zero_spec(&self) -> bool {
        self.0.abs() <= f64::EPSILON
    }

    fn is_near_zero(&self) -> bool {
        self.0.abs() <= f64::EPSILON
    }
}

impl Add for R {
    type Output = R;
    fn add(self, rhs: R) -> R {
        R(self.0 + rhs.0)
    }
}

impl Sub for R {
    type Output = R;
    fn sub(self, rhs: R) -> R {
        R(self.0 - rhs.0)
    }
}

impl Mul for R {
    type Output = R;
    fn mul(self, rhs: R) -> R {
        R(self.0 * rhs.0)
    }
}

impl Div for R {
    type Output = R;
    fn div(self, rhs: R) -> R {
        R(self.0 / rhs.0)
    }
}

impl Neg for R {
    type Output = R;
    fn neg(self) -> R {
        R(-self.0)
    }
}

const Z: R = R(0.0);
const O: R = R(1.0);

fn v3(a: f64, b: f64, c: f64) -> Vector<R, 3> {
    Vector::new([R(a), R(b), R(c)])
}

fn coords<const N: usize>(v: &Vector<R, N>) -> Vec<f64> {
    v.scalars.iter().map(|x| x.0).collect()
}

#[test]
fn identity_system_has_only_zero() {
    let system: Matrix<R, 3, 3> = Matrix::identity(Z, O);
    let solution = LinearSolver::solve_homogenous(&system, Z, O).expect("solvable");
    assert!(matches!(solution, LinearSolutions::Unique(_)));
    if let LinearSolutions::Unique(v) = &solution {
        assert_eq!(coords(v), vec![0.0, 0.0, 0.0]);
    }
    assert!(solution.is_in(&v3(0.0, 0.0, 0.0), Z, O));
    assert!(!solution.is_in(&v3(1.0, 0.0, 0.0), Z, O));
}

#[test]
fn dependent_rows_give_a_kernel() {
    let system = Matrix::from_array([[R(1.0), R(2.0), R(1.0)], [R(2.0), R(4.0), R(2.0)]]);
    let solution = LinearSolver::solve_homogenous(&system, Z, O).expect("solvable");
    match &solution {
        LinearSolutions::Infinite { particular, kernel } => {
            assert_eq!(coords(particular), vec![0.0, 0.0, 0.0]);
            assert_eq!(kernel.len(), 2);
            assert_eq!(coords(&kernel[0]), vec![-2.0, 1.0, 0.0]);
            assert_eq!(coords(&kernel[1]), vec![-1.0, 0.0, 1.0]);
        }
        _ => panic!("expected infinitely many solutions"),
    }
    assert!(solution.is_in(&v3(0.0, 0.0, 0.0), Z, O));
    assert!(solution.is_in(&v3(-2.0, 1.0, 0.0), Z, O));
    assert!(!solution.is_in(&v3(1.0, 0.0, 0.0), Z, O));
}

#[test]
fn zero_system_is_solved_by_everything() {
    let system: Matrix<R, 2, 2> = Matrix::zero(Z);
    let solution = LinearSolver::solve_homogenous(&system, Z, O).expect("solvable");
    assert!(matches!(solution, LinearSolutions::EntireSpace));
    assert!(solution.is_in(&Vector::new([R(3.0), R(-7.0)]), Z, O));
    let right = Vector::new([Z, Z]);
    assert!(matches!(
        LinearSolver::solve_with_vector(&system, &right, Z, O),
        LinearSolutions::EntireSpace
    ));
    let right = Vector::new([O, Z]);
    assert!(matches!(
        LinearSolver::solve_with_vector(&system, &right, Z, O),
        LinearSolutions::NoSolution
    ));
    assert!(!LinearSolutions::<R, 2>::NoSolution.is_in(&Vector::new([Z, Z]), Z, O));
}

#[test]
fn application_from_function() {
    let f = |v: Vector<R, 2>| Vector::new([R(v.scalars[0].0 + v.scalars[1].0), R(v.scalars[0].0 + v.scalars[1].0)]);
    let app = Application::<R, 2, 2>::from_fn_with_standard_basis(&f, Z, O);
    assert_eq!(app.matrix.data, [[O, O], [O, O]]);
    assert_eq!(*app.input_basis.vectors(), [[O, Z], [Z, O]]);
    let kernel = app.kernel(Z, O).expect("solvable");
    assert_eq!(kernel.len(), 1);
    assert_eq!(coords(&kernel[0]), vec![-1.0, 1.0]);
}

#[test]
fn identity_application_kernel() {
    let app = Application::<R, 3, 3>::const_identity(Z, O);
    let kernel = app.kernel(Z, O).expect("solvable");
    assert_eq!(kernel.len(), 1);
    assert_eq!(coords(&kernel[0]), vec![0.0, 0.0, 0.0]);
    let zero = Application::<R, 2, 2> {
        matrix: Matrix::zero(Z),
        input_basis: app_basis(),
        output_basis: app_basis(),
    };
    let kernel = zero.kernel(Z, O).expect("solvable");
    assert_eq!(kernel.len(), 2);
    assert_eq!(coords(&kernel[0]), vec![1.0, 0.0]);
    assert_eq!(coords(&kernel[1]), vec![0.0, 1.0]);
}

fn app_basis() -> cpge::linear::family::VectorBasis<R, 2> {
    cpge::linear::family::VectorBasis::standard_basis(Z, O)
}

#[test]
fn matrix_from_vectors_puts_them_in_columns() {
    let m = Matrix::from_vectors(&[v3(1.0, 2.0, 3.0), v3(4.0, 5.0, 6.0)], Z);
    assert_eq!(m.data, [[R(1.0), R(4.0)], [R(2.0), R(5.0)], [R(3.0), R(6.0)]]);
    let m = Matrix::from_row_vectors(&[v3(1.0, 2.0, 3.0), v3(4.0, 5.0, 6.0)]);
    assert_eq!(m.data, [[R(1.0), R(2.0), R(3.0)], [R(4.0), R(5.0), R(6.0)]]);
}

#[test]
fn kernel_vectors_solve_a_system_with_shifted_pivots() {
    // already reduced, pivots in columns 0 and 2
    let system = Matrix::from_array([
        [R(1.0), R(1.0), R(0.0), R(0.0)],
        [R(0.0), R(0.0), R(1.0), R(1.0)],
    ]);
    let solution = LinearSolver::solve_homogenous(&system, Z, O).expect("solvable");
    match &solution {
        LinearSolutions::Infinite { particular, kernel } => {
            assert_eq!(coords(particular), vec![0.0, 0.0, 0.0, 0.0]);
            assert_eq!(kernel.len(), 2);
            assert_eq!(coords(&kernel[0]), vec![-1.0, 1.0, 0.0, 0.0]);
            assert_eq!(coords(&kernel[1]), vec![0.0, 0.0, -1.0, 1.0]);
            // every row of the system is zero at every kernel vector
            for k in kernel.iter() {
                for row in system.data.iter() {
                    let value: f64 = row.iter().zip(k.scalars.iter()).map(|(a, b)| a.0 * b.0).sum();
                    assert_eq!(value, 0.0);
                }
            }
        }
        _ => panic!("expected infinitely many solutions"),
    }
}
