//! Linear applications between spaces of fixed dimensions, given by their matrix in a basis of
//! each space.

use core::ops::{Add, Div, Mul, Neg};
use vstd::prelude::*;
use vstd::std_specs::ops::{AddSpec, DivSpec, MulSpec, NegSpec};
use crate::linear::elimination::{rank_of, rref_defined, total_arith};
use crate::linear::family::{empty, only_zero, standard_basis, VectorBasis};
use crate::linear::matrix::{filled, Matrix};
use crate::linear::solver::{
    kernel_vectors, matrix_cells, pivot_columns, rref_cells, LinearSolutions, LinearSolver,
};
use crate::linear::vector::Vector;
use crate::traits::near_zero::NearZero;

verus! {

/// A linear application from the space of dimension `F` to the space of dimension `R`: its
/// matrix with respect to `input_basis` and `output_basis`.
#[derive(Clone, Debug)]
pub struct Application<T, const F: usize, const R: usize> {
    pub matrix: Matrix<T, R, F>,
    pub input_basis: VectorBasis<T, F>,
    pub output_basis: VectorBasis<T, R>,
}

/// The family that the kernel of an application is, when the reduced row echelon form of its
/// matrix is `e` (`rows` rows, `D` columns): the zero vector alone when every column has a
/// pivot, the standard basis when no row is left, else the kernel vectors of the columns without
/// pivot (see [`kernel_vectors`]).
pub open spec fn kernel_family<T: Copy + NearZero + Neg<Output = T>, const D: usize>(
    e: Seq<T>,
    rows: int,
    zero: T,
    one: T,
    r: Option<Vec<Vector<T, D>>>,
) -> bool {
    let rank = rank_of(e, D as int, rows);
    let pivots = pivot_columns(e, rows, D as int);
    let kernel = kernel_vectors(e, D as int, pivots, D as int, zero, one);
    if rank == D {
        &&& r is Some
        &&& r->0@.len() == 1
        &&& forall|i: int| 0 <= i < D ==> #[trigger] r->0@[0].scalars@[i] == zero
    } else if rank == 0 {
        &&& r is Some
        &&& r->0@.len() == D
        &&& forall|i: int, j: int| 0 <= i < D && 0 <= j < D ==> #[trigger] r->0@[i].scalars@[j] == if i == j {
            one
        } else {
            zero
        }
    } else {
        &&& r is Some
        &&& r->0@.len() == kernel.len()
        &&& forall|j: int| 0 <= j < kernel.len() ==> #[trigger] r->0@[j].scalars@ == kernel[j]
    }
}

/// Column `j` of `m` is an image by `func` of the standard basis vector `j`: `one` at
/// coordinate `j`, `zero` elsewhere.
pub open spec fn column_is_image<T, const F: usize, const R: usize, Func: Fn(Vector<T, F>) -> Vector<T, R>>(
    m: Matrix<T, R, F>,
    j: int,
    func: &Func,
    zero: T,
    one: T,
) -> bool {
    exists|e: Vector<T, F>, image: Vector<T, R>|
        {
            &&& #[trigger] call_ensures(*func, (e,), image)
            &&& forall|i: int| 0 <= i < F ==> #[trigger] e.scalars@[i] == if i == j {
                one
            } else {
                zero
            }
            &&& forall|i: int| 0 <= i < R ==> #[trigger] m.cell(i, j) == image.scalars@[i]
        }
}

impl<T: Copy, const F: usize, const R: usize> Application<T, F, R> {
    /// The application that maps each vector `v` to `func(v)`, in the standard bases: column
    /// `j` of its matrix is the image of the standard basis vector `j` (`one` at coordinate `j`,
    /// `zero` elsewhere).
    pub fn from_fn_with_standard_basis<Func: Fn(Vector<T, F>) -> Vector<T, R>>(func: &Func, zero: T, one: T) -> (r: Self)
        requires
            forall|v: Vector<T, F>| call_requires(*func, (v,)),
        ensures
            forall|j: int| 0 <= j < F ==> #[trigger] column_is_image(r.matrix, j, func, zero, one),
            forall|i: int, j: int| 0 <= i < F && 0 <= j < F ==> #[trigger] r.input_basis.spec_vectors()@[i]@[j] == if i == j {
                one
            } else {
                zero
            },
            forall|i: int, j: int| 0 <= i < R && 0 <= j < R ==> #[trigger] r.output_basis.spec_vectors()@[i]@[j] == if i == j {
                one
            } else {
                zero
            },
    {
        let basis = VectorBasis::<T, F>::standard_basis(zero, one);
        let mut images: [Vector<T, R>; F] = filled(Vector::new(filled(zero)));
        for k in 0..F
            invariant
                forall|a: int, b: int| 0 <= a < F && 0 <= b < F ==> #[trigger] basis.spec_vectors()@[a]@[b] == if a == b {
                    one
                } else {
                    zero
                },
                forall|v: Vector<T, F>| call_requires(*func, (v,)),
                forall|j: int|
                    0 <= j < k ==> call_ensures(*func, ((Vector { scalars: basis.spec_vectors()@[j] }),), #[trigger] images@[j]),
        {
            let e = Vector::new(basis.vectors()[k]);
            let image = func(e);
            images[k] = image;
        }
        let matrix = Matrix::from_vectors(&images, zero);
        let r = Self { matrix, input_basis: basis, output_basis: VectorBasis::standard_basis(zero, one) };
        proof {
            assert forall|j: int| 0 <= j < F implies #[trigger] column_is_image(r.matrix, j, func, zero, one) by {
                let e = Vector { scalars: basis.spec_vectors()@[j] };
                let image = images@[j];
                assert(call_ensures(*func, (e,), image));
                assert forall|i: int| 0 <= i < F implies #[trigger] e.scalars@[i] == if i == j {
                    one
                } else {
                    zero
                } by {
                    assert(basis.spec_vectors()@[j]@[i] == if j == i { one } else { zero });
                }
            }
        }
        r
    }
}

impl<T: Copy, const N: usize> Application<T, N, N> {
    /// The identity application: the identity matrix in the standard bases.
    pub fn const_identity(zero: T, one: T) -> (r: Self)
        ensures
            forall|i: int, j: int| 0 <= i < N && 0 <= j < N ==> #[trigger] r.matrix.cell(i, j) == if i == j {
                one
            } else {
                zero
            },
            forall|i: int, j: int| 0 <= i < N && 0 <= j < N ==> #[trigger] r.input_basis.spec_vectors()@[i]@[j] == if i == j {
                one
            } else {
                zero
            },
            forall|i: int, j: int| 0 <= i < N && 0 <= j < N ==> #[trigger] r.output_basis.spec_vectors()@[i]@[j] == if i == j {
                one
            } else {
                zero
            },
    {
        Self {
            matrix: Matrix::identity(zero, one),
            input_basis: VectorBasis::standard_basis(zero, one),
            output_basis: VectorBasis::standard_basis(zero, one),
        }
    }
}

impl<T: Copy + NearZero + Add<Output = T> + Mul<Output = T> + Div<Output = T> + Neg<Output = T>, const F: usize, const R: usize> Application<
    T,
    F,
    R,
> {
    /// The kernel of the application, with respect to its bases: the vectors that the
    /// homogeneous system of its matrix gives (see
    /// [`LinearSolver::solve_homogenous`]); the standard basis when every vector is in the kernel,
    /// the zero vector alone when only it is. `None` when the system cannot be solved.
    pub fn kernel(&self, zero: T, one: T) -> (r: Option<Vec<Vector<T, F>>>)
        requires
            R * F <= usize::MAX,
            T::obeys_add_spec(),
            T::obeys_mul_spec(),
            T::obeys_div_spec(),
            T::obeys_neg_spec(),
            total_arith::<T>(),
        ensures
            !rref_defined(matrix_cells(self.matrix), R as int, F as int, one) ==> r is None,
            rref_defined(matrix_cells(self.matrix), R as int, F as int, one) ==> kernel_family::<T, F>(
                rref_cells(matrix_cells(self.matrix), R as int, F as int, one),
                R as int,
                zero,
                one,
                r,
            ),
    {
        let solutions = LinearSolver::<T, R, F>::solve_homogenous(&self.matrix, zero, one);
        match solutions {
            None => None,
            Some(LinearSolutions::EntireSpace) => Some(standard_basis(zero, one)),
            Some(LinearSolutions::Infinite { particular, kernel }) => Some(kernel),
            Some(LinearSolutions::Unique(particular)) => Some(only_zero(zero)),
            Some(LinearSolutions::NoSolution) => Some(empty()),
        }
    }
}

} // verus!
