//! Vector subspaces of the space of dimension `N`, spanned by a family of vectors.

use core::ops::{Add, Div, Mul, Neg};
use vstd::prelude::*;
use vstd::std_specs::ops::{AddSpec, DivSpec, MulSpec, NegSpec};
use crate::linear::composition::{composition_cells, lemma_product_prefix, lemma_steps_fit, row_col_sum};
use crate::linear::elimination::{rref_defined, rref_steps, total_arith};
use crate::linear::family::{minimal_independent, minimal_of, padded_columns, standard_basis};
use crate::linear::gauss::{lemma_join_index, MatrixRowOperation};
use crate::linear::heap_matrix::{lemma_cell_index, HeapMatrix};
use crate::linear::matrix::{cell_product_prefix, Matrix};
use crate::linear::solver::matrix_cells;
use crate::linear::vector::Vector;
use crate::traits::near_zero::NearZero;

verus! {

/// The subspace spanned by `family`. It keeps an independent family that spans the same
/// space, and the matrix of the row operations that bring the matrix of the columns of that
/// family to its reduced row echelon form.
pub struct VectorSpace<T, const N: usize> {
    pub family: Vec<Vector<T, N>>,
    minimal_space: Vec<Vector<T, N>>,
    rref_steps: Matrix<T, N, N>,
}

/// The cell `(i, j)` of the product of the matrix `steps` by the `N x N` matrix whose columns
/// are `vectors`, completed by zero columns.
pub open spec fn reduced_cell<T: Add<Output = T> + Mul<Output = T>, const N: usize>(
    steps: Matrix<T, N, N>,
    vectors: Seq<Vector<T, N>>,
    zero: T,
    i: int,
    j: int,
) -> T {
    row_col_sum(matrix_cells(steps), N as int, padded_columns(vectors, zero), N as int, i, j, N as int, zero)
}

/// The coordinate `i` of the product of the matrix `steps` by the vector `v`.
pub open spec fn reduced_right<T: Add<Output = T> + Mul<Output = T>, const N: usize>(
    steps: Matrix<T, N, N>,
    v: Vector<T, N>,
    zero: T,
    i: int,
) -> T {
    row_col_sum(matrix_cells(steps), N as int, v.scalars@, 1, i, 0, N as int, zero)
}

/// `m.cell(i, j)` is the cell `i * C + j` of the cells of `m`, row after row.
proof fn lemma_matrix_cells<T, const R: usize, const C: usize>(m: Matrix<T, R, C>)
    ensures
        forall|i: int, j: int| 0 <= i < R && 0 <= j < C ==> #[trigger] m.cell(i, j) == matrix_cells(m)[i * C + j],
{
    assert forall|i: int, j: int| 0 <= i < R && 0 <= j < C implies #[trigger] m.cell(i, j) == matrix_cells(m)[i * C + j] by {
        lemma_join_index(i, j, C as int);
        lemma_cell_index(i, j, R as int, C as int);
    }
}

impl<T, const N: usize> VectorSpace<T, N> {
    /// The family spanning the space.
    pub closed spec fn spec_family(self) -> Seq<Vector<T, N>> {
        self.family@
    }

    /// The independent family kept.
    pub closed spec fn spec_minimal(self) -> Seq<Vector<T, N>> {
        self.minimal_space@
    }

    /// The matrix of the row operations kept.
    pub closed spec fn spec_steps(self) -> Matrix<T, N, N> {
        self.rref_steps
    }

    /// `true` when the independent family kept has one vector.
    pub fn is_line(&self) -> (r: bool)
        ensures
            r == (self.spec_minimal().len() == 1),
    {
        self.minimal_space.len() == 1
    }

    /// `true` when the independent family kept has `N - 1` vectors. There is at least one
    /// dimension.
    pub fn is_plane(&self) -> (r: bool)
        requires
            N >= 1,
        ensures
            r == (self.spec_minimal().len() == N - 1),
    {
        self.minimal_space.len() == N - 1
    }

    /// `true` when the independent family kept has `N` vectors: the space is the whole space.
    pub fn is_whole_space(&self) -> (r: bool)
        ensures
            r == (self.spec_minimal().len() == N),
    {
        self.minimal_space.len() == N
    }
}

impl<T: Copy, const N: usize> VectorSpace<T, N> {
    /// The whole space: spanned by the standard basis, which is independent, and the identity as
    /// the matrix of the row operations.
    pub fn whole_space(zero: T, one: T) -> (r: Self)
        ensures
            r.spec_family().len() == N,
            r.spec_minimal().len() == N,
            forall|i: int, j: int| 0 <= i < N && 0 <= j < N ==> #[trigger] r.spec_family()[i].scalars@[j] == if i == j {
                one
            } else {
                zero
            },
            forall|i: int, j: int| 0 <= i < N && 0 <= j < N ==> #[trigger] r.spec_minimal()[i].scalars@[j] == if i == j {
                one
            } else {
                zero
            },
            forall|i: int, j: int| 0 <= i < N && 0 <= j < N ==> #[trigger] r.spec_steps().cell(i, j) == if i == j {
                one
            } else {
                zero
            },
    {
        Self {
            family: standard_basis(zero, one),
            minimal_space: standard_basis(zero, one),
            rref_steps: Matrix::identity(zero, one),
        }
    }
}

impl<T: Copy + NearZero + Add<Output = T> + Mul<Output = T> + Div<Output = T> + Neg<Output = T>, const N: usize> VectorSpace<
    T,
    N,
> {
    /// The space spanned by `family`: it keeps the independent family that
    /// [`minimal_independent`] gives and the product (see
    /// [`MatrixRowOperation::composition_matrix`]) of the matrices of the row operations of the
    /// reduced row echelon form of the matrix whose columns are that family, completed by zero
    /// columns. `None` when that form cannot be computed.
    pub fn new(family: Vec<Vector<T, N>>, zero: T, one: T) -> (r: Option<Self>)
        requires
            N * N <= usize::MAX,
            T::obeys_add_spec(),
            T::obeys_mul_spec(),
            T::obeys_div_spec(),
            T::obeys_neg_spec(),
            total_arith::<T>(),
        ensures
            !rref_defined(padded_columns(minimal_of(family@, zero, one), zero), N as int, N as int, one) ==> r is None,
            rref_defined(padded_columns(minimal_of(family@, zero, one), zero), N as int, N as int, one) ==> ({
                let cells = padded_columns(minimal_of(family@, zero, one), zero);
                &&& r is Some
                &&& r->0.spec_family() == family@
                &&& r->0.spec_minimal() == minimal_of(family@, zero, one)
                &&& forall|i: int, j: int| 0 <= i < N && 0 <= j < N ==> #[trigger] r->0.spec_steps().cell(i, j)
                    == composition_cells(rref_steps(cells, N as int, N as int, one), 0, N as int, zero, one)[i * N + j]
            }),
    {
        let minimal = minimal_independent(family.as_slice(), zero, one);
        let len = minimal.len();
        let ghost goal = padded_columns(minimal@, zero);
        let mut cells: Vec<T> = Vec::new();
        proof {
            assert(0 * N == 0) by (nonlinear_arith);
        }
        for i in 0..N
            invariant
                len == minimal@.len(),
                goal == padded_columns(minimal@, zero),
                N * N <= usize::MAX,
                cells@.len() == i * N,
                forall|x: int| 0 <= x < i * N ==> #[trigger] cells@[x] == goal[x],
        {
            for j in 0..N
                invariant
                    len == minimal@.len(),
                    goal == padded_columns(minimal@, zero),
                    N * N <= usize::MAX,
                    i < N,
                    cells@.len() == i * N + j,
                    forall|x: int| 0 <= x < i * N + j ==> #[trigger] cells@[x] == goal[x],
            {
                proof {
                    lemma_cell_index(i as int, j as int, N as int, N as int);
                    lemma_join_index(i as int, j as int, N as int);
                }
                if j < len {
                    cells.push(minimal[j].scalars[i]);
                } else {
                    cells.push(zero);
                }
            }
            proof {
                assert((i + 1) * N == i * N + N) by (nonlinear_arith);
            }
        }
        assert(cells@ =~= goal);
        let mut m = HeapMatrix::new(cells, N, N);
        match m.record_rref_mut(one) {
            None => None,
            Some(steps) => {
                proof {
                    lemma_steps_fit(goal, N as int, N as int, steps@);
                }
                let comp = MatrixRowOperation::composition_matrix(steps.as_slice(), zero, one);
                Some(Self { family, minimal_space: minimal, rref_steps: comp })
            },
        }
    }

    /// Checks if `vec` is in the space: with `A` the product of the matrix kept by the matrix
    /// whose columns are the independent family kept (completed by zero columns), and `b` the
    /// product of the matrix kept by `vec`, no row `i` of `A` is near zero while `b[i]` is not.
    pub fn is_in(&self, vec: &Vector<T, N>, zero: T) -> (r: bool)
        requires
            T::obeys_add_spec(),
            T::obeys_mul_spec(),
            total_arith::<T>(),
        ensures
            r == !exists|i: int|
                0 <= i < N && (forall|j: int| 0 <= j < N ==> (#[trigger] reduced_cell(self.spec_steps(), self.spec_minimal(), zero, i, j)).near_zero_spec())
                    && !(#[trigger] reduced_right(self.spec_steps(), *vec, zero, i)).near_zero_spec(),
    {
        let len = self.minimal_space.len();
        let ghost cells = padded_columns(self.minimal_space@, zero);
        let mut columns: Matrix<T, N, N> = Matrix::zero(zero);
        for j in 0..N
            invariant
                len == self.minimal_space@.len(),
                cells == padded_columns(self.minimal_space@, zero),
                forall|a: int, b: int| 0 <= a < N && 0 <= b < j ==> #[trigger] columns.cell(a, b) == cells[a * N + b],
                forall|a: int, b: int| 0 <= a < N && j <= b < N ==> #[trigger] columns.cell(a, b) == zero,
        {
            if j < len {
                for i in 0..N
                    invariant
                        j < len,
                        j < N,
                        len == self.minimal_space@.len(),
                        cells == padded_columns(self.minimal_space@, zero),
                        forall|a: int, b: int| 0 <= a < N && 0 <= b < j ==> #[trigger] columns.cell(a, b) == cells[a * N + b],
                        forall|a: int| 0 <= a < i ==> #[trigger] columns.cell(a, j as int) == cells[a * N + j],
                        forall|a: int, b: int| 0 <= a < N && j <= b < N && !(b == j && a < i) ==> #[trigger] columns.cell(a, b) == zero,
                {
                    proof {
                        lemma_join_index(i as int, j as int, N as int);
                        lemma_cell_index(i as int, j as int, N as int, N as int);
                    }
                    columns.set((i, j), self.minimal_space[j].scalars[i]);
                }
            } else {
                proof {
                    assert forall|a: int| 0 <= a < N implies #[trigger] columns.cell(a, j as int) == cells[a * N + j] by {
                        lemma_join_index(a, j as int, N as int);
                        lemma_cell_index(a, j as int, N as int, N as int);
                    }
                }
            }
        }
        let right: Matrix<T, N, 1> = Matrix::from_vectors(&[*vec], zero);
        let steps = self.rref_steps;
        proof {
            lemma_matrix_cells(steps);
            assert forall|i: int, j: int, s: int| 0 <= i < N && 0 <= j < N && 0 <= s < N implies {
                &&& steps.cell(i, s).mul_req(columns.cell(s, j))
                &&& (#[trigger] cell_product_prefix(steps, columns, i, j, s, zero)).add_req(steps.cell(i, s).mul_spec(columns.cell(s, j)))
            } by {
                assert(steps.cell(i, s).mul_req(columns.cell(s, j)));
                assert(cell_product_prefix(steps, columns, i, j, s, zero).add_req(steps.cell(i, s).mul_spec(columns.cell(s, j))));
            }
            assert forall|i: int, j: int, s: int| 0 <= i < N && 0 <= j < 1 && 0 <= s < N implies {
                &&& steps.cell(i, s).mul_req(right.cell(s, j))
                &&& (#[trigger] cell_product_prefix(steps, right, i, j, s, zero)).add_req(steps.cell(i, s).mul_spec(right.cell(s, j)))
            } by {
                assert(steps.cell(i, s).mul_req(right.cell(s, j)));
                assert(cell_product_prefix(steps, right, i, j, s, zero).add_req(steps.cell(i, s).mul_spec(right.cell(s, j))));
            }
        }
        let rref = steps.product(&columns, zero);
        let rref_right = steps.product(&right, zero);
        proof {
            assert forall|i: int, j: int| 0 <= i < N && 0 <= j < N implies #[trigger] rref.cell(i, j) == reduced_cell(
                steps,
                self.minimal_space@,
                zero,
                i,
                j,
            ) by {
                lemma_product_prefix(steps, columns, matrix_cells(steps), cells, i, j, N as int, zero);
            }
            assert forall|x: int, y: int| 0 <= x < N && 0 <= y < 1 implies #[trigger] right.cell(x, y) == vec.scalars@[x * 1 + y] by {
                assert(x * 1 + y == x);
            }
            assert forall|i: int| 0 <= i < N implies #[trigger] rref_right.cell(i, 0) == reduced_right(steps, *vec, zero, i) by {
                lemma_product_prefix(steps, right, matrix_cells(steps), vec.scalars@, i, 0, N as int, zero);
            }
        }
        assert(self.spec_steps() == steps);
        assert(self.spec_minimal() == self.minimal_space@);
        let mut i = N;
        while i > 0
            invariant
                i <= N,
                self.spec_steps() == steps,
                self.spec_minimal() == self.minimal_space@,
                forall|a: int, b: int| 0 <= a < N && 0 <= b < N ==> #[trigger] rref.cell(a, b) == reduced_cell(
                    steps,
                    self.minimal_space@,
                    zero,
                    a,
                    b,
                ),
                forall|a: int| 0 <= a < N ==> #[trigger] rref_right.cell(a, 0) == reduced_right(steps, *vec, zero, a),
                forall|a: int|
                    i <= a < N ==> !((forall|b: int| 0 <= b < N ==> (#[trigger] reduced_cell(steps, self.minimal_space@, zero, a, b)).near_zero_spec())
                        && !(#[trigger] reduced_right(steps, *vec, zero, a)).near_zero_spec()),
            decreases i,
        {
            i = i - 1;
            let mut is_zero = true;
            for j in 0..N
                invariant
                    i < N,
                    forall|a: int, b: int| 0 <= a < N && 0 <= b < N ==> #[trigger] rref.cell(a, b) == reduced_cell(
                        steps,
                        self.minimal_space@,
                        zero,
                        a,
                        b,
                    ),
                    is_zero == forall|b: int| 0 <= b < j ==> (#[trigger] reduced_cell(steps, self.minimal_space@, zero, i as int, b)).near_zero_spec(),
            {
                if !rref.index((i, j)).is_near_zero() {
                    is_zero = false;
                }
            }
            assert(rref_right.cell(i as int, 0) == reduced_right(steps, *vec, zero, i as int));
            if is_zero && !rref_right.index((i, 0)).is_near_zero() {
                return false;
            }
        }
        true
    }
}

} // verus!
