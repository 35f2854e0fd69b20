//! Matrices whose size is part of their type, their cells in arrays.

use core::ops::{Add, Div, Mul, Neg};
use vstd::prelude::*;
use vstd::std_specs::ops::{AddSpec, DivSpec, MulSpec, NegSpec};
use crate::linear::elimination::{rref_defined, rref_steps, total_arith};
use crate::linear::gauss::{lemma_replay_len, replay_data};
use crate::linear::solver::matrix_cells;
use crate::traits::near_zero::NearZero;
use crate::linear::goggles::{axis_ordered, IntoGoggles};
use crate::linear::heap_matrix::{lemma_cell_index, HeapMatrix};
use crate::linear::product::neutral;
use crate::linear::gauss::lemma_split_index;
use crate::linear::view::{cells_of, dim_of, see_through_parts, MatrixView};
use crate::linear::vector::Vector;
use crate::mem::Living;

verus! {

/// The array `[f(0), f(1), ..., f(N - 1)]` (`core::array::from_fn`): each cell is what a call of
/// `f` on its index gives.
#[verifier::external_body]
pub(crate) fn array_from_fn<T, F: Fn(usize) -> T, const N: usize>(f: F) -> (r: [T; N])
    requires
        forall|i: usize| i < N ==> call_requires(f, (i,)),
    ensures
        forall|i: int| 0 <= i < N ==> call_ensures(f, (i as usize,), #[trigger] r@[i]),
{
    core::array::from_fn(f)
}

/// `N` copies of `value`.
pub(crate) fn filled<T: Copy, const N: usize>(value: T) -> (r: [T; N])
    ensures
        forall|i: int| 0 <= i < N ==> #[trigger] r@[i] == value,
{
    array_from_fn(|_i: usize| -> (c: T)
        ensures
            c == value,
        { value })
}

/// The rows of `data` laid one after the other: `R * C` cells, the cell `(i, j)` at `i * C + j`.
#[verifier::external_body]
fn flatten<T, const R: usize, const C: usize>(data: &[[T; C]; R]) -> (r: &[T])
    requires
        R * C <= usize::MAX,
    ensures
        r@.len() == R * C,
        forall|i: int, j: int| 0 <= i < R && 0 <= j < C ==> #[trigger] r@[i * C + j] == data@[i]@[j],
{
    data.as_flattened()
}

/// The coordinates of each vector of `vectors`, in order.
fn coordinates<T: Copy, const R: usize, const C: usize>(vectors: &[Vector<T, C>; R]) -> (r: [[T; C]; R])
    ensures
        forall|i: int| 0 <= i < R ==> #[trigger] r@[i] == vectors@[i].scalars,
{
    array_from_fn(|i: usize| -> (row: [T; C])
        requires
            i < R,
        ensures
            row == vectors@[i as int].scalars,
        { vectors[i].scalars })
}

/// The largest of the lengths in column `j` of the first `k` rows, `0` when there is none.
pub open spec fn column_max(lengths: Seq<Vec<usize>>, j: int, k: int) -> usize
    decreases k,
{
    if k <= 0 {
        0
    } else {
        let before = column_max(lengths, j, k - 1);
        let here = lengths[k - 1]@[j];
        if here > before {
            here
        } else {
            before
        }
    }
}

/// The width of each of the `cols` columns of a table whose rows hold the lengths of the texts
/// of their cells: the largest length in the column, `0` when there is no row. Each row has
/// `cols` lengths.
pub fn column_widths(lengths: &Vec<Vec<usize>>, cols: usize) -> (r: Vec<usize>)
    requires
        forall|i: int| 0 <= i < lengths@.len() ==> (#[trigger] lengths@[i])@.len() == cols,
    ensures
        r@.len() == cols,
        forall|j: int| 0 <= j < cols ==> #[trigger] r@[j] == column_max(lengths@, j, lengths@.len() as int),
{
    let mut widths: Vec<usize> = Vec::new();
    for j in 0..cols
        invariant
            forall|i: int| 0 <= i < lengths@.len() ==> (#[trigger] lengths@[i])@.len() == cols,
            widths@.len() == j,
            forall|c: int| 0 <= c < j ==> #[trigger] widths@[c] == column_max(lengths@, c, lengths@.len() as int),
    {
        let mut width: usize = 0;
        for i in 0..lengths.len()
            invariant
                j < cols,
                forall|q: int| 0 <= q < lengths@.len() ==> (#[trigger] lengths@[q])@.len() == cols,
                width == column_max(lengths@, j as int, i as int),
        {
            let here = lengths[i][j];
            if here > width {
                width = here;
            }
        }
        widths.push(width);
    }
    widths
}

/// `t` is the transpose of `m`: the cell `(i, j)` of `t` is the cell `(j, i)` of `m`.
pub open spec fn is_transpose<T, const R: usize, const C: usize>(m: Matrix<T, R, C>, t: Matrix<T, C, R>) -> bool {
    forall|i: int, j: int| 0 <= i < C && 0 <= j < R ==> #[trigger] t.cell(i, j) == m.cell(j, i)
}

/// Transposing twice gives the matrix back.
pub proof fn lemma_transpose_twice<T, const R: usize, const C: usize>(
    m: Matrix<T, R, C>,
    t: Matrix<T, C, R>,
    tt: Matrix<T, R, C>,
)
    requires
        is_transpose(m, t),
        is_transpose(t, tt),
    ensures
        forall|i: int, j: int| 0 <= i < R && 0 <= j < C ==> #[trigger] tt.cell(i, j) == m.cell(i, j),
{
    assert forall|i: int, j: int| 0 <= i < R && 0 <= j < C implies #[trigger] tt.cell(i, j) == m.cell(i, j) by {
        assert(tt.cell(i, j) == t.cell(j, i));
    }
}

/// A row-major `R x C` matrix.
#[derive(Clone, Copy, Debug, PartialEq)]
pub struct Matrix<T, const R: usize, const C: usize> {
    pub data: [[T; C]; R],
}

impl<T, const R: usize, const C: usize> Matrix<T, R, C> {
    /// The cell at row `i` and column `j`.
    pub open spec fn cell(self, i: int, j: int) -> T {
        self.data@[i]@[j]
    }

    /// The matrix whose rows are `data`.
    pub fn from_array(data: [[T; C]; R]) -> (r: Self)
        ensures
            r.data == data,
    {
        Self { data }
    }

    /// The cell at row `index.0` and column `index.1`.
    pub fn index(&self, index: (usize, usize)) -> (r: &T)
        requires
            index.0 < R,
            index.1 < C,
        ensures
            *r == self.cell(index.0 as int, index.1 as int),
    {
        &self.data[index.0][index.1]
    }

    /// The view of the whole matrix.
    pub fn as_view(&self) -> (r: MatrixView<'_, T>)
        requires
            R * C <= usize::MAX,
        ensures
            r.row_range() == (0usize, R),
            r.col_range() == (0usize, C),
            r.stride() == C,
            r.storage().len() == R * C,
            forall|i: int, j: int|
                0 <= i < R && 0 <= j < C ==> #[trigger] r.storage()[i * C + j] == self.cell(i, j),
    {
        MatrixView::from_slice(flatten(&self.data), R, C)
    }

    /// The part of the matrix that `goggles` describes.
    pub fn view<G: IntoGoggles>(&self, goggles: G) -> (r: Living<'_, MatrixView<'_, T>, false>)
        requires
            R * C <= usize::MAX,
            goggles.into_goggles_defined(),
            axis_ordered(goggles.goggles_spec().0),
            axis_ordered(goggles.goggles_spec().1),
        ensures
            exists|cells: Seq<T>|
                cells.len() == R * C && (forall|i: int, j: int|
                    0 <= i < R && 0 <= j < C ==> #[trigger] cells[i * C + j] == self.cell(i, j))
                    && see_through_parts(
                    cells,
                    C,
                    dim_of((0usize, R), (0usize, C)),
                    goggles.goggles_spec(),
                    r.inner(),
                ),
    {
        let view = self.as_view();
        view.view(goggles)
    }
}

impl<T: Copy, const R: usize, const C: usize> Matrix<T, R, C> {
    /// The matrix whose every cell is `zero`.
    pub fn zero(zero: T) -> (r: Self)
        ensures
            forall|i: int, j: int| 0 <= i < R && 0 <= j < C ==> #[trigger] r.cell(i, j) == zero,
    {
        let row: [T; C] = filled(zero);
        let data: [[T; C]; R] = filled(row);
        Self { data }
    }

    /// Writes `value` in the cell at row `index.0` and column `index.1`.
    pub fn set(&mut self, index: (usize, usize), value: T)
        requires
            index.0 < R,
            index.1 < C,
        ensures
            forall|i: int, j: int|
                0 <= i < R && 0 <= j < C ==> #[trigger] final(self).cell(i, j) == if i == index.0
                    && j == index.1 {
                    value
                } else {
                    old(self).cell(i, j)
                },
    {
        let mut row = self.data[index.0];
        row[index.1] = value;
        self.data[index.0] = row;
    }

    /// Replaces row `row` by `values`: `true` when the row exists, `false` (and nothing changes)
    /// otherwise.
    pub fn set_row(&mut self, row: usize, values: &[T; C]) -> (r: bool)
        ensures
            r == (row < R),
            r ==> final(self).data@ == old(self).data@.update(row as int, *values),
            !r ==> final(self).data == old(self).data,
    {
        if row < R {
            self.data[row] = *values;
            true
        } else {
            false
        }
    }

    /// Copies the cells into a heap matrix of the same size.
    pub fn into_heap(self) -> (r: HeapMatrix<T>)
        requires
            R * C <= usize::MAX,
        ensures
            r.rows == R,
            r.cols == C,
            r.data@.len() == R * C,
            forall|i: int, j: int| 0 <= i < R && 0 <= j < C ==> #[trigger] r.cell(i, j) == self.cell(i, j),
    {
        let mut data: Vec<T> = Vec::new();
        proof {
            assert(0 * C == 0) by (nonlinear_arith);
        }
        for i in 0..R
            invariant
                data@.len() == i * C,
                forall|a: int, b: int|
                    0 <= a < i && 0 <= b < C ==> #[trigger] data@[a * C + b] == self.cell(a, b),
        {
            for j in 0..C
                invariant
                    i < R,
                    data@.len() == i * C + j,
                    forall|a: int, b: int|
                        0 <= a < i && 0 <= b < C ==> #[trigger] data@[a * C + b] == self.cell(a, b),
                    forall|b: int| 0 <= b < j ==> #[trigger] data@[i * C + b] == self.cell(i as int, b),
            {
                let ghost prev = data@;
                data.push(self.data[i][j]);
                proof {
                    assert forall|a: int, b: int| 0 <= a < i && 0 <= b < C implies #[trigger] data@[a * C + b] == self.cell(a, b) by {
                        lemma_cell_index(a, b, i as int, C as int);
                        assert(data@[a * C + b] == prev[a * C + b]);
                    }
                }
            }
            proof {
                assert((i + 1) * C == i * C + C) by (nonlinear_arith);
                assert forall|a: int, b: int| 0 <= a < i + 1 && 0 <= b < C implies #[trigger] data@[a * C + b] == self.cell(a, b) by {
                    if a == i {
                    }
                }
            }
        }
        HeapMatrix::new(data, R, C)
    }

    /// The transposed matrix: the cell at `(i, j)` moves to `(j, i)`. `zero` fills the result
    /// before its cells are written.
    pub fn transpose(&self, zero: T) -> (r: Matrix<T, C, R>)
        ensures
            is_transpose(*self, r),
    {
        let mut out: Matrix<T, C, R> = Matrix::zero(zero);
        for i in 0..R
            invariant
                forall|a: int, b: int|
                    0 <= a < C && 0 <= b < i ==> #[trigger] out.cell(a, b) == self.cell(b, a),
        {
            for j in 0..C
                invariant
                    i < R,
                    forall|a: int, b: int|
                        0 <= a < C && 0 <= b < i ==> #[trigger] out.cell(a, b) == self.cell(b, a),
                    forall|a: int| 0 <= a < j ==> #[trigger] out.cell(a, i as int) == self.cell(i as int, a),
            {
                out.set((j, i), self.data[i][j]);
            }
        }
        out
    }
}

impl<T: Copy, const R: usize, const C: usize> Matrix<T, R, C> {
    /// The matrix whose rows are the first `C` values of each of the `R` rows of `rows`; the
    /// values past the first `C` of a row are ignored. There must be exactly `R` rows, at least
    /// one, each with at least `C` values, and none when `C` is zero. `zero` fills the matrix
    /// before its cells are written.
    pub fn from_rows(rows: &Vec<Vec<T>>, zero: T) -> (r: Self)
        requires
            rows@.len() == R,
            R > 0,
            forall|i: int|
                0 <= i < R ==> (#[trigger] rows@[i])@.len() >= C && (C == 0 ==> rows@[i]@.len() == 0),
        ensures
            forall|i: int, j: int| 0 <= i < R && 0 <= j < C ==> #[trigger] r.cell(i, j) == rows@[i]@[j],
    {
        let mut out = Self::zero(zero);
        for i in 0..R
            invariant
                rows@.len() == R,
                forall|a: int| 0 <= a < R ==> (#[trigger] rows@[a])@.len() >= C,
                forall|a: int, b: int|
                    0 <= a < i && 0 <= b < C ==> #[trigger] out.cell(a, b) == rows@[a]@[b],
        {
            let row = &rows[i];
            for j in 0..C
                invariant
                    i < R,
                    rows@.len() == R,
                    *row == rows@[i as int],
                    row@.len() >= C,
                    forall|a: int, b: int|
                        0 <= a < R && 0 <= b < C && (a < i || (a == i && b < j)) ==> #[trigger] out.cell(a, b)
                            == rows@[a]@[b],
            {
                out.set((i, j), row[j]);
            }
        }
        out
    }

    /// The matrix holding the cells of `value` when it has `R` rows and `C` columns and its
    /// cells split into rows of `C`; `value` back otherwise. When `value` has `R` rows and `C`
    /// columns, `C` must not be zero, and cells that split into rows of `C` must make exactly `R`
    /// rows. `zero` fills the matrix before its cells are written.
    pub fn try_from_heap(value: HeapMatrix<T>, zero: T) -> (r: Result<Self, HeapMatrix<T>>)
        requires
            dim_of((0usize, value.rows), (0usize, value.cols)) == (R, C) ==> {
                &&& C > 0
                &&& (value.data@.len() as int) % (C as int) != 0 || value.data@.len() == R * C
            },
        ensures
            dim_of((0usize, value.rows), (0usize, value.cols)) == (R, C) && (value.data@.len() as int) % (C as int)
                == 0 ==> (r matches Ok(m) && forall|i: int, j: int|
                0 <= i < R && 0 <= j < C ==> #[trigger] m.cell(i, j) == value.data@[i * C + j]),
            !(dim_of((0usize, value.rows), (0usize, value.cols)) == (R, C) && (value.data@.len() as int) % (C as int)
                == 0) ==> r == Err::<Self, HeapMatrix<T>>(value),
    {
        let dims = if value.rows == 0 || value.cols == 0 {
            (0, 0)
        } else {
            (value.rows, value.cols)
        };
        if dims.0 != R || dims.1 != C {
            return Err(value);
        }
        let len = value.data.len();
        if len % C != 0 {
            return Err(value);
        }
        let mut out = Self::zero(zero);
        for i in 0..R
            invariant
                value.data@.len() == R * C,
                len == R * C,
                C > 0,
                forall|a: int, b: int|
                    0 <= a < i && 0 <= b < C ==> #[trigger] out.cell(a, b) == value.data@[a * C + b],
        {
            for j in 0..C
                invariant
                    i < R,
                    value.data@.len() == R * C,
                    len == R * C,
                    forall|a: int, b: int|
                        0 <= a < R && 0 <= b < C && (a < i || (a == i && b < j)) ==> #[trigger] out.cell(a, b)
                            == value.data@[a * C + b],
            {
                proof {
                    lemma_cell_index(i as int, j as int, R as int, C as int);
                }
                out.set((i, j), value.data[i * C + j]);
            }
        }
        Ok(out)
    }
}

impl<T: Copy, const R: usize, const C: usize> Matrix<T, R, C> {
    /// The matrix whose rows are the vectors `vectors`, in order.
    pub fn from_row_vectors(vectors: &[Vector<T, C>; R]) -> (r: Self)
        ensures
            forall|i: int, j: int| 0 <= i < R && 0 <= j < C ==> #[trigger] r.cell(i, j) == vectors@[i].scalars@[j],
    {
        Self { data: coordinates(vectors) }
    }

    /// The matrix whose columns are the vectors `vectors`, in order: the transpose of
    /// [`Matrix::from_row_vectors`]. `zero` fills the matrix before its cells are written.
    pub fn from_vectors(vectors: &[Vector<T, R>; C], zero: T) -> (r: Self)
        ensures
            forall|i: int, j: int| 0 <= i < R && 0 <= j < C ==> #[trigger] r.cell(i, j) == vectors@[j].scalars@[i],
    {
        let rows: Matrix<T, C, R> = Matrix::from_row_vectors(vectors);
        let r = rows.transpose(zero);
        proof {
            assert forall|i: int, j: int| 0 <= i < R && 0 <= j < C implies #[trigger] r.cell(i, j) == vectors@[j].scalars@[i] by {
                assert(r.cell(i, j) == rows.cell(j, i));
            }
        }
        r
    }
}

impl<T: Copy, const R: usize, const C: usize> Matrix<T, R, C> {
    /// The matrix of the cells of the `R x C` view `matrix`. `zero` fills the matrix before its
    /// cells are written.
    pub fn from_matrix(matrix: &MatrixView<'_, T>, zero: T) -> (r: Self)
        requires
            matrix.spec_dim() == (R, C),
        ensures
            forall|i: int, j: int| 0 <= i < R && 0 <= j < C ==> #[trigger] r.cell(i, j) == matrix.cell(
                (i as usize, j as usize),
            ),
    {
        match matrix.to_matrix(zero) {
            Some(m) => m,
            None => {
                proof {
                    assert(false);
                }
                Matrix::zero(zero)
            },
        }
    }
}

/// A matrix turned into a heap matrix and back is the same matrix: `h` is what
/// [`Matrix::into_heap`] gives of `m`, `view` the view of the whole of `h`, and `back` what
/// [`Matrix::from_matrix`] gives of `view`.
pub proof fn lemma_matrix_heap_round_trip<'a, T, const R: usize, const C: usize>(
    m: Matrix<T, R, C>,
    h: HeapMatrix<T>,
    view: MatrixView<'a, T>,
    back: Matrix<T, R, C>,
)
    requires
        h.rows == R,
        h.cols == C,
        forall|i: int, j: int| 0 <= i < R && 0 <= j < C ==> #[trigger] h.cell(i, j) == m.cell(i, j),
        view.storage() == h.data@,
        view.row_range() == (0usize, h.rows),
        view.col_range() == (0usize, h.cols),
        view.stride() == h.cols,
        forall|i: int, j: int| 0 <= i < R && 0 <= j < C ==> #[trigger] back.cell(i, j) == view.cell(
            (i as usize, j as usize),
        ),
    ensures
        back == m,
{
    assert forall|i: int| 0 <= i < R implies #[trigger] back.data@[i] == m.data@[i] by {
        assert forall|j: int| 0 <= j < C implies #[trigger] back.data@[i]@[j] == m.data@[i]@[j] by {
            assert(back.cell(i, j) == view.cell((i as usize, j as usize)));
            assert(h.cell(i, j) == m.cell(i, j));
        }
        assert(back.data@[i] =~= m.data@[i]);
    }
    assert(back.data =~= m.data);
}

/// The heap matrix of the matrix read from an `R x C` view holds the cells of that view: `back`
/// is what [`Matrix::from_matrix`] gives of `view`, and `h` what [`Matrix::into_heap`] gives of
/// `back`.
pub proof fn lemma_heap_matrix_round_trip<'a, T, const R: usize, const C: usize>(
    view: MatrixView<'a, T>,
    back: Matrix<T, R, C>,
    h: HeapMatrix<T>,
)
    requires
        view.spec_dim() == (R, C),
        forall|i: int, j: int| 0 <= i < R && 0 <= j < C ==> #[trigger] back.cell(i, j) == view.cell(
            (i as usize, j as usize),
        ),
        h.rows == R,
        h.cols == C,
        h.data@.len() == R * C,
        forall|i: int, j: int| 0 <= i < R && 0 <= j < C ==> #[trigger] h.cell(i, j) == back.cell(i, j),
    ensures
        h.rows == view.spec_dim().0,
        h.cols == view.spec_dim().1,
        h.data@ == cells_of(view),
{
    assert forall|x: int| 0 <= x < R * C implies #[trigger] h.data@[x] == cells_of(view)[x] by {
        lemma_split_index(x, R as int, C as int);
        let i = x / (C as int);
        let j = x % (C as int);
        assert(h.cell(i, j) == back.cell(i, j));
    }
    assert(h.data@ =~= cells_of(view));
}

impl<'a, T: Copy> MatrixView<'a, T> {
    /// The cells of the view in an `R x C` matrix, `None` when the view is not `R x C`. `zero`
    /// fills the matrix before its cells are written.
    pub fn to_matrix<const R: usize, const C: usize>(&self, zero: T) -> (r: Option<Matrix<T, R, C>>)
        ensures
            self.spec_dim() == (R, C) ==> (r matches Some(m) && forall|i: int, j: int|
                0 <= i < R && 0 <= j < C ==> #[trigger] m.cell(i, j) == self.cell((i as usize, j as usize))),
            self.spec_dim() != (R, C) ==> r is None,
    {
        let (rows, cols) = self.dim();
        if rows != R || cols != C {
            return None;
        }
        let mut out: Matrix<T, R, C> = Matrix::zero(zero);
        for i in 0..R
            invariant
                self.spec_dim() == (R, C),
                forall|a: int, b: int|
                    0 <= a < i && 0 <= b < C ==> #[trigger] out.cell(a, b) == self.cell((a as usize, b as usize)),
        {
            for j in 0..C
                invariant
                    i < R,
                    self.spec_dim() == (R, C),
                    forall|a: int, b: int|
                        0 <= a < R && 0 <= b < C && (a < i || (a == i && b < j)) ==> #[trigger] out.cell(a, b)
                            == self.cell((a as usize, b as usize)),
            {
                let v = match self.get((i, j)) {
                    Some(v) => *v,
                    None => {
                        proof {
                            assert(false);
                        }
                        zero
                    },
                };
                out.set((i, j), v);
            }
        }
        Some(out)
    }

    /// The columns of the view as vectors; the view must have `N` rows. `zero` fills each vector
    /// before its coordinates are written.
    pub fn to_vectors<const N: usize>(&self, zero: T) -> (r: Vec<Vector<T, N>>)
        requires
            self.spec_dim().0 == N,
        ensures
            r@.len() == self.spec_dim().1,
            forall|i: int, j: int|
                0 <= i < r@.len() && 0 <= j < N ==> #[trigger] r@[i].scalars@[j] == self.cell(
                    (j as usize, i as usize),
                ),
    {
        let (rows, cols) = self.dim();
        let mut vectors: Vec<Vector<T, N>> = Vec::new();
        for i in 0..cols
            invariant
                (rows, cols) == self.spec_dim(),
                rows == N,
                vectors@.len() == i,
                forall|a: int, b: int|
                    0 <= a < i && 0 <= b < N ==> #[trigger] vectors@[a].scalars@[b] == self.cell(
                        (b as usize, a as usize),
                    ),
        {
            let mut scalars: [T; N] = filled(zero);
            for j in 0..N
                invariant
                    (rows, cols) == self.spec_dim(),
                    rows == N,
                    i < cols,
                    forall|b: int| 0 <= b < j ==> #[trigger] scalars@[b] == self.cell((b as usize, i)),
            {
                let v = match self.get((j, i)) {
                    Some(v) => *v,
                    None => {
                        proof {
                            assert(false);
                        }
                        zero
                    },
                };
                scalars[j] = v;
            }
            vectors.push(Vector::new(scalars));
        }
        vectors
    }

    /// The rows of the view as vectors: the columns of its transpose. The view must have `N`
    /// columns.
    pub fn to_row_vectors<const N: usize>(&self, zero: T) -> (r: Vec<Vector<T, N>>)
        requires
            self.spec_dim().1 == N,
        ensures
            r@.len() == self.spec_dim().0,
            forall|i: int, j: int|
                0 <= i < r@.len() && 0 <= j < N ==> #[trigger] r@[i].scalars@[j] == self.cell(
                    (i as usize, j as usize),
                ),
    {
        let t = self.transpose();
        let view = t.as_view();
        let r = view.to_vectors(zero);
        proof {
            assert forall|i: int, j: int| 0 <= i < r@.len() && 0 <= j < N implies #[trigger] r@[i].scalars@[j] == self.cell((i as usize, j as usize)) by {
                lemma_cell_index(j, i, N as int, t.cols as int);
                assert(view.cell((j as usize, i as usize)) == t.cell(j, i));
            }
        }
        r
    }
}

impl<T: Copy, const N: usize> Matrix<T, N, N> {
    /// The `N x N` identity matrix: `one` on the diagonal, `zero` elsewhere.
    pub fn identity(zero: T, one: T) -> (r: Self)
        ensures
            is_identity_matrix(r, zero, one),
    {
        let mut m = Self::zero(zero);
        for k in 0..N
            invariant
                forall|i: int, j: int|
                    0 <= i < N && 0 <= j < N ==> #[trigger] m.cell(i, j) == if i == j && i < k {
                        one
                    } else {
                        zero
                    },
        {
            m.set((k, k), one);
        }
        m
    }
}

impl<T: Copy + Add<Output = T>, const R: usize, const C: usize> Matrix<T, R, C> {
    /// The sum `self + rhs`, cell by cell.
    pub fn sum(&self, rhs: &Self) -> (r: Self)
        requires
            T::obeys_add_spec(),
            forall|i: int, j: int|
                0 <= i < R && 0 <= j < C ==> (#[trigger] self.cell(i, j)).add_req(rhs.cell(i, j)),
        ensures
            forall|i: int, j: int|
                0 <= i < R && 0 <= j < C ==> #[trigger] r.cell(i, j) == self.cell(i, j).add_spec(
                    rhs.cell(i, j),
                ),
    {
        let mut out = *self;
        for i in 0..R
            invariant
                T::obeys_add_spec(),
                forall|a: int, b: int|
                    0 <= a < R && 0 <= b < C ==> (#[trigger] self.cell(a, b)).add_req(rhs.cell(a, b)),
                forall|a: int, b: int|
                    0 <= a < R && 0 <= b < C ==> #[trigger] out.cell(a, b) == if a < i {
                        self.cell(a, b).add_spec(rhs.cell(a, b))
                    } else {
                        self.cell(a, b)
                    },
        {
            for j in 0..C
                invariant
                    i < R,
                    T::obeys_add_spec(),
                    forall|a: int, b: int|
                        0 <= a < R && 0 <= b < C ==> (#[trigger] self.cell(a, b)).add_req(rhs.cell(a, b)),
                    forall|a: int, b: int|
                        0 <= a < R && 0 <= b < C ==> #[trigger] out.cell(a, b) == if a < i || (a == i
                            && b < j) {
                            self.cell(a, b).add_spec(rhs.cell(a, b))
                        } else {
                            self.cell(a, b)
                        },
            {
                proof {
                    assert(self.cell(i as int, j as int).add_req(rhs.cell(i as int, j as int)));
                }
                let v = self.data[i][j] + rhs.data[i][j];
                out.set((i, j), v);
            }
        }
        out
    }
}

/// `zero + lhs(i, 0) * rhs(0, j) + ... + lhs(i, k - 1) * rhs(k - 1, j)`, summed left to right.
pub open spec fn cell_product_prefix<T: Add<Output = T> + Mul<Output = T>, const R: usize, const S: usize, const C: usize>(
    lhs: Matrix<T, R, S>,
    rhs: Matrix<T, S, C>,
    i: int,
    j: int,
    k: int,
    zero: T,
) -> T
    decreases k,
{
    if k <= 0 {
        zero
    } else {
        cell_product_prefix(lhs, rhs, i, j, k - 1, zero).add_spec(lhs.cell(i, k - 1).mul_spec(rhs.cell(k - 1, j)))
    }
}

/// Every product and partial sum of the cells of `lhs * rhs` can be computed.
pub open spec fn matrix_product_ok<T: Add<Output = T> + Mul<Output = T>, const R: usize, const S: usize, const C: usize>(
    lhs: Matrix<T, R, S>,
    rhs: Matrix<T, S, C>,
    zero: T,
) -> bool {
    forall|i: int, j: int, k: int|
        0 <= i < R && 0 <= j < C && 0 <= k < S ==> {
            &&& lhs.cell(i, k).mul_req(rhs.cell(k, j))
            &&& (#[trigger] cell_product_prefix(lhs, rhs, i, j, k, zero)).add_req(
                lhs.cell(i, k).mul_spec(rhs.cell(k, j)),
            )
        }
}

/// `lhs(i, 0) * v[0] + (lhs(i, 1) * v[1] + ... (lhs(i, k - 1) * v[k - 1] + zero))`: the
/// products of the first `k` cells of row `i` by the coordinates of `v`, each added to the sum of
/// the ones before.
pub open spec fn row_vector_prefix<T: Add<Output = T> + Mul<Output = T>, const R: usize, const C: usize>(
    lhs: Matrix<T, R, C>,
    v: Seq<T>,
    i: int,
    k: int,
    zero: T,
) -> T
    decreases k,
{
    if k <= 0 {
        zero
    } else {
        lhs.cell(i, k - 1).mul_spec(v[k - 1]).add_spec(row_vector_prefix(lhs, v, i, k - 1, zero))
    }
}

/// `m` is the identity: `one` on the diagonal, `zero` elsewhere.
pub open spec fn is_identity_matrix<T, const N: usize>(m: Matrix<T, N, N>, zero: T, one: T) -> bool {
    forall|i: int, j: int| 0 <= i < N && 0 <= j < N ==> #[trigger] m.cell(i, j) == if i == j {
        one
    } else {
        zero
    }
}

/// The first `k` terms of a cell of `A * I` sum to `A(i, j)` once `j < k`, to `zero` before.
proof fn lemma_cell_identity_right<T: Add<Output = T> + Mul<Output = T>, const R: usize, const N: usize>(
    a: Matrix<T, R, N>,
    id: Matrix<T, N, N>,
    i: int,
    j: int,
    k: int,
    zero: T,
    one: T,
)
    requires
        neutral(zero, one),
        is_identity_matrix(id, zero, one),
        0 <= j < N,
        0 <= k <= N,
    ensures
        cell_product_prefix(a, id, i, j, k, zero) == if j < k { a.cell(i, j) } else { zero },
    decreases k,
{
    if k > 0 {
        lemma_cell_identity_right(a, id, i, j, k - 1, zero, one);
        let x = a.cell(i, k - 1);
        assert(id.cell(k - 1, j) == if k - 1 == j { one } else { zero });
        assert(x.mul_spec(one) == x);
        assert(x.mul_spec(zero) == zero);
        let prev = cell_product_prefix(a, id, i, j, k - 1, zero);
        assert(prev.add_spec(zero) == prev);
        assert(zero.add_spec(x) == x);
    }
}

/// The first `k` terms of a cell of `I * B` sum to `B(i, j)` once `i < k`, to `zero` before.
proof fn lemma_cell_identity_left<T: Add<Output = T> + Mul<Output = T>, const N: usize, const C: usize>(
    id: Matrix<T, N, N>,
    b: Matrix<T, N, C>,
    i: int,
    j: int,
    k: int,
    zero: T,
    one: T,
)
    requires
        neutral(zero, one),
        is_identity_matrix(id, zero, one),
        0 <= i < N,
        0 <= k <= N,
    ensures
        cell_product_prefix(id, b, i, j, k, zero) == if i < k { b.cell(i, j) } else { zero },
    decreases k,
{
    if k > 0 {
        lemma_cell_identity_left(id, b, i, j, k - 1, zero, one);
        let y = b.cell(k - 1, j);
        assert(id.cell(i, k - 1) == if i == k - 1 { one } else { zero });
        assert(one.mul_spec(y) == y);
        assert(zero.mul_spec(y) == zero);
        let prev = cell_product_prefix(id, b, i, j, k - 1, zero);
        assert(prev.add_spec(zero) == prev);
        assert(zero.add_spec(y) == y);
    }
}

/// `A * I = A` and `I * A = A`, when `zero` and `one` are neutral.
pub proof fn lemma_matrix_product_identity<T: Add<Output = T> + Mul<Output = T>, const N: usize>(
    a: Matrix<T, N, N>,
    id: Matrix<T, N, N>,
    zero: T,
    one: T,
)
    requires
        neutral(zero, one),
        is_identity_matrix(id, zero, one),
    ensures
        forall|i: int, j: int|
            0 <= i < N && 0 <= j < N ==> #[trigger] cell_product_prefix(a, id, i, j, N as int, zero) == a.cell(i, j),
        forall|i: int, j: int|
            0 <= i < N && 0 <= j < N ==> #[trigger] cell_product_prefix(id, a, i, j, N as int, zero) == a.cell(i, j),
{
    assert forall|i: int, j: int| 0 <= i < N && 0 <= j < N implies #[trigger] cell_product_prefix(a, id, i, j, N as int, zero) == a.cell(i, j) by {
        lemma_cell_identity_right(a, id, i, j, N as int, zero, one);
    }
    assert forall|i: int, j: int| 0 <= i < N && 0 <= j < N implies #[trigger] cell_product_prefix(id, a, i, j, N as int, zero) == a.cell(i, j) by {
        lemma_cell_identity_left(id, a, i, j, N as int, zero, one);
    }
}

impl<T: Copy + Add<Output = T> + Mul<Output = T>, const R: usize, const S: usize> Matrix<T, R, S> {
    /// The product `self * rhs`: the cell `(i, j)` is the sum, from `zero`, of the products of
    /// row `i` of `self` by column `j` of `rhs`.
    pub fn product<const C: usize>(&self, rhs: &Matrix<T, S, C>, zero: T) -> (r: Matrix<T, R, C>)
        requires
            T::obeys_add_spec(),
            T::obeys_mul_spec(),
            matrix_product_ok(*self, *rhs, zero),
        ensures
            forall|i: int, j: int|
                0 <= i < R && 0 <= j < C ==> #[trigger] r.cell(i, j) == cell_product_prefix(
                    *self,
                    *rhs,
                    i,
                    j,
                    S as int,
                    zero,
                ),
    {
        let mut out: Matrix<T, R, C> = Matrix::zero(zero);
        for i in 0..R
            invariant
                T::obeys_add_spec(),
                T::obeys_mul_spec(),
                matrix_product_ok(*self, *rhs, zero),
                forall|a: int, b: int|
                    0 <= a < i && 0 <= b < C ==> #[trigger] out.cell(a, b) == cell_product_prefix(
                        *self,
                        *rhs,
                        a,
                        b,
                        S as int,
                        zero,
                    ),
        {
            for j in 0..C
                invariant
                    i < R,
                    T::obeys_add_spec(),
                    T::obeys_mul_spec(),
                    matrix_product_ok(*self, *rhs, zero),
                    forall|a: int, b: int|
                        0 <= a < R && 0 <= b < C && (a < i || (a == i && b < j)) ==> #[trigger] out.cell(a, b)
                            == cell_product_prefix(*self, *rhs, a, b, S as int, zero),
            {
                let mut acc = zero;
                for k in 0..S
                    invariant
                        i < R,
                        j < C,
                        T::obeys_add_spec(),
                        T::obeys_mul_spec(),
                        matrix_product_ok(*self, *rhs, zero),
                        acc == cell_product_prefix(*self, *rhs, i as int, j as int, k as int, zero),
                {
                    proof {
                        assert(cell_product_prefix(*self, *rhs, i as int, j as int, k as int, zero).add_req(
                            self.cell(i as int, k as int).mul_spec(rhs.cell(k as int, j as int)),
                        ));
                    }
                    let p = self.data[i][k] * rhs.data[k][j];
                    acc = acc + p;
                }
                out.set((i, j), acc);
            }
        }
        out
    }
}

/// Every product and sum of `lhs * v` can be computed.
pub open spec fn mul_vector_ok<T: Add<Output = T> + Mul<Output = T>, const R: usize, const C: usize>(
    lhs: Matrix<T, R, C>,
    v: Seq<T>,
    zero: T,
) -> bool {
    forall|i: int, k: int|
        0 <= i < R && 0 <= k < C ==> {
            &&& lhs.cell(i, k).mul_req(v[k])
            &&& lhs.cell(i, k).mul_spec(v[k]).add_req(#[trigger] row_vector_prefix(lhs, v, i, k, zero))
        }
}

impl<T: Copy + Add<Output = T> + Mul<Output = T>, const R: usize, const C: usize> Matrix<T, R, C> {
    /// The product of the matrix by the column vector `rhs`: coordinate `i` is the sum, from
    /// `zero`, of the products of row `i` by the coordinates of `rhs`, each product added to the
    /// sum of the ones before.
    pub fn mul_vector(&self, rhs: &Vector<T, C>, zero: T) -> (r: Vector<T, R>)
        requires
            T::obeys_add_spec(),
            T::obeys_mul_spec(),
            mul_vector_ok(*self, rhs.scalars@, zero),
        ensures
            forall|i: int| 0 <= i < R ==> #[trigger] r.scalars@[i] == row_vector_prefix(*self, rhs.scalars@, i, C as int, zero),
    {
        let mut res: [T; R] = filled(zero);
        for i in 0..R
            invariant
                T::obeys_add_spec(),
                T::obeys_mul_spec(),
                mul_vector_ok(*self, rhs.scalars@, zero),
                forall|a: int| 0 <= a < i ==> #[trigger] res@[a] == row_vector_prefix(*self, rhs.scalars@, a, C as int, zero),
        {
            let mut acc = zero;
            for k in 0..C
                invariant
                    i < R,
                    T::obeys_add_spec(),
                    T::obeys_mul_spec(),
                    mul_vector_ok(*self, rhs.scalars@, zero),
                    acc == row_vector_prefix(*self, rhs.scalars@, i as int, k as int, zero),
            {
                proof {
                    assert(self.cell(i as int, k as int).mul_spec(rhs.scalars@[k as int]).add_req(
                        row_vector_prefix(*self, rhs.scalars@, i as int, k as int, zero),
                    ));
                }
                let p = self.data[i][k] * rhs.scalars[k];
                acc = p + acc;
            }
            res[i] = acc;
        }
        Vector::new(res)
    }
}

/// Computes the reduced row echelon form of a pair of matrices with `R` rows, the row operations
/// done on the first one being replayed on the second one.
pub trait DoubleRREF<T: Copy + NearZero + Add<Output = T> + Mul<Output = T> + Div<Output = T> + Neg<Output = T>, const R: usize, const A: usize, const B: usize> {
    /// The cells of the first matrix, row after row.
    spec fn first_cells(&self) -> Seq<T>;

    /// The cells of the second matrix, row after row.
    spec fn second_cells(&self) -> Seq<T>;

    /// Brings the first matrix to its reduced row echelon form and does the same row operations
    /// on the second one; `false` when the reduction finds a row without pivot, the second matrix
    /// being then unchanged.
    fn rref_mut(&mut self, one: T) -> (done: bool)
        requires
            R * A <= usize::MAX,
            R * B <= usize::MAX,
            T::obeys_add_spec(),
            T::obeys_mul_spec(),
            T::obeys_div_spec(),
            T::obeys_neg_spec(),
            total_arith::<T>(),
        ensures
            done == rref_defined(old(self).first_cells(), R as int, A as int, one),
            final(self).first_cells() == replay_data(
                old(self).first_cells(),
                R as int,
                A as int,
                rref_steps(old(self).first_cells(), R as int, A as int, one),
            ),
            done ==> final(self).second_cells() == replay_data(
                old(self).second_cells(),
                R as int,
                B as int,
                rref_steps(old(self).first_cells(), R as int, A as int, one),
            ),
            !done ==> final(self).second_cells() == old(self).second_cells(),
    ;
}

/// The cells of `m`, row after row, are the cells of `h`.
fn heap_cells<T: Copy, const R: usize, const C: usize>(m: Matrix<T, R, C>) -> (h: HeapMatrix<T>)
    requires
        R * C <= usize::MAX,
    ensures
        h.rows == R,
        h.cols == C,
        h.holds_cells(),
        h.data@ == matrix_cells(m),
{
    let h = m.into_heap();
    proof {
        if C > 0 {
            assert forall|x: int| 0 <= x < R * C implies #[trigger] h.data@[x] == matrix_cells(m)[x] by {
                lemma_split_index(x, R as int, C as int);
                assert(h.cell(x / (C as int), x % (C as int)) == h.data@[x]);
            }
        } else {
            assert(R * C == 0) by (nonlinear_arith)
                requires
                    C == 0,
            ;
        }
        assert(h.data@ =~= matrix_cells(m));
    }
    h
}

/// Writes the cells of `h`, row after row, into `m`.
fn write_cells<T: Copy, const R: usize, const C: usize>(m: &mut Matrix<T, R, C>, h: &HeapMatrix<T>)
    requires
        h.rows == R,
        h.cols == C,
        h.data@.len() == R * C,
    ensures
        matrix_cells(*final(m)) == h.data@,
{
    for i in 0..R
        invariant
            h.rows == R,
            h.cols == C,
            h.data@.len() == R * C,
            forall|a: int, b: int| 0 <= a < i && 0 <= b < C ==> #[trigger] m.cell(a, b) == h.cell(a, b),
    {
        for j in 0..C
            invariant
                i < R,
                h.rows == R,
                h.cols == C,
                h.data@.len() == R * C,
                forall|a: int, b: int| 0 <= a < i && 0 <= b < C ==> #[trigger] m.cell(a, b) == h.cell(a, b),
                forall|b: int| 0 <= b < j ==> #[trigger] m.cell(i as int, b) == h.cell(i as int, b),
        {
            proof {
                lemma_cell_index(i as int, j as int, R as int, C as int);
            }
            let v = *h.index((i, j));
            m.set((i, j), v);
        }
    }
    proof {
        if C > 0 {
            assert forall|x: int| 0 <= x < R * C implies #[trigger] matrix_cells(*m)[x] == h.data@[x] by {
                lemma_split_index(x, R as int, C as int);
                assert(m.cell(x / (C as int), x % (C as int)) == h.cell(x / (C as int), x % (C as int)));
            }
        } else {
            assert(R * C == 0) by (nonlinear_arith)
                requires
                    C == 0,
            ;
        }
        assert(matrix_cells(*m) =~= h.data@);
    }
}

impl<T: Copy + NearZero + Add<Output = T> + Mul<Output = T> + Div<Output = T> + Neg<Output = T>, const R: usize, const A: usize, const B: usize> DoubleRREF<
    T,
    R,
    A,
    B,
> for (Matrix<T, R, A>, Matrix<T, R, B>) {
    open spec fn first_cells(&self) -> Seq<T> {
        matrix_cells(self.0)
    }

    open spec fn second_cells(&self) -> Seq<T> {
        matrix_cells(self.1)
    }

    fn rref_mut(&mut self, one: T) -> (done: bool) {
        let mut left = heap_cells(self.0);
        let mut right = heap_cells(self.1);
        let done = left.rref_mut_with_right(&mut right, one);
        proof {
            let steps = rref_steps(matrix_cells(self.0), R as int, A as int, one);
            lemma_replay_len(matrix_cells(self.0), R as int, A as int, steps);
            lemma_replay_len(matrix_cells(self.1), R as int, B as int, steps);
        }
        write_cells(&mut self.0, &left);
        write_cells(&mut self.1, &right);
        done
    }
}

} // verus!
