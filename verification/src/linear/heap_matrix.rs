//! Matrices whose size is known at run time, their cells on the heap.

use vstd::prelude::*;
use vstd::std_specs::cmp::{PartialEqSpec, PartialEqSpecImpl};
use crate::linear::goggles::{axis_ordered, IntoGoggles};
use crate::linear::view::{dim_of, same_cells, see_through_parts, MatrixView};
use crate::mem::Living;

verus! {

/// A `rows x cols` matrix whose cells are stored row after row in `data`.
#[derive(Clone, Debug)]
pub struct HeapMatrix<T> {
    pub data: Vec<T>,
    pub rows: usize,
    pub cols: usize,
}

impl<T> HeapMatrix<T> {
    /// `data` holds at least the `rows * cols` cells.
    pub open spec fn holds_cells(self) -> bool {
        self.rows * self.cols <= self.data@.len()
    }

    /// The cell at row `i` and column `j`.
    pub open spec fn cell(self, i: int, j: int) -> T {
        self.data@[i * self.cols + j]
    }

    /// The matrix with no cell.
    pub fn empty() -> (r: Self)
        ensures
            r.data@ == Seq::<T>::empty(),
            r.rows == 0,
            r.cols == 0,
    {
        Self { data: Vec::new(), rows: 0, cols: 0 }
    }

    /// The `rows x cols` matrix whose cells, row after row, are `data`.
    pub fn new(data: Vec<T>, rows: usize, cols: usize) -> (r: Self)
        ensures
            r.data == data,
            r.rows == rows,
            r.cols == cols,
    {
        Self { data, rows, cols }
    }

    /// The view of the whole matrix.
    pub fn as_view(&self) -> (r: MatrixView<'_, T>)
        requires
            self.holds_cells(),
        ensures
            r.storage() == self.data@,
            r.row_range() == (0usize, self.rows),
            r.col_range() == (0usize, self.cols),
            r.stride() == self.cols,
    {
        MatrixView::from_slice(self.data.as_slice(), self.rows, self.cols)
    }

    /// The part of the matrix that `goggles` describes.
    pub fn view<G: IntoGoggles>(&self, goggles: G) -> (r: Living<'_, MatrixView<'_, T>, false>)
        requires
            self.holds_cells(),
            goggles.into_goggles_defined(),
            axis_ordered(goggles.goggles_spec().0),
            axis_ordered(goggles.goggles_spec().1),
        ensures
            see_through_parts(
                self.data@,
                self.cols,
                dim_of((0usize, self.rows), (0usize, self.cols)),
                goggles.goggles_spec(),
                r.inner(),
            ),
    {
        let view = self.as_view();
        view.view(goggles)
    }

    /// The cell at row `index.0` and column `index.1`.
    pub fn index(&self, index: (usize, usize)) -> (r: &T)
        requires
            index.0 * self.cols + index.1 < self.data.len(),
        ensures
            *r == self.cell(index.0 as int, index.1 as int),
    {
        &self.data[index.0 * self.cols + index.1]
    }

    /// The cell at `pos`, to be changed; `None` outside the matrix (or when it has no row or no
    /// column).
    pub fn get_mut(&mut self, pos: (usize, usize)) -> (r: Option<&mut T>)
        requires
            old(self).holds_cells(),
        ensures
            final(self).rows == old(self).rows,
            final(self).cols == old(self).cols,
            pos.0 < old(self).rows && pos.1 < old(self).cols ==> {
                &&& r is Some
                &&& *r->0 == old(self).cell(pos.0 as int, pos.1 as int)
                &&& final(self).data@ == old(self).data@.update(
                    pos.0 * old(self).cols + pos.1,
                    *final(r->0),
                )
            },
            !(pos.0 < old(self).rows && pos.1 < old(self).cols) ==> {
                &&& r is None
                &&& final(self).data@ == old(self).data@
            },
    {
        if pos.0 < self.rows && pos.1 < self.cols {
            let len = self.data.len();
            proof {
                lemma_cell_index(pos.0 as int, pos.1 as int, self.rows as int, self.cols as int);
                assert(pos.0 * self.cols + pos.1 < len);
            }
            let k = pos.0 * self.cols + pos.1;
            Some(&mut self.data[k])
        } else {
            None
        }
    }

    /// Writes `value` in the cell at row `index.0` and column `index.1`.
    pub fn set(&mut self, index: (usize, usize), value: T)
        requires
            index.0 * old(self).cols + index.1 < old(self).data.len(),
        ensures
            final(self).rows == old(self).rows,
            final(self).cols == old(self).cols,
            final(self).data@ == old(self).data@.update(index.0 * old(self).cols + index.1, value),
    {
        let k = index.0 * self.cols + index.1;
        self.data.set(k, value);
    }
}

/// The cells, row after row, of the `n x n` identity: `one` on the diagonal, `zero` elsewhere.
pub open spec fn identity_data<T>(n: int, zero: T, one: T) -> Seq<T> {
    Seq::new((n * n) as nat, |x: int| if x / n == x % n { one } else { zero })
}

/// `i * cols + j` is below `rows * cols` for a cell of a `rows x cols` matrix.
pub proof fn lemma_cell_index(i: int, j: int, rows: int, cols: int)
    requires
        0 <= i < rows,
        0 <= j < cols,
    ensures
        0 <= i * cols + j < rows * cols,
        0 <= i * cols,
{
    assert(0 <= i * cols) by (nonlinear_arith)
        requires
            0 <= i,
            0 <= cols,
    ;
    assert(i * cols + cols <= rows * cols) by (nonlinear_arith)
        requires
            0 <= i < rows,
            0 <= cols,
    ;
}

impl<T: Copy> HeapMatrix<T> {
    /// The `rows x cols` matrix whose every cell is `zero`.
    pub fn zero(rows: usize, cols: usize, zero: T) -> (r: Self)
        requires
            rows * cols <= usize::MAX,
        ensures
            r.rows == rows,
            r.cols == cols,
            r.data@.len() == rows * cols,
            forall|x: int| 0 <= x < rows * cols ==> #[trigger] r.data@[x] == zero,
    {
        let total = rows * cols;
        let mut data: Vec<T> = Vec::new();
        for k in 0..total
            invariant
                data@.len() == k,
                forall|x: int| 0 <= x < k ==> #[trigger] data@[x] == zero,
        {
            data.push(zero);
        }
        Self { data, rows, cols }
    }

    /// The matrix whose rows are `rows`, in order; the empty matrix when there is no row. Every
    /// row must be as long as the first one, which must not be empty.
    pub fn from_rows(rows: &Vec<Vec<T>>) -> (r: Self)
        requires
            rows@.len() > 0 ==> rows@[0]@.len() > 0,
            forall|i: int| 0 <= i < rows@.len() ==> (#[trigger] rows@[i])@.len() == rows@[0]@.len(),
        ensures
            rows@.len() == 0 ==> r.rows == 0 && r.cols == 0 && r.data@.len() == 0,
            rows@.len() > 0 ==> {
                &&& r.rows == rows@.len()
                &&& r.cols == rows@[0]@.len()
                &&& r.data@.len() == r.rows * r.cols
                &&& forall|i: int, j: int|
                    0 <= i < r.rows && 0 <= j < r.cols ==> #[trigger] r.cell(i, j) == rows@[i]@[j]
            },
    {
        let n = rows.len();
        if n == 0 {
            return Self::empty();
        }
        let cols = rows[0].len();
        let mut data: Vec<T> = Vec::new();
        proof {
            assert(0 * cols == 0) by (nonlinear_arith);
        }
        for i in 0..n
            invariant
                n == rows@.len(),
                cols == rows@[0]@.len(),
                forall|a: int| 0 <= a < rows@.len() ==> (#[trigger] rows@[a])@.len() == cols,
                data@.len() == i * cols,
                forall|a: int, b: int|
                    0 <= a < i && 0 <= b < cols ==> #[trigger] data@[a * cols + b] == rows@[a]@[b],
        {
            let row = &rows[i];
            assert(row@.len() == cols);
            for j in 0..cols
                invariant
                    n == rows@.len(),
                    i < n,
                    cols == rows@[0]@.len(),
                    *row == rows@[i as int],
                    row@.len() == cols,
                    data@.len() == i * cols + j,
                    forall|a: int, b: int|
                        0 <= a < i && 0 <= b < cols ==> #[trigger] data@[a * cols + b] == rows@[a]@[b],
                    forall|b: int| 0 <= b < j ==> #[trigger] data@[i * cols + b] == rows@[i as int]@[b],
            {
                let ghost prev = data@;
                data.push(row[j]);
                proof {
                    assert forall|a: int, b: int| 0 <= a < i && 0 <= b < cols implies #[trigger] data@[a * cols + b] == rows@[a]@[b] by {
                        lemma_cell_index(a, b, i as int, cols as int);
                        assert(data@[a * cols + b] == prev[a * cols + b]);
                    }
                }
            }
            proof {
                assert((i + 1) * cols == i * cols + cols) by (nonlinear_arith);
                assert forall|a: int, b: int| 0 <= a < i + 1 && 0 <= b < cols implies #[trigger] data@[a * cols + b] == rows@[a]@[b] by {
                    if a == i {
                    }
                }
            }
        }
        Self { data, rows: n, cols }
    }

    /// The `n x n` identity matrix: `one` on the diagonal, `zero` elsewhere.
    pub fn identity(n: usize, zero: T, one: T) -> (r: Self)
        requires
            n * n <= usize::MAX,
        ensures
            r.rows == n,
            r.cols == n,
            r.data@.len() == n * n,
            r.data@ == identity_data(n as int, zero, one),
            forall|i: int, j: int|
                0 <= i < n && 0 <= j < n ==> #[trigger] r.cell(i, j) == if i == j {
                    one
                } else {
                    zero
                },
    {
        let mut m = Self::zero(n, n, zero);
        proof {
            assert forall|i: int, j: int| 0 <= i < n && 0 <= j < n implies #[trigger] m.cell(i, j) == zero by {
                lemma_cell_index(i, j, n as int, n as int);
            }
        }
        for k in 0..n
            invariant
                m.rows == n,
                m.cols == n,
                m.data@.len() == n * n,
                forall|i: int, j: int|
                    0 <= i < n && 0 <= j < n ==> #[trigger] m.cell(i, j) == if i == j && i < k {
                        one
                    } else {
                        zero
                    },
        {
            proof {
                lemma_cell_index(k as int, k as int, n as int, n as int);
            }
            let ghost prev = m;
            m.set((k, k), one);
            proof {
                assert forall|i: int, j: int| 0 <= i < n && 0 <= j < n implies #[trigger] m.cell(i, j) == if i == j && i < k + 1 {
                    one
                } else {
                    zero
                } by {
                    lemma_cell_index(i, j, n as int, n as int);
                    lemma_cells_distinct(i, j, k as int, k as int, n as int);
                    assert(prev.cell(i, j) == prev.data@[i * n + j]);
                }
            }
        }
        proof {
            assert forall|x: int| 0 <= x < n * n implies #[trigger] m.data@[x] == identity_data(n as int, zero, one)[x] by {
                if n == 0 {
                    assert(n * n == 0);
                }
                crate::linear::gauss::lemma_split_index(x, n as int, n as int);
                let a = x / (n as int);
                let b = x % (n as int);
                assert(m.cell(a, b) == m.data@[a * n + b]);
            }
            assert(m.data@ =~= identity_data(n as int, zero, one));
        }
        m
    }

    /// The transposed matrix: the cell at `(i, j)` moves to `(j, i)`, the numbers of rows and of
    /// columns being exchanged.
    pub fn transpose(&self) -> (r: Self)
        requires
            self.data@.len() == self.rows * self.cols,
        ensures
            r.rows == self.cols,
            r.cols == self.rows,
            r.data@.len() == self.data@.len(),
            forall|i: int, j: int|
                0 <= i < r.rows && 0 <= j < r.cols ==> #[trigger] r.cell(i, j) == self.cell(j, i),
    {
        let rows = self.rows;
        let cols = self.cols;
        let mut data: Vec<T> = Vec::new();
        proof {
            assert(0 * rows == 0) by (nonlinear_arith);
        }
        for i in 0..cols
            invariant
                rows == self.rows,
                cols == self.cols,
                self.data@.len() == rows * cols,
                data@.len() == i * rows,
                forall|a: int, b: int|
                    0 <= a < i && 0 <= b < rows ==> #[trigger] data@[a * rows + b] == self.cell(b, a),
        {
            for j in 0..rows
                invariant
                    rows == self.rows,
                    cols == self.cols,
                    i < cols,
                    self.data@.len() == rows * cols,
                    data@.len() == i * rows + j,
                    forall|a: int, b: int|
                        0 <= a < i && 0 <= b < rows ==> #[trigger] data@[a * rows + b] == self.cell(b, a),
                    forall|b: int| 0 <= b < j ==> #[trigger] data@[i * rows + b] == self.cell(b, i as int),
            {
                proof {
                    lemma_cell_index(j as int, i as int, rows as int, cols as int);
                }
                let v = *self.index((j, i));
                let ghost prev = data@;
                data.push(v);
                proof {
                    assert forall|a: int, b: int| 0 <= a < i && 0 <= b < rows implies #[trigger] data@[a * rows + b] == self.cell(b, a) by {
                        lemma_cell_index(a, b, i as int, rows as int);
                        assert(data@[a * rows + b] == prev[a * rows + b]);
                    }
                }
            }
            proof {
                assert((i + 1) * rows == i * rows + rows) by (nonlinear_arith);
                assert forall|a: int, b: int| 0 <= a < i + 1 && 0 <= b < rows implies #[trigger] data@[a * rows + b] == self.cell(b, a) by {
                    if a < i {
                    } else {
                        assert(a == i);
                    }
                }
            }
        }
        proof {
            assert(cols * rows == rows * cols) by (nonlinear_arith);
        }
        Self { data, rows: cols, cols: rows }
    }

    /// Swaps the rows `i` and `j`.
    pub fn swap_lines(&mut self, i: usize, j: usize)
        requires
            i < old(self).rows,
            j < old(self).rows,
            old(self).holds_cells(),
        ensures
            final(self).rows == old(self).rows,
            final(self).cols == old(self).cols,
            final(self).data@.len() == old(self).data@.len(),
            forall|a: int, b: int|
                0 <= a < old(self).rows && 0 <= b < old(self).cols ==> #[trigger] final(self).cell(a, b)
                    == old(self).cell(if a == i { j as int } else if a == j { i as int } else { a }, b),
            forall|k: int|
                old(self).rows * old(self).cols <= k < old(self).data@.len() ==> #[trigger] final(self).data@[k]
                    == old(self).data@[k],
    {
        if i != j {
            let cols = self.cols;
            let ghost before = self.data@;
            let ghost rows = self.rows;
            for k in 0..cols
                invariant
                    self.rows == rows,
                    rows * cols <= before.len(),
                    i < self.rows,
                    j < self.rows,
                    i != j,
                    cols == self.cols,
                    self.holds_cells(),
                    self.data@.len() == before.len(),
                    forall|a: int, b: int|
                        0 <= a < self.rows && 0 <= b < cols ==> #[trigger] self.cell(a, b) == if b < k {
                            before[(if a == i { j as int } else if a == j { i as int } else { a }) * cols + b]
                        } else {
                            before[a * cols + b]
                        },
                    forall|x: int| self.rows * cols <= x < before.len() ==> #[trigger] self.data@[x] == before[x],
            {
                proof {
                    lemma_cell_index(i as int, k as int, self.rows as int, cols as int);
                    lemma_cell_index(j as int, k as int, self.rows as int, cols as int);
                }
                let a = *self.index((i, k));
                let b = *self.index((j, k));
                let ghost mid = *self;
                self.set((i, k), b);
                self.set((j, k), a);
                proof {
                    assert(a == mid.cell(i as int, k as int));
                    assert(b == mid.cell(j as int, k as int));
                    assert forall|x: int, y: int| 0 <= x < self.rows && 0 <= y < cols implies #[trigger] self.cell(x, y) == if y < k + 1 {
                        before[(if x == i { j as int } else if x == j { i as int } else { x }) * cols + y]
                    } else {
                        before[x * cols + y]
                    } by {
                        lemma_cell_index(x, y, self.rows as int, cols as int);
                        lemma_cells_distinct(x, y, i as int, k as int, cols as int);
                        lemma_cells_distinct(x, y, j as int, k as int, cols as int);
                        let expected_mid = mid.cell(x, y);
                        if y == k {
                            if x == i {
                                assert(self.cell(x, y) == b);
                            } else if x == j {
                                assert(self.cell(x, y) == a);
                            } else {
                                assert(self.cell(x, y) == expected_mid);
                            }
                        } else {
                            assert(self.cell(x, y) == expected_mid);
                        }
                    }
                    assert forall|x: int| self.rows * cols <= x < before.len() implies #[trigger] self.data@[x] == before[x] by {
                        lemma_cell_index(i as int, k as int, self.rows as int, cols as int);
                        lemma_cell_index(j as int, k as int, self.rows as int, cols as int);
                    }
                }
            }
        }
    }
}

/// Two cells of a matrix with `cols` columns have the same index only if they are the same cell.
pub proof fn lemma_cells_distinct(a: int, b: int, c: int, d: int, cols: int)
    requires
        0 <= b < cols,
        0 <= d < cols,
    ensures
        (a * cols + b == c * cols + d) <==> (a == c && b == d),
{
    if a * cols + b == c * cols + d {
        if a < c {
            assert(a * cols + cols <= c * cols) by (nonlinear_arith)
                requires
                    a < c,
                    cols >= 0,
            ;
        } else if a > c {
            assert(c * cols + cols <= a * cols) by (nonlinear_arith)
                requires
                    c < a,
                    cols >= 0,
            ;
        }
    }
}

/// Two heap matrices are equal when both hold their cells, have the same size (a matrix with no
/// row or no column has no cell) and, by `T`'s equality, the same cells.
pub open spec fn same_heap_cells<T: PartialEq>(a: HeapMatrix<T>, b: HeapMatrix<T>) -> bool {
    &&& a.holds_cells()
    &&& b.holds_cells()
    &&& dim_of((0usize, a.rows), (0usize, a.cols)) == dim_of((0usize, b.rows), (0usize, b.cols))
    &&& forall|i: int, j: int|
        0 <= i < dim_of((0usize, a.rows), (0usize, a.cols)).0 && 0 <= j < dim_of((0usize, a.rows), (0usize, a.cols)).1
            ==> (#[trigger] a.cell(i, j)).eq_spec(&b.cell(i, j))
}

impl<T: PartialEq> PartialEq for HeapMatrix<T> {
    fn eq(&self, other: &Self) -> (r: bool) {
        let len = self.data.len();
        let other_len = other.data.len();
        let holds = match self.rows.checked_mul(self.cols) {
            Some(n) => n <= len,
            None => false,
        };
        let other_holds = match other.rows.checked_mul(other.cols) {
            Some(n) => n <= other_len,
            None => false,
        };
        assert(holds == self.holds_cells());
        assert(other_holds == other.holds_cells());
        if !holds || !other_holds {
            return false;
        }
        let a = self.as_view();
        let b = other.as_view();
        let r = a == b;
        proof {
            assert(a.spec_dim() == dim_of((0usize, self.rows), (0usize, self.cols)));
            assert(b.spec_dim() == dim_of((0usize, other.rows), (0usize, other.cols)));
            if T::obeys_eq_spec() {
                let d = dim_of((0usize, self.rows), (0usize, self.cols));
                assert(r == same_cells(a, b));
                assert forall|i: int, j: int| 0 <= i < d.0 && 0 <= j < d.1 implies {
                    &&& a.cell((i as usize, j as usize)) == #[trigger] self.cell(i, j)
                    &&& b.cell((i as usize, j as usize)) == other.cell(i, j)
                } by {}
                if same_cells(a, b) {
                    assert forall|i: int, j: int| 0 <= i < d.0 && 0 <= j < d.1 implies (#[trigger] self.cell(
                        i,
                        j,
                    )).eq_spec(&other.cell(i, j)) by {
                        assert(a.cell((i as usize, j as usize)).eq_spec(&b.cell((i as usize, j as usize))));
                    }
                    assert(same_heap_cells(*self, *other));
                } else if same_heap_cells(*self, *other) {
                    assert forall|i: int, j: int| 0 <= i < a.spec_dim().0 && 0 <= j < a.spec_dim().1 implies (
                    #[trigger] a.cell((i as usize, j as usize))).eq_spec(&b.cell((i as usize, j as usize))) by {
                        assert(self.cell(i, j).eq_spec(&other.cell(i, j)));
                    }
                    assert(same_cells(a, b));
                }
            }
        }
        r
    }
}

impl<T: PartialEq> PartialEqSpecImpl for HeapMatrix<T> {
    open spec fn obeys_eq_spec() -> bool {
        T::obeys_eq_spec()
    }

    open spec fn eq_spec(&self, other: &Self) -> bool {
        same_heap_cells(*self, *other)
    }
}

} // verus!
