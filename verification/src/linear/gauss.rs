//! Elementary row operations on matrices.

use core::ops::{Add, Mul};
use vstd::prelude::*;
use vstd::std_specs::ops::{AddSpec, MulSpec};
use crate::linear::heap_matrix::{lemma_cell_index, lemma_cells_distinct, HeapMatrix};

verus! {

/// An elementary row operation: swapping two rows, adding to a row a multiple of another
/// (`Add(i, x, j)` is `row i <- row i + x * row j`), or multiplying a row (`Mul(i, x)` is
/// `row i <- row i * x`).
#[derive(Copy, Clone, Debug)]
pub enum MatrixRowOperation<T> {
    Swap(usize, usize),
    Add(usize, T, usize),
    Mul(usize, T),
}

/// The default row operation does nothing: it swaps row 0 with itself.
impl<T> Default for MatrixRowOperation<T> {
    fn default() -> (r: Self)
        ensures
            r == MatrixRowOperation::<T>::Swap(0, 0),
    {
        Self::Swap(0, 0)
    }
}

/// The row of the cell of index `x` in a matrix with `cols` columns.
pub open spec fn row_of(x: int, cols: int) -> int {
    x / cols
}

/// The column of the cell of index `x` in a matrix with `cols` columns.
pub open spec fn col_of(x: int, cols: int) -> int {
    x % cols
}

/// The cells of a `rows x cols` matrix (row after row, followed by unused cells) once `op` is
/// applied. The unused cells are kept.
pub open spec fn step_data<T: Copy + Add<Output = T> + Mul<Output = T>>(
    data: Seq<T>,
    rows: int,
    cols: int,
    op: MatrixRowOperation<T>,
) -> Seq<T> {
    Seq::new(
        data.len(),
        |x: int|
            if x < rows * cols {
                let a = row_of(x, cols);
                let b = col_of(x, cols);
                match op {
                    MatrixRowOperation::Swap(i, j) => if a == i {
                        data[j * cols + b]
                    } else if a == j {
                        data[i * cols + b]
                    } else {
                        data[x]
                    },
                    MatrixRowOperation::Add(i, v, j) => if a == i {
                        data[x].add_spec(v.mul_spec(data[j * cols + b]))
                    } else {
                        data[x]
                    },
                    MatrixRowOperation::Mul(i, v) => if a == i {
                        data[x].mul_spec(v)
                    } else {
                        data[x]
                    },
                }
            } else {
                data[x]
            },
    )
}

/// `op` can be applied to the cells of a `rows x cols` matrix: its rows exist and its
/// arithmetic is allowed.
pub open spec fn step_ok<T: Copy + Add<Output = T> + Mul<Output = T>>(
    data: Seq<T>,
    rows: int,
    cols: int,
    op: MatrixRowOperation<T>,
) -> bool {
    match op {
        MatrixRowOperation::Swap(i, j) => i < rows && j < rows,
        MatrixRowOperation::Add(i, v, j) => {
            &&& i < rows
            &&& j < rows
            &&& forall|b: int|
                0 <= b < cols ==> {
                    &&& v.mul_req(#[trigger] data[j * cols + b])
                    &&& data[i * cols + b].add_req(v.mul_spec(data[j * cols + b]))
                }
        },
        MatrixRowOperation::Mul(i, v) => {
            &&& i < rows
            &&& forall|b: int| 0 <= b < cols ==> (#[trigger] data[i * cols + b]).mul_req(v)
        },
    }
}

/// The cells once the operations `steps` are applied, first to last.
pub open spec fn replay_data<T: Copy + Add<Output = T> + Mul<Output = T>>(
    data: Seq<T>,
    rows: int,
    cols: int,
    steps: Seq<MatrixRowOperation<T>>,
) -> Seq<T>
    decreases steps.len(),
{
    if steps.len() == 0 {
        data
    } else {
        step_data(replay_data(data, rows, cols, steps.drop_last()), rows, cols, steps.last())
    }
}

/// Each of the operations `steps` can be applied in turn.
pub open spec fn replay_ok<T: Copy + Add<Output = T> + Mul<Output = T>>(
    data: Seq<T>,
    rows: int,
    cols: int,
    steps: Seq<MatrixRowOperation<T>>,
) -> bool
    decreases steps.len(),
{
    if steps.len() == 0 {
        true
    } else {
        replay_ok(data, rows, cols, steps.drop_last()) && step_ok(
            replay_data(data, rows, cols, steps.drop_last()),
            rows,
            cols,
            steps.last(),
        )
    }
}

/// A cell index below `rows * cols` splits into its row and column.
pub proof fn lemma_split_index(x: int, rows: int, cols: int)
    requires
        0 <= x < rows * cols,
        cols > 0,
    ensures
        0 <= row_of(x, cols) < rows,
        0 <= col_of(x, cols) < cols,
        x == row_of(x, cols) * cols + col_of(x, cols),
{
    vstd::arithmetic::div_mod::lemma_fundamental_div_mod(x, cols);
    vstd::arithmetic::div_mod::lemma_mod_bound(x, cols);
    vstd::arithmetic::div_mod::lemma_div_pos_is_pos(x, cols);
    let q = x / cols;
    vstd::arithmetic::mul::lemma_mul_is_commutative(cols, q);
    if q >= rows {
        assert(q * cols >= rows * cols) by (nonlinear_arith)
            requires
                q >= rows,
                cols > 0,
        ;
    }
}

/// The index of the cell at row `a` and column `b` has row `a` and column `b`.
pub proof fn lemma_join_index(a: int, b: int, cols: int)
    requires
        0 <= a,
        0 <= b < cols,
    ensures
        row_of(a * cols + b, cols) == a,
        col_of(a * cols + b, cols) == b,
{
    vstd::arithmetic::div_mod::lemma_fundamental_div_mod_converse(a * cols + b, cols, a, b);
}

impl<T: Copy + Add<Output = T> + Mul<Output = T>> HeapMatrix<T> {
    /// Adds to row `i` the row `j` multiplied by `x`: `row i <- row i + x * row j`.
    pub fn add_to_line(&mut self, i: usize, x: T, j: usize)
        requires
            old(self).holds_cells(),
            T::obeys_add_spec(),
            T::obeys_mul_spec(),
            step_ok(
                old(self).data@,
                old(self).rows as int,
                old(self).cols as int,
                MatrixRowOperation::Add(i, x, j),
            ),
        ensures
            final(self).rows == old(self).rows,
            final(self).cols == old(self).cols,
            final(self).data@ == step_data(
                old(self).data@,
                old(self).rows as int,
                old(self).cols as int,
                MatrixRowOperation::Add(i, x, j),
            ),
    {
        let cols = self.cols;
        let ghost before = self.data@;
        let ghost rows = self.rows;
        for k in 0..cols
            invariant
                self.rows == rows,
                self.cols == cols,
                rows * cols <= before.len(),
                i < rows,
                j < rows,
                self.data@.len() == before.len(),
                T::obeys_add_spec(),
                T::obeys_mul_spec(),
                step_ok(before, rows as int, cols as int, MatrixRowOperation::Add(i, x, j)),
                forall|a: int, b: int|
                    0 <= a < rows && 0 <= b < cols ==> #[trigger] self.data@[a * cols + b] == if a == i
                        && b < k {
                        before[i * cols + b].add_spec(x.mul_spec(before[j * cols + b]))
                    } else {
                        before[a * cols + b]
                    },
                forall|y: int| rows * cols <= y < before.len() ==> #[trigger] self.data@[y] == before[y],
        {
            proof {
                lemma_cell_index(i as int, k as int, rows as int, cols as int);
                lemma_cell_index(j as int, k as int, rows as int, cols as int);
                assert(self.data@[i * cols + k] == before[i * cols + k]);
                assert(self.data@[j * cols + k] == before[j * cols + k]);
                assert(x.mul_req(before[j * cols + k]));
                assert(before[i * cols + k].add_req(x.mul_spec(before[j * cols + k])));
            }
            let ghost mid = self.data@;
            let xi = *self.index((i, k));
            let xj = *self.index((j, k));
            let p = x * xj;
            let value = xi + p;
            assert(value == before[i * cols + k].add_spec(x.mul_spec(before[j * cols + k])));
            self.set((i, k), value);
            proof {
                assert forall|a: int, b: int| 0 <= a < rows && 0 <= b < cols implies #[trigger] self.data@[a * cols + b] == if a == i && b < k + 1 {
                    before[i * cols + b].add_spec(x.mul_spec(before[j * cols + b]))
                } else {
                    before[a * cols + b]
                } by {
                    lemma_cell_index(a, b, rows as int, cols as int);
                    lemma_cells_distinct(a, b, i as int, k as int, cols as int);
                    assert(mid[a * cols + b] == self.data@[a * cols + b] || (a == i && b == k));
                }
                assert forall|y: int| rows * cols <= y < before.len() implies #[trigger] self.data@[y] == before[y] by {
                    assert(mid[y] == before[y]);
                }
            }
        }
        proof {
            self.lemma_rows_done(before, MatrixRowOperation::Add(i, x, j));
        }
    }

    /// Multiplies row `i` by `x`: `row i <- row i * x`.
    pub fn mul_line(&mut self, i: usize, x: T)
        requires
            old(self).holds_cells(),
            T::obeys_mul_spec(),
            step_ok(old(self).data@, old(self).rows as int, old(self).cols as int, MatrixRowOperation::Mul(i, x)),
        ensures
            final(self).rows == old(self).rows,
            final(self).cols == old(self).cols,
            final(self).data@ == step_data(
                old(self).data@,
                old(self).rows as int,
                old(self).cols as int,
                MatrixRowOperation::Mul(i, x),
            ),
    {
        let cols = self.cols;
        let ghost before = self.data@;
        let ghost rows = self.rows;
        for k in 0..cols
            invariant
                self.rows == rows,
                self.cols == cols,
                rows * cols <= before.len(),
                i < rows,
                self.data@.len() == before.len(),
                T::obeys_mul_spec(),
                step_ok(before, rows as int, cols as int, MatrixRowOperation::Mul(i, x)),
                forall|a: int, b: int|
                    0 <= a < rows && 0 <= b < cols ==> #[trigger] self.data@[a * cols + b] == if a == i
                        && b < k {
                        before[i * cols + b].mul_spec(x)
                    } else {
                        before[a * cols + b]
                    },
                forall|y: int| rows * cols <= y < before.len() ==> #[trigger] self.data@[y] == before[y],
        {
            proof {
                lemma_cell_index(i as int, k as int, rows as int, cols as int);
                assert(self.data@[i * cols + k] == before[i * cols + k]);
                assert(before[i * cols + k].mul_req(x));
            }
            let ghost mid = self.data@;
            let xi = *self.index((i, k));
            let value = xi * x;
            assert(value == before[i * cols + k].mul_spec(x));
            self.set((i, k), value);
            proof {
                assert forall|a: int, b: int| 0 <= a < rows && 0 <= b < cols implies #[trigger] self.data@[a * cols + b] == if a == i && b < k + 1 {
                    before[i * cols + b].mul_spec(x)
                } else {
                    before[a * cols + b]
                } by {
                    lemma_cell_index(a, b, rows as int, cols as int);
                    lemma_cells_distinct(a, b, i as int, k as int, cols as int);
                    assert(mid[a * cols + b] == self.data@[a * cols + b] || (a == i && b == k));
                }
                assert forall|y: int| rows * cols <= y < before.len() implies #[trigger] self.data@[y] == before[y] by {
                    assert(mid[y] == before[y]);
                }
            }
        }
        proof {
            self.lemma_rows_done(before, MatrixRowOperation::Mul(i, x));
        }
    }

    /// Applies the row operations `steps`, first to last.
    pub fn replay_steps_mut(&mut self, steps: &[MatrixRowOperation<T>])
        requires
            old(self).holds_cells(),
            T::obeys_add_spec(),
            T::obeys_mul_spec(),
            replay_ok(old(self).data@, old(self).rows as int, old(self).cols as int, steps@),
        ensures
            final(self).rows == old(self).rows,
            final(self).cols == old(self).cols,
            final(self).data@ == replay_data(
                old(self).data@,
                old(self).rows as int,
                old(self).cols as int,
                steps@,
            ),
            final(self).data@.len() == old(self).data@.len(),
    {
        proof {
            lemma_replay_len(self.data@, self.rows as int, self.cols as int, steps@);
        }
        let ghost before = self.data@;
        let ghost rows = self.rows as int;
        let ghost cols = self.cols as int;
        let n = steps.len();
        assert(steps@.take(0) =~= Seq::<MatrixRowOperation<T>>::empty());
        for k in 0..n
            invariant
                n == steps@.len(),
                T::obeys_add_spec(),
                T::obeys_mul_spec(),
                self.rows == rows,
                self.cols == cols,
                self.holds_cells(),
                replay_ok(before, rows, cols, steps@),
                self.data@ == replay_data(before, rows, cols, steps@.take(k as int)),
        {
            proof {
                lemma_replay_ok_prefix(before, rows, cols, steps@, k as int + 1);
                assert(steps@.take(k as int + 1).drop_last() =~= steps@.take(k as int));
                assert(steps@.take(k as int + 1).last() == steps@[k as int]);
            }
            let ghost prev = *self;
            match steps[k] {
                MatrixRowOperation::Swap(i, j) => {
                    self.swap_lines(i, j);
                    proof {
                        lemma_swap_is_step(prev, *self, i, j);
                    }
                },
                MatrixRowOperation::Add(i, x, j) => self.add_to_line(i, x, j),
                MatrixRowOperation::Mul(i, x) => self.mul_line(i, x),
            }
        }
        assert(steps@.take(n as int) =~= steps@);
    }

    /// Once every column of the changed row is done, the cells are those of `step_data`.
    proof fn lemma_rows_done(self, before: Seq<T>, op: MatrixRowOperation<T>)
        requires
            self.rows * self.cols <= before.len(),
            self.data@.len() == before.len(),
            !(op is Swap),
            forall|a: int, b: int|
                0 <= a < self.rows && 0 <= b < self.cols ==> #[trigger] self.data@[a * self.cols + b]
                    == match op {
                    MatrixRowOperation::Add(i, v, j) => if a == i && b < self.cols {
                        before[i * self.cols + b].add_spec(v.mul_spec(before[j * self.cols + b]))
                    } else {
                        before[a * self.cols + b]
                    },
                    MatrixRowOperation::Mul(i, v) => if a == i && b < self.cols {
                        before[i * self.cols + b].mul_spec(v)
                    } else {
                        before[a * self.cols + b]
                    },
                    MatrixRowOperation::Swap(..) => before[a * self.cols + b],
                },
            forall|y: int| self.rows * self.cols <= y < before.len() ==> #[trigger] self.data@[y] == before[y],
        ensures
            self.data@ == step_data(before, self.rows as int, self.cols as int, op),
    {
        let rows = self.rows as int;
        let cols = self.cols as int;
        let target = step_data(before, rows, cols, op);
        assert forall|x: int| 0 <= x < before.len() implies #[trigger] self.data@[x] == target[x] by {
            if x < rows * cols {
                lemma_split_index(x, rows, cols);
                let a = row_of(x, cols);
                let b = col_of(x, cols);
                assert(self.data@[a * cols + b] == self.data@[x]);
            }
        }
        assert(self.data@ =~= target);
    }
}

/// Replaying operations keeps the number of cells.
pub proof fn lemma_replay_len<T: Copy + Add<Output = T> + Mul<Output = T>>(
    data: Seq<T>,
    rows: int,
    cols: int,
    steps: Seq<MatrixRowOperation<T>>,
)
    ensures
        replay_data(data, rows, cols, steps).len() == data.len(),
    decreases steps.len(),
{
    if steps.len() > 0 {
        lemma_replay_len(data, rows, cols, steps.drop_last());
    }
}

/// Each prefix of operations that can be applied in turn can also be applied in turn.
pub proof fn lemma_replay_ok_prefix<T: Copy + Add<Output = T> + Mul<Output = T>>(
    data: Seq<T>,
    rows: int,
    cols: int,
    steps: Seq<MatrixRowOperation<T>>,
    n: int,
)
    requires
        replay_ok(data, rows, cols, steps),
        0 <= n <= steps.len(),
    ensures
        replay_ok(data, rows, cols, steps.take(n)),
    decreases steps.len(),
{
    if n < steps.len() {
        lemma_replay_ok_prefix(data, rows, cols, steps.drop_last(), n);
        assert(steps.drop_last().take(n) =~= steps.take(n));
    } else {
        assert(steps.take(n) =~= steps);
    }
}

/// The rows swapped by `swap_lines` are those of `step_data` for `Swap(i, j)`.
pub proof fn lemma_swap_is_step<T: Copy + Add<Output = T> + Mul<Output = T>>(
    before: HeapMatrix<T>,
    after: HeapMatrix<T>,
    i: usize,
    j: usize,
)
    requires
        before.holds_cells(),
        i < before.rows,
        j < before.rows,
        after.rows == before.rows,
        after.cols == before.cols,
        after.data@.len() == before.data@.len(),
        forall|a: int, b: int|
            0 <= a < before.rows && 0 <= b < before.cols ==> #[trigger] after.cell(a, b) == before.cell(
                if a == i { j as int } else if a == j { i as int } else { a },
                b,
            ),
        forall|k: int|
            before.rows * before.cols <= k < before.data@.len() ==> #[trigger] after.data@[k]
                == before.data@[k],
    ensures
        after.data@ == step_data(
            before.data@,
            before.rows as int,
            before.cols as int,
            MatrixRowOperation::Swap(i, j),
        ),
{
    let rows = before.rows as int;
    let cols = before.cols as int;
    let target = step_data(before.data@, rows, cols, MatrixRowOperation::<T>::Swap(i, j));
    assert forall|x: int| 0 <= x < before.data@.len() implies #[trigger] after.data@[x] == target[x] by {
        if x < rows * cols {
            lemma_split_index(x, rows, cols);
            let a = row_of(x, cols);
            let b = col_of(x, cols);
            assert(after.cell(a, b) == after.data@[x]);
        }
    }
    assert(after.data@ =~= target);
}

/// Swapping the same two rows twice gives the matrix back.
pub proof fn lemma_swap_involution<T: Copy + Add<Output = T> + Mul<Output = T>>(
    data: Seq<T>,
    rows: int,
    cols: int,
    i: usize,
    j: usize,
)
    requires
        cols > 0,
        i < rows,
        j < rows,
        rows * cols <= data.len(),
    ensures
        step_data(
            step_data(data, rows, cols, MatrixRowOperation::Swap(i, j)),
            rows,
            cols,
            MatrixRowOperation::Swap(i, j),
        ) == data,
{
    let once = step_data(data, rows, cols, MatrixRowOperation::<T>::Swap(i, j));
    let twice = step_data(once, rows, cols, MatrixRowOperation::<T>::Swap(i, j));
    assert forall|x: int| 0 <= x < data.len() implies #[trigger] twice[x] == data[x] by {
        if x < rows * cols {
            lemma_split_index(x, rows, cols);
            let a = row_of(x, cols);
            let b = col_of(x, cols);
            lemma_cell_index(i as int, b, rows, cols);
            lemma_cell_index(j as int, b, rows, cols);
            lemma_join_index(i as int, b, cols);
            lemma_join_index(j as int, b, cols);
        }
    }
    assert(twice =~= data);
}

/// Applying `s1` then `s2` is applying `s1` followed by `s2`.
pub proof fn lemma_replay_append<T: Copy + Add<Output = T> + Mul<Output = T>>(
    data: Seq<T>,
    rows: int,
    cols: int,
    s1: Seq<MatrixRowOperation<T>>,
    s2: Seq<MatrixRowOperation<T>>,
)
    ensures
        replay_data(data, rows, cols, s1 + s2) == replay_data(replay_data(data, rows, cols, s1), rows, cols, s2),
        replay_ok(data, rows, cols, s1 + s2) == (replay_ok(data, rows, cols, s1) && replay_ok(
            replay_data(data, rows, cols, s1),
            rows,
            cols,
            s2,
        )),
    decreases s2.len(),
{
    if s2.len() == 0 {
        assert(s1 + s2 =~= s1);
    } else {
        lemma_replay_append(data, rows, cols, s1, s2.drop_last());
        assert((s1 + s2).drop_last() =~= s1 + s2.drop_last());
        assert((s1 + s2).last() == s2.last());
    }
}

} // verus!
