//! Over scalars whose operations obey the laws of a field exactly, the Gaussian elimination
//! gives a row echelon form.

use core::ops::{Add, Div, Mul, Neg};
use vstd::prelude::*;
use vstd::std_specs::ops::{AddSpec, DivSpec, MulSpec, NegSpec};
use crate::linear::elimination::{
    above_data, above_ops, above_pivots_defined, above_pivots_ops, at, clear_data, clear_ops, elim_ops, first_pivot,
    gaussian_steps, rank_of, reduction_steps, row_not_near_zero, row_pivot, rref_defined, rref_steps,
};
use crate::linear::gauss::{lemma_join_index, lemma_replay_append, replay_data, step_data, MatrixRowOperation};
use crate::linear::heap_matrix::lemma_cell_index;
use crate::traits::near_zero::NearZero;

verus! {

/// The operations of `T`, with `zero` and `one`, obey the laws of a field that the elimination
/// uses, exactly: a value is near zero only when it is `zero`, `one` is not `zero`, a value
/// other than `zero` times `one` divided by it is `one`, `zero` times any value (either way) is
/// `zero`, adding `zero` keeps a value, and `s + (-s) * one` is `zero`.
pub open spec fn exact_field<T: Copy + NearZero + Add<Output = T> + Mul<Output = T> + Div<Output = T> + Neg<Output = T>>(
    zero: T,
    one: T,
) -> bool {
    &&& forall|x: T| #[trigger] x.near_zero_spec() <==> x == zero
    &&& one != zero
    &&& forall|v: T| v != zero ==> #[trigger] v.mul_spec(one.div_spec(v)) == one
    &&& forall|f: T| #[trigger] zero.mul_spec(f) == zero
    &&& forall|f: T| #[trigger] f.mul_spec(zero) == zero
    &&& forall|x: T| #[trigger] x.add_spec(zero) == x
    &&& forall|s: T| #[trigger] s.add_spec(s.neg_spec().mul_spec(one)) == zero
}

/// The first cell of row `r` that is not near zero, if any: the pivot of the row.
pub open spec fn pivot_of<T: NearZero>(e: Seq<T>, cols: int, r: int) -> Option<int> {
    row_pivot(e, cols, r, 0)
}

/// The `rows x cols` matrix with cells `e` is in row echelon form: its rows that are not zero
/// come first, their pivots move right from row to row, and each pivot is `one`.
pub open spec fn row_echelon<T: NearZero>(e: Seq<T>, rows: int, cols: int, one: T) -> bool {
    &&& forall|r1: int, r2: int|
        0 <= r1 < r2 < rows && (#[trigger] pivot_of(e, cols, r2)) is Some ==> (#[trigger] pivot_of(e, cols, r1)) is Some
            && pivot_of(e, cols, r1)->0 < pivot_of(e, cols, r2)->0
    &&& forall|r: int| 0 <= r < rows && (#[trigger] pivot_of(e, cols, r)) is Some ==> at(e, cols, r, pivot_of(e, cols, r)->0) == one
}

/// A row whose cells before column `c` are near zero and whose cell `c` is not has its pivot at
/// `c`; a row whose cells are all near zero has none.
proof fn lemma_pivot_at<T: NearZero>(e: Seq<T>, cols: int, r: int, c: int, from: int)
    requires
        0 <= from <= c <= cols,
        forall|x: int| from <= x < c ==> (#[trigger] at(e, cols, r, x)).near_zero_spec(),
        c < cols ==> !at(e, cols, r, c).near_zero_spec(),
    ensures
        row_pivot(e, cols, r, from) == if c < cols {
            Some(c)
        } else {
            None::<int>
        },
    decreases c - from,
{
    if from < c {
        lemma_pivot_at(e, cols, r, c, from + 1);
    }
}

/// The pivot of a row, from column `from` on, is a column from `from` on.
proof fn lemma_pivot_bound<T: NearZero>(e: Seq<T>, cols: int, r: int, from: int)
    requires
        0 <= from,
    ensures
        row_pivot(e, cols, r, from) matches Some(l) ==> from <= l < cols,
    decreases cols - from,
{
    if from < cols {
        lemma_pivot_bound(e, cols, r, from + 1);
    }
}

/// Two rows with the same cells have the same pivot.
proof fn lemma_pivot_same<T: NearZero>(e1: Seq<T>, r1: int, e2: Seq<T>, r2: int, cols: int, from: int)
    requires
        0 <= from,
        forall|x: int| from <= x < cols ==> #[trigger] at(e1, cols, r1, x) == at(e2, cols, r2, x),
    ensures
        row_pivot(e1, cols, r1, from) == row_pivot(e2, cols, r2, from),
    decreases cols - from,
{
    if from < cols {
        lemma_pivot_same(e1, r1, e2, r2, cols, from + 1);
    }
}

/// The cell `(r, c)` once a row operation is applied.
proof fn lemma_step_cell<T: Copy + Add<Output = T> + Mul<Output = T>>(
    data: Seq<T>,
    rows: int,
    cols: int,
    op: MatrixRowOperation<T>,
    r: int,
    c: int,
)
    requires
        0 <= r < rows,
        0 <= c < cols,
        data.len() == rows * cols,
    ensures
        step_data(data, rows, cols, op).len() == data.len(),
        at(step_data(data, rows, cols, op), cols, r, c) == match op {
            MatrixRowOperation::Swap(i, j) => if r == i {
                at(data, cols, j as int, c)
            } else if r == j {
                at(data, cols, i as int, c)
            } else {
                at(data, cols, r, c)
            },
            MatrixRowOperation::Add(i, f, j) => if r == i {
                at(data, cols, r, c).add_spec(f.mul_spec(at(data, cols, j as int, c)))
            } else {
                at(data, cols, r, c)
            },
            MatrixRowOperation::Mul(i, x) => if r == i {
                at(data, cols, r, c).mul_spec(x)
            } else {
                at(data, cols, r, c)
            },
        },
{
    lemma_cell_index(r, c, rows, cols);
    lemma_join_index(r, c, cols);
}

/// Replaying one operation applies it.
proof fn lemma_replay_one<T: Copy + Add<Output = T> + Mul<Output = T>>(
    data: Seq<T>,
    rows: int,
    cols: int,
    op: MatrixRowOperation<T>,
)
    ensures
        replay_data(data, rows, cols, seq![op]) == step_data(data, rows, cols, op),
{
    let one_op = seq![op];
    assert(one_op.drop_last() =~= Seq::<MatrixRowOperation<T>>::empty());
    assert(one_op.last() == op);
    assert(replay_data(data, rows, cols, one_op.drop_last()) == data);
}

/// Replaying the operations that clear a column below a pivot gives the cells once it is
/// cleared.
proof fn lemma_replay_clear<T: Copy + NearZero + Add<Output = T> + Mul<Output = T> + Neg<Output = T>>(
    data: Seq<T>,
    rows: int,
    cols: int,
    p: int,
    c: int,
    r: int,
)
    ensures
        replay_data(data, rows, cols, clear_ops(data, rows, cols, p, c, r)) == clear_data(data, rows, cols, p, c, r),
    decreases rows - r,
{
    if r < rows && r >= 0 {
        let s = at(data, cols, r, c);
        if s.near_zero_spec() {
            lemma_replay_clear(data, rows, cols, p, c, r + 1);
        } else {
            let op = MatrixRowOperation::Add(r as usize, s.neg_spec(), p as usize);
            let d1 = step_data(data, rows, cols, op);
            lemma_replay_clear(d1, rows, cols, p, c, r + 1);
            lemma_replay_append(data, rows, cols, seq![op], clear_ops(d1, rows, cols, p, c, r + 1));
            lemma_replay_one(data, rows, cols, op);
        }
    }
}

/// The first row from row `i` on whose cell in column `c` is not near zero: the cells before it
/// are near zero.
proof fn lemma_first_pivot_facts<T: NearZero>(e: Seq<T>, rows: int, cols: int, c: int, i: int)
    requires
        0 <= i,
    ensures
        match first_pivot(e, rows, cols, c, i) {
            Some(j) => i <= j < rows && !at(e, cols, j, c).near_zero_spec(),
            None => forall|q: int| i <= q < rows ==> (#[trigger] at(e, cols, q, c)).near_zero_spec(),
        },
    decreases rows - i,
{
    if i < rows && at(e, cols, i, c).near_zero_spec() {
        lemma_first_pivot_facts(e, rows, cols, c, i + 1);
    }
}

/// Clearing column `c` below the pivot row `p`, whose cells before `c` are `zero` and whose cell
/// `c` is `one`, from row `r` on, when the rows from `r` on are `zero` before column `c`: the
/// rows before `r` are kept, and the rows from `r` on become `zero` up to column `c`.
proof fn lemma_clear_cells<T: Copy + NearZero + Add<Output = T> + Mul<Output = T> + Div<Output = T> + Neg<Output = T>>(
    d: Seq<T>,
    rows: int,
    cols: int,
    p: int,
    c: int,
    r: int,
    zero: T,
    one: T,
)
    requires
        exact_field(zero, one),
        d.len() == rows * cols,
        rows <= usize::MAX,
        0 <= p < r <= rows,
        0 <= c < cols,
        forall|x: int| 0 <= x < c ==> #[trigger] at(d, cols, p, x) == zero,
        at(d, cols, p, c) == one,
        forall|q: int, x: int| r <= q < rows && 0 <= x < c ==> #[trigger] at(d, cols, q, x) == zero,
    ensures
        clear_data(d, rows, cols, p, c, r).len() == d.len(),
        forall|q: int, x: int|
            0 <= q < r && 0 <= x < cols ==> #[trigger] at(clear_data(d, rows, cols, p, c, r), cols, q, x) == at(d, cols, q, x),
        forall|q: int, x: int|
            r <= q < rows && 0 <= x <= c ==> #[trigger] at(clear_data(d, rows, cols, p, c, r), cols, q, x) == zero,
    decreases rows - r,
{
    if r < rows {
        let s = at(d, cols, r, c);
        if s.near_zero_spec() {
            lemma_clear_cells(d, rows, cols, p, c, r + 1, zero, one);
            assert(s == zero);
        } else {
            let op = MatrixRowOperation::Add(r as usize, s.neg_spec(), p as usize);
            let d1 = step_data(d, rows, cols, op);
            assert forall|q: int, x: int| 0 <= q < rows && 0 <= x < cols implies #[trigger] at(d1, cols, q, x) == if q == r {
                at(d, cols, q, x).add_spec(s.neg_spec().mul_spec(at(d, cols, p, x)))
            } else {
                at(d, cols, q, x)
            } by {
                lemma_step_cell(d, rows, cols, op, q, x);
            }
            lemma_step_cell(d, rows, cols, op, 0, 0);
            assert forall|x: int| 0 <= x <= c implies #[trigger] at(d1, cols, r, x) == zero by {
                if x < c {
                    assert(at(d, cols, p, x) == zero);
                    assert(at(d, cols, r, x) == zero);
                    assert(s.neg_spec().mul_spec(zero) == zero);
                }
            }
            lemma_clear_cells(d1, rows, cols, p, c, r + 1, zero, one);
        }
    }
}

/// What the elimination from row `i` and column `c` on keeps: each row before `i` has its pivot,
/// `one`, before column `c`, the pivots moving right from row to row, and the rows from `i` on
/// are `zero` before column `c`.
pub open spec fn elimination_state<T: NearZero>(d: Seq<T>, rows: int, cols: int, i: int, c: int, zero: T, one: T) -> bool {
    &&& forall|p: int|
        0 <= p < i ==> (#[trigger] pivot_of(d, cols, p)) is Some && pivot_of(d, cols, p)->0 < c && at(
            d,
            cols,
            p,
            pivot_of(d, cols, p)->0,
        ) == one
    &&& forall|p1: int, p2: int|
        0 <= p1 < p2 < i ==> (#[trigger] pivot_of(d, cols, p1))->0 < (#[trigger] pivot_of(d, cols, p2))->0
    &&& forall|q: int, x: int| i <= q < rows && 0 <= x < c ==> #[trigger] at(d, cols, q, x) == zero
}

/// The elimination from row `i` and column `c` on ends in a row echelon form.
proof fn lemma_elimination_echelon<T: Copy + NearZero + Add<Output = T> + Mul<Output = T> + Div<Output = T> + Neg<Output = T>>(
    d: Seq<T>,
    rows: int,
    cols: int,
    i: int,
    c: int,
    zero: T,
    one: T,
)
    requires
        exact_field(zero, one),
        d.len() == rows * cols,
        rows <= usize::MAX,
        0 <= i <= rows,
        0 <= c <= cols,
        elimination_state(d, rows, cols, i, c, zero, one),
    ensures
        row_echelon(replay_data(d, rows, cols, elim_ops(d, rows, cols, i, c, one)), rows, cols, one),
    decreases cols - c,
{
    if i >= rows || c >= cols {
        assert forall|q: int| i <= q < rows implies #[trigger] pivot_of(d, cols, q) is None by {
            lemma_pivot_at(d, cols, q, cols, 0);
        }
        assert(elim_ops(d, rows, cols, i, c, one) =~= Seq::<MatrixRowOperation<T>>::empty());
        assert(replay_data(d, rows, cols, elim_ops(d, rows, cols, i, c, one)) == d);
        return ;
    }
    lemma_first_pivot_facts(d, rows, cols, c, i);
    match first_pivot(d, rows, cols, c, i) {
        None => {
            lemma_elimination_echelon(d, rows, cols, i, c + 1, zero, one);
        },
        Some(j) => {
            let v = at(d, cols, j, c);
            let f = one.div_spec(v);
            let swap = MatrixRowOperation::Swap(i as usize, j as usize);
            let d1 = step_data(d, rows, cols, swap);
            let mul = MatrixRowOperation::Mul(i as usize, f);
            let d2 = step_data(d1, rows, cols, mul);
            let d3 = clear_data(d2, rows, cols, i, c, i + 1);
            lemma_step_cell(d, rows, cols, swap, 0, 0);
            lemma_step_cell(d1, rows, cols, mul, 0, 0);
            assert(v != zero);
            // the cells after the swap and the scaling
            assert forall|q: int, x: int| 0 <= q < rows && 0 <= x < cols implies #[trigger] at(d2, cols, q, x) == if q == i {
                at(d, cols, j, x).mul_spec(f)
            } else if q == j {
                at(d, cols, i, x)
            } else {
                at(d, cols, q, x)
            } by {
                lemma_step_cell(d, rows, cols, swap, q, x);
                lemma_step_cell(d1, rows, cols, mul, q, x);
            }
            assert forall|x: int| 0 <= x < c implies #[trigger] at(d2, cols, i, x) == zero by {
                assert(at(d, cols, j, x) == zero);
            }
            assert(at(d2, cols, i, c) == one);
            assert forall|q: int, x: int| i + 1 <= q < rows && 0 <= x < c implies #[trigger] at(d2, cols, q, x) == zero by {
                if q == j {
                    assert(at(d, cols, i, x) == zero);
                } else {
                    assert(at(d, cols, q, x) == zero);
                }
            }
            lemma_clear_cells(d2, rows, cols, i, c, i + 1, zero, one);
            // the rows before `i` are kept
            assert forall|p: int| 0 <= p < i implies #[trigger] pivot_of(d3, cols, p) == pivot_of(d, cols, p) by {
                assert forall|x: int| 0 <= x < cols implies #[trigger] at(d3, cols, p, x) == at(d, cols, p, x) by {
                    assert(at(d3, cols, p, x) == at(d2, cols, p, x));
                }
                lemma_pivot_same(d3, p, d, p, cols, 0);
            }
            // row `i` has its pivot, `one`, at column `c`
            assert forall|x: int| 0 <= x < c implies (#[trigger] at(d3, cols, i, x)).near_zero_spec() by {
                assert(at(d3, cols, i, x) == at(d2, cols, i, x));
            }
            assert(at(d3, cols, i, c) == at(d2, cols, i, c));
            assert(!one.near_zero_spec());
            lemma_pivot_at(d3, cols, i, c, 0);
            assert(pivot_of(d3, cols, i) == Some(c));
            assert forall|q: int, x: int| i + 1 <= q < rows && 0 <= x < c + 1 implies #[trigger] at(d3, cols, q, x) == zero by {
            }
            assert forall|p: int| 0 <= p < i + 1 implies (#[trigger] pivot_of(d3, cols, p)) is Some && pivot_of(d3, cols, p)->0 < c + 1
                && at(d3, cols, p, pivot_of(d3, cols, p)->0) == one by {
                if p < i {
                    assert(pivot_of(d3, cols, p) == pivot_of(d, cols, p));
                    lemma_pivot_bound(d, cols, p, 0);
                    let l = pivot_of(d, cols, p)->0;
                    assert(at(d3, cols, p, l) == at(d2, cols, p, l));
                }
            }
            assert forall|p1: int, p2: int| 0 <= p1 < p2 < i + 1 implies (#[trigger] pivot_of(d3, cols, p1))->0 < (#[trigger] pivot_of(
                d3,
                cols,
                p2,
            ))->0 by {
                assert(pivot_of(d3, cols, p1) == pivot_of(d, cols, p1));
                if p2 < i {
                    assert(pivot_of(d3, cols, p2) == pivot_of(d, cols, p2));
                }
            }
            lemma_elimination_echelon(d3, rows, cols, i + 1, c + 1, zero, one);
            // replaying the operations of this column, then the rest
            let rest = elim_ops(d3, rows, cols, i + 1, c + 1, one);
            let clear = clear_ops(d2, rows, cols, i, c, i + 1);
            assert(seq![swap, mul] =~= seq![swap] + seq![mul]);
            lemma_replay_append(d, rows, cols, seq![swap], seq![mul]);
            lemma_replay_one(d, rows, cols, swap);
            lemma_replay_one(d1, rows, cols, mul);
            lemma_replay_append(d, rows, cols, seq![swap, mul], clear);
            lemma_replay_clear(d2, rows, cols, i, c, i + 1);
            lemma_replay_append(d, rows, cols, seq![swap, mul] + clear, rest);
        },
    }
}

/// Over scalars that obey the laws of a field exactly (see [`exact_field`]), the Gaussian
/// elimination gives a row echelon form: the rows that are not zero come first, their pivots
/// move right from row to row, and each pivot is `one`.
pub proof fn lemma_gaussian_elimination_echelon<T: Copy + NearZero + Add<Output = T> + Mul<Output = T> + Div<Output = T> + Neg<Output = T>>(
    data: Seq<T>,
    rows: int,
    cols: int,
    zero: T,
    one: T,
)
    requires
        exact_field(zero, one),
        0 <= rows <= usize::MAX,
        0 <= cols,
        data.len() == rows * cols,
    ensures
        row_echelon(replay_data(data, rows, cols, gaussian_steps(data, rows, cols, one)), rows, cols, one),
{
    if rows == 0 || cols == 0 {
        assert(gaussian_steps(data, rows, cols, one) =~= Seq::<MatrixRowOperation<T>>::empty());
        assert forall|q: int| 0 <= q < rows implies #[trigger] pivot_of(data, cols, q) is None by {
            lemma_pivot_at(data, cols, q, cols, 0);
        }
    } else {
        lemma_elimination_echelon(data, rows, cols, 0, 0, zero, one);
    }
}

/// Clearing column `p` above row `i`, from row `j` on, adds to each row from `j` to `i - 1` a
/// multiple of row `i`; the other rows are kept.
proof fn lemma_above_cells<T: Copy + NearZero + Add<Output = T> + Mul<Output = T> + Div<Output = T> + Neg<Output = T>>(
    d: Seq<T>,
    rows: int,
    cols: int,
    i: int,
    p: int,
    j: int,
    zero: T,
    one: T,
)
    requires
        exact_field(zero, one),
        d.len() == rows * cols,
        rows <= usize::MAX,
        0 <= j <= i < rows,
        0 <= p < cols,
    ensures
        above_data(d, rows, cols, i, p, j).len() == d.len(),
        forall|q: int, x: int|
            0 <= q < rows && 0 <= x < cols && !(j <= q < i) ==> #[trigger] at(above_data(d, rows, cols, i, p, j), cols, q, x)
                == at(d, cols, q, x),
        forall|q: int, x: int|
            j <= q < i && 0 <= x < cols && at(d, cols, i, x) == zero ==> #[trigger] at(
                above_data(d, rows, cols, i, p, j),
                cols,
                q,
                x,
            ) == at(d, cols, q, x),
        forall|q: int, x: int|
            j <= q < i && 0 <= x < cols ==> #[trigger] at(above_data(d, rows, cols, i, p, j), cols, q, x) == at(
                d,
                cols,
                q,
                x,
            ).add_spec(at(d, cols, q, p).neg_spec().mul_spec(at(d, cols, i, x))),
    decreases i - j,
{
    if j < i {
        let op = MatrixRowOperation::Add(j as usize, at(d, cols, j, p).neg_spec(), i as usize);
        let d1 = step_data(d, rows, cols, op);
        assert(d1.len() == d.len());
        assert forall|q: int, x: int| 0 <= q < rows && 0 <= x < cols implies #[trigger] at(d1, cols, q, x) == if q == j {
            at(d, cols, q, x).add_spec(at(d, cols, j, p).neg_spec().mul_spec(at(d, cols, i, x)))
        } else {
            at(d, cols, q, x)
        } by {
            lemma_step_cell(d, rows, cols, op, q, x);
        }
        lemma_above_cells(d1, rows, cols, i, p, j + 1, zero, one);
        assert forall|q: int, x: int|
            j <= q < i && 0 <= x < cols && at(d, cols, i, x) == zero implies #[trigger] at(
                above_data(d, rows, cols, i, p, j),
                cols,
                q,
                x,
            ) == at(d, cols, q, x) by {
            assert(at(d1, cols, i, x) == at(d, cols, i, x));
            if q == j {
                assert(at(d, cols, j, p).neg_spec().mul_spec(zero) == zero);
            }
        }
        assert forall|q: int, x: int|
            j <= q < i && 0 <= x < cols implies #[trigger] at(above_data(d, rows, cols, i, p, j), cols, q, x) == at(
                d,
                cols,
                q,
                x,
            ).add_spec(at(d, cols, q, p).neg_spec().mul_spec(at(d, cols, i, x))) by {
            assert(at(d1, cols, i, x) == at(d, cols, i, x));
            if q > j {
                assert(at(d1, cols, q, x) == at(d, cols, q, x));
                assert(at(d1, cols, q, p) == at(d, cols, q, p));
            }
        }
    }
}

/// Rows whose pivots are those of `e` for rows `0` to `i`, in a row echelon form `e`: the
/// reduction, from row `i` up, finds a pivot in each row it works on.
proof fn lemma_reduction_defined_from<T: Copy + NearZero + Add<Output = T> + Mul<Output = T> + Div<Output = T> + Neg<Output = T>>(
    e: Seq<T>,
    d: Seq<T>,
    rows: int,
    cols: int,
    i: int,
    zero: T,
    one: T,
)
    requires
        exact_field(zero, one),
        rows <= usize::MAX,
        e.len() == rows * cols,
        d.len() == rows * cols,
        row_echelon(e, rows, cols, one),
        i < rows,
        forall|r: int| 0 <= r <= i ==> (#[trigger] pivot_of(e, cols, r)) is Some,
        forall|r: int| 0 <= r <= i ==> #[trigger] pivot_of(d, cols, r) == pivot_of(e, cols, r),
    ensures
        above_pivots_defined(d, rows, cols, i),
    decreases i,
{
    if i > 0 {
        let p = pivot_of(d, cols, i)->0;
        lemma_pivot_bound(d, cols, i, 0);
        let d1 = above_data(d, rows, cols, i, p, 0);
        lemma_above_cells(d, rows, cols, i, p, 0, zero, one);
        assert forall|r: int| 0 <= r <= i - 1 implies #[trigger] pivot_of(d1, cols, r) == pivot_of(e, cols, r) by {
            assert(pivot_of(e, cols, r) is Some && pivot_of(e, cols, r)->0 < pivot_of(e, cols, i)->0);
            let l = pivot_of(d, cols, r)->0;
            lemma_pivot_bound(d, cols, r, 0);
            lemma_row_pivot_cells(d, cols, r, 0);
            lemma_row_pivot_cells(d, cols, i, 0);
            assert forall|x: int| 0 <= x <= l implies #[trigger] at(d1, cols, r, x) == at(d, cols, r, x) by {
                assert(x < p);
                assert(at(d, cols, i, x).near_zero_spec());
            }
            assert forall|x: int| 0 <= x < l implies (#[trigger] at(d1, cols, r, x)).near_zero_spec() by {
                assert(at(d1, cols, r, x) == at(d, cols, r, x));
            }
            assert(at(d1, cols, r, l) == at(d, cols, r, l));
            lemma_pivot_at(d1, cols, r, l, 0);
        }
        lemma_reduction_defined_from(e, d1, rows, cols, i - 1, zero, one);
    }
}

/// The cells of a row before its pivot, from column `from` on, are near zero, and its pivot is
/// not.
proof fn lemma_row_pivot_cells<T: NearZero>(e: Seq<T>, cols: int, r: int, from: int)
    requires
        0 <= from,
    ensures
        match row_pivot(e, cols, r, from) {
            Some(l) => !at(e, cols, r, l).near_zero_spec() && forall|x: int|
                from <= x < l ==> (#[trigger] at(e, cols, r, x)).near_zero_spec(),
            None => forall|x: int| from <= x < cols ==> (#[trigger] at(e, cols, r, x)).near_zero_spec(),
        },
    decreases cols - from,
{
    if from < cols && at(e, cols, r, from).near_zero_spec() {
        lemma_row_pivot_cells(e, cols, r, from + 1);
    }
}

/// In a row echelon form, the rows before the rank are the rows that are not zero.
proof fn lemma_rank_rows<T: NearZero>(e: Seq<T>, rows: int, cols: int, one: T, n: int)
    requires
        row_echelon(e, rows, cols, one),
        0 <= n <= rows,
    ensures
        rank_of(e, cols, n) <= n,
        forall|r: int| 0 <= r < rank_of(e, cols, n) ==> (#[trigger] pivot_of(e, cols, r)) is Some,
        forall|r: int| rank_of(e, cols, n) <= r < n ==> (#[trigger] pivot_of(e, cols, r)) is None,
    decreases n,
{
    if n > 0 {
        lemma_rank_rows(e, rows, cols, one, n - 1);
        let r = n - 1;
        lemma_row_pivot_cells(e, cols, r, 0);
        if pivot_of(e, cols, r) is Some {
            let l = pivot_of(e, cols, r)->0;
            lemma_pivot_bound(e, cols, r, 0);
            assert(!at(e, cols, r, l).near_zero_spec());
            assert(row_not_near_zero(e, cols, r));
            assert forall|q: int| 0 <= q < r implies (#[trigger] pivot_of(e, cols, q)) is Some by {
                assert(pivot_of(e, cols, r) is Some);
            }
            let k = rank_of(e, cols, n - 1) as int;
            if k < n - 1 {
                assert(pivot_of(e, cols, k) is Some);
                assert(pivot_of(e, cols, k) is None);
            }
        } else {
            if row_not_near_zero(e, cols, r) {
                let c = choose|c: int| 0 <= c < cols && !(#[trigger] at(e, cols, r, c)).near_zero_spec();
                assert(at(e, cols, r, c).near_zero_spec());
            }
        }
    }
}

/// Over scalars that obey the laws of a field exactly (see [`exact_field`]), the reduced row
/// echelon form can always be computed: the reduction of the row echelon form that the
/// Gaussian elimination gives finds a pivot in each row it works on.
pub proof fn lemma_rref_always_defined<T: Copy + NearZero + Add<Output = T> + Mul<Output = T> + Div<Output = T> + Neg<Output = T>>(
    data: Seq<T>,
    rows: int,
    cols: int,
    zero: T,
    one: T,
)
    requires
        exact_field(zero, one),
        0 <= rows <= usize::MAX,
        0 <= cols,
        data.len() == rows * cols,
    ensures
        rref_defined(data, rows, cols, one),
{
    lemma_gaussian_elimination_echelon(data, rows, cols, zero, one);
    let g = gaussian_steps(data, rows, cols, one);
    let e = replay_data(data, rows, cols, g);
    crate::linear::gauss::lemma_replay_len(data, rows, cols, g);
    lemma_rank_rows(e, rows, cols, one, rows);
    let m = rank_of(e, cols, rows) as int;
    if m > 0 {
        lemma_reduction_defined_from(e, e, rows, cols, m - 1, zero, one);
    }
}

/// The `rows x cols` matrix with cells `e` is in reduced row echelon form: a row echelon form
/// (see [`row_echelon`]) in which the column of each pivot is `zero` in every other row.
pub open spec fn reduced_row_echelon<T: NearZero>(e: Seq<T>, rows: int, cols: int, zero: T, one: T) -> bool {
    &&& row_echelon(e, rows, cols, one)
    &&& forall|r: int, q: int|
        0 <= r < rows && 0 <= q < rows && q != r && (#[trigger] pivot_of(e, cols, r)) is Some ==> #[trigger] at(
            e,
            cols,
            q,
            pivot_of(e, cols, r)->0,
        ) == zero
}

/// Replaying the operations that clear a column above a pivot gives the cells once it is
/// cleared.
proof fn lemma_replay_above<T: Copy + NearZero + Add<Output = T> + Mul<Output = T> + Neg<Output = T>>(
    data: Seq<T>,
    rows: int,
    cols: int,
    i: int,
    p: int,
    j: int,
)
    ensures
        replay_data(data, rows, cols, above_ops(data, rows, cols, i, p, j)) == above_data(data, rows, cols, i, p, j),
    decreases i - j,
{
    if j < i && j >= 0 {
        let op = MatrixRowOperation::Add(j as usize, at(data, cols, j, p).neg_spec(), i as usize);
        let d1 = step_data(data, rows, cols, op);
        lemma_replay_above(d1, rows, cols, i, p, j + 1);
        lemma_replay_append(data, rows, cols, seq![op], above_ops(d1, rows, cols, i, p, j + 1));
        lemma_replay_one(data, rows, cols, op);
    }
}

/// What the reduction keeps while it works up from row `i`, in a row echelon form `e` of rank
/// `m`: the rows before `m` keep their pivots, `one`, with `zero` before them; the rows from `m`
/// on are those of `e`; and the column of the pivot of each row from `i + 1` to `m - 1` is
/// `zero` in every other row.
pub open spec fn reduction_state<T: NearZero>(
    e: Seq<T>,
    d: Seq<T>,
    rows: int,
    cols: int,
    m: int,
    i: int,
    zero: T,
    one: T,
) -> bool {
    &&& forall|r: int| 0 <= r < m ==> #[trigger] pivot_of(d, cols, r) == pivot_of(e, cols, r)
    &&& forall|r: int, x: int|
        0 <= r < m && 0 <= x < pivot_of(e, cols, r)->0 ==> #[trigger] at(d, cols, r, x) == zero
    &&& forall|r: int| 0 <= r < m ==> #[trigger] at(d, cols, r, pivot_of(e, cols, r)->0) == one
    &&& forall|r: int, x: int| m <= r < rows && 0 <= x < cols ==> #[trigger] at(d, cols, r, x) == zero
    &&& forall|r: int, q: int|
        i < r < m && 0 <= q < rows && q != r ==> #[trigger] at(d, cols, q, pivot_of(e, cols, r)->0) == zero
}

/// The reduction from row `i` up ends in a reduced row echelon form.
proof fn lemma_reduction_reduces<T: Copy + NearZero + Add<Output = T> + Mul<Output = T> + Div<Output = T> + Neg<Output = T>>(
    e: Seq<T>,
    d: Seq<T>,
    rows: int,
    cols: int,
    m: int,
    i: int,
    zero: T,
    one: T,
)
    requires
        exact_field(zero, one),
        rows <= usize::MAX,
        e.len() == rows * cols,
        d.len() == rows * cols,
        row_echelon(e, rows, cols, one),
        0 <= m <= rows,
        forall|r: int| 0 <= r < m ==> (#[trigger] pivot_of(e, cols, r)) is Some,
        forall|r: int| m <= r < rows ==> (#[trigger] pivot_of(e, cols, r)) is None,
        0 <= i < m,
        reduction_state(e, d, rows, cols, m, i, zero, one),
    ensures
        reduced_row_echelon(replay_data(d, rows, cols, above_pivots_ops(d, rows, cols, i)), rows, cols, zero, one),
    decreases i,
{
    lemma_pivot_bound(e, cols, i, 0);
    let p = pivot_of(e, cols, i)->0;
    if i == 0 {
        assert(above_pivots_ops(d, rows, cols, i) =~= Seq::<MatrixRowOperation<T>>::empty());
        lemma_final_reduced(e, d, rows, cols, m, zero, one);
    } else {
        let d1 = above_data(d, rows, cols, i, p, 0);
        lemma_above_cells(d, rows, cols, i, p, 0, zero, one);
        assert(pivot_of(d, cols, i) == Some(p));
        assert forall|r: int, x: int| 0 <= r < m && 0 <= x < pivot_of(e, cols, r)->0 implies #[trigger] at(d1, cols, r, x) == zero by {
            lemma_pivot_bound(e, cols, r, 0);
            if r < i {
                assert(pivot_of(e, cols, r)->0 < p);
                assert(at(d, cols, i, x) == zero);
                assert(at(d, cols, r, x) == zero);
            }
        }
        assert forall|r: int| 0 <= r < m implies #[trigger] at(d1, cols, r, pivot_of(e, cols, r)->0) == one by {
            lemma_pivot_bound(e, cols, r, 0);
            if r < i {
                assert(pivot_of(e, cols, r)->0 < p);
                assert(at(d, cols, i, pivot_of(e, cols, r)->0) == zero);
            }
        }
        assert forall|r: int| 0 <= r < m implies #[trigger] pivot_of(d1, cols, r) == pivot_of(e, cols, r) by {
            lemma_pivot_bound(e, cols, r, 0);
            let l = pivot_of(e, cols, r)->0;
            assert forall|x: int| 0 <= x < l implies (#[trigger] at(d1, cols, r, x)).near_zero_spec() by {
                assert(at(d1, cols, r, x) == zero);
            }
            assert(at(d1, cols, r, l) == one);
            assert(!one.near_zero_spec());
            lemma_pivot_at(d1, cols, r, l, 0);
        }
        assert forall|r: int, q: int| i - 1 < r < m && 0 <= q < rows && q != r implies #[trigger] at(
            d1,
            cols,
            q,
            pivot_of(e, cols, r)->0,
        ) == zero by {
            lemma_pivot_bound(e, cols, r, 0);
            let l = pivot_of(e, cols, r)->0;
            if q < i {
                let s = at(d, cols, q, p);
                if r == i {
                    assert(at(d, cols, i, p) == one);
                    assert(at(d1, cols, q, p) == s.add_spec(s.neg_spec().mul_spec(one)));
                } else {
                    assert(at(d, cols, q, l) == zero);
                    assert(at(d, cols, i, l) == zero);
                    assert(s.neg_spec().mul_spec(zero) == zero);
                }
            } else {
                assert(at(d1, cols, q, l) == at(d, cols, q, l));
                if r == i {
                    if q < m {
                        assert(pivot_of(e, cols, i)->0 < pivot_of(e, cols, q)->0);
                        lemma_pivot_bound(e, cols, q, 0);
                    }
                }
            }
        }
        lemma_reduction_reduces(e, d1, rows, cols, m, i - 1, zero, one);
        let first = above_ops(d, rows, cols, i, p, 0);
        lemma_replay_above(d, rows, cols, i, p, 0);
        lemma_replay_append(d, rows, cols, first, above_pivots_ops(d1, rows, cols, i - 1));
    }
}

/// Once every pivot column above row `0` is cleared, the form is reduced.
proof fn lemma_final_reduced<T: Copy + NearZero + Add<Output = T> + Mul<Output = T> + Div<Output = T> + Neg<Output = T>>(
    e: Seq<T>,
    d: Seq<T>,
    rows: int,
    cols: int,
    m: int,
    zero: T,
    one: T,
)
    requires
        exact_field(zero, one),
        e.len() == rows * cols,
        d.len() == rows * cols,
        row_echelon(e, rows, cols, one),
        0 < m <= rows,
        forall|r: int| 0 <= r < m ==> (#[trigger] pivot_of(e, cols, r)) is Some,
        forall|r: int| m <= r < rows ==> (#[trigger] pivot_of(e, cols, r)) is None,
        reduction_state(e, d, rows, cols, m, 0, zero, one),
    ensures
        reduced_row_echelon(d, rows, cols, zero, one),
{
    assert forall|r: int| m <= r < rows implies #[trigger] pivot_of(d, cols, r) is None by {
        assert forall|x: int| 0 <= x < cols implies (#[trigger] at(d, cols, r, x)).near_zero_spec() by {
            assert(at(d, cols, r, x) == zero);
        }
        lemma_pivot_at(d, cols, r, cols, 0);
    }
    assert forall|r1: int, r2: int|
        0 <= r1 < r2 < rows && (#[trigger] pivot_of(d, cols, r2)) is Some implies (#[trigger] pivot_of(d, cols, r1)) is Some
        && pivot_of(d, cols, r1)->0 < pivot_of(d, cols, r2)->0 by {
        assert(pivot_of(d, cols, r2) == pivot_of(e, cols, r2));
        assert(pivot_of(d, cols, r1) == pivot_of(e, cols, r1));
        assert(pivot_of(e, cols, r2) is Some);
    }
    assert forall|r: int, q: int|
        0 <= r < rows && 0 <= q < rows && q != r && (#[trigger] pivot_of(d, cols, r)) is Some implies #[trigger] at(
            d,
            cols,
            q,
            pivot_of(d, cols, r)->0,
        ) == zero by {
        assert(r < m);
        assert(pivot_of(d, cols, r) == pivot_of(e, cols, r));
        lemma_pivot_bound(e, cols, r, 0);
        if r == 0 {
            if q < m {
                assert(pivot_of(e, cols, 0)->0 < pivot_of(e, cols, q)->0);
            }
        }
    }
}

/// Over scalars that obey the laws of a field exactly (see [`exact_field`]), the reduced row
/// echelon form is reduced: a row echelon form in which each pivot column is `zero` in the
/// other rows.
pub proof fn lemma_rref_is_reduced<T: Copy + NearZero + Add<Output = T> + Mul<Output = T> + Div<Output = T> + Neg<Output = T>>(
    data: Seq<T>,
    rows: int,
    cols: int,
    zero: T,
    one: T,
)
    requires
        exact_field(zero, one),
        0 <= rows <= usize::MAX,
        0 <= cols,
        data.len() == rows * cols,
    ensures
        reduced_row_echelon(replay_data(data, rows, cols, rref_steps(data, rows, cols, one)), rows, cols, zero, one),
{
    lemma_gaussian_elimination_echelon(data, rows, cols, zero, one);
    let g = gaussian_steps(data, rows, cols, one);
    let e = replay_data(data, rows, cols, g);
    crate::linear::gauss::lemma_replay_len(data, rows, cols, g);
    lemma_rank_rows(e, rows, cols, one, rows);
    let m = rank_of(e, cols, rows) as int;
    lemma_replay_append(data, rows, cols, g, reduction_steps(e, rows, cols));
    assert forall|r: int, x: int| 0 <= r < m && 0 <= x < pivot_of(e, cols, r)->0 implies #[trigger] at(e, cols, r, x) == zero by {
        lemma_row_pivot_cells(e, cols, r, 0);
    }
    assert forall|r: int, x: int| m <= r < rows && 0 <= x < cols implies #[trigger] at(e, cols, r, x) == zero by {
        lemma_row_pivot_cells(e, cols, r, 0);
    }
    if m == 0 {
        assert(reduction_steps(e, rows, cols) =~= Seq::<MatrixRowOperation<T>>::empty());
        assert forall|r: int, q: int|
            0 <= r < rows && 0 <= q < rows && q != r && (#[trigger] pivot_of(e, cols, r)) is Some implies #[trigger] at(
                e,
                cols,
                q,
                pivot_of(e, cols, r)->0,
            ) == zero by {
        }
    } else {
        lemma_reduction_reduces(e, e, rows, cols, m, m - 1, zero, one);
    }
}

} // verus!
