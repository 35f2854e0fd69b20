//! The solutions of a homogeneous system over exact integers: the kernel vectors that
//! [`LinearSolver::solve_homogenous`](crate::linear::solver::LinearSolver::solve_homogenous)
//! reads off a reduced row echelon form solve it.

use vstd::prelude::*;
use vstd::std_specs::ops::{AddSpec, MulSpec, NegSpec};
use crate::linear::elimination::{at, rank_of, row_not_near_zero, row_pivot, rref_steps};
use crate::linear::gauss::{
    col_of, lemma_join_index, lemma_replay_len, replay_data, replay_ok, row_of, step_data, step_ok, MatrixRowOperation,
};
use crate::linear::heap_matrix::lemma_cell_index;
use crate::traits::near_zero::NearZero;
use crate::linear::solver::{free_vector, kernel_vectors, pending_pivots, pivot_columns, pivot_scan, rref_cells};

verus! {

/// Row `r` holds a cell that is not zero.
pub open spec fn nonzero_row(e: Seq<i64>, cols: int, r: int) -> bool {
    row_pivot(e, cols, r, 0) is Some
}

/// The column of the first cell of row `r` that is not zero.
pub open spec fn lead(e: Seq<i64>, cols: int, r: int) -> int {
    row_pivot(e, cols, r, 0)->0
}

/// The `rows x cols` matrix with cells `e` is in reduced row echelon form: its rows that are not
/// zero come first, their first cells not zero (their pivots) move right from row to row, each
/// pivot is `1`, and every other cell of a pivot's column is `0`.
pub open spec fn reduced_echelon(e: Seq<i64>, rows: int, cols: int) -> bool {
    &&& forall|r1: int, r2: int|
        0 <= r1 < r2 < rows && #[trigger] nonzero_row(e, cols, r2) ==> #[trigger] nonzero_row(e, cols, r1)
            && lead(e, cols, r1) < lead(e, cols, r2)
    &&& forall|r: int| 0 <= r < rows && #[trigger] nonzero_row(e, cols, r) ==> at(e, cols, r, lead(e, cols, r)) == 1
    &&& forall|r: int, s: int|
        0 <= r < rows && 0 <= s < rows && s != r && #[trigger] nonzero_row(e, cols, r) ==> #[trigger] at(
            e,
            cols,
            s,
            lead(e, cols, r),
        ) == 0
}

/// The first cell not zero of row `r` from column `c` on: the cells before it are zero.
proof fn lemma_row_pivot_facts(e: Seq<i64>, cols: int, r: int, c: int)
    requires
        0 <= c,
    ensures
        match row_pivot(e, cols, r, c) {
            Some(p) => c <= p < cols && at(e, cols, r, p) != 0 && forall|x: int|
                c <= x < p ==> #[trigger] at(e, cols, r, x) == 0,
            None => forall|x: int| c <= x < cols ==> #[trigger] at(e, cols, r, x) == 0,
        },
    decreases cols - c,
{
    if c < cols && at(e, cols, r, c) == 0 {
        lemma_row_pivot_facts(e, cols, r, c + 1);
    }
}

/// Searching a row from a column up to its first cell not zero finds that cell.
proof fn lemma_row_pivot_from(e: Seq<i64>, cols: int, r: int, f: int)
    requires
        0 <= f,
        nonzero_row(e, cols, r) ==> f <= lead(e, cols, r),
    ensures
        row_pivot(e, cols, r, f) == row_pivot(e, cols, r, 0),
{
    lemma_row_pivot_facts(e, cols, r, 0);
    lemma_row_pivot_facts(e, cols, r, f);
    match row_pivot(e, cols, r, 0) {
        Some(p) => {
            match row_pivot(e, cols, r, f) {
                Some(q) => {
                    if q < p {
                        assert(at(e, cols, r, q) == 0);
                    }
                    if q > p {
                        assert(at(e, cols, r, p) == 0);
                    }
                },
                None => {
                    assert(at(e, cols, r, p) == 0);
                },
            }
        },
        None => {
            match row_pivot(e, cols, r, f) {
                Some(q) => {
                    assert(at(e, cols, r, q) == 0);
                },
                None => {},
            }
        },
    }
}

/// The pivot rows found by scanning a reduced row echelon form from row `i` on: each row that is
/// not zero is the pivot row of the column of its pivot, and no other column has a pivot row.
proof fn lemma_pivot_scan(e: Seq<i64>, rows: int, cols: int, i: int, from: int, out: Seq<Option<usize>>)
    requires
        0 <= i <= rows <= usize::MAX,
        reduced_echelon(e, rows, cols),
        out.len() == cols,
        0 <= from,
        i == 0 ==> from == 0,
        i > 0 ==> nonzero_row(e, cols, i - 1) && from == lead(e, cols, i - 1),
        forall|c: int| 0 <= c < cols ==> (#[trigger] out[c] matches Some(r) ==> r < i && nonzero_row(e, cols, r as int)
            && lead(e, cols, r as int) == c),
        forall|r: int| 0 <= r < i && nonzero_row(e, cols, r) ==> #[trigger] out[lead(e, cols, r)] == Some(r as usize),
    ensures
        pivot_scan(e, rows, cols, i, from, out).len() == cols,
        forall|c: int| 0 <= c < cols ==> (#[trigger] pivot_scan(e, rows, cols, i, from, out)[c] matches Some(r) ==> r
            < rows && nonzero_row(e, cols, r as int) && lead(e, cols, r as int) == c),
        forall|r: int|
            0 <= r < rows && nonzero_row(e, cols, r) ==> #[trigger] pivot_scan(e, rows, cols, i, from, out)[lead(
                e,
                cols,
                r,
            )] == Some(r as usize),
    decreases rows - i,
{
    if i < rows {
        lemma_row_pivot_facts(e, cols, i, 0);
        if i > 0 && nonzero_row(e, cols, i) {
            assert(nonzero_row(e, cols, i - 1) && lead(e, cols, i - 1) < lead(e, cols, i));
        }
        lemma_row_pivot_from(e, cols, i, from);
        if nonzero_row(e, cols, i) {
            let k = lead(e, cols, i);
            let next = out.update(k, Some(i as usize));
            assert forall|r: int| 0 <= r < i + 1 && nonzero_row(e, cols, r) implies #[trigger] next[lead(e, cols, r)] == Some(r as usize) by {
                lemma_row_pivot_facts(e, cols, r, 0);
                if r < i {
                    assert(nonzero_row(e, cols, r) && lead(e, cols, r) < lead(e, cols, i));
                    assert(out[lead(e, cols, r)] == Some(r as usize));
                }
            }
            assert forall|c: int| 0 <= c < cols implies (#[trigger] next[c] matches Some(r) ==> r < i + 1 && nonzero_row(e, cols, r as int)
                && lead(e, cols, r as int) == c) by {
                if c != k {
                    assert(next[c] == out[c]);
                }
            }
            lemma_pivot_scan(e, rows, cols, i + 1, k, next);
        } else {
            assert forall|r: int| 0 <= r < rows && nonzero_row(e, cols, r) implies r < i by {
                if r > i {
                    assert(nonzero_row(e, cols, i));
                }
            }
        }
    }
}

/// The pivot rows of a reduced row echelon form (see [`pivot_columns`]).
proof fn lemma_pivot_columns(e: Seq<i64>, rows: int, cols: int)
    requires
        0 <= rows <= usize::MAX,
        0 <= cols,
        reduced_echelon(e, rows, cols),
    ensures
        pivot_columns(e, rows, cols).len() == cols,
        forall|c: int| 0 <= c < cols ==> (#[trigger] pivot_columns(e, rows, cols)[c] matches Some(r) ==> r < rows
            && nonzero_row(e, cols, r as int) && lead(e, cols, r as int) == c),
        forall|r: int|
            0 <= r < rows && nonzero_row(e, cols, r) ==> #[trigger] pivot_columns(e, rows, cols)[lead(e, cols, r)]
                == Some(r as usize),
{
    lemma_pivot_scan(e, rows, cols, 0, 0, Seq::new(cols as nat, |k: int| None));
}

/// The value of row `r` of the matrix with cells `e` at the vector `v`, over its first `n`
/// columns: the sum of the products of its cells by the coordinates of `v`.
pub open spec fn row_dot(e: Seq<i64>, cols: int, r: int, v: Seq<i64>, n: int) -> int
    decreases n,
{
    if n <= 0 {
        0
    } else {
        row_dot(e, cols, r, v, n - 1) + (at(e, cols, r, n - 1) as int) * (v[n - 1] as int)
    }
}

/// The kernel vector of the column `kk` without pivot row, built from the pivots of the columns
/// before `k`: `one` at `kk`, the negated cell `(r, kk)` at each pivot column `c < k` of row `r`,
/// `zero` elsewhere.
proof fn lemma_free_vector(e: Seq<i64>, cols: int, pv: Seq<Option<usize>>, kk: int, k: int)
    requires
        0 <= k <= kk < cols <= usize::MAX,
        pv.len() == cols,
    ensures
        free_vector(e, cols, pending_pivots(pv, k), kk, 0i64, 1i64).len() == cols,
        forall|c: int|
            0 <= c < cols ==> #[trigger] free_vector(e, cols, pending_pivots(pv, k), kk, 0i64, 1i64)[c] == if c < k
                && pv[c] is Some {
                at(e, cols, pv[c]->0 as int, kk).neg_spec()
            } else if c == kk {
                1i64
            } else {
                0i64
            },
    decreases k,
{
    if k > 0 {
        lemma_free_vector(e, cols, pv, kk, k - 1);
        let before = pending_pivots(pv, k - 1);
        match pv[k - 1] {
            Some(r) => {
                let p = before.push((r, (k - 1) as usize));
                assert(pending_pivots(pv, k) == p);
                assert(p.drop_last() =~= before);
                assert(p.last() == (r, (k - 1) as usize));
                assert(free_vector(e, cols, p, kk, 0i64, 1i64) == free_vector(e, cols, before, kk, 0i64, 1i64).update(
                    k - 1,
                    at(e, cols, r as int, kk).neg_spec(),
                ));
            },
            None => {
                assert(pending_pivots(pv, k) == before);
            },
        }
    }
}

/// Each kernel vector of the columns before `k` is that of a column without pivot row.
proof fn lemma_kernel_vector_is_free(e: Seq<i64>, cols: int, pv: Seq<Option<usize>>, k: int, j: int) -> (kk: int)
    requires
        0 <= k <= cols,
        pv.len() == cols,
        0 <= j < kernel_vectors(e, cols, pv, k, 0i64, 1i64).len(),
    ensures
        0 <= kk < k,
        pv[kk] is None,
        kernel_vectors(e, cols, pv, k, 0i64, 1i64)[j] == free_vector(e, cols, pending_pivots(pv, kk), kk, 0i64, 1i64),
    decreases k,
{
    let before = kernel_vectors(e, cols, pv, k - 1, 0i64, 1i64);
    match pv[k - 1] {
        Some(_) => lemma_kernel_vector_is_free(e, cols, pv, k - 1, j),
        None => {
            if j < before.len() {
                lemma_kernel_vector_is_free(e, cols, pv, k - 1, j)
            } else {
                k - 1
            }
        },
    }
}

/// The value of a row at the kernel vector of column `kk`, over the first `n` columns: the cell
/// `(r, kk)` once `kk` is counted, less the same cell once the pivot of the row is counted, when
/// that pivot comes before `kk`.
proof fn lemma_row_dot_free(e: Seq<i64>, rows: int, cols: int, r: int, kk: int, n: int)
    requires
        0 <= rows <= usize::MAX,
        cols <= usize::MAX,
        reduced_echelon(e, rows, cols),
        forall|a: int, b: int| 0 <= a < rows && 0 <= b < cols ==> #[trigger] at(e, cols, a, b) != i64::MIN,
        0 <= r < rows,
        0 <= kk < cols,
        pivot_columns(e, rows, cols)[kk] is None,
        0 <= n <= cols,
    ensures
        ({
            let v = free_vector(e, cols, pending_pivots(pivot_columns(e, rows, cols), kk), kk, 0i64, 1i64);
            row_dot(e, cols, r, v, n) == (if kk < n {
                at(e, cols, r, kk) as int
            } else {
                0
            }) + (if nonzero_row(e, cols, r) && lead(e, cols, r) < kk && lead(e, cols, r) < n {
                -(at(e, cols, r, kk) as int)
            } else {
                0
            })
        }),
    decreases n,
{
    let pv = pivot_columns(e, rows, cols);
    lemma_pivot_columns(e, rows, cols);
    lemma_free_vector(e, cols, pv, kk, kk);
    lemma_row_pivot_facts(e, cols, r, 0);
    if n > 0 {
        lemma_row_dot_free(e, rows, cols, r, kk, n - 1);
        let c = n - 1;
        let v = free_vector(e, cols, pending_pivots(pv, kk), kk, 0i64, 1i64);
        if nonzero_row(e, cols, r) {
            assert(pv[lead(e, cols, r)] == Some(r as usize));
        }
        let term = (at(e, cols, r, c) as int) * (v[c] as int);
        let x = at(e, cols, r, kk) as int;
        let on_lead = nonzero_row(e, cols, r) && lead(e, cols, r) < kk && lead(e, cols, r) == c;
        if c < kk && pv[c] is Some {
            let s = pv[c]->0 as int;
            assert(nonzero_row(e, cols, s) && lead(e, cols, s) == c);
            assert(at(e, cols, s, kk) != i64::MIN);
            assert(v[c] as int == -(at(e, cols, s, kk) as int));
            if s == r {
                assert(at(e, cols, r, c) == 1);
                assert(on_lead);
                let a = at(e, cols, r, c) as int;
                let b = v[c] as int;
                assert(b == -x);
                assert(a * b == -x) by (nonlinear_arith)
                    requires
                        a == 1,
                        b == -x,
                ;
            } else {
                assert(at(e, cols, r, lead(e, cols, s)) == 0);
                assert(!on_lead);
                assert(term == 0);
            }
        } else if c == kk {
            assert(v[c] == 1i64);
            assert(!on_lead);
            assert(term == x);
        } else {
            assert(v[c] == 0i64);
            assert(!on_lead);
            assert(term == 0);
        }
    }
}

/// The kernel vectors read off a reduced row echelon form over exact integers solve the
/// homogeneous system: every row of the matrix is zero at each of them (see
/// [`kernel_vectors`] and [`LinearSolver::solve_homogenous`](crate::linear::solver::LinearSolver::solve_homogenous)).
pub proof fn lemma_kernel_vectors_solve(e: Seq<i64>, rows: int, cols: int, j: int, r: int)
    requires
        0 <= rows <= usize::MAX,
        0 <= cols <= usize::MAX,
        reduced_echelon(e, rows, cols),
        forall|a: int, b: int| 0 <= a < rows && 0 <= b < cols ==> #[trigger] at(e, cols, a, b) != i64::MIN,
        0 <= j < kernel_vectors(e, cols, pivot_columns(e, rows, cols), cols, 0i64, 1i64).len(),
        0 <= r < rows,
    ensures
        row_dot(e, cols, r, kernel_vectors(e, cols, pivot_columns(e, rows, cols), cols, 0i64, 1i64)[j], cols) == 0,
{
    let pv = pivot_columns(e, rows, cols);
    lemma_pivot_columns(e, rows, cols);
    let kk = lemma_kernel_vector_is_free(e, cols, pv, cols, j);
    lemma_row_dot_free(e, rows, cols, r, kk, cols);
    lemma_row_pivot_facts(e, cols, r, 0);
    if nonzero_row(e, cols, r) {
        assert(pv[lead(e, cols, r)] == Some(r as usize));
    }
}

/// Every row of the `rows x cols` matrix with cells `e` is zero at `v`: `v` solves the
/// homogeneous system of the matrix.
pub open spec fn solves(e: Seq<i64>, rows: int, cols: int, v: Seq<i64>) -> bool {
    forall|r: int| 0 <= r < rows ==> #[trigger] row_dot(e, cols, r, v, cols) == 0
}

/// Row operations that can be undone: each scaling is by a value other than zero, and each
/// addition adds a multiple of another row.
pub open spec fn invertible_steps(steps: Seq<MatrixRowOperation<i64>>) -> bool {
    forall|k: int|
        0 <= k < steps.len() ==> match #[trigger] steps[k] {
            MatrixRowOperation::Mul(_, x) => x != 0,
            MatrixRowOperation::Add(i, _, j) => i != j,
            MatrixRowOperation::Swap(_, _) => true,
        }
}

/// Two rows with the same first `n` cells have the same value at `v`.
proof fn lemma_row_dot_same(e1: Seq<i64>, r1: int, e2: Seq<i64>, r2: int, cols: int, v: Seq<i64>, n: int)
    requires
        forall|c: int| 0 <= c < n ==> #[trigger] at(e1, cols, r1, c) == at(e2, cols, r2, c),
    ensures
        row_dot(e1, cols, r1, v, n) == row_dot(e2, cols, r2, v, n),
    decreases n,
{
    if n > 0 {
        lemma_row_dot_same(e1, r1, e2, r2, cols, v, n - 1);
        assert(at(e1, cols, r1, n - 1) == at(e2, cols, r2, n - 1));
    }
}

/// A row scaled by `x` has its value at `v` scaled by `x`.
proof fn lemma_row_dot_scale(e1: Seq<i64>, e0: Seq<i64>, cols: int, r: int, x: int, v: Seq<i64>, n: int)
    requires
        forall|c: int| 0 <= c < n ==> #[trigger] at(e1, cols, r, c) as int == x * (at(e0, cols, r, c) as int),
    ensures
        row_dot(e1, cols, r, v, n) == x * row_dot(e0, cols, r, v, n),
    decreases n,
{
    if n > 0 {
        lemma_row_dot_scale(e1, e0, cols, r, x, v, n - 1);
        let a = at(e0, cols, r, n - 1) as int;
        let b = v[n - 1] as int;
        let p = row_dot(e0, cols, r, v, n - 1);
        assert(at(e1, cols, r, n - 1) as int == x * a);
        assert(x * p + (x * a) * b == x * (p + a * b)) by (nonlinear_arith);
    }
}

/// A row to which `f` times row `j` is added has its value at `v` increased by `f` times the
/// value of row `j`.
proof fn lemma_row_dot_add(e1: Seq<i64>, e0: Seq<i64>, cols: int, i: int, j: int, f: int, v: Seq<i64>, n: int)
    requires
        forall|c: int|
            0 <= c < n ==> #[trigger] at(e1, cols, i, c) as int == (at(e0, cols, i, c) as int) + f * (at(e0, cols, j, c) as int),
    ensures
        row_dot(e1, cols, i, v, n) == row_dot(e0, cols, i, v, n) + f * row_dot(e0, cols, j, v, n),
    decreases n,
{
    if n > 0 {
        lemma_row_dot_add(e1, e0, cols, i, j, f, v, n - 1);
        let a = at(e0, cols, i, n - 1) as int;
        let b = at(e0, cols, j, n - 1) as int;
        let w = v[n - 1] as int;
        let p = row_dot(e0, cols, i, v, n - 1);
        let q = row_dot(e0, cols, j, v, n - 1);
        assert(at(e1, cols, i, n - 1) as int == a + f * b);
        assert((p + f * q) + (a + f * b) * w == (p + a * w) + f * (q + b * w)) by (nonlinear_arith);
    }
}

/// The cell `(r, c)` once a row operation is applied.
proof fn lemma_step_cell(data: Seq<i64>, rows: int, cols: int, op: MatrixRowOperation<i64>, r: int, c: int)
    requires
        0 <= r < rows,
        0 <= c < cols,
        data.len() == rows * cols,
    ensures
        at(step_data(data, rows, cols, op), cols, r, c) == match op {
            MatrixRowOperation::Swap(i, j) => if r == i {
                at(data, cols, j as int, c)
            } else if r == j {
                at(data, cols, i as int, c)
            } else {
                at(data, cols, r, c)
            },
            MatrixRowOperation::Add(i, f, j) => if r == i {
                at(data, cols, r, c).add_spec(f.mul_spec(at(data, cols, j as int, c)))
            } else {
                at(data, cols, r, c)
            },
            MatrixRowOperation::Mul(i, x) => if r == i {
                at(data, cols, r, c).mul_spec(x)
            } else {
                at(data, cols, r, c)
            },
        },
{
    lemma_cell_index(r, c, rows, cols);
    lemma_join_index(r, c, cols);
}

/// A vector that solves the system once an operation that can be undone is applied solves it
/// before.
proof fn lemma_step_keeps_solutions(data: Seq<i64>, rows: int, cols: int, op: MatrixRowOperation<i64>, v: Seq<i64>)
    requires
        0 <= rows,
        0 < cols,
        data.len() == rows * cols,
        step_ok(data, rows, cols, op),
        invertible_steps(seq![op]),
        solves(step_data(data, rows, cols, op), rows, cols, v),
    ensures
        solves(data, rows, cols, v),
{
    let d1 = step_data(data, rows, cols, op);
    assert(match seq![op][0] {
        MatrixRowOperation::Mul(_, x) => x != 0,
        MatrixRowOperation::Add(i, _, j) => i != j,
        MatrixRowOperation::Swap(_, _) => true,
    });
    assert forall|r: int| 0 <= r < rows implies #[trigger] row_dot(data, cols, r, v, cols) == 0 by {
        match op {
            MatrixRowOperation::Swap(i, j) => {
                let r2 = if r == i {
                    j as int
                } else if r == j {
                    i as int
                } else {
                    r
                };
                assert forall|c: int| 0 <= c < cols implies #[trigger] at(data, cols, r, c) == at(d1, cols, r2, c) by {
                    lemma_step_cell(data, rows, cols, op, r2, c);
                }
                lemma_row_dot_same(data, r, d1, r2, cols, v, cols);
                assert(row_dot(d1, cols, r2, v, cols) == 0);
            },
            MatrixRowOperation::Mul(i, x) => {
                if r == i {
                    assert forall|c: int| 0 <= c < cols implies #[trigger] at(d1, cols, r, c) as int == (x as int) * (at(
                        data,
                        cols,
                        r,
                        c,
                    ) as int) by {
                        lemma_step_cell(data, rows, cols, op, r, c);
                        lemma_cell_index(r, c, rows, cols);
                        assert(data[i * cols + c].mul_req(x));
                        assert((x as int) * (at(data, cols, r, c) as int) == (at(data, cols, r, c) as int) * (x as int))
                            by (nonlinear_arith);
                    }
                    lemma_row_dot_scale(d1, data, cols, r, x as int, v, cols);
                    assert(row_dot(d1, cols, r, v, cols) == 0);
                    let dd = row_dot(data, cols, r, v, cols);
                    assert(dd == 0) by (nonlinear_arith)
                        requires
                            (x as int) * dd == 0,
                            x != 0,
                    ;
                } else {
                    assert forall|c: int| 0 <= c < cols implies #[trigger] at(data, cols, r, c) == at(d1, cols, r, c) by {
                        lemma_step_cell(data, rows, cols, op, r, c);
                    }
                    lemma_row_dot_same(data, r, d1, r, cols, v, cols);
                    assert(row_dot(d1, cols, r, v, cols) == 0);
                }
            },
            MatrixRowOperation::Add(i, f, j) => {
                if r == i {
                    assert forall|c: int| 0 <= c < cols implies #[trigger] at(d1, cols, r, c) as int == (at(
                        data,
                        cols,
                        r,
                        c,
                    ) as int) + (f as int) * (at(data, cols, j as int, c) as int) by {
                        lemma_step_cell(data, rows, cols, op, r, c);
                        lemma_cell_index(j as int, c, rows, cols);
                        assert(f.mul_req(data[j * cols + c]));
                        assert(data[i * cols + c].add_req(f.mul_spec(data[j * cols + c])));
                    }
                    lemma_row_dot_add(d1, data, cols, r, j as int, f as int, v, cols);
                    assert forall|c: int| 0 <= c < cols implies #[trigger] at(data, cols, j as int, c) == at(d1, cols, j as int, c) by {
                        lemma_step_cell(data, rows, cols, op, j as int, c);
                    }
                    lemma_row_dot_same(data, j as int, d1, j as int, cols, v, cols);
                    assert(row_dot(d1, cols, j as int, v, cols) == 0);
                    assert(row_dot(d1, cols, r, v, cols) == 0);
                } else {
                    assert forall|c: int| 0 <= c < cols implies #[trigger] at(data, cols, r, c) == at(d1, cols, r, c) by {
                        lemma_step_cell(data, rows, cols, op, r, c);
                    }
                    lemma_row_dot_same(data, r, d1, r, cols, v, cols);
                    assert(row_dot(d1, cols, r, v, cols) == 0);
                }
            },
        }
    }
}

/// Row operations that can be undone keep the solutions of a homogeneous system: a vector that
/// solves the system once they are applied solves it before.
pub proof fn lemma_replay_keeps_solutions(
    data: Seq<i64>,
    rows: int,
    cols: int,
    steps: Seq<MatrixRowOperation<i64>>,
    v: Seq<i64>,
)
    requires
        0 <= rows,
        0 < cols,
        data.len() == rows * cols,
        replay_ok(data, rows, cols, steps),
        invertible_steps(steps),
        solves(replay_data(data, rows, cols, steps), rows, cols, v),
    ensures
        solves(data, rows, cols, v),
    decreases steps.len(),
{
    if steps.len() > 0 {
        let prev = steps.drop_last();
        lemma_replay_len(data, rows, cols, prev);
        assert(steps[steps.len() - 1] == steps.last());
        assert(invertible_steps(seq![steps.last()]));
        lemma_step_keeps_solutions(replay_data(data, rows, cols, prev), rows, cols, steps.last(), v);
        assert forall|k: int| 0 <= k < prev.len() implies match #[trigger] prev[k] {
            MatrixRowOperation::Mul(_, x) => x != 0,
            MatrixRowOperation::Add(i, _, j) => i != j,
            MatrixRowOperation::Swap(_, _) => true,
        } by {
            assert(prev[k] == steps[k]);
        }
        lemma_replay_keeps_solutions(data, rows, cols, prev, v);
    }
}

/// The kernel vectors that the homogeneous system of a `rows x cols` matrix with cells `a` gives
/// (see [`LinearSolver::solve_homogenous`](crate::linear::solver::LinearSolver::solve_homogenous)),
/// over exact integers, solve that system: when the row operations of the reduced row echelon
/// form apply without overflow and can be undone, and that form is reduced row echelon, every
/// row of the matrix is zero at each kernel vector.
pub proof fn lemma_homogeneous_kernel_solves(a: Seq<i64>, rows: int, cols: int, j: int)
    requires
        0 <= rows <= usize::MAX,
        0 < cols <= usize::MAX,
        a.len() == rows * cols,
        replay_ok(a, rows, cols, rref_steps(a, rows, cols, 1i64)),
        invertible_steps(rref_steps(a, rows, cols, 1i64)),
        reduced_echelon(rref_cells(a, rows, cols, 1i64), rows, cols),
        forall|x: int, y: int|
            0 <= x < rows && 0 <= y < cols ==> #[trigger] at(rref_cells(a, rows, cols, 1i64), cols, x, y) != i64::MIN,
        0 <= j < kernel_vectors(
            rref_cells(a, rows, cols, 1i64),
            cols,
            pivot_columns(rref_cells(a, rows, cols, 1i64), rows, cols),
            cols,
            0i64,
            1i64,
        ).len(),
    ensures
        solves(
            a,
            rows,
            cols,
            kernel_vectors(
                rref_cells(a, rows, cols, 1i64),
                cols,
                pivot_columns(rref_cells(a, rows, cols, 1i64), rows, cols),
                cols,
                0i64,
                1i64,
            )[j],
        ),
{
    let e = rref_cells(a, rows, cols, 1i64);
    let k = kernel_vectors(e, cols, pivot_columns(e, rows, cols), cols, 0i64, 1i64)[j];
    assert forall|r: int| 0 <= r < rows implies #[trigger] row_dot(e, cols, r, k, cols) == 0 by {
        lemma_kernel_vectors_solve(e, rows, cols, j, r);
    }
    lemma_replay_keeps_solutions(a, rows, cols, rref_steps(a, rows, cols, 1i64), k);
}

/// The number of columns, among the first `k`, that have a pivot row.
pub open spec fn pivot_count(pv: Seq<Option<usize>>, k: int) -> int
    decreases k,
{
    if k <= 0 {
        0
    } else {
        pivot_count(pv, k - 1) + if pv[k - 1] is Some {
            1int
        } else {
            0int
        }
    }
}

/// The number of rows, among the first `n`, that are not zero and have their pivot before
/// column `k`.
pub open spec fn led_count(e: Seq<i64>, cols: int, n: int, k: int) -> int
    decreases n,
{
    if n <= 0 {
        0
    } else {
        led_count(e, cols, n - 1, k) + if nonzero_row(e, cols, n - 1) && lead(e, cols, n - 1) < k {
            1int
        } else {
            0int
        }
    }
}

/// There is one kernel vector for each column without pivot row.
proof fn lemma_kernel_count(e: Seq<i64>, cols: int, pv: Seq<Option<usize>>, k: int)
    requires
        0 <= k <= pv.len(),
    ensures
        kernel_vectors(e, cols, pv, k, 0i64, 1i64).len() + pivot_count(pv, k) == k,
    decreases k,
{
    if k > 0 {
        lemma_kernel_count(e, cols, pv, k - 1);
    }
}

/// Moving the bound from column `k` to `k + 1` counts the row whose pivot is in column `k`, if
/// it is among the first `n`.
proof fn lemma_led_step(e: Seq<i64>, rows: int, cols: int, n: int, k: int)
    requires
        0 <= rows <= usize::MAX,
        0 <= cols,
        reduced_echelon(e, rows, cols),
        0 <= n <= rows,
        0 <= k < cols,
    ensures
        led_count(e, cols, n, k + 1) == led_count(e, cols, n, k) + if pivot_columns(e, rows, cols)[k] matches Some(
            r,
        ) && (r as int) < n {
            1int
        } else {
            0int
        },
    decreases n,
{
    lemma_pivot_columns(e, rows, cols);
    let pv = pivot_columns(e, rows, cols);
    if n > 0 {
        lemma_led_step(e, rows, cols, n - 1, k);
        if nonzero_row(e, cols, n - 1) && lead(e, cols, n - 1) == k {
            assert(pv[k] == Some((n - 1) as usize));
        }
        if pv[k] is Some {
            let r = pv[k]->0 as int;
            assert(nonzero_row(e, cols, r) && lead(e, cols, r) == k);
        }
    }
}

/// The columns with a pivot row, among the first `k`, are as many as the rows whose pivot is
/// before column `k`.
proof fn lemma_pivot_count(e: Seq<i64>, rows: int, cols: int, k: int)
    requires
        0 <= rows <= usize::MAX,
        0 <= cols,
        reduced_echelon(e, rows, cols),
        0 <= k <= cols,
    ensures
        pivot_count(pivot_columns(e, rows, cols), k) == led_count(e, cols, rows, k),
    decreases k,
{
    lemma_pivot_columns(e, rows, cols);
    if k > 0 {
        lemma_pivot_count(e, rows, cols, k - 1);
        lemma_led_step(e, rows, cols, rows, k - 1);
    } else {
        lemma_led_none(e, cols, rows);
    }
}

/// No row has its pivot before column `0`.
proof fn lemma_led_none(e: Seq<i64>, cols: int, n: int)
    ensures
        led_count(e, cols, n, 0) == 0,
    decreases n,
{
    if n > 0 {
        lemma_led_none(e, cols, n - 1);
        lemma_row_pivot_facts(e, cols, n - 1, 0);
    }
}

/// Every row that is not zero has its pivot in one of the columns: their number is the rank.
proof fn lemma_led_is_rank(e: Seq<i64>, cols: int, n: int)
    ensures
        led_count(e, cols, n, cols) == rank_of(e, cols, n) as int,
    decreases n,
{
    if n > 0 {
        lemma_led_is_rank(e, cols, n - 1);
        let r = n - 1;
        lemma_row_pivot_facts(e, cols, r, 0);
        if nonzero_row(e, cols, r) {
            let p = lead(e, cols, r);
            assert(!at(e, cols, r, p).near_zero_spec());
            assert(row_not_near_zero(e, cols, r));
        } else {
            if row_not_near_zero(e, cols, r) {
                let c = choose|c: int| 0 <= c < cols && !(#[trigger] at(e, cols, r, c)).near_zero_spec();
                assert(at(e, cols, r, c) == 0);
            }
        }
    }
}

/// The homogeneous system of a matrix in reduced row echelon form, over exact integers, has one
/// kernel vector for each column beyond its rank: `cols - rank` of them.
pub proof fn lemma_kernel_size(e: Seq<i64>, rows: int, cols: int)
    requires
        0 <= rows <= usize::MAX,
        0 <= cols <= usize::MAX,
        reduced_echelon(e, rows, cols),
    ensures
        kernel_vectors(e, cols, pivot_columns(e, rows, cols), cols, 0i64, 1i64).len() == cols - rank_of(
            e,
            cols,
            rows,
        ),
{
    lemma_pivot_columns(e, rows, cols);
    lemma_kernel_count(e, cols, pivot_columns(e, rows, cols), cols);
    lemma_pivot_count(e, rows, cols, cols);
    lemma_led_is_rank(e, cols, rows);
}

} // verus!
