//! Gaussian elimination over a scalar type whose zero test is [`NearZero`] and whose operations
//! are total, such as a field.
//!
//! The elimination records the row operations it does; replaying them on the matrix it started
//! from gives the matrix it ends with.

use core::ops::{Add, Div, Mul, Neg, Sub};
use vstd::prelude::*;
use vstd::std_specs::ops::{AddSpec, DivSpec, MulSpec, NegSpec, SubSpec};
use crate::linear::gauss::{
    lemma_replay_append, lemma_swap_is_step, replay_data, replay_ok, step_data, step_ok, MatrixRowOperation,
};
use crate::linear::heap_matrix::{identity_data, lemma_cell_index, HeapMatrix};
use crate::linear::view::{cells_of, InvertError, MatrixView};
use crate::traits::near_zero::NearZero;

verus! {

/// The sum, product, quotient and negation of `T` can always be computed.
pub open spec fn total_arith<T: Add<Output = T> + Mul<Output = T> + Div<Output = T> + Neg<Output = T>>() -> bool {
    &&& forall|a: T, b: T| #[trigger] a.add_req(b)
    &&& forall|a: T, b: T| #[trigger] a.mul_req(b)
    &&& forall|a: T, b: T| #[trigger] a.div_req(b)
    &&& forall|a: T| #[trigger] a.neg_req()
}

/// The cell `(r, c)` of a matrix with `cols` columns whose cells, row after row, are `data`.
pub open spec fn at<T>(data: Seq<T>, cols: int, r: int, c: int) -> T {
    data[r * cols + c]
}

/// The first row, from row `r` on, whose cell in column `c` is not near zero.
pub open spec fn first_pivot<T: NearZero>(data: Seq<T>, rows: int, cols: int, c: int, r: int) -> Option<int>
    decreases rows - r,
{
    if r >= rows || r < 0 {
        None
    } else if !at(data, cols, r, c).near_zero_spec() {
        Some(r)
    } else {
        first_pivot(data, rows, cols, c, r + 1)
    }
}

/// The operations that clear column `c` below the pivot row `p`, from row `r` on: each row whose
/// cell in column `c` is `s`, not near zero, gets `-s` times row `p` added.
pub open spec fn clear_ops<T: Copy + NearZero + Add<Output = T> + Mul<Output = T> + Neg<Output = T>>(
    data: Seq<T>,
    rows: int,
    cols: int,
    p: int,
    c: int,
    r: int,
) -> Seq<MatrixRowOperation<T>>
    decreases rows - r,
{
    if r >= rows || r < 0 {
        Seq::empty()
    } else {
        let s = at(data, cols, r, c);
        if s.near_zero_spec() {
            clear_ops(data, rows, cols, p, c, r + 1)
        } else {
            let op = MatrixRowOperation::Add(r as usize, s.neg_spec(), p as usize);
            seq![op] + clear_ops(step_data(data, rows, cols, op), rows, cols, p, c, r + 1)
        }
    }
}

/// The cells once column `c` is cleared below the pivot row `p` from row `r` on (see
/// [`clear_ops`]).
pub open spec fn clear_data<T: Copy + NearZero + Add<Output = T> + Mul<Output = T> + Neg<Output = T>>(
    data: Seq<T>,
    rows: int,
    cols: int,
    p: int,
    c: int,
    r: int,
) -> Seq<T>
    decreases rows - r,
{
    if r >= rows || r < 0 {
        data
    } else {
        let s = at(data, cols, r, c);
        if s.near_zero_spec() {
            clear_data(data, rows, cols, p, c, r + 1)
        } else {
            let op = MatrixRowOperation::Add(r as usize, s.neg_spec(), p as usize);
            clear_data(step_data(data, rows, cols, op), rows, cols, p, c, r + 1)
        }
    }
}

/// The operations of the elimination from row `i` and column `c` on. The first row `j` from
/// `i` on whose cell in column `c` is not near zero is the pivot row: rows `i` and `j` are
/// swapped, row `i` is multiplied by `one / v` where `v` is the pivot, the column is cleared
/// below it, and the elimination goes on from row `i + 1` and column `c + 1`. A column without
/// pivot is skipped: the elimination goes on from the same row `i` and column `c + 1`.
pub open spec fn elim_ops<T: Copy + NearZero + Add<Output = T> + Mul<Output = T> + Div<Output = T> + Neg<Output = T>>(
    data: Seq<T>,
    rows: int,
    cols: int,
    i: int,
    c: int,
    one: T,
) -> Seq<MatrixRowOperation<T>>
    decreases cols - c,
{
    if i >= rows || c >= cols || i < 0 || c < 0 {
        Seq::empty()
    } else {
        match first_pivot(data, rows, cols, c, i) {
            None => elim_ops(data, rows, cols, i, c + 1, one),
            Some(j) => {
                let swap = MatrixRowOperation::Swap(i as usize, j as usize);
                let d1 = step_data(data, rows, cols, swap);
                let mul = MatrixRowOperation::Mul(i as usize, one.div_spec(at(data, cols, j, c)));
                let d2 = step_data(d1, rows, cols, mul);
                seq![swap, mul] + clear_ops(d2, rows, cols, i, c, i + 1) + elim_ops(
                    clear_data(d2, rows, cols, i, c, i + 1),
                    rows,
                    cols,
                    i + 1,
                    c + 1,
                    one,
                )
            },
        }
    }
}

/// The operations of the Gaussian elimination of a `rows x cols` matrix; none when it has no
/// row or no column.
pub open spec fn gaussian_steps<T: Copy + NearZero + Add<Output = T> + Mul<Output = T> + Div<Output = T> + Neg<Output = T>>(
    data: Seq<T>,
    rows: int,
    cols: int,
    one: T,
) -> Seq<MatrixRowOperation<T>> {
    if rows == 0 || cols == 0 {
        Seq::empty()
    } else {
        elim_ops(data, rows, cols, 0, 0, one)
    }
}

/// Row `r` holds a cell, among the first `cols`, that is not near zero.
pub open spec fn row_not_near_zero<T: NearZero>(data: Seq<T>, cols: int, r: int) -> bool {
    exists|c: int| 0 <= c < cols && !(#[trigger] at(data, cols, r, c)).near_zero_spec()
}

/// The number of rows, among the first `k`, that hold a cell not near zero: the rank of a
/// matrix in row echelon form.
pub open spec fn rank_of<T: NearZero>(data: Seq<T>, cols: int, k: int) -> nat
    decreases k,
{
    if k <= 0 {
        0
    } else {
        rank_of(data, cols, k - 1) + if row_not_near_zero(data, cols, k - 1) {
            1nat
        } else {
            0nat
        }
    }
}

/// The first column, from column `c` on, whose cell in row `r` is not near zero.
pub open spec fn row_pivot<T: NearZero>(data: Seq<T>, cols: int, r: int, c: int) -> Option<int>
    decreases cols - c,
{
    if c >= cols || c < 0 {
        None
    } else if !at(data, cols, r, c).near_zero_spec() {
        Some(c)
    } else {
        row_pivot(data, cols, r, c + 1)
    }
}

/// The operations that clear column `p` above row `i`, from row `j` on: each row gets `-s`
/// times row `i` added, `s` being its cell in column `p`.
pub open spec fn above_ops<T: Copy + Add<Output = T> + Mul<Output = T> + Neg<Output = T>>(
    data: Seq<T>,
    rows: int,
    cols: int,
    i: int,
    p: int,
    j: int,
) -> Seq<MatrixRowOperation<T>>
    decreases i - j,
{
    if j >= i || j < 0 {
        Seq::empty()
    } else {
        let op = MatrixRowOperation::Add(j as usize, at(data, cols, j, p).neg_spec(), i as usize);
        seq![op] + above_ops(step_data(data, rows, cols, op), rows, cols, i, p, j + 1)
    }
}

/// The cells once column `p` is cleared above row `i` from row `j` on (see [`above_ops`]).
pub open spec fn above_data<T: Copy + Add<Output = T> + Mul<Output = T> + Neg<Output = T>>(
    data: Seq<T>,
    rows: int,
    cols: int,
    i: int,
    p: int,
    j: int,
) -> Seq<T>
    decreases i - j,
{
    if j >= i || j < 0 {
        data
    } else {
        let op = MatrixRowOperation::Add(j as usize, at(data, cols, j, p).neg_spec(), i as usize);
        above_data(step_data(data, rows, cols, op), rows, cols, i, p, j + 1)
    }
}

/// The operations that clear the columns above the pivots of rows `i`, `i - 1`, ..., `1`, in
/// that order; the pivot of a row is its first cell not near zero. They stop at the first of
/// these rows that has no pivot.
pub open spec fn above_pivots_ops<T: Copy + NearZero + Add<Output = T> + Mul<Output = T> + Neg<Output = T>>(
    data: Seq<T>,
    rows: int,
    cols: int,
    i: int,
) -> Seq<MatrixRowOperation<T>>
    decreases i,
{
    if i <= 0 {
        Seq::empty()
    } else {
        match row_pivot(data, cols, i, 0) {
            None => Seq::empty(),
            Some(p) => above_ops(data, rows, cols, i, p, 0) + above_pivots_ops(
                above_data(data, rows, cols, i, p, 0),
                rows,
                cols,
                i - 1,
            ),
        }
    }
}

/// Each of the rows `i`, `i - 1`, ..., `1` has a pivot when its turn comes (see
/// [`above_pivots_ops`]).
pub open spec fn above_pivots_defined<T: Copy + NearZero + Add<Output = T> + Mul<Output = T> + Neg<Output = T>>(
    data: Seq<T>,
    rows: int,
    cols: int,
    i: int,
) -> bool
    decreases i,
{
    if i <= 0 {
        true
    } else {
        match row_pivot(data, cols, i, 0) {
            None => false,
            Some(p) => above_pivots_defined(above_data(data, rows, cols, i, p, 0), rows, cols, i - 1),
        }
    }
}

/// The operations of the reduction of a row echelon matrix: the columns above the pivots of the
/// rows below the rank are cleared, from the last of these rows up to row `1`.
pub open spec fn reduction_steps<T: Copy + NearZero + Add<Output = T> + Mul<Output = T> + Neg<Output = T>>(
    data: Seq<T>,
    rows: int,
    cols: int,
) -> Seq<MatrixRowOperation<T>> {
    above_pivots_ops(data, rows, cols, rank_of(data, cols, rows) - 1)
}

/// The reduction of a row echelon matrix can be done: each row it works on has a pivot.
pub open spec fn reduction_defined<T: Copy + NearZero + Add<Output = T> + Mul<Output = T> + Neg<Output = T>>(
    data: Seq<T>,
    rows: int,
    cols: int,
) -> bool {
    above_pivots_defined(data, rows, cols, rank_of(data, cols, rows) - 1)
}

/// The operations of the reduced row echelon form: the Gaussian elimination, then the reduction
/// of the matrix it gives.
pub open spec fn rref_steps<T: Copy + NearZero + Add<Output = T> + Mul<Output = T> + Div<Output = T> + Neg<Output = T>>(
    data: Seq<T>,
    rows: int,
    cols: int,
    one: T,
) -> Seq<MatrixRowOperation<T>> {
    let g = gaussian_steps(data, rows, cols, one);
    g + reduction_steps(replay_data(data, rows, cols, g), rows, cols)
}

/// The reduced row echelon form can be computed: the reduction of the matrix the Gaussian
/// elimination gives can be done.
pub open spec fn rref_defined<T: Copy + NearZero + Add<Output = T> + Mul<Output = T> + Div<Output = T> + Neg<Output = T>>(
    data: Seq<T>,
    rows: int,
    cols: int,
    one: T,
) -> bool {
    reduction_defined(
        replay_data(data, rows, cols, gaussian_steps(data, rows, cols, one)),
        rows,
        cols,
    )
}

/// The difference of two values of `T` can always be computed.
pub open spec fn total_sub<T: Sub<Output = T>>() -> bool {
    forall|a: T, b: T| #[trigger] a.sub_req(b)
}

/// `a * d - b * c`: the determinant of `[[a, b], [c, d]]`.
pub open spec fn det2_of<T: Sub<Output = T> + Mul<Output = T>>(a: T, b: T, c: T, d: T) -> T {
    a.mul_spec(d).sub_spec(b.mul_spec(c))
}

/// Over `i64`, when no product or difference overflows, the determinant of the `2 x 2` matrix
/// `[[a, b], [c, d]]` that [`HeapMatrix::determinant_mut`] gives is `a * d - b * c`.
pub proof fn lemma_det2_i64(a: i64, b: i64, c: i64, d: i64)
    requires
        i64::MIN <= a * d <= i64::MAX,
        i64::MIN <= b * c <= i64::MAX,
        i64::MIN <= a * d - b * c <= i64::MAX,
    ensures
        det2_of(a, b, c, d) as int == a * d - b * c,
{
}

/// The determinant of a `2 x 2` matrix changes sign when its rows are swapped, and is `1` for the
/// identity, over `i64` when nothing overflows.
pub proof fn lemma_det2_i64_rows(a: i64, b: i64, c: i64, d: i64)
    requires
        i64::MIN <= a * d <= i64::MAX,
        i64::MIN <= b * c <= i64::MAX,
        i64::MIN <= a * d - b * c <= i64::MAX,
        i64::MIN <= b * c - a * d <= i64::MAX,
    ensures
        det2_of(c, d, a, b) as int == -(det2_of(a, b, c, d) as int),
        det2_of(1i64, 0i64, 0i64, 1i64) == 1,
{
    assert(c * b == b * c) by (nonlinear_arith);
    assert(d * a == a * d) by (nonlinear_arith);
}

/// `a (e i - f h) - d (b i - c h) + g (b f - c e)`: the determinant of
/// `[[a, b, c], [d, e, f], [g, h, i]]`, expanded along its first column.
pub open spec fn det3_of<T: Add<Output = T> + Sub<Output = T> + Mul<Output = T>>(s: Seq<T>) -> T {
    let (a, b, c, d, e, f, g, h, i) = (s[0], s[1], s[2], s[3], s[4], s[5], s[6], s[7], s[8]);
    a.mul_spec(e.mul_spec(i).sub_spec(f.mul_spec(h))).sub_spec(d.mul_spec(b.mul_spec(i).sub_spec(c.mul_spec(h)))).add_spec(
        g.mul_spec(b.mul_spec(f).sub_spec(c.mul_spec(e))),
    )
}

/// `v` fits in `i64`.
pub open spec fn fits_i64(v: int) -> bool {
    i64::MIN <= v <= i64::MAX
}

/// Every product, difference and sum that [`det3_of`] computes on the cells `s` of a `3 x 3`
/// matrix of `i64` fits in `i64`.
pub open spec fn det3_exact(s: Seq<i64>) -> bool {
    let (a, b, c, d, e, f, g, h, i) = (
        s[0] as int,
        s[1] as int,
        s[2] as int,
        s[3] as int,
        s[4] as int,
        s[5] as int,
        s[6] as int,
        s[7] as int,
        s[8] as int,
    );
    &&& fits_i64(e * i) && fits_i64(f * h) && fits_i64(e * i - f * h)
    &&& fits_i64(b * i) && fits_i64(c * h) && fits_i64(b * i - c * h)
    &&& fits_i64(b * f) && fits_i64(c * e) && fits_i64(b * f - c * e)
    &&& fits_i64(a * (e * i - f * h)) && fits_i64(d * (b * i - c * h)) && fits_i64(g * (b * f - c * e))
    &&& fits_i64(a * (e * i - f * h) - d * (b * i - c * h))
    &&& fits_i64(a * (e * i - f * h) - d * (b * i - c * h) + g * (b * f - c * e))
}

/// Over `i64`, when nothing overflows, the determinant of a `3 x 3` matrix that
/// [`HeapMatrix::determinant_mut`] gives is the sum over the permutations of its columns (the
/// Leibniz formula): `a e i + b f g + c d h - c e g - b d i - a f h`.
pub proof fn lemma_det3_i64(s: Seq<i64>)
    requires
        s.len() == 9,
        det3_exact(s),
    ensures
        det3_of(s) as int == (s[0] as int) * (s[4] as int) * (s[8] as int) + (s[1] as int) * (s[5] as int) * (s[6] as int)
            + (s[2] as int) * (s[3] as int) * (s[7] as int) - (s[2] as int) * (s[4] as int) * (s[6] as int) - (s[1] as int)
            * (s[3] as int) * (s[8] as int) - (s[0] as int) * (s[5] as int) * (s[7] as int),
{
    let (a, b, c, d, e, f, g, h, i) = (
        s[0] as int,
        s[1] as int,
        s[2] as int,
        s[3] as int,
        s[4] as int,
        s[5] as int,
        s[6] as int,
        s[7] as int,
        s[8] as int,
    );
    assert(det3_of(s) as int == a * (e * i - f * h) - d * (b * i - c * h) + g * (b * f - c * e));
    assert(a * (e * i - f * h) == a * e * i - a * f * h) by (nonlinear_arith);
    assert(d * (b * i - c * h) == b * d * i - c * d * h) by (nonlinear_arith);
    assert(g * (b * f - c * e) == b * f * g - c * e * g) by (nonlinear_arith);
}

/// The factor by which the first `k` of `steps` scale a determinant: `zero - f` for each swap of
/// two distinct rows, `f * x` for each row multiplied by `x`, starting from `one`.
pub open spec fn steps_factor<T: Sub<Output = T> + Mul<Output = T>>(
    steps: Seq<MatrixRowOperation<T>>,
    k: int,
    zero: T,
    one: T,
) -> T
    decreases k,
{
    if k <= 0 {
        one
    } else {
        let f = steps_factor(steps, k - 1, zero, one);
        match steps[k - 1] {
            MatrixRowOperation::Swap(i, j) => if i != j {
                zero.sub_spec(f)
            } else {
                f
            },
            MatrixRowOperation::Mul(_, x) => f.mul_spec(x),
            MatrixRowOperation::Add(..) => f,
        }
    }
}

/// The product, from `one`, of the first `k` diagonal cells of a matrix with `cols` columns.
pub open spec fn diagonal_product<T: Mul<Output = T>>(data: Seq<T>, cols: int, k: int, one: T) -> T
    decreases k,
{
    if k <= 0 {
        one
    } else {
        diagonal_product(data, cols, k - 1, one).mul_spec(at(data, cols, k - 1, k - 1))
    }
}

/// Applying one more operation: the cells and the applicability of `steps.push(op)`.
proof fn lemma_replay_push<T: Copy + Add<Output = T> + Mul<Output = T>>(
    data: Seq<T>,
    rows: int,
    cols: int,
    steps: Seq<MatrixRowOperation<T>>,
    op: MatrixRowOperation<T>,
)
    ensures
        replay_data(data, rows, cols, steps.push(op)) == step_data(replay_data(data, rows, cols, steps), rows, cols, op),
        replay_ok(data, rows, cols, steps.push(op)) == (replay_ok(data, rows, cols, steps) && step_ok(
            replay_data(data, rows, cols, steps),
            rows,
            cols,
            op,
        )),
{
    assert(steps.push(op).drop_last() =~= steps);
    assert(steps.push(op).last() == op);
}

/// Operations that can be applied to the cells `d1` of a matrix with `rows` rows can be applied
/// to the cells `d2` of any other matrix with `rows` rows, when the arithmetic of `T` is total.
pub proof fn lemma_replay_ok_transfer<T: Copy + Add<Output = T> + Mul<Output = T> + Div<Output = T> + Neg<Output = T>>(
    d1: Seq<T>,
    c1: int,
    d2: Seq<T>,
    c2: int,
    rows: int,
    steps: Seq<MatrixRowOperation<T>>,
)
    requires
        replay_ok(d1, rows, c1, steps),
        total_arith::<T>(),
    ensures
        replay_ok(d2, rows, c2, steps),
    decreases steps.len(),
{
    if steps.len() > 0 {
        lemma_replay_ok_transfer(d1, c1, d2, c2, rows, steps.drop_last());
        let data = replay_data(d2, rows, c2, steps.drop_last());
        match steps.last() {
            MatrixRowOperation::Add(i, v, j) => {
                assert forall|b: int| 0 <= b < c2 implies {
                    &&& v.mul_req(#[trigger] data[j * c2 + b])
                    &&& data[i * c2 + b].add_req(v.mul_spec(data[j * c2 + b]))
                } by {
                    assert(v.mul_req(data[j * c2 + b]));
                    assert(data[i * c2 + b].add_req(v.mul_spec(data[j * c2 + b])));
                }
            },
            MatrixRowOperation::Mul(i, v) => {
                assert forall|b: int| 0 <= b < c2 implies (#[trigger] data[i * c2 + b]).mul_req(v) by {
                    assert(data[i * c2 + b].mul_req(v));
                }
            },
            MatrixRowOperation::Swap(..) => {},
        }
    }
}

impl<T: Copy + NearZero + Add<Output = T> + Mul<Output = T> + Div<Output = T> + Neg<Output = T>> HeapMatrix<T> {
    /// The first row, from row `start` on, whose cell in column `c` is not near zero.
    fn find_pivot(&self, c: usize, start: usize) -> (r: Option<usize>)
        requires
            self.holds_cells(),
            c < self.cols,
            start <= self.rows,
        ensures
            match first_pivot(self.data@, self.rows as int, self.cols as int, c as int, start as int) {
                None => r is None,
                Some(j) => r == Some(j as usize) && start <= j < self.rows,
            },
    {
        let mut r = start;
        while r < self.rows
            invariant
                self.holds_cells(),
                c < self.cols,
                start <= r <= self.rows,
                first_pivot(self.data@, self.rows as int, self.cols as int, c as int, start as int)
                    == first_pivot(self.data@, self.rows as int, self.cols as int, c as int, r as int),
            decreases self.rows - r,
        {
            proof {
                lemma_cell_index(r as int, c as int, self.rows as int, self.cols as int);
            }
            if !self.index((r, c)).is_near_zero() {
                return Some(r);
            }
            r = r + 1;
        }
        None
    }

    /// Brings the matrix to row echelon form and gives the row operations done, in order. The
    /// columns are taken in turn, with a current row `i` starting at `0`: the first row `j` from
    /// `i` on whose cell in the column is not near zero is swapped with row `i`, row `i` is
    /// multiplied by `one / v` (`v` the pivot), each row below whose cell `s` in the column is
    /// not near zero gets `-s` times row `i` added, and `i` moves to the next row. A column with
    /// no pivot is skipped and `i` stays. Replaying the operations on the matrix before gives the
    /// matrix after.
    pub fn record_gaussian_elimination_mut(&mut self, one: T) -> (steps: Vec<MatrixRowOperation<T>>)
        requires
            old(self).holds_cells(),
            T::obeys_add_spec(),
            T::obeys_mul_spec(),
            T::obeys_div_spec(),
            T::obeys_neg_spec(),
            total_arith::<T>(),
        ensures
            final(self).rows == old(self).rows,
            final(self).cols == old(self).cols,
            final(self).data@.len() == old(self).data@.len(),
            steps@ == gaussian_steps(old(self).data@, old(self).rows as int, old(self).cols as int, one),
            replay_ok(old(self).data@, old(self).rows as int, old(self).cols as int, steps@),
            final(self).data@ == replay_data(
                old(self).data@,
                old(self).rows as int,
                old(self).cols as int,
                steps@,
            ),
    {
        let rows = self.rows;
        let cols = self.cols;
        let mut steps: Vec<MatrixRowOperation<T>> = Vec::new();
        let ghost start = self.data@;
        let ghost goal = gaussian_steps(start, rows as int, cols as int, one);
        if rows == 0 || cols == 0 {
            return steps;
        }
        let mut i: usize = 0;
        let mut c: usize = 0;
        while i < rows && c < cols
            invariant
                self.rows == rows,
                self.cols == cols,
                rows > 0,
                cols > 0,
                self.holds_cells(),
                self.data@.len() == start.len(),
                T::obeys_add_spec(),
                T::obeys_mul_spec(),
                T::obeys_div_spec(),
                T::obeys_neg_spec(),
                total_arith::<T>(),
                goal == gaussian_steps(start, rows as int, cols as int, one),
                self.data@ == replay_data(start, rows as int, cols as int, steps@),
                replay_ok(start, rows as int, cols as int, steps@),
                i <= c,
                steps@ + elim_ops(self.data@, rows as int, cols as int, i as int, c as int, one) == goal,
            decreases cols - c,
        {
            let ghost d = self.data@;
            match self.find_pivot(c, i) {
                None => {
                    assert(elim_ops(d, rows as int, cols as int, i as int, c as int, one) == elim_ops(
                        d,
                        rows as int,
                        cols as int,
                        i as int,
                        c as int + 1,
                        one,
                    ));
                    c = c + 1;
                },
                Some(j) => {
                    proof {
                        lemma_cell_index(j as int, c as int, rows as int, cols as int);
                    }
                    let v = *self.index((j, c));
                    // row `i` and the pivot row change places
                    let ghost s0 = steps@;
                    let ghost before_swap = *self;
                    let swap = MatrixRowOperation::Swap(i, j);
                    self.swap_lines(i, j);
                    proof {
                        lemma_swap_is_step(before_swap, *self, i, j);
                    }
                    steps.push(swap);
                    proof {
                        lemma_replay_push(start, rows as int, cols as int, s0, swap);
                    }
                    let ghost d1 = self.data@;
                    // the pivot becomes `v * (one / v)`
                    let inv = one / v;
                    let mul = MatrixRowOperation::Mul(i, inv);
                    let ghost s1 = steps@;
                    self.mul_line(i, inv);
                    steps.push(mul);
                    proof {
                        lemma_replay_push(start, rows as int, cols as int, s1, mul);
                    }
                    let ghost d2 = self.data@;
                    proof {
                        let rest = clear_ops(d2, rows as int, cols as int, i as int, c as int, i as int + 1);
                        let next = elim_ops(
                            clear_data(d2, rows as int, cols as int, i as int, c as int, i as int + 1),
                            rows as int,
                            cols as int,
                            i as int + 1,
                            c as int + 1,
                            one,
                        );
                        assert(elim_ops(d, rows as int, cols as int, i as int, c as int, one) == seq![swap, mul] + rest + next);
                        assert(steps@ =~= s0 + seq![swap, mul]);
                        assert(s0 + (seq![swap, mul] + rest + next) =~= steps@ + rest + next);
                    }
                    // the rows below get the pivot row added, to clear the column
                    let mut r = i + 1;
                    while r < rows
                        invariant
                            self.rows == rows,
                            self.cols == cols,
                            i < rows,
                            i <= c,
                            c < cols,
                            i + 1 <= r <= rows,
                            self.holds_cells(),
                            self.data@.len() == start.len(),
                            T::obeys_add_spec(),
                            T::obeys_mul_spec(),
                            T::obeys_neg_spec(),
                            total_arith::<T>(),
                            self.data@ == replay_data(start, rows as int, cols as int, steps@),
                            replay_ok(start, rows as int, cols as int, steps@),
                            steps@ + clear_ops(self.data@, rows as int, cols as int, i as int, c as int, r as int) + elim_ops(
                                clear_data(self.data@, rows as int, cols as int, i as int, c as int, r as int),
                                rows as int,
                                cols as int,
                                i as int + 1,
                                c as int + 1,
                                one,
                            ) == goal,
                        decreases rows - r,
                    {
                        let ghost dr = self.data@;
                        let ghost sr = steps@;
                        proof {
                            lemma_cell_index(r as int, c as int, rows as int, cols as int);
                        }
                        let s = *self.index((r, c));
                        if !s.is_near_zero() {
                            let ns = s.neg();
                            let add = MatrixRowOperation::Add(r, ns, i);
                            proof {
                                assert forall|b: int| 0 <= b < cols implies {
                                    &&& ns.mul_req(#[trigger] dr[i * cols + b])
                                    &&& dr[r * cols + b].add_req(ns.mul_spec(dr[i * cols + b]))
                                } by {
                                    assert(ns.mul_req(dr[i * cols + b]));
                                    assert(dr[r * cols + b].add_req(ns.mul_spec(dr[i * cols + b])));
                                }
                            }
                            self.add_to_line(r, ns, i);
                            steps.push(add);
                            proof {
                                lemma_replay_push(start, rows as int, cols as int, sr, add);
                                let tail = clear_ops(self.data@, rows as int, cols as int, i as int, c as int, r as int + 1);
                                assert(clear_ops(dr, rows as int, cols as int, i as int, c as int, r as int) == seq![add] + tail);
                                assert(sr + (seq![add] + tail) =~= steps@ + tail);
                            }
                        }
                        r = r + 1;
                    }
                    proof {
                        assert(steps@ + Seq::<MatrixRowOperation<T>>::empty() =~= steps@);
                    }
                    i = i + 1;
                    c = c + 1;
                },
            }
        }
        proof {
            assert(steps@ + Seq::<MatrixRowOperation<T>>::empty() =~= steps@);
        }
        steps
    }

    /// The number of rows holding a cell that is not near zero: the rank of a matrix in row
    /// echelon form.
    pub fn rank_float(&self) -> (r: usize)
        requires
            self.holds_cells(),
        ensures
            r == rank_of(self.data@, self.cols as int, self.rows as int),
            r <= self.rows,
    {
        let mut count: usize = 0;
        for i in 0..self.rows
            invariant
                self.holds_cells(),
                count == rank_of(self.data@, self.cols as int, i as int),
                count <= i,
        {
            let mut found = false;
            for j in 0..self.cols
                invariant
                    self.holds_cells(),
                    i < self.rows,
                    found == exists|c: int|
                        0 <= c < j && !(#[trigger] at(self.data@, self.cols as int, i as int, c)).near_zero_spec(),
            {
                proof {
                    lemma_cell_index(i as int, j as int, self.rows as int, self.cols as int);
                }
                if !self.index((i, j)).is_near_zero() {
                    found = true;
                }
                proof {
                    if !at(self.data@, self.cols as int, i as int, j as int).near_zero_spec() {
                        assert(0 <= j < j + 1);
                    }
                }
            }
            if found {
                count = count + 1;
            }
        }
        count
    }

    /// The first column of row `r` whose cell is not near zero.
    fn find_row_pivot(&self, r: usize) -> (p: Option<usize>)
        requires
            self.holds_cells(),
            r < self.rows,
        ensures
            match row_pivot(self.data@, self.cols as int, r as int, 0) {
                None => p is None,
                Some(c) => p == Some(c as usize) && 0 <= c < self.cols,
            },
    {
        let mut c: usize = 0;
        while c < self.cols
            invariant
                self.holds_cells(),
                r < self.rows,
                c <= self.cols,
                row_pivot(self.data@, self.cols as int, r as int, 0) == row_pivot(
                    self.data@,
                    self.cols as int,
                    r as int,
                    c as int,
                ),
            decreases self.cols - c,
        {
            proof {
                lemma_cell_index(r as int, c as int, self.rows as int, self.cols as int);
            }
            if !self.index((r, c)).is_near_zero() {
                return Some(c);
            }
            c = c + 1;
        }
        None
    }

    /// Reduces a row echelon matrix: for each row `i` from the last one below the rank up to row
    /// `1`, its pivot (first cell not near zero) in column `p`, each row `j` above gets `-s`
    /// times row `i` added, `s` being its cell in column `p`. Gives the row operations done, or
    /// `None` when a row has no pivot when its turn comes; the operations done until then are
    /// kept.
    pub fn record_reduced_row_echelon_mut(&mut self) -> (r: Option<Vec<MatrixRowOperation<T>>>)
        requires
            old(self).holds_cells(),
            T::obeys_add_spec(),
            T::obeys_mul_spec(),
            T::obeys_neg_spec(),
            total_arith::<T>(),
        ensures
            final(self).rows == old(self).rows,
            final(self).cols == old(self).cols,
            final(self).data@.len() == old(self).data@.len(),
            final(self).data@ == replay_data(
                old(self).data@,
                old(self).rows as int,
                old(self).cols as int,
                reduction_steps(old(self).data@, old(self).rows as int, old(self).cols as int),
            ),
            replay_ok(
                old(self).data@,
                old(self).rows as int,
                old(self).cols as int,
                reduction_steps(old(self).data@, old(self).rows as int, old(self).cols as int),
            ),
            reduction_defined(old(self).data@, old(self).rows as int, old(self).cols as int) ==> (r matches Some(
                steps,
            ) && steps@ == reduction_steps(old(self).data@, old(self).rows as int, old(self).cols as int)),
            !reduction_defined(old(self).data@, old(self).rows as int, old(self).cols as int) ==> r is None,
    {
        let rows = self.rows;
        let cols = self.cols;
        let ghost start = self.data@;
        let ghost goal = reduction_steps(start, rows as int, cols as int);
        let ghost defined = reduction_defined(start, rows as int, cols as int);
        let rank = self.rank_float();
        let mut steps: Vec<MatrixRowOperation<T>> = Vec::new();
        let mut i = rank;
        assert(steps@ + above_pivots_ops(self.data@, rows as int, cols as int, i - 1) =~= goal);
        while i > 1
            invariant
                self.rows == rows,
                self.cols == cols,
                rows == old(self).rows,
                cols == old(self).cols,
                start == old(self).data@,
                i <= rows,
                self.holds_cells(),
                self.data@.len() == start.len(),
                T::obeys_add_spec(),
                T::obeys_mul_spec(),
                T::obeys_neg_spec(),
                total_arith::<T>(),
                goal == reduction_steps(start, rows as int, cols as int),
                defined == reduction_defined(start, rows as int, cols as int),
                self.data@ == replay_data(start, rows as int, cols as int, steps@),
                replay_ok(start, rows as int, cols as int, steps@),
                steps@ + above_pivots_ops(self.data@, rows as int, cols as int, i - 1) == goal,
                defined == above_pivots_defined(self.data@, rows as int, cols as int, i - 1),
            decreases i,
        {
            i = i - 1;
            let ghost d = self.data@;
            let p = match self.find_row_pivot(i) {
                Some(p) => p,
                None => {
                    proof {
                        assert(above_pivots_ops(d, rows as int, cols as int, i as int) =~= Seq::<
                            MatrixRowOperation<T>,
                        >::empty());
                        assert(steps@ + Seq::<MatrixRowOperation<T>>::empty() =~= steps@);
                    }
                    return None;
                },
            };
            proof {
                assert(steps@ + (above_ops(d, rows as int, cols as int, i as int, p as int, 0) + above_pivots_ops(
                    above_data(d, rows as int, cols as int, i as int, p as int, 0),
                    rows as int,
                    cols as int,
                    i - 1,
                )) =~= steps@ + above_ops(d, rows as int, cols as int, i as int, p as int, 0) + above_pivots_ops(
                    above_data(d, rows as int, cols as int, i as int, p as int, 0),
                    rows as int,
                    cols as int,
                    i - 1,
                ));
            }
            for j in 0..i
                invariant
                    self.rows == rows,
                    self.cols == cols,
                    1 <= i < rows,
                    p < cols,
                    self.holds_cells(),
                    self.data@.len() == start.len(),
                    T::obeys_add_spec(),
                    T::obeys_mul_spec(),
                    T::obeys_neg_spec(),
                    total_arith::<T>(),
                    self.data@ == replay_data(start, rows as int, cols as int, steps@),
                    replay_ok(start, rows as int, cols as int, steps@),
                    steps@ + above_ops(self.data@, rows as int, cols as int, i as int, p as int, j as int)
                        + above_pivots_ops(
                        above_data(self.data@, rows as int, cols as int, i as int, p as int, j as int),
                        rows as int,
                        cols as int,
                        i - 1,
                    ) == goal,
                    defined == above_pivots_defined(
                        above_data(self.data@, rows as int, cols as int, i as int, p as int, j as int),
                        rows as int,
                        cols as int,
                        i - 1,
                    ),
            {
                let ghost dj = self.data@;
                let ghost sj = steps@;
                proof {
                    lemma_cell_index(j as int, p as int, rows as int, cols as int);
                }
                let s = *self.index((j, p));
                let ns = s.neg();
                let add = MatrixRowOperation::Add(j, ns, i);
                proof {
                    assert forall|b: int| 0 <= b < cols implies {
                        &&& ns.mul_req(#[trigger] dj[i * cols + b])
                        &&& dj[j * cols + b].add_req(ns.mul_spec(dj[i * cols + b]))
                    } by {
                        assert(ns.mul_req(dj[i * cols + b]));
                        assert(dj[j * cols + b].add_req(ns.mul_spec(dj[i * cols + b])));
                    }
                }
                self.add_to_line(j, ns, i);
                steps.push(add);
                proof {
                    lemma_replay_push(start, rows as int, cols as int, sj, add);
                    let tail = above_ops(self.data@, rows as int, cols as int, i as int, p as int, j as int + 1);
                    assert(above_ops(dj, rows as int, cols as int, i as int, p as int, j as int) == seq![add] + tail);
                    assert(sj + (seq![add] + tail) =~= steps@ + tail);
                }
            }
            proof {
                assert(steps@ + Seq::<MatrixRowOperation<T>>::empty() =~= steps@);
            }
        }
        proof {
            assert(above_pivots_ops(self.data@, rows as int, cols as int, i - 1) =~= Seq::<
                MatrixRowOperation<T>,
            >::empty());
            assert(steps@ + Seq::<MatrixRowOperation<T>>::empty() =~= steps@);
        }
        Some(steps)
    }

    /// Brings the matrix to its reduced row echelon form: the Gaussian elimination, then the
    /// reduction. Gives the row operations done, or `None` when the reduction finds a row
    /// without pivot; the operations done until then are kept.
    pub fn record_rref_mut(&mut self, one: T) -> (r: Option<Vec<MatrixRowOperation<T>>>)
        requires
            old(self).holds_cells(),
            T::obeys_add_spec(),
            T::obeys_mul_spec(),
            T::obeys_div_spec(),
            T::obeys_neg_spec(),
            total_arith::<T>(),
        ensures
            final(self).rows == old(self).rows,
            final(self).cols == old(self).cols,
            final(self).data@.len() == old(self).data@.len(),
            final(self).data@ == replay_data(
                old(self).data@,
                old(self).rows as int,
                old(self).cols as int,
                rref_steps(old(self).data@, old(self).rows as int, old(self).cols as int, one),
            ),
            replay_ok(
                old(self).data@,
                old(self).rows as int,
                old(self).cols as int,
                rref_steps(old(self).data@, old(self).rows as int, old(self).cols as int, one),
            ),
            rref_defined(old(self).data@, old(self).rows as int, old(self).cols as int, one) ==> (r matches Some(
                steps,
            ) && steps@ == rref_steps(old(self).data@, old(self).rows as int, old(self).cols as int, one)),
            !rref_defined(old(self).data@, old(self).rows as int, old(self).cols as int, one) ==> r is None,
    {
        let ghost start = self.data@;
        let mut steps = self.record_gaussian_elimination_mut(one);
        let ghost g = steps@;
        let ghost mid = self.data@;
        let reduction = self.record_reduced_row_echelon_mut();
        proof {
            lemma_replay_append(start, self.rows as int, self.cols as int, g, reduction_steps(mid, self.rows as int, self.cols as int));
        }
        match reduction {
            Some(mut more) => {
                steps.append(&mut more);
                Some(steps)
            },
            None => None,
        }
    }

    /// Reduces a row echelon matrix (see
    /// [`record_reduced_row_echelon_mut`](Self::record_reduced_row_echelon_mut)) and does the
    /// same row operations on `right`, which has as many rows; `false` when a row has no pivot
    /// when its turn comes, `right` being then unchanged.
    pub fn reduced_row_echelon_mut_with_right(&mut self, right: &mut HeapMatrix<T>) -> (done: bool)
        requires
            old(self).holds_cells(),
            old(right).holds_cells(),
            old(right).rows == old(self).rows,
            T::obeys_add_spec(),
            T::obeys_mul_spec(),
            T::obeys_neg_spec(),
            total_arith::<T>(),
        ensures
            done == reduction_defined(old(self).data@, old(self).rows as int, old(self).cols as int),
            final(self).rows == old(self).rows,
            final(self).cols == old(self).cols,
            final(self).data@ == replay_data(
                old(self).data@,
                old(self).rows as int,
                old(self).cols as int,
                reduction_steps(old(self).data@, old(self).rows as int, old(self).cols as int),
            ),
            final(right).rows == old(right).rows,
            final(right).cols == old(right).cols,
            done ==> final(right).data@ == replay_data(
                old(right).data@,
                old(right).rows as int,
                old(right).cols as int,
                reduction_steps(old(self).data@, old(self).rows as int, old(self).cols as int),
            ),
            !done ==> final(right).data@ == old(right).data@,
    {
        let ghost start = self.data@;
        match self.record_reduced_row_echelon_mut() {
            Some(steps) => {
                proof {
                    lemma_replay_ok_transfer(start, self.cols as int, right.data@, right.cols as int, self.rows as int, steps@);
                }
                right.replay_steps_mut(steps.as_slice());
                true
            },
            None => false,
        }
    }

    /// Brings the matrix to its reduced row echelon form and does the same row operations on
    /// `right`, which has as many rows; `false` when the reduction finds a row without pivot,
    /// `right` being then unchanged.
    pub fn rref_mut_with_right(&mut self, right: &mut HeapMatrix<T>, one: T) -> (done: bool)
        requires
            old(self).holds_cells(),
            old(right).holds_cells(),
            old(right).rows == old(self).rows,
            T::obeys_add_spec(),
            T::obeys_mul_spec(),
            T::obeys_div_spec(),
            T::obeys_neg_spec(),
            total_arith::<T>(),
        ensures
            done == rref_defined(old(self).data@, old(self).rows as int, old(self).cols as int, one),
            final(self).rows == old(self).rows,
            final(self).cols == old(self).cols,
            final(self).data@.len() == old(self).data@.len(),
            final(self).data@ == replay_data(
                old(self).data@,
                old(self).rows as int,
                old(self).cols as int,
                rref_steps(old(self).data@, old(self).rows as int, old(self).cols as int, one),
            ),
            final(right).rows == old(right).rows,
            final(right).cols == old(right).cols,
            done ==> final(right).data@ == replay_data(
                old(right).data@,
                old(right).rows as int,
                old(right).cols as int,
                rref_steps(old(self).data@, old(self).rows as int, old(self).cols as int, one),
            ),
            !done ==> final(right).data@ == old(right).data@,
    {
        let ghost start = self.data@;
        match self.record_rref_mut(one) {
            Some(steps) => {
                proof {
                    lemma_replay_ok_transfer(start, self.cols as int, right.data@, right.cols as int, self.rows as int, steps@);
                }
                right.replay_steps_mut(steps.as_slice());
                true
            },
            None => false,
        }
    }

    /// Brings the matrix to row echelon form (see
    /// [`record_gaussian_elimination_mut`](Self::record_gaussian_elimination_mut)).
    pub fn gaussian_elimination_mut(&mut self, one: T)
        requires
            old(self).holds_cells(),
            T::obeys_add_spec(),
            T::obeys_mul_spec(),
            T::obeys_div_spec(),
            T::obeys_neg_spec(),
            total_arith::<T>(),
        ensures
            final(self).rows == old(self).rows,
            final(self).cols == old(self).cols,
            final(self).data@ == replay_data(
                old(self).data@,
                old(self).rows as int,
                old(self).cols as int,
                gaussian_steps(old(self).data@, old(self).rows as int, old(self).cols as int, one),
            ),
    {
        let _ = self.record_gaussian_elimination_mut(one);
    }

    /// Brings the matrix to row echelon form and does the same row operations on `right`, which
    /// has as many rows.
    pub fn gaussian_elimination_mut_with_right(&mut self, right: &mut HeapMatrix<T>, one: T)
        requires
            old(self).holds_cells(),
            old(right).holds_cells(),
            old(right).rows == old(self).rows,
            T::obeys_add_spec(),
            T::obeys_mul_spec(),
            T::obeys_div_spec(),
            T::obeys_neg_spec(),
            total_arith::<T>(),
        ensures
            final(self).rows == old(self).rows,
            final(self).cols == old(self).cols,
            final(self).data@ == replay_data(
                old(self).data@,
                old(self).rows as int,
                old(self).cols as int,
                gaussian_steps(old(self).data@, old(self).rows as int, old(self).cols as int, one),
            ),
            final(right).rows == old(right).rows,
            final(right).cols == old(right).cols,
            final(right).data@ == replay_data(
                old(right).data@,
                old(right).rows as int,
                old(right).cols as int,
                gaussian_steps(old(self).data@, old(self).rows as int, old(self).cols as int, one),
            ),
    {
        let ghost start = self.data@;
        let steps = self.record_gaussian_elimination_mut(one);
        proof {
            lemma_replay_ok_transfer(start, self.cols as int, right.data@, right.cols as int, self.rows as int, steps@);
        }
        right.replay_steps_mut(steps.as_slice());
    }
}

impl<T: Copy + NearZero + Add<Output = T> + Sub<Output = T> + Mul<Output = T> + Div<Output = T> + Neg<Output = T>> HeapMatrix<T> {
    /// The determinant, `None` when the matrix is not square (a matrix with no row or no column
    /// counts as `0 x 0`). A `2 x 2` or `3 x 3` matrix is expanded and left unchanged; any other
    /// is brought to row echelon form, and its determinant is the product of the diagonal
    /// divided by the factor of the row operations done (see [`steps_factor`]).
    pub fn determinant_mut(&mut self, zero: T, one: T) -> (r: Option<T>)
        requires
            old(self).holds_cells(),
            T::obeys_add_spec(),
            T::obeys_sub_spec(),
            T::obeys_mul_spec(),
            T::obeys_div_spec(),
            T::obeys_neg_spec(),
            total_arith::<T>(),
            total_sub::<T>(),
        ensures
            final(self).rows == old(self).rows,
            final(self).cols == old(self).cols,
            ({
                let (rows, cols) = (old(self).rows as int, old(self).cols as int);
                let d = old(self).data@;
                let n = if rows == 0 || cols == 0 { 0 } else { rows };
                let square = rows == cols || rows == 0 || cols == 0;
                &&& !square ==> r is None && final(self).data@ == d
                &&& square && n == 2 ==> r == Some(det2_of(at(d, cols, 0, 0), at(d, cols, 0, 1), at(d, cols, 1, 0), at(d, cols, 1, 1)))
                    && final(self).data@ == d
                &&& square && n == 3 ==> r == Some(det3_of(d)) && final(self).data@ == d
                &&& square && n != 2 && n != 3 ==> {
                    let steps = gaussian_steps(d, rows, cols, one);
                    let after = replay_data(d, rows, cols, steps);
                    &&& final(self).data@ == after
                    &&& r == Some(diagonal_product(after, cols, n, one).div_spec(
                        steps_factor(steps, steps.len() as int, zero, one),
                    ))
                }
            }),
    {
        let n = match self.as_view().is_square() {
            Some(n) => n,
            None => return None,
        };
        if n == 2 {
            proof {
                lemma_cell_index(1, 1, 2, 2);
            }
            let a = *self.index((0, 0));
            let b = *self.index((0, 1));
            let c = *self.index((1, 0));
            let d = *self.index((1, 1));
            return Some(a * d - b * c);
        }
        if n == 3 {
            proof {
                lemma_cell_index(2, 2, 3, 3);
            }
            let a = self.data[0];
            let b = self.data[1];
            let c = self.data[2];
            let d = self.data[3];
            let e = self.data[4];
            let f = self.data[5];
            let g = self.data[6];
            let h = self.data[7];
            let i = self.data[8];
            return Some(a * (e * i - f * h) - d * (b * i - c * h) + g * (b * f - c * e));
        }
        let steps = self.record_gaussian_elimination_mut(one);
        let mut k = one;
        for t in 0..steps.len()
            invariant
                T::obeys_sub_spec(),
                T::obeys_mul_spec(),
                total_arith::<T>(),
                total_sub::<T>(),
                k == steps_factor(steps@, t as int, zero, one),
        {
            match steps[t] {
                MatrixRowOperation::Swap(i, j) => {
                    if i != j {
                        k = zero - k;
                    }
                },
                MatrixRowOperation::Mul(_, x) => {
                    k = k * x;
                },
                MatrixRowOperation::Add(..) => {},
            }
        }
        let mut diagonal = one;
        for t in 0..n
            invariant
                n == self.rows || (n == 0 && (self.rows == 0 || self.cols == 0)),
                n == 0 || n == self.cols,
                self.holds_cells(),
                T::obeys_mul_spec(),
                total_arith::<T>(),
                diagonal == diagonal_product(self.data@, self.cols as int, t as int, one),
        {
            proof {
                lemma_cell_index(t as int, t as int, self.rows as int, self.cols as int);
            }
            diagonal = diagonal * *self.index((t, t));
        }
        Some(diagonal / k)
    }
}

impl<'a, T: Copy + NearZero + Add<Output = T> + Mul<Output = T> + Div<Output = T> + Neg<Output = T>> MatrixView<'a, T> {
    /// The inverse of the view, computed by bringing a copy of it to its reduced row echelon
    /// form while doing the same row operations on the identity. `Err(NotSquare)` when the view
    /// is not square, `Err(NotInvertible)` when the rank of the reduced form is below the size;
    /// `None` when the reduction finds a row without pivot.
    pub fn invert(&self, zero: T, one: T) -> (r: Option<Result<HeapMatrix<T>, InvertError>>)
        requires
            T::obeys_add_spec(),
            T::obeys_mul_spec(),
            T::obeys_div_spec(),
            T::obeys_neg_spec(),
            total_arith::<T>(),
        ensures
            self.spec_dim().0 != self.spec_dim().1 ==> r == Some(
                Err::<HeapMatrix<T>, InvertError>(InvertError::NotSquare),
            ),
            self.spec_dim().0 == self.spec_dim().1 ==> {
                let n = self.spec_dim().0 as int;
                let d = cells_of(*self);
                let steps = rref_steps(d, n, n, one);
                &&& !rref_defined(d, n, n, one) ==> r is None
                &&& rref_defined(d, n, n, one) && rank_of(replay_data(d, n, n, steps), n, n) == n ==> (
                r matches Some(Ok(m)) && m.rows == n && m.cols == n && m.data@ == replay_data(
                    identity_data(n, zero, one),
                    n,
                    n,
                    steps,
                ))
                &&& rref_defined(d, n, n, one) && rank_of(replay_data(d, n, n, steps), n, n) != n ==> r
                    == Some(Err::<HeapMatrix<T>, InvertError>(InvertError::NotInvertible))
            },
    {
        let n = match self.is_square() {
            Some(n) => n,
            None => return Some(Err(InvertError::NotSquare)),
        };
        let mut left = self.to_heap();
        let len = left.data.len();
        let mut right = HeapMatrix::identity(n, zero, one);
        if !left.rref_mut_with_right(&mut right, one) {
            return None;
        }
        if left.rank_float() == n {
            Some(Ok(right))
        } else {
            Some(Err(InvertError::NotInvertible))
        }
    }

    /// `Some(true)` when the view is square and the reduced row echelon form of a copy of it has
    /// full rank; `Some(false)` otherwise; `None` when the reduction finds a row without pivot.
    pub fn is_invertible(&self, one: T) -> (r: Option<bool>)
        requires
            T::obeys_add_spec(),
            T::obeys_mul_spec(),
            T::obeys_div_spec(),
            T::obeys_neg_spec(),
            total_arith::<T>(),
        ensures
            self.spec_dim().0 != self.spec_dim().1 ==> r == Some(false),
            self.spec_dim().0 == self.spec_dim().1 ==> {
                let n = self.spec_dim().0 as int;
                let d = cells_of(*self);
                &&& !rref_defined(d, n, n, one) ==> r is None
                &&& rref_defined(d, n, n, one) ==> r == Some(
                    rank_of(replay_data(d, n, n, rref_steps(d, n, n, one)), n, n) == n,
                )
            },
    {
        let n = match self.is_square() {
            Some(n) => n,
            None => return Some(false),
        };
        let mut m = self.to_heap();
        match m.record_rref_mut(one) {
            Some(_) => Some(m.rank_float() == n),
            None => None,
        }
    }
}

impl<'a, T: Copy + NearZero + Sub<Output = T>> MatrixView<'a, T> {
    /// `true` when the view is square and each cell minus the identity's cell (`one` on the
    /// diagonal, `zero` elsewhere) is near zero.
    pub fn is_identity_float(&self, zero: T, one: T) -> (r: bool)
        requires
            T::obeys_sub_spec(),
            total_sub::<T>(),
        ensures
            r == (self.spec_dim().0 == self.spec_dim().1 && forall|i: int, j: int|
                0 <= i < self.spec_dim().0 && 0 <= j < self.spec_dim().1 ==> (#[trigger] self.cell(
                    (i as usize, j as usize),
                )).sub_spec(if i == j { one } else { zero }).near_zero_spec()),
    {
        let (rows, cols) = self.dim();
        if rows != cols {
            return false;
        }
        for i in 0..rows
            invariant
                (rows, cols) == self.spec_dim(),
                rows == cols,
                T::obeys_sub_spec(),
                total_sub::<T>(),
                forall|a: int, b: int|
                    0 <= a < i && 0 <= b < cols ==> (#[trigger] self.cell((a as usize, b as usize))).sub_spec(
                        if a == b { one } else { zero },
                    ).near_zero_spec(),
        {
            for j in 0..cols
                invariant
                    (rows, cols) == self.spec_dim(),
                    rows == cols,
                    i < rows,
                    T::obeys_sub_spec(),
                    total_sub::<T>(),
                    forall|a: int, b: int|
                        0 <= a < rows && 0 <= b < cols && (a < i || (a == i && b < j)) ==> (
                        #[trigger] self.cell((a as usize, b as usize))).sub_spec(
                            if a == b { one } else { zero },
                        ).near_zero_spec(),
            {
                let e = match self.get((i, j)) {
                    Some(e) => *e,
                    None => {
                        proof {
                            assert(false);
                        }
                        return false;
                    },
                };
                let predicate = if i == j { one } else { zero };
                let difference = e - predicate;
                if !difference.is_near_zero() {
                    proof {
                        let a = i as int;
                        let b = j as int;
                        assert(!self.cell((a as usize, b as usize)).sub_spec(if a == b { one } else { zero }).near_zero_spec());
                    }
                    return false;
                }
            }
        }
        true
    }
}

} // verus!
