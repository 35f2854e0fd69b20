//! The matrix of a row operation, and the product of the matrices of a sequence of them.

use core::ops::{Add, Div, Mul, Neg};
use vstd::prelude::*;
use vstd::std_specs::ops::{AddSpec, DivSpec, MulSpec, NegSpec};
use crate::linear::elimination::{
    gaussian_steps, reduction_defined, reduction_steps, rref_defined, rref_steps, total_arith,
};
use crate::traits::near_zero::NearZero;
use crate::linear::gauss::{
    lemma_join_index, lemma_split_index, replay_data, replay_ok, step_data, step_ok, MatrixRowOperation,
};
use crate::linear::heap_matrix::{identity_data, lemma_cell_index, HeapMatrix};
use crate::linear::matrix::{cell_product_prefix, matrix_product_ok, Matrix};
use crate::linear::product::neutral;

verus! {

/// The rows that `op` names are below `n`.
pub open spec fn op_fits<T>(op: MatrixRowOperation<T>, n: int) -> bool {
    match op {
        MatrixRowOperation::Swap(i, j) => i < n && j < n,
        MatrixRowOperation::Add(i, _, j) => i < n && j < n,
        MatrixRowOperation::Mul(i, _) => i < n,
    }
}

/// `zero + a(i, 0) * b(0, j) + ... + a(i, k - 1) * b(k - 1, j)`, summed left to right, for the
/// matrices whose cells, row after row, are `a` (`a_cols` columns) and `b` (`b_cols` columns).
pub open spec fn row_col_sum<T: Add<Output = T> + Mul<Output = T>>(
    a: Seq<T>,
    a_cols: int,
    b: Seq<T>,
    b_cols: int,
    i: int,
    j: int,
    k: int,
    zero: T,
) -> T
    decreases k,
{
    if k <= 0 {
        zero
    } else {
        row_col_sum(a, a_cols, b, b_cols, i, j, k - 1, zero).add_spec(
            a[i * a_cols + k - 1].mul_spec(b[(k - 1) * b_cols + j]),
        )
    }
}

/// The cells of the product of two `n x n` matrices whose cells are `a` and `b`.
pub open spec fn product_cells<T: Add<Output = T> + Mul<Output = T>>(a: Seq<T>, b: Seq<T>, n: int, zero: T) -> Seq<T> {
    Seq::new((n * n) as nat, |x: int| row_col_sum(a, n, b, n, x / n, x % n, n, zero))
}

/// The cells of the `n x n` matrix of `op`: the identity once `op` is applied.
pub open spec fn op_cells<T: Copy + Add<Output = T> + Mul<Output = T>>(
    op: MatrixRowOperation<T>,
    n: int,
    zero: T,
    one: T,
) -> Seq<T> {
    step_data(identity_data(n, zero, one), n, n, op)
}

/// The cells of the product, in order, of the matrices of `steps[k]`, `steps[k + 1]`, ..., the
/// identity when there is none.
pub open spec fn composition_cells<T: Copy + Add<Output = T> + Mul<Output = T>>(
    steps: Seq<MatrixRowOperation<T>>,
    k: int,
    n: int,
    zero: T,
    one: T,
) -> Seq<T>
    decreases steps.len() - k,
{
    if k >= steps.len() || k < 0 {
        identity_data(n, zero, one)
    } else {
        product_cells(op_cells(steps[k], n, zero, one), composition_cells(steps, k + 1, n, zero, one), n, zero)
    }
}

/// Every product and partial sum of the cells of the product of the `n x n` matrices with cells
/// `a` and `b` can be computed.
pub open spec fn product_cells_ok<T: Add<Output = T> + Mul<Output = T>>(a: Seq<T>, b: Seq<T>, n: int, zero: T) -> bool {
    forall|i: int, j: int, s: int|
        0 <= i < n && 0 <= j < n && 0 <= s < n ==> {
            &&& a[i * n + s].mul_req(b[s * n + j])
            &&& (#[trigger] row_col_sum(a, n, b, n, i, j, s, zero)).add_req(a[i * n + s].mul_spec(b[s * n + j]))
        }
}

/// The product of the `n x n` matrices of `steps` can be computed: each operation applies to
/// the identity, and each product of the matrix of `steps[k]` by the product of the matrices of
/// the later ones has its arithmetic allowed.
pub open spec fn composition_ok<T: Copy + Add<Output = T> + Mul<Output = T>>(
    steps: Seq<MatrixRowOperation<T>>,
    n: int,
    zero: T,
    one: T,
) -> bool {
    forall|k: int|
        0 <= k < steps.len() ==> {
            &&& step_ok(identity_data(n, zero, one), n, n, #[trigger] steps[k])
            &&& product_cells_ok(op_cells(steps[k], n, zero, one), composition_cells(steps, k + 1, n, zero, one), n, zero)
        }
}

/// The cells of the product of the matrices of `steps[k - 1]`, ..., `steps[1]`, `steps[0]`, in
/// that order: the matrix that does the first `k` operations, first to last. The identity when
/// `k` is `0`.
pub open spec fn recorded_cells<T: Copy + Add<Output = T> + Mul<Output = T>>(
    steps: Seq<MatrixRowOperation<T>>,
    k: int,
    n: int,
    zero: T,
    one: T,
) -> Seq<T>
    decreases k,
{
    if k <= 0 {
        identity_data(n, zero, one)
    } else {
        product_cells(op_cells(steps[k - 1], n, zero, one), recorded_cells(steps, k - 1, n, zero, one), n, zero)
    }
}

/// The sum and the product of `T` behave as in a commutative ring whose zero is `zero` and
/// whose one is `one`: both are neutral (and `zero` absorbs), the sum and the product commute,
/// and the product distributes over the sum.
pub open spec fn ring_like<T: Add<Output = T> + Mul<Output = T>>(zero: T, one: T) -> bool {
    &&& neutral(zero, one)
    &&& forall|a: T, b: T| #[trigger] a.add_spec(b) == b.add_spec(a)
    &&& forall|a: T, b: T| #[trigger] a.mul_spec(b) == b.mul_spec(a)
    &&& forall|a: T, b: T, c: T| #[trigger] a.add_spec(b).mul_spec(c) == a.mul_spec(c).add_spec(b.mul_spec(c))
}

/// A row of `e` whose only cell that may differ from `zero`, among the first `k`, is `x` at `p`:
/// its sum against column `j` of `m` is `x * m(p, j)`, or `zero` when `p` is not among them.
proof fn lemma_sum_single<T: Add<Output = T> + Mul<Output = T>>(
    e: Seq<T>,
    n: int,
    m: Seq<T>,
    c: int,
    i: int,
    j: int,
    k: int,
    p: int,
    x: T,
    zero: T,
    one: T,
)
    requires
        neutral(zero, one),
        forall|s: int| 0 <= s < k ==> #[trigger] e[i * n + s] == if s == p { x } else { zero },
    ensures
        row_col_sum(e, n, m, c, i, j, k, zero) == if 0 <= p < k { x.mul_spec(m[p * c + j]) } else { zero },
    decreases k,
{
    if k > 0 {
        lemma_sum_single(e, n, m, c, i, j, k - 1, p, x, zero, one);
        assert(e[i * n + (k - 1)] == if k - 1 == p { x } else { zero });
        assert(zero.mul_spec(m[(k - 1) * c + j]) == zero);
    }
}

/// A row of `e` whose only cells that may differ from `zero`, among the first `k`, are `x` at
/// `p` and `y` at `q`: its sum against column `j` of `m` is `x * m(p, j) + y * m(q, j)`, keeping
/// the terms of the positions among the first `k`.
proof fn lemma_sum_pair<T: Add<Output = T> + Mul<Output = T>>(
    e: Seq<T>,
    n: int,
    m: Seq<T>,
    c: int,
    i: int,
    j: int,
    k: int,
    p: int,
    x: T,
    q: int,
    y: T,
    zero: T,
    one: T,
)
    requires
        ring_like(zero, one),
        p != q,
        0 <= p,
        0 <= q,
        forall|s: int| 0 <= s < k ==> #[trigger] e[i * n + s] == if s == p { x } else if s == q { y } else { zero },
    ensures
        row_col_sum(e, n, m, c, i, j, k, zero) == if p < k && q < k {
            x.mul_spec(m[p * c + j]).add_spec(y.mul_spec(m[q * c + j]))
        } else if p < k {
            x.mul_spec(m[p * c + j])
        } else if q < k {
            y.mul_spec(m[q * c + j])
        } else {
            zero
        },
    decreases k,
{
    if k > 0 {
        lemma_sum_pair(e, n, m, c, i, j, k - 1, p, x, q, y, zero, one);
        assert(e[i * n + (k - 1)] == if k - 1 == p { x } else if k - 1 == q { y } else { zero });
        assert(zero.mul_spec(m[(k - 1) * c + j]) == zero);
        let xp = x.mul_spec(m[p * c + j]);
        let yq = y.mul_spec(m[q * c + j]);
        assert(yq.add_spec(xp) == xp.add_spec(yq));
        assert(zero.add_spec(xp) == xp);
        assert(zero.add_spec(yq) == yq);
    }
}

/// The cell `(r, s)` of the identity of size `n`.
proof fn lemma_identity_cell<T>(n: int, r: int, s: int, zero: T, one: T)
    requires
        0 <= r < n,
        0 <= s < n,
    ensures
        identity_data(n, zero, one)[r * n + s] == if r == s { one } else { zero },
{
    lemma_join_index(r, s, n);
    lemma_cell_index(r, s, n, n);
}

/// The cell `(i, j)` of the product of the matrix of a swap of rows by `m`.
proof fn lemma_swap_cell<T: Copy + Add<Output = T> + Mul<Output = T>>(
    a: usize,
    b: usize,
    m: Seq<T>,
    n: int,
    c: int,
    zero: T,
    one: T,
    i: int,
    j: int,
)
    requires
        neutral(zero, one),
        a < n,
        b < n,
        0 <= i < n,
        0 <= j < c,
        m.len() == n * c,
    ensures
        row_col_sum(op_cells(MatrixRowOperation::Swap(a, b), n, zero, one), n, m, c, i, j, n, zero) == step_data(
            m,
            n,
            c,
            MatrixRowOperation::Swap(a, b),
        )[i * c + j],
{
    let e = op_cells(MatrixRowOperation::<T>::Swap(a, b), n, zero, one);
    lemma_join_index(i, j, c);
    lemma_cell_index(i, j, n, c);
    let t: int = if i == a { b as int } else if i == b { a as int } else { i };
    assert forall|s: int| 0 <= s < n implies #[trigger] e[i * n + s] == if s == t { one } else { zero } by {
        lemma_join_index(i, s, n);
        lemma_cell_index(i, s, n, n);
        lemma_identity_cell(n, t, s, zero, one);
    }
    lemma_sum_single(e, n, m, c, i, j, n, t, one, zero, one);
}

/// The cell `(i, j)` of the product of the matrix of a multiplication of a row by `m`.
proof fn lemma_mul_cell<T: Copy + Add<Output = T> + Mul<Output = T>>(
    a: usize,
    v: T,
    m: Seq<T>,
    n: int,
    c: int,
    zero: T,
    one: T,
    i: int,
    j: int,
)
    requires
        ring_like(zero, one),
        a < n,
        0 <= i < n,
        0 <= j < c,
        m.len() == n * c,
    ensures
        row_col_sum(op_cells(MatrixRowOperation::Mul(a, v), n, zero, one), n, m, c, i, j, n, zero) == step_data(
            m,
            n,
            c,
            MatrixRowOperation::Mul(a, v),
        )[i * c + j],
{
    let e = op_cells(MatrixRowOperation::Mul(a, v), n, zero, one);
    lemma_join_index(i, j, c);
    lemma_cell_index(i, j, n, c);
    let x = if i == a { v } else { one };
    assert forall|s: int| 0 <= s < n implies #[trigger] e[i * n + s] == if s == i { x } else { zero } by {
        lemma_join_index(i, s, n);
        lemma_cell_index(i, s, n, n);
        lemma_identity_cell(n, i, s, zero, one);
        assert(one.mul_spec(v) == v);
        assert(zero.mul_spec(v) == zero);
    }
    lemma_sum_single(e, n, m, c, i, j, n, i, x, zero, one);
    assert(v.mul_spec(m[i * c + j]) == m[i * c + j].mul_spec(v));
    assert(one.mul_spec(m[i * c + j]) == m[i * c + j]);
}

/// The cell `(i, j)` of the product of the matrix of an addition of a multiple of row `b` to row
/// `a` by `m`.
proof fn lemma_add_cell<T: Copy + Add<Output = T> + Mul<Output = T>>(
    a: usize,
    v: T,
    b: usize,
    m: Seq<T>,
    n: int,
    c: int,
    zero: T,
    one: T,
    i: int,
    j: int,
)
    requires
        ring_like(zero, one),
        a < n,
        b < n,
        0 <= i < n,
        0 <= j < c,
        m.len() == n * c,
    ensures
        row_col_sum(op_cells(MatrixRowOperation::Add(a, v, b), n, zero, one), n, m, c, i, j, n, zero) == step_data(
            m,
            n,
            c,
            MatrixRowOperation::Add(a, v, b),
        )[i * c + j],
{
    let e = op_cells(MatrixRowOperation::Add(a, v, b), n, zero, one);
    lemma_join_index(i, j, c);
    lemma_cell_index(i, j, n, c);
    let mi = m[i * c + j];
    if i == a && a == b {
        let w = one.add_spec(v.mul_spec(one));
        assert forall|s: int| 0 <= s < n implies #[trigger] e[i * n + s] == if s == i { w } else { zero } by {
            lemma_join_index(i, s, n);
            lemma_cell_index(i, s, n, n);
            lemma_identity_cell(n, i, s, zero, one);
            assert(v.mul_spec(zero) == zero);
            assert(zero.add_spec(zero) == zero);
        }
        lemma_sum_single(e, n, m, c, i, j, n, i, w, zero, one);
        assert(v.mul_spec(one) == v);
        assert(one.add_spec(v).mul_spec(mi) == one.mul_spec(mi).add_spec(v.mul_spec(mi)));
        assert(one.mul_spec(mi) == mi);
    } else if i == a {
        assert forall|s: int| 0 <= s < n implies #[trigger] e[i * n + s] == if s == i { one } else if s == b { v } else { zero } by {
            lemma_join_index(i, s, n);
            lemma_cell_index(i, s, n, n);
            lemma_identity_cell(n, i, s, zero, one);
            lemma_identity_cell(n, b as int, s, zero, one);
            assert(v.mul_spec(zero) == zero);
            assert(v.mul_spec(one) == v);
            assert(one.add_spec(zero) == one);
            assert(zero.add_spec(v) == v);
            assert(zero.add_spec(zero) == zero);
        }
        lemma_sum_pair(e, n, m, c, i, j, n, i, one, b as int, v, zero, one);
        assert(one.mul_spec(mi) == mi);
    } else {
        assert forall|s: int| 0 <= s < n implies #[trigger] e[i * n + s] == if s == i { one } else { zero } by {
            lemma_join_index(i, s, n);
            lemma_cell_index(i, s, n, n);
            lemma_identity_cell(n, i, s, zero, one);
        }
        lemma_sum_single(e, n, m, c, i, j, n, i, one, zero, one);
        assert(one.mul_spec(mi) == mi);
    }
}

/// The matrix of a row operation does the operation: the cell `(i, j)` of its product by an
/// `n x c` matrix `m` is the cell `(i, j)` of `m` once the operation is applied, when the sum
/// and the product of `T` behave as in a commutative ring (see [`ring_like`]).
pub proof fn lemma_op_matrix_does_op<T: Copy + Add<Output = T> + Mul<Output = T>>(
    op: MatrixRowOperation<T>,
    m: Seq<T>,
    n: int,
    c: int,
    zero: T,
    one: T,
)
    requires
        ring_like(zero, one),
        op_fits(op, n),
        0 <= n,
        0 <= c,
        m.len() == n * c,
    ensures
        forall|i: int, j: int|
            0 <= i < n && 0 <= j < c ==> #[trigger] row_col_sum(op_cells(op, n, zero, one), n, m, c, i, j, n, zero)
                == step_data(m, n, c, op)[i * c + j],
{
    assert forall|i: int, j: int| 0 <= i < n && 0 <= j < c implies #[trigger] row_col_sum(
        op_cells(op, n, zero, one),
        n,
        m,
        c,
        i,
        j,
        n,
        zero,
    ) == step_data(m, n, c, op)[i * c + j] by {
        match op {
            MatrixRowOperation::Swap(a, b) => lemma_swap_cell(a, b, m, n, c, zero, one, i, j),
            MatrixRowOperation::Mul(a, v) => lemma_mul_cell(a, v, m, n, c, zero, one, i, j),
            MatrixRowOperation::Add(a, v, b) => lemma_add_cell(a, v, b, m, n, c, zero, one, i, j),
        }
    }
}

/// The product of the matrix of `op` by the `n x n` matrix whose cells are `b` is `b` once `op`
/// is applied, when `T` behaves as a commutative ring.
proof fn lemma_product_by_op<T: Copy + Add<Output = T> + Mul<Output = T>>(
    op: MatrixRowOperation<T>,
    b: Seq<T>,
    n: int,
    zero: T,
    one: T,
)
    requires
        ring_like(zero, one),
        op_fits(op, n),
        0 <= n,
        b.len() == n * n,
    ensures
        product_cells(op_cells(op, n, zero, one), b, n, zero) == step_data(b, n, n, op),
{
    lemma_op_matrix_does_op(op, b, n, n, zero, one);
    let l = product_cells(op_cells(op, n, zero, one), b, n, zero);
    let r = step_data(b, n, n, op);
    assert forall|x: int| 0 <= x < n * n implies #[trigger] l[x] == r[x] by {
        lemma_split_index(x, n, n);
        let i = x / n;
        let j = x % n;
        assert(row_col_sum(op_cells(op, n, zero, one), n, b, n, i, j, n, zero) == r[i * n + j]);
    }
    assert(l =~= r);
}

/// The matrix that does the operations `steps`, first to last (see [`recorded_cells`]), is the
/// identity once the operations are applied to it, first to last, when `T` behaves as a
/// commutative ring: what [`HeapMatrix::record_composition_rref_mut`] and its siblings give
/// does the row operations they record.
pub proof fn lemma_recorded_is_replay<T: Copy + Add<Output = T> + Mul<Output = T>>(
    steps: Seq<MatrixRowOperation<T>>,
    n: int,
    zero: T,
    one: T,
)
    requires
        ring_like(zero, one),
        0 <= n,
        forall|k: int| 0 <= k < steps.len() ==> op_fits(#[trigger] steps[k], n),
    ensures
        recorded_cells(steps, steps.len() as int, n, zero, one) == replay_data(identity_data(n, zero, one), n, n, steps),
{
    lemma_recorded_prefix(steps, steps.len() as int, n, zero, one);
    assert(steps.take(steps.len() as int) =~= steps);
}

/// [`lemma_recorded_is_replay`] for the first `k` operations.
proof fn lemma_recorded_prefix<T: Copy + Add<Output = T> + Mul<Output = T>>(
    steps: Seq<MatrixRowOperation<T>>,
    k: int,
    n: int,
    zero: T,
    one: T,
)
    requires
        ring_like(zero, one),
        0 <= n,
        0 <= k <= steps.len(),
        forall|q: int| 0 <= q < steps.len() ==> op_fits(#[trigger] steps[q], n),
    ensures
        recorded_cells(steps, k, n, zero, one) == replay_data(identity_data(n, zero, one), n, n, steps.take(k)),
        recorded_cells(steps, k, n, zero, one).len() == n * n,
    decreases k,
{
    let id = identity_data(n, zero, one);
    if k == 0 {
        assert(steps.take(0) =~= Seq::<MatrixRowOperation<T>>::empty());
    } else {
        lemma_recorded_prefix(steps, k - 1, n, zero, one);
        let before = recorded_cells(steps, k - 1, n, zero, one);
        lemma_product_by_op(steps[k - 1], before, n, zero, one);
        assert(steps.take(k).drop_last() =~= steps.take(k - 1));
        assert(steps.take(k).last() == steps[k - 1]);
    }
}

/// The product of the matrices of `steps[k]`, `steps[k + 1]`, ..., in that order (see
/// [`composition_cells`]) is the identity once the operations are applied to it from the last
/// to `steps[k]`, when `T` behaves as a commutative ring: the matrix that
/// [`MatrixRowOperation::composition_matrix`] gives does the operations last to first.
pub proof fn lemma_composition_is_reverse_replay<T: Copy + Add<Output = T> + Mul<Output = T>>(
    steps: Seq<MatrixRowOperation<T>>,
    n: int,
    zero: T,
    one: T,
)
    requires
        ring_like(zero, one),
        0 <= n,
        forall|k: int| 0 <= k < steps.len() ==> op_fits(#[trigger] steps[k], n),
    ensures
        composition_cells(steps, 0, n, zero, one) == replay_data(identity_data(n, zero, one), n, n, steps.reverse()),
{
    lemma_composition_suffix(steps, 0, n, zero, one);
    assert(steps.subrange(0, steps.len() as int) =~= steps);
}

/// [`lemma_composition_is_reverse_replay`] for the operations from `steps[k]` on.
proof fn lemma_composition_suffix<T: Copy + Add<Output = T> + Mul<Output = T>>(
    steps: Seq<MatrixRowOperation<T>>,
    k: int,
    n: int,
    zero: T,
    one: T,
)
    requires
        ring_like(zero, one),
        0 <= n,
        0 <= k <= steps.len(),
        forall|q: int| 0 <= q < steps.len() ==> op_fits(#[trigger] steps[q], n),
    ensures
        composition_cells(steps, k, n, zero, one) == replay_data(
            identity_data(n, zero, one),
            n,
            n,
            steps.subrange(k, steps.len() as int).reverse(),
        ),
        composition_cells(steps, k, n, zero, one).len() == n * n,
    decreases steps.len() - k,
{
    let len = steps.len() as int;
    if k == len {
        assert(steps.subrange(k, len).reverse() =~= Seq::<MatrixRowOperation<T>>::empty());
    } else {
        lemma_composition_suffix(steps, k + 1, n, zero, one);
        let after = composition_cells(steps, k + 1, n, zero, one);
        lemma_product_by_op(steps[k], after, n, zero, one);
        let rev = steps.subrange(k, len).reverse();
        let rest = steps.subrange(k + 1, len).reverse();
        assert(rev.drop_last() =~= rest);
        assert(rev.last() == steps[k]);
    }
}

/// The sums of the product of two matrices, from their cells, row after row.
pub proof fn lemma_product_prefix<T: Add<Output = T> + Mul<Output = T>, const R: usize, const S: usize, const C: usize>(
    a: Matrix<T, R, S>,
    b: Matrix<T, S, C>,
    ac: Seq<T>,
    bc: Seq<T>,
    i: int,
    j: int,
    k: int,
    zero: T,
)
    requires
        0 <= i < R,
        0 <= j < C,
        k <= S,
        forall|x: int, y: int| 0 <= x < R && 0 <= y < S ==> #[trigger] a.cell(x, y) == ac[x * S + y],
        forall|x: int, y: int| 0 <= x < S && 0 <= y < C ==> #[trigger] b.cell(x, y) == bc[x * C + y],
    ensures
        cell_product_prefix(a, b, i, j, k, zero) == row_col_sum(ac, S as int, bc, C as int, i, j, k, zero),
    decreases k,
{
    if k > 0 {
        lemma_product_prefix(a, b, ac, bc, i, j, k - 1, zero);
        assert(a.cell(i, k - 1) == ac[i * S + (k - 1)]);
        assert(b.cell(k - 1, j) == bc[(k - 1) * C + j]);
    }
}

/// Operations that can be applied in turn name only existing rows.
pub proof fn lemma_steps_fit<T: Copy + Add<Output = T> + Mul<Output = T>>(
    data: Seq<T>,
    rows: int,
    cols: int,
    steps: Seq<MatrixRowOperation<T>>,
)
    requires
        replay_ok(data, rows, cols, steps),
    ensures
        forall|k: int| 0 <= k < steps.len() ==> op_fits(#[trigger] steps[k], rows),
    decreases steps.len(),
{
    if steps.len() > 0 {
        lemma_steps_fit(data, rows, cols, steps.drop_last());
        assert forall|k: int| 0 <= k < steps.len() implies op_fits(#[trigger] steps[k], rows) by {
            if k < steps.len() - 1 {
                assert(steps[k] == steps.drop_last()[k]);
            }
        }
    }
}

/// An operation that names rows below `n` can be applied to the identity of size `n` when the
/// arithmetic of `T` is total.
proof fn lemma_op_ok_on_identity<T: Copy + Add<Output = T> + Mul<Output = T> + Div<Output = T> + Neg<Output = T>>(
    op: MatrixRowOperation<T>,
    n: int,
    zero: T,
    one: T,
)
    requires
        op_fits(op, n),
        total_arith::<T>(),
    ensures
        step_ok(identity_data(n, zero, one), n, n, op),
{
    let id = identity_data(n, zero, one);
    match op {
        MatrixRowOperation::Add(i, v, j) => {
            assert forall|b: int| 0 <= b < n implies {
                &&& v.mul_req(#[trigger] id[j * n + b])
                &&& id[i * n + b].add_req(v.mul_spec(id[j * n + b]))
            } by {
                assert(v.mul_req(id[j * n + b]));
                assert(id[i * n + b].add_req(v.mul_spec(id[j * n + b])));
            }
        },
        MatrixRowOperation::Mul(i, v) => {
            assert forall|b: int| 0 <= b < n implies (#[trigger] id[i * n + b]).mul_req(v) by {
                assert(id[i * n + b].mul_req(v));
            }
        },
        MatrixRowOperation::Swap(..) => {},
    }
}

impl<T: Copy + Add<Output = T> + Mul<Output = T>> MatrixRowOperation<T> {
    /// The `N x N` matrix of the operation: the identity once the operation is applied to it.
    /// The operation must apply to the identity: its rows exist and its arithmetic is allowed.
    pub fn as_matrix<const N: usize>(self, zero: T, one: T) -> (r: Matrix<T, N, N>)
        requires
            N * N <= usize::MAX,
            step_ok(identity_data(N as int, zero, one), N as int, N as int, self),
            T::obeys_add_spec(),
            T::obeys_mul_spec(),
        ensures
            forall|i: int, j: int| 0 <= i < N && 0 <= j < N ==> #[trigger] r.cell(i, j) == op_cells(
                self,
                N as int,
                zero,
                one,
            )[i * N + j],
    {
        let mut h = HeapMatrix::identity(N, zero, one);
        let ghost id = h.data@;
        proof {
            let one_step = seq![self];
            assert(one_step.drop_last() =~= Seq::<MatrixRowOperation<T>>::empty());
            assert(one_step.last() == self);
            assert(replay_data(id, N as int, N as int, one_step.drop_last()) == id);
            assert(replay_ok(id, N as int, N as int, one_step.drop_last()));
            assert(replay_ok(id, N as int, N as int, one_step));
            assert(replay_data(id, N as int, N as int, one_step) == op_cells(self, N as int, zero, one));
        }
        let ops = [self];
        assert(ops@ =~= seq![self]);
        h.replay_steps_mut(&ops);
        let mut m: Matrix<T, N, N> = Matrix::zero(zero);
        for i in 0..N
            invariant
                h.rows == N,
                h.cols == N,
                h.data@ == op_cells(self, N as int, zero, one),
                h.data@.len() == N * N,
                forall|a: int, b: int| 0 <= a < i && 0 <= b < N ==> #[trigger] m.cell(a, b) == h.data@[a * N + b],
        {
            for j in 0..N
                invariant
                    i < N,
                    h.rows == N,
                    h.cols == N,
                    h.data@ == op_cells(self, N as int, zero, one),
                    h.data@.len() == N * N,
                    forall|a: int, b: int|
                        (0 <= a < i && 0 <= b < N) || (a == i && 0 <= b < j) ==> #[trigger] m.cell(a, b) == h.data@[a * N + b],
            {
                proof {
                    lemma_cell_index(i as int, j as int, N as int, N as int);
                }
                let x = *h.index((i, j));
                m.set((i, j), x);
            }
        }
        m
    }
}

impl<T: Copy + Add<Output = T> + Mul<Output = T>> MatrixRowOperation<T> {
    /// The product, in order, of the `N x N` matrices of the operations: the identity when there
    /// is none, else the matrix of `steps[0]` times the product of the others. The product must
    /// be computable (see [`composition_ok`]).
    pub fn composition_matrix<const N: usize>(steps: &[Self], zero: T, one: T) -> (r: Matrix<T, N, N>)
        requires
            N * N <= usize::MAX,
            composition_ok(steps@, N as int, zero, one),
            T::obeys_add_spec(),
            T::obeys_mul_spec(),
        ensures
            forall|i: int, j: int| 0 <= i < N && 0 <= j < N ==> #[trigger] r.cell(i, j) == composition_cells(
                steps@,
                0,
                N as int,
                zero,
                one,
            )[i * N + j],
    {
        let mut acc: Matrix<T, N, N> = Matrix::identity(zero, one);
        let mut k = steps.len();
        proof {
            assert forall|i: int, j: int| 0 <= i < N && 0 <= j < N implies #[trigger] acc.cell(i, j) == composition_cells(
                steps@,
                k as int,
                N as int,
                zero,
                one,
            )[i * N + j] by {
                lemma_join_index(i, j, N as int);
                lemma_cell_index(i, j, N as int, N as int);
            }
        }
        while k > 0
            invariant
                k <= steps@.len(),
                N * N <= usize::MAX,
                composition_ok(steps@, N as int, zero, one),
                T::obeys_add_spec(),
                T::obeys_mul_spec(),
                forall|i: int, j: int| 0 <= i < N && 0 <= j < N ==> #[trigger] acc.cell(i, j) == composition_cells(
                    steps@,
                    k as int,
                    N as int,
                    zero,
                    one,
                )[i * N + j],
            decreases k,
        {
            k = k - 1;
            assert(step_ok(identity_data(N as int, zero, one), N as int, N as int, steps@[k as int]));
            let e: Matrix<T, N, N> = steps[k].as_matrix(zero, one);
            let ghost ec = op_cells(steps@[k as int], N as int, zero, one);
            let ghost bc = composition_cells(steps@, k as int + 1, N as int, zero, one);
            proof {
                assert(matrix_product_ok(e, acc, zero)) by {
                    assert forall|i: int, j: int, s: int|
                        #![trigger cell_product_prefix(e, acc, i, j, s, zero)]
                        #![trigger e.cell(i, s), acc.cell(s, j)]
                        0 <= i < N && 0 <= j < N && 0 <= s < N implies {
                        &&& e.cell(i, s).mul_req(acc.cell(s, j))
                        &&& cell_product_prefix(e, acc, i, j, s, zero).add_req(e.cell(i, s).mul_spec(acc.cell(s, j)))
                    } by {
                        assert(product_cells_ok(ec, bc, N as int, zero));
                        lemma_cell_index(i, s, N as int, N as int);
                        lemma_cell_index(s, j, N as int, N as int);
                        lemma_product_prefix(e, acc, ec, bc, i, j, s, zero);
                        assert(e.cell(i, s) == ec[i * N + s]);
                        assert(acc.cell(s, j) == bc[s * N + j]);
                    }
                }
            }
            let next = e.product(&acc, zero);
            proof {
                assert forall|i: int, j: int| 0 <= i < N && 0 <= j < N implies #[trigger] next.cell(i, j) == composition_cells(
                    steps@,
                    k as int,
                    N as int,
                    zero,
                    one,
                )[i * N + j] by {
                    lemma_product_prefix(e, acc, ec, bc, i, j, N as int, zero);
                    lemma_join_index(i, j, N as int);
                    lemma_cell_index(i, j, N as int, N as int);
                }
            }
            acc = next;
        }
        acc
    }
}

impl<T: Copy + Add<Output = T> + Mul<Output = T> + Div<Output = T> + Neg<Output = T>> MatrixRowOperation<T> {
    /// The `N x N` matrix that does the operations `steps`, first to last: the matrix of each
    /// operation times the matrix of the operations before it, from the identity.
    fn compose_recorded<const N: usize>(steps: &[Self], zero: T, one: T) -> (r: Matrix<T, N, N>)
        requires
            N * N <= usize::MAX,
            forall|k: int| 0 <= k < steps@.len() ==> op_fits(#[trigger] steps@[k], N as int),
            T::obeys_add_spec(),
            T::obeys_mul_spec(),
            total_arith::<T>(),
        ensures
            forall|i: int, j: int| 0 <= i < N && 0 <= j < N ==> #[trigger] r.cell(i, j) == recorded_cells(
                steps@,
                steps@.len() as int,
                N as int,
                zero,
                one,
            )[i * N + j],
    {
        let mut acc: Matrix<T, N, N> = Matrix::identity(zero, one);
        proof {
            assert forall|i: int, j: int| 0 <= i < N && 0 <= j < N implies #[trigger] acc.cell(i, j) == recorded_cells(
                steps@,
                0,
                N as int,
                zero,
                one,
            )[i * N + j] by {
                lemma_join_index(i, j, N as int);
                lemma_cell_index(i, j, N as int, N as int);
            }
        }
        for k in 0..steps.len()
            invariant
                N * N <= usize::MAX,
                forall|q: int| 0 <= q < steps@.len() ==> op_fits(#[trigger] steps@[q], N as int),
                T::obeys_add_spec(),
                T::obeys_mul_spec(),
                total_arith::<T>(),
                forall|i: int, j: int| 0 <= i < N && 0 <= j < N ==> #[trigger] acc.cell(i, j) == recorded_cells(
                    steps@,
                    k as int,
                    N as int,
                    zero,
                    one,
                )[i * N + j],
        {
            proof {
                lemma_op_ok_on_identity(steps@[k as int], N as int, zero, one);
            }
            let e: Matrix<T, N, N> = steps[k].as_matrix(zero, one);
            let ghost ec = op_cells(steps@[k as int], N as int, zero, one);
            let ghost bc = recorded_cells(steps@, k as int, N as int, zero, one);
            proof {
                assert forall|i: int, j: int, s: int| 0 <= i < N && 0 <= j < N && 0 <= s < N implies {
                    &&& e.cell(i, s).mul_req(acc.cell(s, j))
                    &&& (#[trigger] cell_product_prefix(e, acc, i, j, s, zero)).add_req(e.cell(i, s).mul_spec(acc.cell(s, j)))
                } by {
                    assert(product_cells_ok(ec, bc, N as int, zero));
                    lemma_cell_index(i, s, N as int, N as int);
                    lemma_cell_index(s, j, N as int, N as int);
                    lemma_product_prefix(e, acc, ec, bc, i, j, s, zero);
                    assert(e.cell(i, s) == ec[i * N + s]);
                    assert(acc.cell(s, j) == bc[s * N + j]);
                    assert(row_col_sum(ec, N as int, bc, N as int, i, j, s, zero).add_req(ec[i * N + s].mul_spec(bc[s * N + j])));
                }
                assert(matrix_product_ok(e, acc, zero)) by {
                    assert forall|i: int, j: int, s: int|
                        #![trigger cell_product_prefix(e, acc, i, j, s, zero)]
                        #![trigger e.cell(i, s), acc.cell(s, j)]
                        0 <= i < N && 0 <= j < N && 0 <= s < N implies {
                        &&& e.cell(i, s).mul_req(acc.cell(s, j))
                        &&& cell_product_prefix(e, acc, i, j, s, zero).add_req(e.cell(i, s).mul_spec(acc.cell(s, j)))
                    } by {
                        assert(product_cells_ok(ec, bc, N as int, zero));
                        lemma_cell_index(i, s, N as int, N as int);
                        lemma_cell_index(s, j, N as int, N as int);
                        lemma_product_prefix(e, acc, ec, bc, i, j, s, zero);
                        assert(e.cell(i, s) == ec[i * N + s]);
                        assert(acc.cell(s, j) == bc[s * N + j]);
                    }
                }
            }
            let next = e.product(&acc, zero);
            proof {
                assert forall|i: int, j: int| 0 <= i < N && 0 <= j < N implies #[trigger] next.cell(i, j) == recorded_cells(
                    steps@,
                    k as int + 1,
                    N as int,
                    zero,
                    one,
                )[i * N + j] by {
                    lemma_product_prefix(e, acc, ec, bc, i, j, N as int, zero);
                    lemma_join_index(i, j, N as int);
                    lemma_cell_index(i, j, N as int, N as int);
                }
            }
            acc = next;
        }
        acc
    }
}

impl<T: Copy + NearZero + Add<Output = T> + Mul<Output = T> + Div<Output = T> + Neg<Output = T>> HeapMatrix<T> {
    /// Brings the matrix to row echelon form (see
    /// [`record_gaussian_elimination_mut`](HeapMatrix::record_gaussian_elimination_mut)) and gives
    /// the `N x N` matrix that does its row operations. Each operation names rows below `N`.
    pub fn record_composition_gaussian_elimination_mut<const N: usize>(&mut self, zero: T, one: T) -> (r: Matrix<
        T,
        N,
        N,
    >)
        requires
            old(self).holds_cells(),
            N * N <= usize::MAX,
            T::obeys_add_spec(),
            T::obeys_mul_spec(),
            T::obeys_div_spec(),
            T::obeys_neg_spec(),
            total_arith::<T>(),
            forall|k: int|
                0 <= k < gaussian_steps(old(self).data@, old(self).rows as int, old(self).cols as int, one).len()
                    ==> op_fits(
                    #[trigger] gaussian_steps(old(self).data@, old(self).rows as int, old(self).cols as int, one)[k],
                    N as int,
                ),
        ensures
            final(self).rows == old(self).rows,
            final(self).cols == old(self).cols,
            final(self).data@ == replay_data(
                old(self).data@,
                old(self).rows as int,
                old(self).cols as int,
                gaussian_steps(old(self).data@, old(self).rows as int, old(self).cols as int, one),
            ),
            ({
                let steps = gaussian_steps(old(self).data@, old(self).rows as int, old(self).cols as int, one);
                forall|i: int, j: int| 0 <= i < N && 0 <= j < N ==> #[trigger] r.cell(i, j) == recorded_cells(
                    steps,
                    steps.len() as int,
                    N as int,
                    zero,
                    one,
                )[i * N + j]
            }),
    {
        let steps = self.record_gaussian_elimination_mut(one);
        MatrixRowOperation::compose_recorded(steps.as_slice(), zero, one)
    }

    /// Reduces a row echelon matrix (see
    /// [`record_reduced_row_echelon_mut`](HeapMatrix::record_reduced_row_echelon_mut)) and gives
    /// the `N x N` matrix that does its row operations; `None` when a row has no pivot when its
    /// turn comes. Each operation names rows below `N`.
    pub fn record_composition_reduced_row_echelon_mut<const N: usize>(&mut self, zero: T, one: T) -> (r: Option<
        Matrix<T, N, N>,
    >)
        requires
            old(self).holds_cells(),
            N * N <= usize::MAX,
            T::obeys_add_spec(),
            T::obeys_mul_spec(),
            T::obeys_neg_spec(),
            total_arith::<T>(),
            forall|k: int|
                0 <= k < reduction_steps(old(self).data@, old(self).rows as int, old(self).cols as int).len() ==> op_fits(
                    #[trigger] reduction_steps(old(self).data@, old(self).rows as int, old(self).cols as int)[k],
                    N as int,
                ),
        ensures
            final(self).rows == old(self).rows,
            final(self).cols == old(self).cols,
            final(self).data@ == replay_data(
                old(self).data@,
                old(self).rows as int,
                old(self).cols as int,
                reduction_steps(old(self).data@, old(self).rows as int, old(self).cols as int),
            ),
            !reduction_defined(old(self).data@, old(self).rows as int, old(self).cols as int) ==> r is None,
            reduction_defined(old(self).data@, old(self).rows as int, old(self).cols as int) ==> ({
                let steps = reduction_steps(old(self).data@, old(self).rows as int, old(self).cols as int);
                &&& r is Some
                &&& forall|i: int, j: int| 0 <= i < N && 0 <= j < N ==> #[trigger] r->0.cell(i, j) == recorded_cells(
                    steps,
                    steps.len() as int,
                    N as int,
                    zero,
                    one,
                )[i * N + j]
            }),
    {
        match self.record_reduced_row_echelon_mut() {
            Some(steps) => Some(MatrixRowOperation::compose_recorded(steps.as_slice(), zero, one)),
            None => None,
        }
    }

    /// Brings the matrix to its reduced row echelon form (see
    /// [`record_rref_mut`](HeapMatrix::record_rref_mut)) and gives the `N x N` matrix that does
    /// its row operations; `None` when the reduction finds a row without pivot. Each operation
    /// names rows below `N`.
    pub fn record_composition_rref_mut<const N: usize>(&mut self, zero: T, one: T) -> (r: Option<Matrix<T, N, N>>)
        requires
            old(self).holds_cells(),
            N * N <= usize::MAX,
            T::obeys_add_spec(),
            T::obeys_mul_spec(),
            T::obeys_div_spec(),
            T::obeys_neg_spec(),
            total_arith::<T>(),
            forall|k: int|
                0 <= k < rref_steps(old(self).data@, old(self).rows as int, old(self).cols as int, one).len() ==> op_fits(
                    #[trigger] rref_steps(old(self).data@, old(self).rows as int, old(self).cols as int, one)[k],
                    N as int,
                ),
        ensures
            final(self).rows == old(self).rows,
            final(self).cols == old(self).cols,
            final(self).data@ == replay_data(
                old(self).data@,
                old(self).rows as int,
                old(self).cols as int,
                rref_steps(old(self).data@, old(self).rows as int, old(self).cols as int, one),
            ),
            !rref_defined(old(self).data@, old(self).rows as int, old(self).cols as int, one) ==> r is None,
            rref_defined(old(self).data@, old(self).rows as int, old(self).cols as int, one) ==> ({
                let steps = rref_steps(old(self).data@, old(self).rows as int, old(self).cols as int, one);
                &&& r is Some
                &&& forall|i: int, j: int| 0 <= i < N && 0 <= j < N ==> #[trigger] r->0.cell(i, j) == recorded_cells(
                    steps,
                    steps.len() as int,
                    N as int,
                    zero,
                    one,
                )[i * N + j]
            }),
    {
        match self.record_rref_mut(one) {
            Some(steps) => Some(MatrixRowOperation::compose_recorded(steps.as_slice(), zero, one)),
            None => None,
        }
    }
}

} // verus!
