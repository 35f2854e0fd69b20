//! Products of matrices: matrix by matrix and matrix by scalar.

use core::ops::{Add, Mul};
use vstd::prelude::*;
use vstd::std_specs::ops::{AddSpec, MulSpec};
use crate::linear::heap_matrix::{lemma_cell_index, HeapMatrix};
use crate::linear::view::MatrixView;

verus! {

/// `zero + lhs(i, 0) * rhs(0, j) + ... + lhs(i, k - 1) * rhs(k - 1, j)`, summed left to right
/// with the operators of `T`.
pub open spec fn dot_prefix<'a, T: Copy + Add<Output = T> + Mul<Output = T>>(
    lhs: MatrixView<'a, T>,
    rhs: MatrixView<'a, T>,
    i: int,
    j: int,
    k: int,
    zero: T,
) -> T
    decreases k,
{
    if k <= 0 {
        zero
    } else {
        dot_prefix(lhs, rhs, i, j, k - 1, zero).add_spec(
            lhs.cell((i as usize, (k - 1) as usize)).mul_spec(rhs.cell(((k - 1) as usize, j as usize))),
        )
    }
}

/// Every product and every partial sum of the cell `(i, j)` of `lhs * rhs` can be computed.
pub open spec fn dot_ok<'a, T: Copy + Add<Output = T> + Mul<Output = T>>(
    lhs: MatrixView<'a, T>,
    rhs: MatrixView<'a, T>,
    i: int,
    j: int,
    zero: T,
) -> bool {
    forall|k: int|
        0 <= k < lhs.spec_dim().1 ==> {
            &&& lhs.cell((i as usize, k as usize)).mul_req(#[trigger] rhs.cell((k as usize, j as usize)))
            &&& dot_prefix(lhs, rhs, i, j, k, zero).add_req(
                lhs.cell((i as usize, k as usize)).mul_spec(rhs.cell((k as usize, j as usize))),
            )
        }
}

/// The arithmetic of every cell of `lhs * rhs` can be computed.
pub open spec fn product_ok<'a, T: Copy + Add<Output = T> + Mul<Output = T>>(
    lhs: MatrixView<'a, T>,
    rhs: MatrixView<'a, T>,
    zero: T,
) -> bool {
    forall|i: int, j: int|
        0 <= i < lhs.spec_dim().0 && 0 <= j < rhs.spec_dim().1 ==> #[trigger] dot_ok(lhs, rhs, i, j, zero)
}

/// The sum of the products of row `i` of `lhs` by column `j` of `rhs`, from `zero`.
fn dot<'a, T: Copy + Add<Output = T> + Mul<Output = T>>(
    lhs: &MatrixView<'a, T>,
    rhs: &MatrixView<'a, T>,
    i: usize,
    j: usize,
    zero: T,
) -> (r: T)
    requires
        i < lhs.spec_dim().0,
        j < rhs.spec_dim().1,
        lhs.spec_dim().1 == rhs.spec_dim().0,
        T::obeys_add_spec(),
        T::obeys_mul_spec(),
        dot_ok(*lhs, *rhs, i as int, j as int, zero),
    ensures
        r == dot_prefix(*lhs, *rhs, i as int, j as int, lhs.spec_dim().1 as int, zero),
{
    let n = lhs.count_cols();
    let mut acc = zero;
    for k in 0..n
        invariant
            n == lhs.spec_dim().1,
            n == rhs.spec_dim().0,
            i < lhs.spec_dim().0,
            j < rhs.spec_dim().1,
            T::obeys_add_spec(),
            T::obeys_mul_spec(),
            dot_ok(*lhs, *rhs, i as int, j as int, zero),
            acc == dot_prefix(*lhs, *rhs, i as int, j as int, k as int, zero),
    {
        let a = match lhs.get((i, k)) {
            Some(a) => *a,
            None => {
                proof {
                    assert(false);
                }
                zero
            },
        };
        let b = match rhs.get((k, j)) {
            Some(b) => *b,
            None => {
                proof {
                    assert(false);
                }
                zero
            },
        };
        proof {
            assert(lhs.cell((i, k)).mul_req(rhs.cell((k, j))));
        }
        let p = a * b;
        acc = acc + p;
    }
    acc
}

/// The product `lhs * rhs`: the cell `(i, j)` is the sum, from `zero`, of the products of the
/// cells of row `i` of `lhs` by those of column `j` of `rhs`. The number of columns of `lhs`
/// must be the number of rows of `rhs`.
pub fn product<'a, T: Copy + Add<Output = T> + Mul<Output = T>>(
    lhs: &MatrixView<'a, T>,
    rhs: &MatrixView<'a, T>,
    zero: T,
) -> (r: HeapMatrix<T>)
    requires
        lhs.spec_dim().1 == rhs.spec_dim().0,
        T::obeys_add_spec(),
        T::obeys_mul_spec(),
        product_ok(*lhs, *rhs, zero),
    ensures
        r.rows == lhs.spec_dim().0,
        r.cols == rhs.spec_dim().1,
        r.data@.len() == r.rows * r.cols,
        forall|i: int, j: int|
            0 <= i < r.rows && 0 <= j < r.cols ==> #[trigger] r.cell(i, j) == dot_prefix(
                *lhs,
                *rhs,
                i,
                j,
                lhs.spec_dim().1 as int,
                zero,
            ),
{
    let rows = lhs.count_rows();
    let cols = rhs.count_cols();
    let ghost n = lhs.spec_dim().1 as int;
    let mut data: Vec<T> = Vec::new();
    proof {
        assert(0 * cols == 0) by (nonlinear_arith);
    }
    for i in 0..rows
        invariant
            rows == lhs.spec_dim().0,
            cols == rhs.spec_dim().1,
            n == lhs.spec_dim().1,
            lhs.spec_dim().1 == rhs.spec_dim().0,
            T::obeys_add_spec(),
            T::obeys_mul_spec(),
            product_ok(*lhs, *rhs, zero),
            data@.len() == i * cols,
            forall|a: int, b: int|
                0 <= a < i && 0 <= b < cols ==> #[trigger] data@[a * cols + b] == dot_prefix(
                    *lhs,
                    *rhs,
                    a,
                    b,
                    n,
                    zero,
                ),
    {
        for j in 0..cols
            invariant
                rows == lhs.spec_dim().0,
                cols == rhs.spec_dim().1,
                n == lhs.spec_dim().1,
                lhs.spec_dim().1 == rhs.spec_dim().0,
                i < rows,
                T::obeys_add_spec(),
                T::obeys_mul_spec(),
                product_ok(*lhs, *rhs, zero),
                data@.len() == i * cols + j,
                forall|a: int, b: int|
                    0 <= a < i && 0 <= b < cols ==> #[trigger] data@[a * cols + b] == dot_prefix(
                        *lhs,
                        *rhs,
                        a,
                        b,
                        n,
                        zero,
                    ),
                forall|b: int|
                    0 <= b < j ==> #[trigger] data@[i * cols + b] == dot_prefix(
                        *lhs,
                        *rhs,
                        i as int,
                        b,
                        n,
                        zero,
                    ),
        {
            proof {
                assert(dot_ok(*lhs, *rhs, i as int, j as int, zero));
            }
            let v = dot(lhs, rhs, i, j, zero);
            let ghost prev = data@;
            data.push(v);
            proof {
                assert forall|a: int, b: int| 0 <= a < i && 0 <= b < cols implies #[trigger] data@[a * cols + b] == dot_prefix(*lhs, *rhs, a, b, n, zero) by {
                    lemma_cell_index(a, b, i as int, cols as int);
                    assert(data@[a * cols + b] == prev[a * cols + b]);
                }
            }
        }
        proof {
            assert((i + 1) * cols == i * cols + cols) by (nonlinear_arith);
        }
    }
    HeapMatrix::new(data, rows, cols)
}

/// `zero` and `one` are neutral: `zero` for the sum, `one` for the product, and `zero` absorbs
/// in a product.
pub open spec fn neutral<T: Add<Output = T> + Mul<Output = T>>(zero: T, one: T) -> bool {
    forall|a: T|
        #![trigger a.mul_spec(one)]
        #![trigger one.mul_spec(a)]
        #![trigger a.mul_spec(zero)]
        #![trigger zero.mul_spec(a)]
        #![trigger a.add_spec(zero)]
        #![trigger zero.add_spec(a)]
        {
            &&& a.mul_spec(one) == a
            &&& one.mul_spec(a) == a
            &&& a.mul_spec(zero) == zero
            &&& zero.mul_spec(a) == zero
            &&& a.add_spec(zero) == a
            &&& zero.add_spec(a) == a
        }
}

/// `m` is the square identity of size `n`: `one` on the diagonal, `zero` elsewhere.
pub open spec fn identity_cells<'a, T>(m: MatrixView<'a, T>, n: int, zero: T, one: T) -> bool {
    &&& m.spec_dim().0 == n
    &&& m.spec_dim().1 == n
    &&& forall|i: int, j: int|
        0 <= i < n && 0 <= j < n ==> #[trigger] m.cell((i as usize, j as usize)) == if i == j {
            one
        } else {
            zero
        }
}

/// The first `k` terms of a cell of `A * I` sum to `A(i, j)` once `j < k`, to `zero` before.
proof fn lemma_dot_identity_right<'a, T: Copy + Add<Output = T> + Mul<Output = T>>(
    lhs: MatrixView<'a, T>,
    rhs: MatrixView<'a, T>,
    i: int,
    j: int,
    k: int,
    zero: T,
    one: T,
)
    requires
        neutral(zero, one),
        identity_cells(rhs, lhs.spec_dim().1 as int, zero, one),
        0 <= j < lhs.spec_dim().1,
        0 <= k <= lhs.spec_dim().1,
    ensures
        dot_prefix(lhs, rhs, i, j, k, zero) == if j < k {
            lhs.cell((i as usize, j as usize))
        } else {
            zero
        },
    decreases k,
{
    if k > 0 {
        lemma_dot_identity_right(lhs, rhs, i, j, k - 1, zero, one);
        let a = lhs.cell((i as usize, (k - 1) as usize));
        assert(rhs.cell(((k - 1) as usize, j as usize)) == if k - 1 == j { one } else { zero });
        assert(a.mul_spec(one) == a);
        assert(a.mul_spec(zero) == zero);
        let prev = dot_prefix(lhs, rhs, i, j, k - 1, zero);
        assert(prev.add_spec(zero) == prev);
        assert(zero.add_spec(a) == a);
    }
}

/// The first `k` terms of a cell of `I * B` sum to `B(i, j)` once `i < k`, to `zero` before.
proof fn lemma_dot_identity_left<'a, T: Copy + Add<Output = T> + Mul<Output = T>>(
    lhs: MatrixView<'a, T>,
    rhs: MatrixView<'a, T>,
    i: int,
    j: int,
    k: int,
    zero: T,
    one: T,
)
    requires
        neutral(zero, one),
        identity_cells(lhs, rhs.spec_dim().0 as int, zero, one),
        0 <= i < rhs.spec_dim().0,
        0 <= k <= rhs.spec_dim().0,
    ensures
        dot_prefix(lhs, rhs, i, j, k, zero) == if i < k {
            rhs.cell((i as usize, j as usize))
        } else {
            zero
        },
    decreases k,
{
    if k > 0 {
        lemma_dot_identity_left(lhs, rhs, i, j, k - 1, zero, one);
        let b = rhs.cell(((k - 1) as usize, j as usize));
        assert(lhs.cell((i as usize, (k - 1) as usize)) == if i == k - 1 { one } else { zero });
        assert(one.mul_spec(b) == b);
        assert(zero.mul_spec(b) == zero);
        let prev = dot_prefix(lhs, rhs, i, j, k - 1, zero);
        assert(prev.add_spec(zero) == prev);
        assert(zero.add_spec(b) == b);
    }
}

/// `A * I = A`: each cell of the product of `lhs` by an identity matrix is the cell of `lhs`,
/// when `zero` and `one` are neutral.
pub proof fn lemma_product_identity_right<'a, T: Copy + Add<Output = T> + Mul<Output = T>>(
    lhs: MatrixView<'a, T>,
    rhs: MatrixView<'a, T>,
    zero: T,
    one: T,
)
    requires
        neutral(zero, one),
        identity_cells(rhs, lhs.spec_dim().1 as int, zero, one),
    ensures
        forall|i: int, j: int|
            0 <= i < lhs.spec_dim().0 && 0 <= j < lhs.spec_dim().1 ==> #[trigger] dot_prefix(
                lhs,
                rhs,
                i,
                j,
                lhs.spec_dim().1 as int,
                zero,
            ) == lhs.cell((i as usize, j as usize)),
{
    assert forall|i: int, j: int| 0 <= i < lhs.spec_dim().0 && 0 <= j < lhs.spec_dim().1 implies #[trigger] dot_prefix(lhs, rhs, i, j, lhs.spec_dim().1 as int, zero) == lhs.cell((i as usize, j as usize)) by {
        lemma_dot_identity_right(lhs, rhs, i, j, lhs.spec_dim().1 as int, zero, one);
    }
}

/// `I * B = B`: each cell of the product of an identity matrix by `rhs` is the cell of `rhs`,
/// when `zero` and `one` are neutral.
pub proof fn lemma_product_identity_left<'a, T: Copy + Add<Output = T> + Mul<Output = T>>(
    lhs: MatrixView<'a, T>,
    rhs: MatrixView<'a, T>,
    zero: T,
    one: T,
)
    requires
        neutral(zero, one),
        identity_cells(lhs, rhs.spec_dim().0 as int, zero, one),
    ensures
        forall|i: int, j: int|
            0 <= i < rhs.spec_dim().0 && 0 <= j < rhs.spec_dim().1 ==> #[trigger] dot_prefix(
                lhs,
                rhs,
                i,
                j,
                rhs.spec_dim().0 as int,
                zero,
            ) == rhs.cell((i as usize, j as usize)),
{
    assert forall|i: int, j: int| 0 <= i < rhs.spec_dim().0 && 0 <= j < rhs.spec_dim().1 implies #[trigger] dot_prefix(lhs, rhs, i, j, rhs.spec_dim().0 as int, zero) == rhs.cell((i as usize, j as usize)) by {
        lemma_dot_identity_left(lhs, rhs, i, j, rhs.spec_dim().0 as int, zero, one);
    }
}

/// `0` and `1` are neutral for the sum and product of `i64`.
pub proof fn lemma_neutral_i64()
    ensures
        neutral(0i64, 1i64),
{
}

/// The product of `lhs` by the scalar `rhs`: each cell is multiplied by `rhs`.
pub fn scalar_product<'a, T: Copy + Mul<Output = T>>(lhs: &MatrixView<'a, T>, rhs: T) -> (r: HeapMatrix<T>)
    requires
        T::obeys_mul_spec(),
        forall|i: int, j: int|
            0 <= i < lhs.spec_dim().0 && 0 <= j < lhs.spec_dim().1 ==> #[trigger] lhs.cell(
                (i as usize, j as usize),
            ).mul_req(rhs),
    ensures
        r.rows == lhs.spec_dim().0,
        r.cols == lhs.spec_dim().1,
        r.data@.len() == r.rows * r.cols,
        forall|i: int, j: int|
            0 <= i < r.rows && 0 <= j < r.cols ==> #[trigger] r.cell(i, j) == lhs.cell(
                (i as usize, j as usize),
            ).mul_spec(rhs),
{
    let mut this = lhs.to_heap();
    let rows = this.rows;
    let cols = this.cols;
    let ghost before = this;
    let total = this.data.len();
    for k in 0..total
        invariant
            total == rows * cols,
            this.rows == rows,
            this.cols == cols,
            rows == lhs.spec_dim().0,
            cols == lhs.spec_dim().1,
            before.rows == rows,
            before.cols == cols,
            this.data@.len() == total,
            before.data@.len() == total,
            T::obeys_mul_spec(),
            forall|i: int, j: int|
                0 <= i < lhs.spec_dim().0 && 0 <= j < lhs.spec_dim().1 ==> #[trigger] lhs.cell(
                    (i as usize, j as usize),
                ).mul_req(rhs),
            forall|i: int, j: int|
                0 <= i < rows && 0 <= j < cols ==> #[trigger] before.cell(i, j) == lhs.cell(
                    (i as usize, j as usize),
                ),
            forall|x: int| 0 <= x < k ==> #[trigger] this.data@[x] == before.data@[x].mul_spec(rhs),
            forall|x: int| k <= x < total ==> #[trigger] this.data@[x] == before.data@[x],
    {
        proof {
            if cols == 0 {
                assert(rows * cols == 0) by (nonlinear_arith)
                    requires
                        cols == 0,
                ;
            }
            crate::linear::gauss::lemma_split_index(k as int, rows as int, cols as int);
            let a = crate::linear::gauss::row_of(k as int, cols as int);
            let b = crate::linear::gauss::col_of(k as int, cols as int);
            assert(before.cell(a, b) == before.data@[k as int]);
            assert(lhs.cell((a as usize, b as usize)).mul_req(rhs));
        }
        let v = this.data[k] * rhs;
        this.data.set(k, v);
    }
    proof {
        assert forall|i: int, j: int| 0 <= i < rows && 0 <= j < cols implies #[trigger] this.cell(i, j) == lhs.cell((i as usize, j as usize)).mul_spec(rhs) by {
            lemma_cell_index(i, j, rows as int, cols as int);
            assert(before.cell(i, j) == before.data@[i * cols + j]);
        }
    }
    this
}

} // verus!
