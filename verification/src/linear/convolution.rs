//! Discrete convolution of a matrix by a kernel: the kernel slides over the matrix, and at each
//! place the products of the cells it covers by its own cells are summed.

use core::ops::{Add, Mul};
use vstd::prelude::*;
use vstd::std_specs::ops::{AddSpec, MulSpec};
use crate::linear::gauss::{col_of, lemma_join_index, row_of};
use crate::linear::view::MatrixView;

verus! {

/// The kernel, its top left corner placed at `(row, pos)` of the input, lies in the input.
pub open spec fn conv_fits<'a, T>(input: MatrixView<'a, T>, kernel: MatrixView<'a, T>, row: int, pos: int) -> bool {
    &&& 0 <= row
    &&& 0 <= pos
    &&& row < input.spec_dim().0
    &&& row + kernel.spec_dim().0 <= input.spec_dim().0
    &&& pos < input.spec_dim().1
    &&& pos + kernel.spec_dim().1 <= input.spec_dim().1
}

/// The sum, from `zero`, of the first `t` products (the cells of the kernel taken row after row)
/// of a kernel cell by the input cell it covers, the kernel placed at `(row, pos)`.
pub open spec fn conv_prefix<'a, T: Copy + Add<Output = T> + Mul<Output = T>>(
    input: MatrixView<'a, T>,
    kernel: MatrixView<'a, T>,
    row: int,
    pos: int,
    t: int,
    zero: T,
) -> T
    decreases t,
{
    if t <= 0 {
        zero
    } else {
        let a = row_of(t - 1, kernel.spec_dim().1 as int);
        let b = col_of(t - 1, kernel.spec_dim().1 as int);
        conv_prefix(input, kernel, row, pos, t - 1, zero).add_spec(
            input.cell(((row + a) as usize, (pos + b) as usize)).mul_spec(kernel.cell((a as usize, b as usize))),
        )
    }
}

/// The value of the convolution with the kernel placed at `(row, pos)`.
pub open spec fn conv_value<'a, T: Copy + Add<Output = T> + Mul<Output = T>>(
    input: MatrixView<'a, T>,
    kernel: MatrixView<'a, T>,
    row: int,
    pos: int,
    zero: T,
) -> T {
    conv_prefix(input, kernel, row, pos, kernel.spec_dim().0 * kernel.spec_dim().1, zero)
}

/// Every product and partial sum of the convolution can be computed, wherever the kernel fits.
pub open spec fn conv_ok<'a, T: Copy + Add<Output = T> + Mul<Output = T>>(
    input: MatrixView<'a, T>,
    kernel: MatrixView<'a, T>,
    zero: T,
) -> bool {
    forall|row: int, pos: int, t: int|
        conv_fits(input, kernel, row, pos) && 0 <= t < kernel.spec_dim().0 * kernel.spec_dim().1 ==> {
            let a = row_of(t, kernel.spec_dim().1 as int);
            let b = col_of(t, kernel.spec_dim().1 as int);
            let x = input.cell(((row + a) as usize, (pos + b) as usize));
            let y = kernel.cell((a as usize, b as usize));
            &&& x.mul_req(y)
            &&& (#[trigger] conv_prefix(input, kernel, row, pos, t, zero)).add_req(x.mul_spec(y))
        }
}

/// The value of the convolution with the kernel placed at `(row, pos)`.
fn conv_at<'a, T: Copy + Add<Output = T> + Mul<Output = T>>(
    input: &MatrixView<'a, T>,
    kernel: &MatrixView<'a, T>,
    row: usize,
    pos: usize,
    zero: T,
) -> (r: T)
    requires
        conv_fits(*input, *kernel, row as int, pos as int),
        T::obeys_add_spec(),
        T::obeys_mul_spec(),
        conv_ok(*input, *kernel, zero),
    ensures
        r == conv_value(*input, *kernel, row as int, pos as int, zero),
{
    let (rk, ck) = kernel.dim();
    let mut acc = zero;
    proof {
        assert(0 * ck == 0) by (nonlinear_arith);
    }
    for a in 0..rk
        invariant
            (rk, ck) == kernel.spec_dim(),
            conv_fits(*input, *kernel, row as int, pos as int),
            T::obeys_add_spec(),
            T::obeys_mul_spec(),
            conv_ok(*input, *kernel, zero),
            acc == conv_prefix(*input, *kernel, row as int, pos as int, a * ck, zero),
    {
        for b in 0..ck
            invariant
                (rk, ck) == kernel.spec_dim(),
                a < rk,
                conv_fits(*input, *kernel, row as int, pos as int),
                T::obeys_add_spec(),
                T::obeys_mul_spec(),
                conv_ok(*input, *kernel, zero),
                acc == conv_prefix(*input, *kernel, row as int, pos as int, a * ck + b, zero),
        {
            let ghost t = a * ck + b;
            proof {
                lemma_join_index(a as int, b as int, ck as int);
                assert(t < rk * ck) by (nonlinear_arith)
                    requires
                        t == a * ck + b,
                        a < rk,
                        b < ck,
                ;
                assert(row_of(t, ck as int) == a);
                assert(col_of(t, ck as int) == b);
                assert(conv_prefix(*input, *kernel, row as int, pos as int, t + 1, zero) == conv_prefix(
                    *input,
                    *kernel,
                    row as int,
                    pos as int,
                    t,
                    zero,
                ).add_spec(
                    input.cell(((row + a) as usize, (pos + b) as usize)).mul_spec(kernel.cell((a, b))),
                ));
            }
            let x = match input.get((row + a, pos + b)) {
                Some(x) => *x,
                None => {
                    proof {
                        assert(false);
                    }
                    zero
                },
            };
            let y = match kernel.get((a, b)) {
                Some(y) => *y,
                None => {
                    proof {
                        assert(false);
                    }
                    zero
                },
            };
            let p = x * y;
            acc = acc + p;
        }
        proof {
            assert((a + 1) * ck == a * ck + ck) by (nonlinear_arith);
        }
    }
    acc
}

/// The rows of a convolution: the `k`th one places the kernel on row `k` of the input.
pub struct ConvolutionRows<'a, T> {
    input: MatrixView<'a, T>,
    kernel: MatrixView<'a, T>,
    zero: T,
    pos: usize,
}

/// One row of a convolution: the kernel is placed on row `row` of the input, at columns
/// `0, 1, ...` in turn.
pub struct ConvolutionRow<'a, T> {
    input: MatrixView<'a, T>,
    kernel: MatrixView<'a, T>,
    zero: T,
    row: usize,
    pos: usize,
}

/// The number of rows of the convolution of `input` by `kernel`.
pub open spec fn conv_rows<'a, T>(input: MatrixView<'a, T>, kernel: MatrixView<'a, T>) -> int {
    input.spec_dim().0 - kernel.spec_dim().0 + 1
}

impl<'a, T: Copy> MatrixView<'a, T> {
    /// The convolution of `self` by `kernel`, its sums starting from `zero`. The kernel has at
    /// most as many rows as `self`.
    pub fn convolution(&self, kernel: &MatrixView<'a, T>, zero: T) -> (r: ConvolutionRows<'a, T>)
        requires
            kernel.spec_dim().0 <= self.spec_dim().0,
            self.spec_dim().0 - kernel.spec_dim().0 < usize::MAX,
        ensures
            r.input() == *self,
            r.kernel() == *kernel,
            r.zero() == zero,
            r.pos() == 0,
    {
        ConvolutionRows { input: self.clone(), kernel: kernel.clone(), zero, pos: 0 }
    }
}

impl<'a, T: Copy> ConvolutionRows<'a, T> {
    /// The convolved matrix.
    pub closed spec fn input(self) -> MatrixView<'a, T> {
        self.input
    }

    /// The kernel.
    pub closed spec fn kernel(self) -> MatrixView<'a, T> {
        self.kernel
    }

    /// The value the sums start from.
    pub closed spec fn zero(self) -> T {
        self.zero
    }

    /// The number of rows already given.
    pub closed spec fn pos(self) -> usize {
        self.pos
    }

    /// The next row, `None` once the `input rows - kernel rows + 1` rows are given.
    pub fn next(&mut self) -> (r: Option<ConvolutionRow<'a, T>>)
        requires
            old(self).kernel().spec_dim().0 <= old(self).input().spec_dim().0,
            conv_rows(old(self).input(), old(self).kernel()) <= usize::MAX,
            old(self).pos() <= conv_rows(old(self).input(), old(self).kernel()),
        ensures
            final(self).input() == old(self).input(),
            final(self).kernel() == old(self).kernel(),
            final(self).zero() == old(self).zero(),
            old(self).pos() < conv_rows(old(self).input(), old(self).kernel()) ==> {
                &&& final(self).pos() == old(self).pos() + 1
                &&& r matches Some(row) && row.input() == old(self).input() && row.kernel() == old(self).kernel() && row.zero() == old(self).zero() && row.row() == old(self).pos()
                    && row.pos() == 0
            },
            old(self).pos() == conv_rows(old(self).input(), old(self).kernel()) ==> {
                &&& final(self).pos() == old(self).pos()
                &&& r is None
            },
    {
        let (remaining, _) = self.size_hint();
        if remaining != 0 {
            self.pos = self.pos + 1;
            Some(
                ConvolutionRow {
                    input: self.input.clone(),
                    kernel: self.kernel.clone(),
                    zero: self.zero,
                    row: self.pos - 1,
                    pos: 0,
                },
            )
        } else {
            None
        }
    }

    /// The number of rows left, exactly.
    pub fn size_hint(&self) -> (r: (usize, Option<usize>))
        requires
            self.kernel().spec_dim().0 <= self.input().spec_dim().0,
            conv_rows(self.input(), self.kernel()) <= usize::MAX,
            self.pos() <= conv_rows(self.input(), self.kernel()),
        ensures
            r.0 == conv_rows(self.input(), self.kernel()) - self.pos(),
            r.1 == Some(r.0),
    {
        let input_rows = self.input.count_rows();
        let kernel_rows = self.kernel.count_rows();
        let length = input_rows - kernel_rows + 1;
        let remaining = length - self.pos;
        (remaining, Some(remaining))
    }
}

impl<'a, T> ConvolutionRow<'a, T> {
    /// The convolved matrix.
    pub closed spec fn input(self) -> MatrixView<'a, T> {
        self.input
    }

    /// The kernel.
    pub closed spec fn kernel(self) -> MatrixView<'a, T> {
        self.kernel
    }

    /// The value the sums start from.
    pub closed spec fn zero(self) -> T {
        self.zero
    }

    /// The row of the input the kernel is placed on.
    pub closed spec fn row(self) -> usize {
        self.row
    }

    /// The column of the input the kernel is placed on next.
    pub closed spec fn pos(self) -> usize {
        self.pos
    }
}

impl<'a, T: Copy + Add<Output = T> + Mul<Output = T>> ConvolutionRow<'a, T> {
    /// The value of the convolution with the kernel placed at the next column, `None` once the
    /// kernel no longer fits in the input.
    pub fn next(&mut self) -> (r: Option<T>)
        requires
            T::obeys_add_spec(),
            T::obeys_mul_spec(),
            conv_ok(old(self).input(), old(self).kernel(), old(self).zero()),
        ensures
            final(self).input() == old(self).input(),
            final(self).kernel() == old(self).kernel(),
            final(self).zero() == old(self).zero(),
            final(self).row() == old(self).row(),
            conv_fits(old(self).input(), old(self).kernel(), old(self).row() as int, old(self).pos() as int) ==> {
                &&& final(self).pos() == old(self).pos() + 1
                &&& r == Some(
                    conv_value(
                        old(self).input(),
                        old(self).kernel(),
                        old(self).row() as int,
                        old(self).pos() as int,
                        old(self).zero(),
                    ),
                )
            },
            !conv_fits(old(self).input(), old(self).kernel(), old(self).row() as int, old(self).pos() as int) ==> {
                &&& final(self).pos() == old(self).pos()
                &&& r is None
            },
    {
        let (ri, ci) = self.input.dim();
        let (rk, ck) = self.kernel.dim();
        let fits = self.row < ri && rk <= ri - self.row && self.pos < ci && ck <= ci - self.pos;
        if fits {
            let value = conv_at(&self.input, &self.kernel, self.row, self.pos, self.zero);
            self.pos = self.pos + 1;
            Some(value)
        } else {
            None
        }
    }

    /// The number of values left, exactly, while the kernel is no wider than the input.
    pub fn size_hint(&self) -> (r: (usize, Option<usize>))
        requires
            self.kernel().spec_dim().1 <= self.input().spec_dim().1,
            self.input().spec_dim().1 - self.kernel().spec_dim().1 < usize::MAX,
            self.pos() <= self.input().spec_dim().1 + 1 - self.kernel().spec_dim().1,
        ensures
            r.0 == self.input().spec_dim().1 + 1 - self.kernel().spec_dim().1 - self.pos(),
            r.1 == Some(r.0),
    {
        let input_cols = self.input.count_cols();
        let kernel_cols = self.kernel.count_cols();
        let length = input_cols - kernel_cols + 1;
        let remaining = length - self.pos;
        (remaining, Some(remaining))
    }
}

} // verus!
