//! Systems of linear equations, solved through the reduced row echelon form of their matrix.
//!
//! The scalars are compared to zero with [`NearZero`]; the reduced row echelon form is the one of
//! [`record_rref_mut`](HeapMatrix::record_rref_mut).

use core::marker::PhantomData;
use core::ops::{Add, Div, Mul, Neg, Sub};
use vstd::prelude::*;
use vstd::std_specs::ops::{AddSpec, DivSpec, MulSpec, NegSpec, SubSpec};
use crate::linear::elimination::{at, rank_of, row_pivot, rref_defined, rref_steps, total_arith, total_sub};
use crate::linear::echelon::{exact_field, lemma_rref_always_defined};
use crate::linear::family::{independent, is_independent};
use crate::linear::gauss::{lemma_split_index, replay_data};
use crate::linear::heap_matrix::{lemma_cell_index, HeapMatrix};
use crate::linear::matrix::{filled, Matrix};
use crate::linear::vector::Vector;
use crate::traits::near_zero::NearZero;

verus! {

/// The solutions of a system of linear equations in `D` unknowns.
#[derive(Clone, Debug)]
pub enum LinearSolutions<T, const D: usize> {
    /// Every vector is a solution.
    EntireSpace,
    /// The solutions are `particular` plus the combinations of the vectors of `kernel`.
    Infinite { particular: Vector<T, D>, kernel: Vec<Vector<T, D>> },
    /// The only solution.
    Unique(Vector<T, D>),
    /// No vector is a solution.
    NoSolution,
}

/// The linear solver for systems of `R` equations in `C` unknowns over `T`.
pub struct LinearSolver<T, const R: usize, const C: usize> {
    marker: PhantomData<T>,
}

/// The cells of `m`, row after row.
pub open spec fn matrix_cells<T, const R: usize, const C: usize>(m: Matrix<T, R, C>) -> Seq<T> {
    Seq::new((R * C) as nat, |x: int| m.cell(x / (C as int), x % (C as int)))
}

/// The cells, row after row, of the reduced row echelon form of the `rows x cols` matrix whose
/// cells are `data`.
pub open spec fn rref_cells<T: Copy + NearZero + Add<Output = T> + Mul<Output = T> + Div<Output = T> + Neg<Output = T>>(
    data: Seq<T>,
    rows: int,
    cols: int,
    one: T,
) -> Seq<T> {
    replay_data(data, rows, cols, rref_steps(data, rows, cols, one))
}

/// The pivot row of each column, found by scanning the rows from row `i` on: in each row, the
/// first cell not near zero from column `from` on is the pivot of its column, and the next row
/// is searched from that column on. The scan stops at the first row with no such cell.
pub open spec fn pivot_scan<T: NearZero>(
    data: Seq<T>,
    rows: int,
    cols: int,
    i: int,
    from: int,
    out: Seq<Option<usize>>,
) -> Seq<Option<usize>>
    decreases rows - i,
{
    if i >= rows || i < 0 {
        out
    } else {
        match row_pivot(data, cols, i, from) {
            None => out,
            Some(k) => pivot_scan(data, rows, cols, i + 1, k, out.update(k, Some(i as usize))),
        }
    }
}

/// The pivot row of each of the `cols` columns (see [`pivot_scan`]), `None` for a column with
/// no pivot.
pub open spec fn pivot_columns<T: NearZero>(data: Seq<T>, rows: int, cols: int) -> Seq<Option<usize>> {
    pivot_scan(data, rows, cols, 0, 0, Seq::new(cols as nat, |k: int| None))
}

/// The pivots of the columns before column `k`, in column order: each as its row and its
/// column.
pub open spec fn pending_pivots(pivots: Seq<Option<usize>>, k: int) -> Seq<(usize, usize)>
    decreases k,
{
    if k <= 0 {
        Seq::empty()
    } else {
        match pivots[k - 1] {
            Some(r) => pending_pivots(pivots, k - 1).push((r, (k - 1) as usize)),
            None => pending_pivots(pivots, k - 1),
        }
    }
}

/// The kernel vector of the column `k` without pivot: `one` at coordinate `k`, and, for each
/// pivot of `pending` in turn, at row `r` and column `p`, the negated cell `(r, k)` at
/// coordinate `p`; `zero` elsewhere.
pub open spec fn free_vector<T: Copy + Neg<Output = T>>(
    data: Seq<T>,
    cols: int,
    pending: Seq<(usize, usize)>,
    k: int,
    zero: T,
    one: T,
) -> Seq<T>
    decreases pending.len(),
{
    if pending.len() == 0 {
        Seq::new(cols as nat, |j: int| if j == k { one } else { zero })
    } else {
        let (r, p) = pending.last();
        free_vector(data, cols, pending.drop_last(), k, zero, one).update(
            p as int,
            at(data, cols, r as int, k).neg_spec(),
        )
    }
}

/// The kernel vectors of the columns without pivot before column `k`, in column order.
pub open spec fn kernel_vectors<T: Copy + Neg<Output = T>>(
    data: Seq<T>,
    cols: int,
    pivots: Seq<Option<usize>>,
    k: int,
    zero: T,
    one: T,
) -> Seq<Seq<T>>
    decreases k,
{
    if k <= 0 {
        Seq::empty()
    } else {
        let before = kernel_vectors(data, cols, pivots, k - 1, zero, one);
        match pivots[k - 1] {
            Some(_) => before,
            None => before.push(free_vector(data, cols, pending_pivots(pivots, k - 1), k - 1, zero, one)),
        }
    }
}

/// What the homogeneous system whose matrix has the reduced row echelon form `e` (`rows` rows,
/// `D` columns) gives: the zero vector alone when every column has a pivot row, the whole space
/// when no row is left, and else the zero vector plus the combinations of the kernel vectors.
pub open spec fn homogeneous_solutions<T: Copy + NearZero + Neg<Output = T>, const D: usize>(
    e: Seq<T>,
    rows: int,
    zero: T,
    one: T,
    r: Option<LinearSolutions<T, D>>,
) -> bool {
    let rank = rank_of(e, D as int, rows);
    let pivots = pivot_columns(e, rows, D as int);
    let kernel = kernel_vectors(e, D as int, pivots, D as int, zero, one);
    if rank == D {
        r matches Some(LinearSolutions::Unique(v)) && forall|i: int| 0 <= i < D ==> #[trigger] v.scalars@[i] == zero
    } else if rank == 0 {
        r == Some(LinearSolutions::<T, D>::EntireSpace)
    } else {
        &&& r matches Some(LinearSolutions::Infinite { particular, kernel: vectors })
        &&& forall|i: int| 0 <= i < D ==> #[trigger] r->0->particular.scalars@[i] == zero
        &&& r->0->kernel@.len() == kernel.len()
        &&& forall|j: int| 0 <= j < kernel.len() ==> #[trigger] r->0->kernel@[j].scalars@ == kernel[j]
    }
}

/// The homogeneous system whose `rows x cols` matrix has the cells `data` has every vector as a
/// solution: its reduced row echelon form can be computed, has no row left, and there is at
/// least one unknown.
pub open spec fn whole_space_solutions<T: Copy + NearZero + Add<Output = T> + Mul<Output = T> + Div<Output = T> + Neg<Output = T>>(
    data: Seq<T>,
    rows: int,
    cols: int,
    one: T,
) -> bool {
    &&& rref_defined(data, rows, cols, one)
    &&& rank_of(rref_cells(data, rows, cols, one), cols, rows) == 0
    &&& cols > 0
}

/// The first column of row `r`, from column `from` on, whose cell is not near zero.
fn row_pivot_from<T: NearZero>(m: &HeapMatrix<T>, r: usize, from: usize) -> (p: Option<usize>)
    requires
        m.holds_cells(),
        r < m.rows,
        from <= m.cols,
    ensures
        match row_pivot(m.data@, m.cols as int, r as int, from as int) {
            None => p is None,
            Some(c) => p == Some(c as usize) && from <= c < m.cols,
        },
{
    let mut c = from;
    while c < m.cols
        invariant
            m.holds_cells(),
            r < m.rows,
            from <= c <= m.cols,
            row_pivot(m.data@, m.cols as int, r as int, from as int) == row_pivot(
                m.data@,
                m.cols as int,
                r as int,
                c as int,
            ),
        decreases m.cols - c,
    {
        proof {
            lemma_cell_index(r as int, c as int, m.rows as int, m.cols as int);
        }
        if !m.index((r, c)).is_near_zero() {
            return Some(c);
        }
        c = c + 1;
    }
    None
}

impl<T: Copy + NearZero + Add<Output = T> + Mul<Output = T> + Div<Output = T> + Neg<Output = T>, const R: usize, const C: usize> LinearSolver<
    T,
    R,
    C,
> {
    /// Solves the homogeneous system whose matrix is `matrix`: the zero vector is always a
    /// solution. From the reduced row echelon form: when every column has a pivot, the zero
    /// vector is the only solution; when the form has no row left, every vector is; else each
    /// column `k` without pivot gives a kernel vector, with `one` at coordinate `k` and, for the
    /// pivot of each column `p` before `k`, at row `r`, the negated cell `(r, k)` at coordinate
    /// `p`. `None` when the reduced row echelon form cannot be computed, which never happens
    /// when the operations of `T` obey the laws of a field exactly (see
    /// [`exact_field`]).
    #[verifier::loop_isolation(false)]
    pub fn solve_homogenous(matrix: &Matrix<T, R, C>, zero: T, one: T) -> (r: Option<LinearSolutions<T, C>>)
        requires
            R * C <= usize::MAX,
            T::obeys_add_spec(),
            T::obeys_mul_spec(),
            T::obeys_div_spec(),
            T::obeys_neg_spec(),
            total_arith::<T>(),
        ensures
            !rref_defined(matrix_cells(*matrix), R as int, C as int, one) ==> r is None,
            exact_field(zero, one) ==> r is Some,
            rref_defined(matrix_cells(*matrix), R as int, C as int, one) ==> homogeneous_solutions::<T, C>(
                rref_cells(matrix_cells(*matrix), R as int, C as int, one),
                R as int,
                zero,
                one,
                r,
            ),
            (r == Some(LinearSolutions::<T, C>::EntireSpace)) == whole_space_solutions(
                matrix_cells(*matrix),
                R as int,
                C as int,
                one,
            ),
    {
        proof {
            if exact_field(zero, one) {
                lemma_rref_always_defined(matrix_cells(*matrix), R as int, C as int, zero, one);
            }
        }
        let mut h = matrix.into_heap();
        let ghost data = h.data@;
        proof {
            assert forall|x: int| 0 <= x < R * C implies #[trigger] data[x] == matrix_cells(*matrix)[x] by {
                lemma_split_index(x, R as int, C as int);
                assert(h.cell(x / (C as int), x % (C as int)) == data[x]);
            }
            assert(data =~= matrix_cells(*matrix));
        }
        if h.record_rref_mut(one).is_none() {
            return None;
        }
        let ghost e = h.data@;
        assert(e == rref_cells(data, R as int, C as int, one));
        let rank = h.rank_float();
        if rank == C {
            let r = Some(LinearSolutions::Unique(Vector::new(filled(zero))));
            return r;
        }
        if rank == 0 {
            return Some(LinearSolutions::EntireSpace);
        }
        let mut pivots: Vec<Option<usize>> = Vec::new();
        for k in 0..C
            invariant
                pivots@.len() == k,
                forall|j: int| 0 <= j < k ==> #[trigger] pivots@[j] is None,
        {
            pivots.push(None);
        }
        let ghost goal = pivot_columns(e, R as int, C as int);
        assert(pivots@ =~= Seq::new(C as nat, |k: int| None::<usize>));
        let mut from: usize = 0;
        let mut i: usize = 0;
        while i < R
            invariant
                h.data@ == e,
                h.rows == R,
                h.cols == C,
                h.holds_cells(),
                goal == pivot_columns(e, R as int, C as int),
                i <= R,
                from <= C,
                pivots@.len() == C,
                forall|k: int| 0 <= k < C ==> (#[trigger] pivots@[k] matches Some(r) ==> r < R),
                goal == pivot_scan(e, R as int, C as int, i as int, from as int, pivots@),
            decreases R - i,
        {
            match row_pivot_from(&h, i, from) {
                None => {
                    i = R;
                },
                Some(k) => {
                    from = k;
                    pivots.set(k, Some(i));
                    i = i + 1;
                },
            }
        }
        let ghost pv = pivots@;
        let mut kernel: Vec<Vector<T, C>> = Vec::new();
        let mut pending: Vec<(usize, usize)> = Vec::new();
        for k in 0..C
            invariant
                h.data@ == e,
                h.rows == R,
                h.cols == C,
                h.holds_cells(),
                pivots@ == pv,
                pv.len() == C,
                pv == pivot_columns(e, R as int, C as int),
                forall|j: int| 0 <= j < C ==> (#[trigger] pv[j] matches Some(r) ==> r < R),
                pending@ == pending_pivots(pv, k as int),
                forall|j: int| 0 <= j < pending@.len() ==> (#[trigger] pending@[j]).0 < R && pending@[j].1 < k,
                kernel@.len() == kernel_vectors(e, C as int, pv, k as int, zero, one).len(),
                forall|j: int|
                    0 <= j < kernel@.len() ==> #[trigger] kernel@[j].scalars@ == kernel_vectors(
                        e,
                        C as int,
                        pv,
                        k as int,
                        zero,
                        one,
                    )[j],
                T::obeys_neg_spec(),
                total_arith::<T>(),
        {
            match pivots[k] {
                Some(row) => {
                    pending.push((row, k));
                },
                None => {
                    let mut v: [T; C] = filled(zero);
                    v[k] = one;
                    assert(v@ =~= free_vector(e, C as int, pending@.take(0), k as int, zero, one));
                    for idx in 0..pending.len()
                        invariant
                            h.data@ == e,
                            h.rows == R,
                            h.cols == C,
                            h.holds_cells(),
                            k < C,
                            pv[k as int] is None,
                            pending@ == pending_pivots(pv, k as int),
                            forall|j: int| 0 <= j < pending@.len() ==> (#[trigger] pending@[j]).0 < R && pending@[j].1 < k,
                            v@ == free_vector(e, C as int, pending@.take(idx as int), k as int, zero, one),
                            T::obeys_neg_spec(),
                            total_arith::<T>(),
                    {
                        let (row, col) = pending[idx];
                        proof {
                            assert(pending@[idx as int].0 < R && pending@[idx as int].1 < k);
                            lemma_cell_index(row as int, k as int, R as int, C as int);
                        }
                        let x = h.index((row, k)).neg();
                        let ghost before = v@;
                        v[col] = x;
                        proof {
                            assert(pending@.take(idx as int + 1).drop_last() =~= pending@.take(idx as int));
                            assert(pending@.take(idx as int + 1).last() == (row, col));
                            assert(v@ =~= before.update(col as int, at(e, C as int, row as int, k as int).neg_spec()));
                        }
                    }
                    assert(pending@.take(pending@.len() as int) =~= pending@);
                    kernel.push(Vector::new(v));
                },
            }
        }
        Some(LinearSolutions::Infinite { particular: Vector::new(filled(zero)), kernel })
    }

    /// Solves the system `matrix * x = right` when every vector solves the homogeneous system
    /// (see [`whole_space_solutions`]): every vector is a solution when `right` is near zero,
    /// none otherwise.
    pub fn solve_with_vector(matrix: &Matrix<T, R, C>, right: &Vector<T, R>, zero: T, one: T) -> (r: LinearSolutions<T, C>)
        requires
            R * C <= usize::MAX,
            T::obeys_add_spec(),
            T::obeys_mul_spec(),
            T::obeys_div_spec(),
            T::obeys_neg_spec(),
            total_arith::<T>(),
            whole_space_solutions(matrix_cells(*matrix), R as int, C as int, one),
        ensures
            (forall|i: int| 0 <= i < R ==> (#[trigger] right.scalars@[i]).near_zero_spec()) ==> r
                == LinearSolutions::<T, C>::EntireSpace,
            !(forall|i: int| 0 <= i < R ==> (#[trigger] right.scalars@[i]).near_zero_spec()) ==> r
                == LinearSolutions::<T, C>::NoSolution,
    {
        match Self::solve_homogenous(matrix, zero, one) {
            Some(LinearSolutions::EntireSpace) => {
                if right.is_near_zero() {
                    LinearSolutions::EntireSpace
                } else {
                    LinearSolutions::NoSolution
                }
            },
            _ => {
                // the homogeneous system has every vector as a solution
                proof {
                    assert(false);
                }
                LinearSolutions::NoSolution
            },
        }
    }
}

impl<T: Copy + NearZero + Add<Output = T> + Sub<Output = T> + Mul<Output = T> + Div<Output = T> + Neg<Output = T>, const D: usize> LinearSolutions<
    T,
    D,
> {
    /// Checks if `vec` is a solution: `true` for the whole space, `false` for no solution; for
    /// a unique solution `v`, when `vec - v` is near zero; else when the kernel vectors followed
    /// by `vec - particular` are not independent. The kernel must hold fewer than `D` vectors.
    pub fn is_in(&self, vec: &Vector<T, D>, zero: T, one: T) -> (r: bool)
        requires
            D * D <= usize::MAX,
            T::obeys_add_spec(),
            T::obeys_sub_spec(),
            T::obeys_mul_spec(),
            T::obeys_div_spec(),
            T::obeys_neg_spec(),
            total_arith::<T>(),
            total_sub::<T>(),
            self matches LinearSolutions::Infinite { kernel, .. } ==> kernel@.len() < D,
        ensures
            match *self {
                LinearSolutions::EntireSpace => r,
                LinearSolutions::Infinite { particular, kernel } => forall|d: Vector<T, D>|
                    (forall|i: int|
                        0 <= i < D ==> #[trigger] d.scalars@[i] == vec.scalars@[i].sub_spec(particular.scalars@[i]))
                        ==> r == !independent(#[trigger] kernel@.push(d), zero, one),
                LinearSolutions::Unique(v) => r == forall|i: int|
                    0 <= i < D ==> (#[trigger] vec.scalars@[i].sub_spec(v.scalars@[i])).near_zero_spec(),
                LinearSolutions::NoSolution => !r,
            },
    {
        match self {
            LinearSolutions::EntireSpace => true,
            LinearSolutions::Infinite { particular, kernel } => {
                let d = vec.difference(particular);
                let mut family: Vec<Vector<T, D>> = Vec::new();
                for j in 0..kernel.len()
                    invariant
                        family@ == kernel@.take(j as int),
                {
                    family.push(kernel[j]);
                    proof {
                        assert(kernel@.take(j as int + 1) =~= kernel@.take(j as int).push(kernel@[j as int]));
                    }
                }
                assert(kernel@.take(kernel@.len() as int) =~= kernel@);
                family.push(d);
                assert(family@ == kernel@.push(d));
                let free = is_independent(family.as_slice(), zero, one);
                proof {
                    assert forall|d2: Vector<T, D>|
                        (forall|i: int|
                            0 <= i < D ==> #[trigger] d2.scalars@[i] == vec.scalars@[i].sub_spec(particular.scalars@[i]))
                            implies !free == !independent(#[trigger] kernel@.push(d2), zero, one) by {
                        assert(d2.scalars =~= d.scalars);
                    }
                }
                !free
            },
            LinearSolutions::Unique(v) => {
                let d = vec.difference(v);
                let near = d.is_near_zero();
                assert(near == forall|i: int|
                    0 <= i < D ==> (#[trigger] vec.scalars@[i].sub_spec(v.scalars@[i])).near_zero_spec()) by {
                    if near {
                        assert forall|i: int| 0 <= i < D implies (#[trigger] vec.scalars@[i].sub_spec(v.scalars@[i])).near_zero_spec() by {
                            assert(d.scalars@[i] == vec.scalars@[i].sub_spec(v.scalars@[i]));
                        }
                    } else {
                        let i = choose|i: int| 0 <= i < D && !(#[trigger] d.scalars@[i]).near_zero_spec();
                        assert(d.scalars@[i] == vec.scalars@[i].sub_spec(v.scalars@[i]));
                    }
                }
                near
            },
            LinearSolutions::NoSolution => false,
        }
    }
}

} // verus!
