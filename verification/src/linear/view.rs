//! Views of a matrix: a rectangular window over the row-major cells of a matrix, without typed
//! sizes.

use vstd::prelude::*;
use vstd::std_specs::cmp::{PartialEqSpec, PartialEqSpecImpl};
use crate::linear::goggles::{
    axis_contained, axis_ordered, next_defined, spec_compose, spec_next, spec_size, Axis, Goggles,
    IntoGoggles,
};
use crate::linear::matrix::filled;
use crate::mem::Living;
use crate::linear::heap_matrix::{lemma_cell_index, HeapMatrix};
use crate::linear::iter::{MatrixCellIter, MatrixCols, MatrixRows};

verus! {

/// Why a matrix has no inverse.
#[derive(Debug, Copy, Clone, Eq, PartialEq, Ord, PartialOrd, Hash, Structural)]
pub enum InvertError {
    NotSquare,
    NotInvertible,
}

/// A window over the row-major cells of a matrix: the rows `rows.0..rows.1` and the columns
/// `cols.0..cols.1` of a matrix whose rows are `stride` cells long.
pub struct MatrixView<'a, T> {
    inner: &'a [T],
    rows: (usize, usize),
    cols: (usize, usize),
    stride: usize,
}

/// The number of rows and columns of a window: both zero as soon as one of them is.
pub open spec fn dim_of(rows: (usize, usize), cols: (usize, usize)) -> (usize, usize) {
    let diff_row = (rows.1 - rows.0) as usize;
    let diff_col = (cols.1 - cols.0) as usize;
    if diff_row == 0 || diff_col == 0 {
        (0usize, 0usize)
    } else {
        (diff_row, diff_col)
    }
}

impl<'a, T> MatrixView<'a, T> {
    /// The window lies in the cells of the matrix.
    #[verifier::type_invariant]
    closed spec fn wf(self) -> bool {
        &&& self.rows.0 <= self.rows.1
        &&& self.cols.0 <= self.cols.1
        &&& self.cols.1 <= self.stride
        &&& self.rows.1 * self.stride <= self.inner@.len()
    }

    /// The cells of the whole matrix, row after row.
    pub closed spec fn storage(self) -> Seq<T> {
        self.inner@
    }

    /// The rows of the window, `(first, past the last)`.
    pub closed spec fn row_range(self) -> (usize, usize) {
        self.rows
    }

    /// The columns of the window, `(first, past the last)`.
    pub closed spec fn col_range(self) -> (usize, usize) {
        self.cols
    }

    /// The length of a row of the whole matrix.
    pub closed spec fn stride(self) -> usize {
        self.stride
    }

    /// The number of rows and columns of the window.
    pub open spec fn spec_dim(self) -> (usize, usize) {
        dim_of(self.row_range(), self.col_range())
    }

    /// `pos` is a cell of the window.
    pub open spec fn spec_is_pos_in(self, pos: (usize, usize)) -> bool {
        pos.0 < self.spec_dim().0 && pos.1 < self.spec_dim().1
    }

    /// The cell at `pos` of the window.
    pub open spec fn cell(self, pos: (usize, usize)) -> T {
        self.storage()[(self.row_range().0 + pos.0) * self.stride() + pos.1 + self.col_range().0]
    }

    /// The view of a whole `rows x cols` matrix whose cells, row after row, start `data`.
    pub fn from_slice(data: &'a [T], rows: usize, cols: usize) -> (r: Self)
        requires
            rows * cols <= data@.len(),
        ensures
            r.storage() == data@,
            r.row_range() == (0usize, rows),
            r.col_range() == (0usize, cols),
            r.stride() == cols,
    {
        Self { inner: data, rows: (0, rows), cols: (0, cols), stride: cols }
    }

    /// A view with no cell: no row and no column.
    pub fn empty() -> (r: Self)
        ensures
            r.spec_dim() == (0usize, 0usize),
            r.row_range() == (0usize, 0usize),
            r.col_range() == (0usize, 0usize),
    {
        Self { inner: &[], rows: (0, 0), cols: (0, 0), stride: 0 }
    }

    /// Makes a sub-view: the part of `self` that `goggles` describes, relatively to `self`.
    pub fn view<G: IntoGoggles>(&self, goggles: G) -> (r: Living<'a, Self, false>)
        requires
            goggles.into_goggles_defined(),
            axis_ordered(goggles.goggles_spec().0),
            axis_ordered(goggles.goggles_spec().1),
        ensures
            see_through_result(*self, goggles.goggles_spec(), r.inner()),
    {
        goggles.into_goggles().see_through(self)
    }

    /// The number of rows and the number of columns; `(0, 0)` when either is zero.
    pub fn dim(&self) -> (r: (usize, usize))
        ensures
            r == self.spec_dim(),
    {
        proof {
            use_type_invariant(self);
        }
        let diff_row = self.rows.1 - self.rows.0;
        let diff_col = self.cols.1 - self.cols.0;
        if diff_row == 0 || diff_col == 0 {
            (0, 0)
        } else {
            (diff_row, diff_col)
        }
    }

    /// The region of all the cells of the view, relatively to it.
    pub fn exact_goggles(&self) -> (r: Goggles)
        ensures
            r@ == ((0usize, Some(self.spec_dim().0)), (0usize, Some(self.spec_dim().1))),
    {
        let (rows, cols) = self.dim();
        Goggles::exact(0, rows, 0, cols)
    }

    /// The number of rows.
    pub fn count_rows(&self) -> (r: usize)
        ensures
            r == self.spec_dim().0,
    {
        self.dim().0
    }

    /// The number of columns.
    pub fn count_cols(&self) -> (r: usize)
        ensures
            r == self.spec_dim().1,
    {
        self.dim().1
    }

    /// `true` when the view has no cell.
    pub fn is_empty(&self) -> (r: bool)
        ensures
            r == (self.spec_dim().0 == 0 || self.spec_dim().1 == 0),
    {
        let (rows, cols) = self.dim();
        rows == 0 || cols == 0
    }

    /// `true` when `pos` is a cell of the view.
    pub fn is_pos_in(&self, pos: (usize, usize)) -> (r: bool)
        ensures
            r == self.spec_is_pos_in(pos),
    {
        let (rows, cols) = self.dim();
        pos.0 < rows && pos.1 < cols
    }

    /// The cell at `pos`, `None` outside the view.
    pub fn get(&self, pos: (usize, usize)) -> (r: Option<&'a T>)
        ensures
            self.spec_is_pos_in(pos) ==> r == Some(&self.cell(pos)),
            !self.spec_is_pos_in(pos) ==> r is None,
    {
        proof {
            use_type_invariant(self);
        }
        if self.is_pos_in(pos) {
            let len = self.inner.len();
            proof {
                self.lemma_cell_index_bound(pos);
            }
            Some(&self.inner[(self.rows.0 + pos.0) * self.stride + pos.1 + self.cols.0])
        } else {
            None
        }
    }

    /// The index of a cell of the view lies in the storage.
    proof fn lemma_cell_index_bound(self, pos: (usize, usize))
        requires
            self.wf(),
            self.spec_is_pos_in(pos),
        ensures
            self.rows.0 + pos.0 < self.rows.1,
            0 <= (self.rows.0 + pos.0) * self.stride <= (self.rows.1 - 1) * self.stride,
            (self.rows.0 + pos.0) * self.stride + self.stride <= self.inner@.len(),
            (self.rows.0 + pos.0) * self.stride + pos.1 + self.cols.0 < self.inner@.len(),
    {
        let r0 = self.rows.0 as int;
        let r1 = self.rows.1 as int;
        let s = self.stride as int;
        let i = pos.0 as int;
        assert(0 <= (r0 + i) * s <= (r1 - 1) * s) by (nonlinear_arith)
            requires
                0 <= r0 + i <= r1 - 1,
                s >= 0,
        ;
        assert((r1 - 1) * s + s == r1 * s) by (nonlinear_arith);
        assert((r0 + i) * s + s <= r1 * s) by (nonlinear_arith)
            requires
                0 <= r0 + i <= r1 - 1,
                s >= 0,
        ;
    }

    /// `Some(n)` when the view is square with `n` rows, `None` otherwise.
    pub fn is_square(&self) -> (r: Option<usize>)
        ensures
            self.spec_dim().0 == self.spec_dim().1 ==> r == Some(self.spec_dim().0),
            self.spec_dim().0 != self.spec_dim().1 ==> r is None,
    {
        let (rows, cols) = self.dim();
        if rows == cols {
            Some(rows)
        } else {
            None
        }
    }
}

/// The cells of the view, row after row.
pub open spec fn cells_of<'a, T>(v: MatrixView<'a, T>) -> Seq<T> {
    Seq::new(
        (v.spec_dim().0 * v.spec_dim().1) as nat,
        |x: int| v.cell(((x / v.spec_dim().1 as int) as usize, (x % v.spec_dim().1 as int) as usize)),
    )
}

/// The region `q` clipped to `valid`.
pub open spec fn clipped(q: (Axis, Axis), valid: (Axis, Axis)) -> (Axis, Axis) {
    (axis_contained(q.0, valid.0), axis_contained(q.1, valid.1))
}

/// The four quadrants around `pivot`, each clipped to `valid` (see [`Goggles::quadrants`]).
pub open spec fn quadrant_ranges(pivot: (usize, usize), valid: (Axis, Axis)) -> Seq<(Axis, Axis)> {
    seq![
        clipped(((0usize, Some(pivot.0)), (0usize, Some(pivot.1))), valid),
        clipped(((pivot.0, None::<usize>), (0usize, Some(pivot.1))), valid),
        clipped(((0usize, Some(pivot.0)), (pivot.1, None::<usize>)), valid),
        clipped(((pivot.0, None::<usize>), (pivot.1, None::<usize>)), valid),
    ]
}

impl<'a, T> MatrixView<'a, T> {
    /// Sees the region `q`, clipped to `valid`, through `self`; `None` when the clipped region
    /// has no cell.
    fn clipped_view(&self, q: Goggles, valid: Goggles) -> (r: Option<Living<'a, Self, false>>)
        requires
            axis_ordered(clipped(q@, valid@).0),
            axis_ordered(clipped(q@, valid@).1),
            valid@.0.0 == 0,
            valid@.1.0 == 0,
            valid@.0.1 is Some,
            valid@.1.1 is Some,
            valid@.0.1.unwrap() * valid@.1.1.unwrap() <= usize::MAX,
        ensures
            spec_size(clipped(q@, valid@)) == Some(0int) ==> r is None,
            spec_size(clipped(q@, valid@)) != Some(0int) ==> (r matches Some(v) && see_through_result(
                *self,
                clipped(q@, valid@),
                v.inner(),
            )),
    {
        let range = q.make_contained(valid);
        proof {
            let g = clipped(q@, valid@);
            let h = valid@.0.1.unwrap() as int;
            let w = valid@.1.1.unwrap() as int;
            let a = g.0.1.unwrap() - g.0.0;
            let b = g.1.1.unwrap() - g.1.0;
            assert(a * b <= h * w) by (nonlinear_arith)
                requires
                    0 <= a <= h,
                    0 <= b <= w,
            ;
        }
        let size = match range.size() {
            Some(size) => size,
            None => {
                proof {
                    assert(false);
                }
                0
            },
        };
        if size == 0 {
            None
        } else {
            Some(range.see_through(self))
        }
    }

    /// The four quadrants of `self` around `pivot` (see [`Goggles::quadrants`]): top-left,
    /// bottom-left, top-right and bottom-right, each clipped to the rows and columns of `self`,
    /// then seen through `self`. `None` when the pivot lies beyond the view or one of the
    /// quadrants has no cell.
    pub fn quadrants(&self, pivot: (usize, usize)) -> (r: Option<[Living<'a, Self, false>; 4]>)
        requires
            self.spec_dim().0 * self.spec_dim().1 <= usize::MAX,
        ensures
            pivot.0 > self.spec_dim().0 || pivot.1 > self.spec_dim().1 ==> r is None,
            pivot.0 <= self.spec_dim().0 && pivot.1 <= self.spec_dim().1 ==> ({
                let valid = ((0usize, Some(self.spec_dim().0)), (0usize, Some(self.spec_dim().1)));
                let ranges = quadrant_ranges(pivot, valid);
                &&& r is None <==> exists|i: int| 0 <= i < 4 && spec_size(#[trigger] ranges[i]) == Some(0int)
                &&& r matches Some(views) ==> forall|i: int|
                    0 <= i < 4 ==> see_through_result(*self, #[trigger] ranges[i], views[i].inner())
            }),
    {
        let (rows, cols) = self.dim();
        if pivot.0 > rows || pivot.1 > cols {
            return None;
        }
        let valid_range = Goggles::exact(0, rows, 0, cols);
        let quadrants = Goggles::quadrants(pivot);
        let ghost valid = valid_range@;
        let ghost ranges = quadrant_ranges(pivot, valid);
        let q0 = match self.clipped_view(quadrants[0], valid_range) {
            Some(v) => v,
            None => return None,
        };
        let q1 = match self.clipped_view(quadrants[1], valid_range) {
            Some(v) => v,
            None => return None,
        };
        let q2 = match self.clipped_view(quadrants[2], valid_range) {
            Some(v) => v,
            None => return None,
        };
        let q3 = match self.clipped_view(quadrants[3], valid_range) {
            Some(v) => v,
            None => return None,
        };
        Some([q0, q1, q2, q3])
    }

    /// References to the cells of row `row`, `None` when there is no such row.
    pub fn get_row_array(&self, row: usize) -> (r: Option<Vec<&'a T>>)
        ensures
            row < self.spec_dim().0 ==> (r matches Some(cells) && cells@.len() == self.spec_dim().1
                && forall|j: int| 0 <= j < cells@.len() ==> *#[trigger] cells@[j] == self.cell((row, j as usize))),
            row >= self.spec_dim().0 ==> r is None,
    {
        let (rows, cols) = self.dim();
        if row < rows {
            let mut vec: Vec<&'a T> = Vec::new();
            for i in 0..cols
                invariant
                    (rows, cols) == self.spec_dim(),
                    row < rows,
                    vec@.len() == i,
                    forall|j: int| 0 <= j < i ==> *#[trigger] vec@[j] == self.cell((row, j as usize)),
            {
                match self.get((row, i)) {
                    Some(x) => vec.push(x),
                    None => {
                        proof {
                            assert(false);
                        }
                    },
                }
            }
            Some(vec)
        } else {
            None
        }
    }

    /// References to the `N` cells of row `row`, `None` when there is no such row or the view
    /// does not have `N` columns.
    pub fn get_row_array_exact<const N: usize>(&self, row: usize) -> (r: Option<[&'a T; N]>)
        ensures
            row < self.spec_dim().0 && self.spec_dim().1 == N ==> (r matches Some(cells) && forall|j: int|
                0 <= j < N ==> *#[trigger] cells@[j] == self.cell((row, j as usize))),
            !(row < self.spec_dim().0 && self.spec_dim().1 == N) ==> r is None,
    {
        let (rows, cols) = self.dim();
        if row < rows && cols == N {
            let first = match self.get((row, 0)) {
                Some(x) => x,
                None => {
                    proof {
                        assert(false);
                    }
                    return None;
                },
            };
            let mut cells: [&'a T; N] = filled(first);
            for i in 0..N
                invariant
                    (rows, cols) == self.spec_dim(),
                    row < rows,
                    cols == N,
                    forall|j: int| 0 <= j < i ==> *#[trigger] cells@[j] == self.cell((row, j as usize)),
            {
                match self.get((row, i)) {
                    Some(x) => {
                        cells[i] = x;
                    },
                    None => {
                        proof {
                            assert(false);
                        }
                    },
                }
            }
            Some(cells)
        } else {
            None
        }
    }

    /// References to the cells of column `col`, `None` when there is no such column.
    pub fn get_col_array(&self, col: usize) -> (r: Option<Vec<&'a T>>)
        ensures
            col < self.spec_dim().1 ==> (r matches Some(cells) && cells@.len() == self.spec_dim().0
                && forall|i: int| 0 <= i < cells@.len() ==> *#[trigger] cells@[i] == self.cell((i as usize, col))),
            col >= self.spec_dim().1 ==> r is None,
    {
        let (rows, cols) = self.dim();
        if col < cols {
            let mut vec: Vec<&'a T> = Vec::new();
            for i in 0..rows
                invariant
                    (rows, cols) == self.spec_dim(),
                    col < cols,
                    vec@.len() == i,
                    forall|k: int| 0 <= k < i ==> *#[trigger] vec@[k] == self.cell((k as usize, col)),
            {
                match self.get((i, col)) {
                    Some(x) => vec.push(x),
                    None => {
                        proof {
                            assert(false);
                        }
                    },
                }
            }
            Some(vec)
        } else {
            None
        }
    }
}

impl<'a, T> MatrixView<'a, T> {
    /// The cells of the view, row after row.
    pub fn values(&self) -> (r: ViewValues<'a, T>)
        ensures
            r.view() == *self,
            r.pos() == Some((0usize, 0usize)),
    {
        ViewValues { view: self.clone(), pos: Some((0, 0)) }
    }

    /// The cells of row `row`; none when there is no such row.
    pub fn row(&self, row: usize) -> (r: MatrixCellIter<'a, T>)
        ensures
            r.matrix() == *self,
            r.index() == row,
            r.mode() == crate::linear::iter::IterMode::Row,
            r.front() == 0,
            r.back() == if row < self.spec_dim().0 { self.spec_dim().1 } else { 0 },
    {
        MatrixCellIter::new_row(self, row)
    }

    /// The cells of column `col`; none when there is no such column.
    pub fn col(&self, col: usize) -> (r: MatrixCellIter<'a, T>)
        ensures
            r.matrix() == *self,
            r.index() == col,
            r.mode() == crate::linear::iter::IterMode::Col,
            r.front() == 0,
            r.back() == if col < self.spec_dim().1 { self.spec_dim().0 } else { 0 },
    {
        MatrixCellIter::new_col(self, col)
    }

    /// The rows of the view.
    pub fn rows(&self) -> (r: MatrixRows<'a, T>)
        ensures
            r.matrix() == *self,
            r.front() == 0,
            r.back() == self.spec_dim().0,
    {
        MatrixRows::new(self)
    }

    /// The columns of the view.
    pub fn cols(&self) -> (r: MatrixCols<'a, T>)
        ensures
            r.matrix() == *self,
            r.front() == 0,
            r.back() == self.spec_dim().1,
    {
        MatrixCols::new(self)
    }
}

impl<'a, T: Copy> MatrixView<'a, T> {
    /// Copies the cells of the view into a heap matrix of the same size; the empty matrix when
    /// the view has no cell.
    pub fn to_heap(&self) -> (r: HeapMatrix<T>)
        ensures
            r.rows == self.spec_dim().0,
            r.cols == self.spec_dim().1,
            r.data@.len() == r.rows * r.cols,
            r.data@ == cells_of(*self),
            forall|i: int, j: int|
                0 <= i < r.rows && 0 <= j < r.cols ==> #[trigger] r.cell(i, j) == self.cell(
                    (i as usize, j as usize),
                ),
    {
        let (rows, cols) = self.dim();
        if rows == 0 || cols == 0 {
            assert(cells_of(*self) =~= Seq::<T>::empty());
            return HeapMatrix::empty();
        }
        let mut data: Vec<T> = Vec::new();
        proof {
            assert(0 * cols == 0) by (nonlinear_arith);
        }
        for i in 0..rows
            invariant
                (rows, cols) == self.spec_dim(),
                data@.len() == i * cols,
                forall|a: int, b: int|
                    0 <= a < i && 0 <= b < cols ==> #[trigger] data@[a * cols + b] == self.cell(
                        (a as usize, b as usize),
                    ),
        {
            for j in 0..cols
                invariant
                    (rows, cols) == self.spec_dim(),
                    i < rows,
                    data@.len() == i * cols + j,
                    forall|a: int, b: int|
                        0 <= a < i && 0 <= b < cols ==> #[trigger] data@[a * cols + b] == self.cell(
                            (a as usize, b as usize),
                        ),
                    forall|b: int| 0 <= b < j ==> #[trigger] data@[i * cols + b] == self.cell((i, b as usize)),
            {
                let v = match self.get((i, j)) {
                    Some(v) => *v,
                    None => {
                        proof {
                            assert(false);
                        }
                        return HeapMatrix::empty();
                    },
                };
                let ghost prev = data@;
                data.push(v);
                proof {
                    assert forall|a: int, b: int| 0 <= a < i && 0 <= b < cols implies #[trigger] data@[a * cols + b] == self.cell((a as usize, b as usize)) by {
                        lemma_cell_index(a, b, i as int, cols as int);
                        assert(data@[a * cols + b] == prev[a * cols + b]);
                    }
                }
            }
            proof {
                assert((i + 1) * cols == i * cols + cols) by (nonlinear_arith);
                assert forall|a: int, b: int| 0 <= a < i + 1 && 0 <= b < cols implies #[trigger] data@[a * cols + b] == self.cell((a as usize, b as usize)) by {
                    if a == i {
                    }
                }
            }
        }
        proof {
            assert forall|x: int| 0 <= x < rows * cols implies #[trigger] data@[x] == cells_of(*self)[x] by {
                crate::linear::gauss::lemma_split_index(x, rows as int, cols as int);
                let a = x / (cols as int);
                let b = x % (cols as int);
                assert(data@[a * cols + b] == self.cell((a as usize, b as usize)));
            }
            assert(data@ =~= cells_of(*self));
        }
        HeapMatrix::new(data, rows, cols)
    }

    /// Copies the view and transposes the copy.
    pub fn transpose(&self) -> (r: HeapMatrix<T>)
        ensures
            r.rows == self.spec_dim().1,
            r.cols == self.spec_dim().0,
            r.data@.len() == r.rows * r.cols,
            forall|i: int, j: int|
                0 <= i < r.rows && 0 <= j < r.cols ==> #[trigger] r.cell(i, j) == self.cell(
                    (j as usize, i as usize),
                ),
    {
        let h = self.to_heap();
        let r = h.transpose();
        proof {
            assert(r.rows * r.cols == r.cols * r.rows) by (nonlinear_arith);
            assert forall|i: int, j: int| 0 <= i < r.rows && 0 <= j < r.cols implies #[trigger] r.cell(i, j) == self.cell((j as usize, i as usize)) by {
                assert(r.cell(i, j) == h.cell(j, i));
            }
        }
        r
    }
}

/// The cells of a view, row after row.
pub struct ViewValues<'a, T> {
    view: MatrixView<'a, T>,
    pos: Option<(usize, usize)>,
}

impl<'a, T> ViewValues<'a, T> {
    /// The view whose cells are given.
    pub closed spec fn view(self) -> MatrixView<'a, T> {
        self.view
    }

    /// The position of the next cell.
    pub closed spec fn pos(self) -> Option<(usize, usize)> {
        self.pos
    }

    /// The next cell, `None` once the position leaves the view.
    pub fn next(&mut self) -> (r: Option<&'a T>)
        ensures
            final(self).view() == old(self).view(),
            old(self).pos() is Some && old(self).view().spec_is_pos_in(old(self).pos()->0) ==> {
                let p = old(self).pos()->0;
                &&& r == Some(&old(self).view().cell(p))
                &&& final(self).pos() == spec_next(
                    ((0usize, Some(old(self).view().spec_dim().0)), (0usize, Some(old(self).view().spec_dim().1))),
                    p,
                )
            },
            !(old(self).pos() is Some && old(self).view().spec_is_pos_in(old(self).pos()->0)) ==> r is None
                && final(self).pos() == old(self).pos(),
    {
        match self.pos {
            Some(pos) => {
                if self.view.is_pos_in(pos) {
                    let ret = match self.view.get(pos) {
                        Some(v) => v,
                        None => {
                            proof {
                                assert(false);
                            }
                            return None;
                        },
                    };
                    self.pos = self.view.exact_goggles().next(pos);
                    Some(ret)
                } else {
                    None
                }
            },
            None => None,
        }
    }

    /// The number of cells of the view, whatever has been given already.
    pub fn size_hint(&self) -> (r: (usize, Option<usize>))
        ensures
            r.0 == self.view().spec_dim().0 * self.view().spec_dim().1,
            r.1 == Some(r.0),
    {
        let (rows, cols) = self.view.dim();
        let _ = self.view.inner.len();
        proof {
            use_type_invariant(&self.view);
            self.view.lemma_dim_cells();
        }
        let size = rows * cols;
        (size, Some(size))
    }
}

/// The view is square and, by `T`'s equality, holds `one` on its diagonal and `zero` elsewhere.
pub open spec fn is_identity_spec<'a, T: PartialEq>(m: MatrixView<'a, T>, zero: T, one: T) -> bool {
    &&& m.spec_dim().0 == m.spec_dim().1
    &&& forall|i: int, j: int|
        0 <= i < m.spec_dim().0 && 0 <= j < m.spec_dim().1 ==> (#[trigger] m.cell(
            (i as usize, j as usize),
        )).eq_spec(&(if i == j { one } else { zero }))
}

/// Row `i` of the view holds a cell that differs from `zero`.
pub open spec fn row_nonzero<'a, T: PartialEq>(m: MatrixView<'a, T>, i: int, zero: T) -> bool {
    exists|j: int| 0 <= j < m.spec_dim().1 && !(#[trigger] m.cell((i as usize, j as usize))).eq_spec(&zero)
}

/// The number of rows among the first `k` ones that hold a cell other than `zero`.
pub open spec fn count_nonzero_rows<'a, T: PartialEq>(m: MatrixView<'a, T>, zero: T, k: int) -> nat
    decreases k,
{
    if k <= 0 {
        0
    } else {
        count_nonzero_rows(m, zero, k - 1) + if row_nonzero(m, k - 1, zero) {
            1nat
        } else {
            0nat
        }
    }
}

impl<'a, T: PartialEq> MatrixView<'a, T> {
    /// `true` when the view is square with `one` on its diagonal and `zero` elsewhere.
    pub fn is_identity(&self, zero: &T, one: &T) -> (r: bool)
        requires
            T::obeys_eq_spec(),
        ensures
            r == is_identity_spec(*self, *zero, *one),
    {
        let (rows, cols) = self.dim();
        if rows != cols {
            return false;
        }
        for i in 0..rows
            invariant
                (rows, cols) == self.spec_dim(),
                rows == cols,
                T::obeys_eq_spec(),
                forall|a: int, b: int|
                    0 <= a < i && 0 <= b < cols ==> (#[trigger] self.cell(
                        (a as usize, b as usize),
                    )).eq_spec(&(if a == b { *one } else { *zero })),
        {
            for j in 0..cols
                invariant
                    (rows, cols) == self.spec_dim(),
                    rows == cols,
                    i < rows,
                    T::obeys_eq_spec(),
                    forall|a: int, b: int|
                        0 <= a < i && 0 <= b < cols ==> (#[trigger] self.cell(
                            (a as usize, b as usize),
                        )).eq_spec(&(if a == b { *one } else { *zero })),
                    forall|b: int|
                        0 <= b < j ==> (#[trigger] self.cell((i, b as usize))).eq_spec(
                            &(if i == b { *one } else { *zero }),
                        ),
            {
                let e = match self.get((i, j)) {
                    Some(e) => e,
                    None => {
                        proof {
                            assert(false);
                        }
                        return false;
                    },
                };
                let expected = if i == j { one } else { zero };
                if !e.eq(expected) {
                    proof {
                        let a = i as int;
                        let b = j as int;
                        assert(!self.cell((a as usize, b as usize)).eq_spec(&(if a == b { *one } else { *zero })));
                    }
                    return false;
                }
            }
            proof {
                assert forall|a: int, b: int| 0 <= a < i + 1 && 0 <= b < cols implies (#[trigger] self.cell((a as usize, b as usize))).eq_spec(&(if a == b { *one } else { *zero })) by {
                    if a == i {
                    }
                }
            }
        }
        true
    }

    /// The number of rows holding a cell other than `zero`: the rank of a matrix in row echelon
    /// form.
    pub fn rank(&self, zero: &T) -> (r: usize)
        requires
            T::obeys_eq_spec(),
        ensures
            r == count_nonzero_rows(*self, *zero, self.spec_dim().0 as int),
    {
        let (rows, cols) = self.dim();
        let mut count: usize = 0;
        for i in 0..rows
            invariant
                (rows, cols) == self.spec_dim(),
                T::obeys_eq_spec(),
                count == count_nonzero_rows(*self, *zero, i as int),
                count <= i,
        {
            let mut found = false;
            for j in 0..cols
                invariant
                    (rows, cols) == self.spec_dim(),
                    i < rows,
                    T::obeys_eq_spec(),
                    found == exists|b: int| 0 <= b < j && !(#[trigger] self.cell((i, b as usize))).eq_spec(zero),
            {
                let e = match self.get((i, j)) {
                    Some(e) => e,
                    None => {
                        proof {
                            assert(false);
                        }
                        zero
                    },
                };
                if !e.eq(zero) {
                    found = true;
                }
                proof {
                    if !self.cell((i, j)).eq_spec(zero) {
                        assert(!self.cell((i, j as usize)).eq_spec(zero));
                    }
                }
            }
            proof {
                assert(found == row_nonzero(*self, i as int, *zero));
            }
            if found {
                count = count + 1;
            }
        }
        count
    }
}

/// Two views are equal when they have the same size and, by `T`'s equality, the same cells.
pub open spec fn same_cells<'a, 'b, T: PartialEq>(m: MatrixView<'a, T>, n: MatrixView<'b, T>) -> bool {
    &&& m.spec_dim() == n.spec_dim()
    &&& forall|i: int, j: int|
        0 <= i < m.spec_dim().0 && 0 <= j < m.spec_dim().1 ==> (#[trigger] m.cell(
            (i as usize, j as usize),
        )).eq_spec(&n.cell((i as usize, j as usize)))
}

impl<'a, T: PartialEq> PartialEq for MatrixView<'a, T> {
    fn eq(&self, other: &Self) -> (r: bool) {
        let (rows, cols) = self.dim();
        let (other_rows, other_cols) = other.dim();
        if rows != other_rows || cols != other_cols {
            return false;
        }
        for i in 0..rows
            invariant
                (rows, cols) == self.spec_dim(),
                (rows, cols) == other.spec_dim(),
                T::obeys_eq_spec() ==> forall|a: int, b: int|
                    0 <= a < i && 0 <= b < cols ==> (#[trigger] self.cell(
                        (a as usize, b as usize),
                    )).eq_spec(&other.cell((a as usize, b as usize))),
        {
            for j in 0..cols
                invariant
                    i < rows,
                    (rows, cols) == self.spec_dim(),
                    (rows, cols) == other.spec_dim(),
                    T::obeys_eq_spec() ==> forall|a: int, b: int|
                        0 <= a < rows && 0 <= b < cols && (a < i || (a == i && b < j)) ==> (
                        #[trigger] self.cell((a as usize, b as usize))).eq_spec(
                            &other.cell((a as usize, b as usize)),
                        ),
            {
                let (x, y) = match (self.get((i, j)), other.get((i, j))) {
                    (Some(x), Some(y)) => (x, y),
                    _ => {
                        proof {
                            assert(false);
                        }
                        return false;
                    },
                };
                if !x.eq(y) {
                    proof {
                        let a = i as int;
                        let b = j as int;
                        assert(T::obeys_eq_spec() ==> !self.cell((a as usize, b as usize)).eq_spec(
                            &other.cell((a as usize, b as usize)),
                        ));
                    }
                    return false;
                }
            }
        }
        true
    }
}

impl<'a, T: PartialEq> PartialEqSpecImpl for MatrixView<'a, T> {
    open spec fn obeys_eq_spec() -> bool {
        T::obeys_eq_spec()
    }

    open spec fn eq_spec(&self, other: &Self) -> bool {
        same_cells(*self, *other)
    }
}

impl<'a, T> MatrixView<'a, T> {
    /// The cells of the view are fewer than the cells of the storage.
    proof fn lemma_dim_cells(self)
        requires
            self.wf(),
        ensures
            self.spec_dim().0 * self.spec_dim().1 <= self.storage().len(),
    {
        let d = self.spec_dim();
        if d.0 > 0 {
            assert(d.0 * d.1 <= self.rows.1 * self.stride) by (nonlinear_arith)
                requires
                    d.0 <= self.rows.1,
                    d.1 <= self.stride,
            ;
        }
    }
}

impl<'a, T> Clone for MatrixView<'a, T> {
    fn clone(&self) -> (r: Self)
        ensures
            r == *self,
    {
        proof {
            use_type_invariant(self);
        }
        Self { inner: self.inner, rows: self.rows, cols: self.cols, stride: self.stride }
    }
}

/// `v` is what `g`, read relatively to `m`, lets one see of `m` (see [`see_through_parts`]).
pub open spec fn see_through_result<'a, T>(m: MatrixView<'a, T>, g: (Axis, Axis), v: MatrixView<'a, T>) -> bool {
    see_through_parts(m.storage(), m.stride(), m.spec_dim(), g, v)
}

/// `v` is what `g` lets one see of a view of size `dim` over `storage` with rows `stride` long:
/// when `g` fits in the view, the same cells with the rows and columns of `g` clipped to `dim`
/// (as positions of the whole matrix); otherwise an empty view.
pub open spec fn see_through_parts<'a, T>(
    storage: Seq<T>,
    stride: usize,
    dim: (usize, usize),
    g: (Axis, Axis),
    v: MatrixView<'a, T>,
) -> bool {
    let whole = ((0usize, Some(dim.0)), (0usize, Some(dim.1)));
    match spec_compose(whole, g) {
        Some(c) => {
            let rows = axis_contained(whole.0, c.0);
            let cols = axis_contained(whole.1, c.1);
            &&& v.storage() == storage
            &&& v.stride() == stride
            &&& v.row_range() == (axis_contained((0usize, Some(dim.0)), rows).0, axis_contained(
                (0usize, Some(dim.0)),
                rows,
            ).1.unwrap())
            &&& v.col_range() == (axis_contained((0usize, Some(dim.1)), cols).0, axis_contained(
                (0usize, Some(dim.1)),
                cols,
            ).1.unwrap())
        },
        None => v.spec_dim() == (0usize, 0usize) && v.row_range() == (0usize, 0usize)
            && v.col_range() == (0usize, 0usize),
    }
}

impl Goggles {
    /// The part of `matrix` that `self` describes, relatively to `matrix`; an empty view when
    /// `self` does not fit in it.
    pub fn see_through<'a, T>(self, matrix: &MatrixView<'a, T>) -> (r: Living<'a, MatrixView<'a, T>, false>)
        requires
            axis_ordered(self@.0),
            axis_ordered(self@.1),
        ensures
            see_through_result(*matrix, self@, r.inner()),
    {
        proof {
            use_type_invariant(matrix);
        }
        let mut view = matrix.clone();
        let goggles = view.exact_goggles();
        if let Some(result) = goggles.compose(self) {
            let (rows, cols) = goggles.make_contained(result).into_region(view.dim());
            proof {
                let dim = matrix.spec_dim();
                assert(rows.1 <= dim.0 && cols.1 <= dim.1);
                assert(rows.0 <= rows.1 && cols.0 <= cols.1);
                assert(dim.0 <= matrix.rows.1);
                assert(dim.1 <= matrix.cols.1);
                assert(rows.1 * matrix.stride <= matrix.rows.1 * matrix.stride) by (nonlinear_arith)
                    requires
                        rows.1 <= matrix.rows.1,
                ;
            }
            view.rows = rows;
            view.cols = cols;
            Living::new(view)
        } else {
            Living::new(MatrixView::empty())
        }
    }
}

} // verus!
