//! Rectangular regions of a matrix ("goggles") and the arithmetic that moves, composes and
//! clips them.

use vstd::prelude::*;
use vstd::arithmetic::div_mod::{lemma_basic_div, lemma_div_by_self, lemma_div_is_ordered, lemma_div_plus_one, lemma_mod_add_multiples_vanish, lemma_small_mod};
use vstd::std_specs::cmp::PartialEqSpecImpl;

verus! {

/// One axis of a region: a lower bound and an optional, exclusive, upper bound. `None` means the
/// axis is unbounded.
pub type Axis = (usize, Option<usize>);

/// `true` when the upper bound, if any, is not below the lower bound.
pub open spec fn axis_ordered(a: Axis) -> bool {
    a.1 matches Some(u) ==> a.0 <= u
}

/// `true` when the axis is bounded and empty (lower bound equal to upper bound).
pub open spec fn axis_is_empty(a: Axis) -> bool {
    a.1 == Some(a.0)
}

/// The length of a bounded axis.
pub open spec fn axis_len(a: Axis) -> int {
    a.1.unwrap() - a.0
}

/// The axis moved by `d`.
pub open spec fn axis_shift(a: Axis, d: usize) -> Axis {
    (
        (a.0 + d) as usize,
        match a.1 {
            Some(k) => Some((k + d) as usize),
            None => None,
        },
    )
}

/// Shifting the axis by `d` stays within `usize`.
pub open spec fn axis_shift_fits(a: Axis, d: usize) -> bool {
    &&& a.0 + d <= usize::MAX
    &&& a.1 matches Some(k) ==> k + d <= usize::MAX
}

/// The intersection of two axes: the largest lower bound and the smallest upper bound.
pub open spec fn axis_contained(a: Axis, b: Axis) -> Axis {
    (
        if a.0 >= b.0 { a.0 } else { b.0 },
        match (a.1, b.1) {
            (Some(x), Some(y)) => Some(if x <= y { x } else { y }),
            (Some(x), None) => Some(x),
            (None, Some(y)) => Some(y),
            (None, None) => None,
        },
    )
}

/// `target`, read relatively to `origin`, starts inside `origin` and, when bounded, ends inside
/// it too. An unbounded origin accepts every target.
pub open spec fn axis_can_compose(origin: Axis, target: Axis) -> bool {
    match origin.1 {
        None => true,
        Some(u) => {
            &&& target.0 < u - origin.0
            &&& target.1 matches Some(t) ==> t <= u - origin.0
        },
    }
}

/// `target`, read relatively to `origin`, expressed in absolute positions.
pub open spec fn axis_compose(origin: Axis, target: Axis) -> Axis {
    (
        (origin.0 + target.0) as usize,
        match target.1 {
            None => origin.1,
            Some(k) => Some((origin.0 + k) as usize),
        },
    )
}

/// The absolute positions of `axis_compose` fit in `usize`.
pub open spec fn axis_compose_fits(origin: Axis, target: Axis) -> bool {
    &&& origin.0 + target.0 <= usize::MAX
    &&& target.1 matches Some(k) ==> origin.0 + k <= usize::MAX
}

/// A relative coordinate `p` lies inside the axis.
pub open spec fn axis_has(a: Axis, p: usize) -> bool {
    match a.1 {
        Some(u) => p < u - a.0,
        None => true,
    }
}

/// A rectangular region of a matrix, given by a row axis and a column axis.
#[derive(Copy, Clone, Debug)]
pub struct Goggles {
    rows: Axis,
    cols: Axis,
}

impl View for Goggles {
    type V = (Axis, Axis);

    /// The row axis and the column axis.
    closed spec fn view(&self) -> (Axis, Axis) {
        (self.rows, self.cols)
    }
}

fn axis_eq(a: Axis, b: Axis) -> (r: bool)
    ensures
        r == (a == b),
{
    a.0 == b.0 && match (a.1, b.1) {
        (Some(x), Some(y)) => x == y,
        (None, None) => true,
        _ => false,
    }
}

impl PartialEq for Goggles {
    fn eq(&self, other: &Self) -> (r: bool) {
        axis_eq(self.rows, other.rows) && axis_eq(self.cols, other.cols)
    }
}

impl Eq for Goggles {
}

impl PartialEqSpecImpl for Goggles {
    open spec fn obeys_eq_spec() -> bool {
        true
    }

    open spec fn eq_spec(&self, other: &Self) -> bool {
        self@ == other@
    }
}

/// The region read relatively to `origin`, in absolute positions, when it can be composed.
pub open spec fn spec_compose(origin: (Axis, Axis), target: (Axis, Axis)) -> Option<(Axis, Axis)> {
    if axis_can_compose(origin.0, target.0) && axis_can_compose(origin.1, target.1) {
        Some((axis_compose(origin.0, target.0), axis_compose(origin.1, target.1)))
    } else {
        None
    }
}

/// The number of cells of a region; `None` for an unbounded region that is not empty.
pub open spec fn spec_size(g: (Axis, Axis)) -> Option<int> {
    if axis_is_empty(g.0) || axis_is_empty(g.1) {
        Some(0)
    } else if g.0.1 is Some && g.1.1 is Some {
        Some(axis_len(g.0) * axis_len(g.1))
    } else {
        None
    }
}

/// `pos`, relative to the region, lies inside it.
pub open spec fn spec_is_relative_in(g: (Axis, Axis), pos: (usize, usize)) -> bool {
    !axis_is_empty(g.0) && !axis_is_empty(g.1) && axis_has(g.0, pos.0) && axis_has(g.1, pos.1)
}

/// What `is_relative_in` needs to compute its answer without underflow: each axis it reads is
/// ordered. The column axis is not read when the row axis is empty.
pub open spec fn relative_in_defined(g: (Axis, Axis)) -> bool {
    &&& axis_ordered(g.0)
    &&& !axis_is_empty(g.0) ==> axis_ordered(g.1)
}

/// `pos` is on the last column of a bounded column axis (or past it).
pub open spec fn ends_row(g: (Axis, Axis), pos: (usize, usize)) -> bool {
    g.1.1 is Some && pos.1 >= axis_len(g.1) - 1
}

/// `pos` is on the last row of a bounded row axis (or past it).
pub open spec fn ends_col(g: (Axis, Axis), pos: (usize, usize)) -> bool {
    g.0.1 is Some && pos.0 >= axis_len(g.0) - 1
}

/// The position that follows `pos` in row-major order, `None` after the last one.
pub open spec fn spec_next(g: (Axis, Axis), pos: (usize, usize)) -> Option<(usize, usize)> {
    if ends_row(g, pos) {
        if ends_col(g, pos) {
            None
        } else {
            Some(((pos.0 + 1) as usize, 0usize))
        }
    } else {
        Some((pos.0, (pos.1 + 1) as usize))
    }
}

/// What `next` needs: the axes it reads are not empty, and the next position fits in `usize`.
pub open spec fn next_defined(g: (Axis, Axis), pos: (usize, usize)) -> bool {
    &&& g.1.1 matches Some(u) ==> g.1.0 < u
    &&& ends_row(g, pos) ==> (g.0.1 matches Some(u) ==> g.0.0 < u)
    &&& ends_row(g, pos) && !ends_col(g, pos) ==> pos.0 + 1 <= usize::MAX
    &&& !ends_row(g, pos) ==> pos.1 + 1 <= usize::MAX
}

/// The position `n` steps after `pos` in row-major order. With unbounded columns the walk stays on
/// the row. With bounded columns of width `w`, the position of linear index
/// `pos.0 * w + pos.1 + n` is taken; it is kept when it lies on the next row start or before, and
/// otherwise only when it is inside the region. A start outside the columns gives `None`.
pub open spec fn spec_nth(g: (Axis, Axis), pos: (usize, usize), n: usize) -> Option<(usize, usize)> {
    if n == 0 {
        Some(pos)
    } else if g.1.1 is None {
        Some((pos.0, (pos.1 + n) as usize))
    } else {
        let w = axis_len(g.1);
        if w <= pos.1 {
            None
        } else {
            let p = ((pos.0 + (pos.1 + n) / w) as usize, ((pos.1 + n) % w) as usize);
            if pos.1 + n <= w || spec_is_relative_in(g, p) {
                Some(p)
            } else {
                None
            }
        }
    }
}

/// What `nth` needs: the column axis is ordered, the target position fits in `usize`, and, when
/// the region is consulted, its axes are ordered.
pub open spec fn nth_defined(g: (Axis, Axis), pos: (usize, usize), n: usize) -> bool {
    n != 0 ==> {
        &&& g.1.1 is None ==> pos.1 + n <= usize::MAX
        &&& g.1.1 is Some ==> {
            &&& axis_ordered(g.1)
            &&& axis_len(g.1) > pos.1 ==> {
                &&& pos.0 + (pos.1 + n) / axis_len(g.1) <= usize::MAX
                &&& pos.1 + n > axis_len(g.1) ==> relative_in_defined(g)
            }
        }
    }
}

impl Goggles {
    /// The region of rows `row_lower..row_upper` and columns `col_lower..col_upper`.
    pub fn exact(row_lower: usize, row_upper: usize, col_lower: usize, col_upper: usize) -> (r: Self)
        ensures
            r@ == ((row_lower, Some(row_upper)), (col_lower, Some(col_upper))),
    {
        Self { rows: (row_lower, Some(row_upper)), cols: (col_lower, Some(col_upper)) }
    }

    /// The four regions around `pivot`: top-left, bottom-left, top-right and bottom-right. The
    /// bottom and right ones are unbounded.
    pub fn quadrants(pivot: (usize, usize)) -> (r: [Self; 4])
        ensures
            r[0]@ == ((0usize, Some(pivot.0)), (0usize, Some(pivot.1))),
            r[1]@ == ((pivot.0, None::<usize>), (0usize, Some(pivot.1))),
            r[2]@ == ((0usize, Some(pivot.0)), (pivot.1, None::<usize>)),
            r[3]@ == ((pivot.0, None::<usize>), (pivot.1, None::<usize>)),
    {
        let (row, col) = pivot;
        [
            Self { rows: (0, Some(row)), cols: (0, Some(col)) },
            Self { rows: (row, None), cols: (0, Some(col)) },
            Self { rows: (0, Some(row)), cols: (col, None) },
            Self { rows: (row, None), cols: (col, None) },
        ]
    }

    /// The region moved down by `offset.0` rows and right by `offset.1` columns.
    pub fn shift_by(self, offset: (usize, usize)) -> (r: Self)
        requires
            axis_shift_fits(self@.0, offset.0),
            axis_shift_fits(self@.1, offset.1),
        ensures
            r@ == (axis_shift(self@.0, offset.0), axis_shift(self@.1, offset.1)),
    {
        Self {
            rows: {
                let lower = self.rows.0 + offset.0;
                let upper = match self.rows.1 {
                    Some(k) => Some(k + offset.0),
                    None => None,
                };
                (lower, upper)
            },
            cols: {
                let lower = self.cols.0 + offset.1;
                let upper = match self.cols.1 {
                    Some(k) => Some(k + offset.1),
                    None => None,
                };
                (lower, upper)
            },
        }
    }

    /// Gives the position that follows `pos` in row-major order inside the region, or `None` when
    /// `pos` is on the last cell.
    pub fn next(self, pos: (usize, usize)) -> (r: Option<(usize, usize)>)
        requires
            next_defined(self@, pos),
        ensures
            r == spec_next(self@, pos),
    {
        let (row, col) = pos;
        let is_row_full = match self.cols {
            (lower, Some(upper)) => col >= upper - lower - 1,
            (_, None) => false,
        };

        if is_row_full {
            let is_last_row = match self.rows {
                (lower, Some(upper)) => row >= upper - lower - 1,
                (_, None) => false,
            };
            if is_last_row {
                None
            } else {
                Some((row + 1, 0))
            }
        } else {
            Some((row, col + 1))
        }
    }

    /// Gives the position `n` steps after `pos` in row-major order (see [`spec_nth`]).
    pub fn nth(self, pos: (usize, usize), n: usize) -> (r: Option<(usize, usize)>)
        requires
            nth_defined(self@, pos, n),
        ensures
            r == spec_nth(self@, pos, n),
    {
        let mut n = n;
        if n == 0 {
            return Some(pos);
        }
        let stride = match self.cols {
            (lower, Some(upper)) => upper - lower,
            (_, None) => return Some((pos.0, pos.1 + n)),
        };
        let ghost w = stride as int;
        let ghost total = pos.1 + n;
        let new_pos = if stride > pos.1 {
            let diff = stride - pos.1;
            if diff > n {
                proof {
                    lemma_basic_div(total, w);
                    lemma_small_mod(total as nat, w as nat);
                }
                return Some((pos.0, pos.1 + n));
            } else if diff == n {
                proof {
                    lemma_div_plus_one(0, w);
                    lemma_mod_add_multiples_vanish(0, w);
                }
                return Some((pos.0 + 1, 0));
            } else {
                proof {
                    lemma_div_is_ordered(w, total, w);
                    lemma_div_by_self(w);
                }
                n -= diff;
                (pos.0 + 1, 0)
            }
        } else {
            return None;
        };
        let q = n / stride;
        let r = n % stride;
        proof {
            assert(total == w + n);
            lemma_div_plus_one(n as int, w);
            lemma_mod_add_multiples_vanish(n as int, w);
        }
        let new_pos = (new_pos.0 + q, new_pos.1 + r);
        if self.is_relative_in(new_pos) {
            Some(new_pos)
        } else {
            None
        }
    }

    /// `true` when `target`, read relatively to `self`, starts inside `self` and, when bounded,
    /// ends inside it. An unbounded axis of `self` accepts every target.
    pub fn can_compose_with(self, target: Self) -> (r: bool)
        requires
            axis_ordered(self@.0),
            axis_can_compose(self@.0, target@.0) ==> axis_ordered(self@.1),
        ensures
            r == (axis_can_compose(self@.0, target@.0) && axis_can_compose(self@.1, target@.1)),
    {
        (match (self.rows, target.rows) {
            ((_, None), (_, _)) => true,
            ((origin_lower, Some(origin_upper)), (target_lower, None)) =>
                target_lower < origin_upper - origin_lower,
            ((origin_lower, Some(origin_upper)), (target_lower, Some(target_upper))) =>
                target_lower < origin_upper - origin_lower && target_upper <= origin_upper - origin_lower,
        }) && match (self.cols, target.cols) {
            ((_, None), (_, _)) => true,
            ((origin_lower, Some(origin_upper)), (target_lower, None)) =>
                target_lower < origin_upper - origin_lower,
            ((origin_lower, Some(origin_upper)), (target_lower, Some(target_upper))) =>
                target_lower < origin_upper - origin_lower && target_upper <= origin_upper - origin_lower,
        }
    }

    /// Reads `target` relatively to `self` and gives it in absolute positions, or `None` when
    /// `target` does not fit in `self` (see [`can_compose_with`](Self::can_compose_with)).
    pub fn compose(self, target: Self) -> (r: Option<Self>)
        requires
            axis_ordered(self@.0),
            axis_can_compose(self@.0, target@.0) ==> axis_ordered(self@.1),
            axis_can_compose(self@.0, target@.0) && axis_can_compose(self@.1, target@.1) ==> {
                &&& axis_compose_fits(self@.0, target@.0)
                &&& axis_compose_fits(self@.1, target@.1)
            },
        ensures
            r matches Some(g) ==> spec_compose(self@, target@) == Some(g@),
            r is None <==> spec_compose(self@, target@) is None,
    {
        if self.can_compose_with(target) {
            let rows = {
                let lower = self.rows.0 + target.rows.0;
                let upper = match target.rows.1 {
                    None => self.rows.1,
                    Some(k) => Some(self.rows.0 + k),
                };
                (lower, upper)
            };
            let cols = {
                let lower = self.cols.0 + target.cols.0;
                let upper = match target.cols.1 {
                    None => self.cols.1,
                    Some(k) => Some(self.cols.0 + k),
                };
                (lower, upper)
            };
            Some(Self { rows, cols })
        } else {
            None
        }
    }

    /// The intersection of `self` and `target`: on each axis, the largest lower bound and the
    /// smallest upper bound (an unbounded side gives way to a bounded one).
    pub fn make_contained(self, target: Self) -> (r: Self)
        ensures
            r@ == (axis_contained(self@.0, target@.0), axis_contained(self@.1, target@.1)),
    {
        let rows = {
            let lower = if self.rows.0 >= target.rows.0 { self.rows.0 } else { target.rows.0 };
            let upper = match (self.rows.1, target.rows.1) {
                (Some(k), None) => Some(k),
                (None, Some(k)) => Some(k),
                (Some(a), Some(b)) => Some(if a <= b { a } else { b }),
                (None, None) => None,
            };
            (lower, upper)
        };
        let cols = {
            let lower = if self.cols.0 >= target.cols.0 { self.cols.0 } else { target.cols.0 };
            let upper = match (self.cols.1, target.cols.1) {
                (Some(k), None) => Some(k),
                (None, Some(k)) => Some(k),
                (Some(a), Some(b)) => Some(if a <= b { a } else { b }),
                (None, None) => None,
            };
            (lower, upper)
        };
        Self { rows, cols }
    }

    /// Clips `self` to the `end.0 x end.1` matrix and gives the row and column ranges as
    /// `(lower, upper)` pairs.
    pub fn into_region(self, end: (usize, usize)) -> (r: ((usize, usize), (usize, usize)))
        ensures
            r.0.0 == axis_contained((0usize, Some(end.0)), self@.0).0,
            Some(r.0.1) == axis_contained((0usize, Some(end.0)), self@.0).1,
            r.1.0 == axis_contained((0usize, Some(end.1)), self@.1).0,
            Some(r.1.1) == axis_contained((0usize, Some(end.1)), self@.1).1,
    {
        let (rows, cols) = end;
        let this = Goggles::exact(0, rows, 0, cols).make_contained(self);
        let r = match this.rows {
            (a, Some(b)) => (a, b),
            (a, None) => {
                proof {
                    assert(false);
                }
                (a, 0)
            },
        };
        let c = match this.cols {
            (a, Some(b)) => (a, b),
            (a, None) => {
                proof {
                    assert(false);
                }
                (a, 0)
            },
        };
        (r, c)
    }

    /// The number of cells of the region, or `None` when it is unbounded and not empty.
    pub fn size(self) -> (r: Option<usize>)
        requires
            relative_in_defined(self@),
            spec_size(self@) matches Some(s) ==> s <= usize::MAX,
        ensures
            r matches Some(s) ==> spec_size(self@) == Some(s as int),
            r is None <==> spec_size(self@) is None,
    {
        let rows = match self.rows {
            (a, Some(b)) => {
                if a == b {
                    return Some(0);
                }
                Some(b - a)
            },
            (_, None) => None,
        };
        let cols = match self.cols {
            (a, Some(b)) => {
                if a == b {
                    return Some(0);
                }
                Some(b - a)
            },
            (_, None) => None,
        };
        match (rows, cols) {
            (Some(rows), Some(cols)) => Some(rows * cols),
            _ => None,
        }
    }

    /// `true` when the relative position `pos` lies inside the region. An empty axis contains
    /// nothing, an unbounded one everything.
    pub fn is_relative_in(self, pos: (usize, usize)) -> (r: bool)
        requires
            relative_in_defined(self@),
        ensures
            r == spec_is_relative_in(self@, pos),
    {
        let rows = match self.rows {
            (a, Some(b)) => {
                if a == b {
                    return false;
                }
                pos.0 < b - a
            },
            (_, None) => true,
        };
        let cols = match self.cols {
            (a, Some(b)) => {
                if a == b {
                    return false;
                }
                pos.1 < b - a
            },
            (_, None) => true,
        };
        rows && cols
    }
}

} // verus!

verus! {

#[verifier::external_type_specification]
pub struct ExRangeFull(core::ops::RangeFull);

#[verifier::external_type_specification]
#[verifier::reject_recursive_types(Idx)]
pub struct ExRangeFrom<Idx>(core::ops::RangeFrom<Idx>);

#[verifier::external_type_specification]
#[verifier::reject_recursive_types(Idx)]
pub struct ExRangeTo<Idx>(core::ops::RangeTo<Idx>);

#[verifier::external_type_specification]
#[verifier::reject_recursive_types(Idx)]
pub struct ExRangeToInclusive<Idx>(core::ops::RangeToInclusive<Idx>);

/// `RangeInclusive::into_inner` gives the lower bound and the upper (inclusive) bound of the
/// range, as its documentation says.
pub assume_specification<Idx>[ core::ops::RangeInclusive::<Idx>::into_inner ](
    range: core::ops::RangeInclusive<Idx>,
) -> (r: (Idx, Idx))
    ensures
        r == (range@.start, range@.end),
;

/// A value that describes a region of a matrix: a region itself, a single row index, the full
/// range `..`, or a pair giving the rows then the columns.
pub trait IntoGoggles: Sized {
    /// The region that `self` describes.
    spec fn goggles_spec(self) -> (Axis, Axis);

    /// The region can be computed without overflow.
    spec fn into_goggles_defined(self) -> bool;

    /// Converts `self` into a region.
    fn into_goggles(self) -> (g: Goggles)
        requires
            self.into_goggles_defined(),
        ensures
            g@ == self.goggles_spec(),
    ;
}

impl IntoGoggles for Goggles {
    open spec fn goggles_spec(self) -> (Axis, Axis) {
        self@
    }

    open spec fn into_goggles_defined(self) -> bool {
        true
    }

    fn into_goggles(self) -> (g: Goggles) {
        self
    }
}

/// A row index selects that single row and every column.
impl IntoGoggles for usize {
    open spec fn goggles_spec(self) -> (Axis, Axis) {
        ((self, Some((self + 1) as usize)), (0usize, None::<usize>))
    }

    open spec fn into_goggles_defined(self) -> bool {
        self < usize::MAX
    }

    fn into_goggles(self) -> (g: Goggles) {
        Goggles { rows: (self, Some(self + 1)), cols: (0, None) }
    }
}

/// The full range `..` selects every row and every column.
impl IntoGoggles for core::ops::RangeFull {
    open spec fn goggles_spec(self) -> (Axis, Axis) {
        ((0usize, None::<usize>), (0usize, None::<usize>))
    }

    open spec fn into_goggles_defined(self) -> bool {
        true
    }

    fn into_goggles(self) -> (g: Goggles) {
        Goggles { rows: (0, None), cols: (0, None) }
    }
}

/// The range `a..` selects the rows from `a` on and every column.
impl IntoGoggles for core::ops::RangeFrom<usize> {
    open spec fn goggles_spec(self) -> (Axis, Axis) {
        ((self.start, None::<usize>), (0usize, None::<usize>))
    }

    open spec fn into_goggles_defined(self) -> bool {
        true
    }

    fn into_goggles(self) -> (g: Goggles) {
        Goggles { rows: (self.start, None), cols: (0, None) }
    }
}

/// The range `..b` selects the rows before `b` and every column.
impl IntoGoggles for core::ops::RangeTo<usize> {
    open spec fn goggles_spec(self) -> (Axis, Axis) {
        ((0usize, Some(self.end)), (0usize, None::<usize>))
    }

    open spec fn into_goggles_defined(self) -> bool {
        true
    }

    fn into_goggles(self) -> (g: Goggles) {
        Goggles { rows: (0, Some(self.end)), cols: (0, None) }
    }
}

/// The range `..=b` selects the rows up to `b` included and every column.
impl IntoGoggles for core::ops::RangeToInclusive<usize> {
    open spec fn goggles_spec(self) -> (Axis, Axis) {
        ((0usize, Some((self.end + 1) as usize)), (0usize, None::<usize>))
    }

    open spec fn into_goggles_defined(self) -> bool {
        self.end < usize::MAX
    }

    fn into_goggles(self) -> (g: Goggles) {
        Goggles { rows: (0, Some(self.end + 1)), cols: (0, None) }
    }
}

/// The range `a..=b`, not yet iterated to exhaustion, selects the rows from `a` to `b` included
/// and every column.
impl IntoGoggles for core::ops::RangeInclusive<usize> {
    open spec fn goggles_spec(self) -> (Axis, Axis) {
        ((self@.start, Some((self@.end + 1) as usize)), (0usize, None::<usize>))
    }

    open spec fn into_goggles_defined(self) -> bool {
        !self@.exhausted && self@.end < usize::MAX
    }

    fn into_goggles(self) -> (g: Goggles) {
        let (start, end) = self.into_inner();
        Goggles { rows: (start, Some(end + 1)), cols: (0, None) }
    }
}

/// A pair selects the rows described by its first component and, as columns, the rows described
/// by its second component.
impl<A: IntoGoggles, B: IntoGoggles> IntoGoggles for (A, B) {
    open spec fn goggles_spec(self) -> (Axis, Axis) {
        (self.0.goggles_spec().0, self.1.goggles_spec().0)
    }

    open spec fn into_goggles_defined(self) -> bool {
        self.0.into_goggles_defined() && self.1.into_goggles_defined()
    }

    fn into_goggles(self) -> (g: Goggles) {
        let row = self.0.into_goggles();
        let col = self.1.into_goggles();
        Goggles { rows: row.rows, cols: col.rows }
    }
}

} // verus!

verus! {

/// Clipping a region by another does not depend on the order of the two regions.
pub proof fn lemma_make_contained_commutative(a: (Axis, Axis), b: (Axis, Axis))
    ensures
        axis_contained(a.0, b.0) == axis_contained(b.0, a.0),
        axis_contained(a.1, b.1) == axis_contained(b.1, a.1),
{
}

/// Clipping is associative: clipping by `b` then by `c` equals clipping by the clip of `b` by `c`.
pub proof fn lemma_make_contained_associative(a: Axis, b: Axis, c: Axis)
    ensures
        axis_contained(axis_contained(a, b), c) == axis_contained(a, axis_contained(b, c)),
{
}

/// Clipping a region by itself leaves it unchanged.
pub proof fn lemma_make_contained_idempotent(a: Axis)
    ensures
        axis_contained(a, a) == a,
{
}

/// Shifting twice is shifting once by the sum of the offsets.
pub proof fn lemma_shift_twice(a: Axis, d1: usize, d2: usize)
    requires
        axis_shift_fits(a, d1),
        axis_shift_fits(axis_shift(a, d1), d2),
    ensures
        d1 + d2 <= usize::MAX,
        axis_shift(axis_shift(a, d1), d2) == axis_shift(a, (d1 + d2) as usize),
{
}

/// Reading `s` relatively to `t`, then the result relatively to `o`, is reading `s` relatively to
/// `t` read relatively to `o`.
pub proof fn lemma_compose_associative(o: Axis, t: Axis, s: Axis)
    requires
        axis_compose_fits(o, t),
        axis_compose_fits(t, s),
        axis_compose_fits(axis_compose(o, t), s),
        axis_compose_fits(o, axis_compose(t, s)),
    ensures
        axis_compose(axis_compose(o, t), s) == axis_compose(o, axis_compose(t, s)),
{
}

/// From an origin that starts at zero, composing with a region that fits in it gives the same
/// region as clipping it to the origin.
pub proof fn lemma_compose_from_zero_is_contained(u: usize, t: Axis)
    requires
        axis_can_compose((0usize, Some(u)), t),
    ensures
        axis_compose((0usize, Some(u)), t) == axis_contained((0usize, Some(u)), t),
{
}

/// Inside the region, one step of `nth` is `next`, except from the last cell, where `next` gives
/// `None` and `nth` gives the start of the row below.
pub proof fn lemma_nth_one_is_next(g: (Axis, Axis), pos: (usize, usize))
    requires
        axis_ordered(g.0),
        axis_ordered(g.1),
        spec_is_relative_in(g, pos),
        !(ends_row(g, pos) && ends_col(g, pos)),
    ensures
        spec_nth(g, pos, 1) == spec_next(g, pos),
{
    if g.1.1 is Some {
        let w = axis_len(g.1);
        if pos.1 + 1 < w {
            lemma_basic_div(pos.1 + 1, w);
            lemma_small_mod((pos.1 + 1) as nat, w as nat);
        } else {
            lemma_div_by_self(w);
            vstd::arithmetic::div_mod::lemma_mod_self_0(w);
        }
    }
}

/// `nth` from the first cell enumerates a bounded, non-empty region in row-major order: step `k`
/// lands on row `k / w` and column `k % w`, `w` being the width, and stays in the region while
/// `k` is below the number of cells.
pub proof fn lemma_nth_from_origin_row_major(g: (Axis, Axis), k: usize)
    requires
        g.0.1 is Some,
        g.1.1 is Some,
        axis_ordered(g.0),
        axis_ordered(g.1),
        !axis_is_empty(g.0),
        !axis_is_empty(g.1),
        k < axis_len(g.0) * axis_len(g.1),
    ensures
        spec_nth(g, (0, 0), k) == Some((((k as int) / axis_len(g.1)) as usize, ((k as int) % axis_len(g.1)) as usize)),
        spec_is_relative_in(g, (((k as int) / axis_len(g.1)) as usize, ((k as int) % axis_len(g.1)) as usize)),
{
    let w = axis_len(g.1);
    let h = axis_len(g.0);
    assert(w > 0 && h > 0);
    vstd::arithmetic::div_mod::lemma_mod_bound(k as int, w);
    vstd::arithmetic::div_mod::lemma_div_pos_is_pos(k as int, w);
    assert((k as int) / w < h) by {
        vstd::arithmetic::div_mod::lemma_div_by_multiple_is_strongly_ordered(k as int, h * w, h, w);
        vstd::arithmetic::mul::lemma_mul_is_commutative(h, w);
        vstd::arithmetic::div_mod::lemma_div_by_multiple(h, w);
        vstd::arithmetic::div_mod::lemma_div_is_ordered(k as int, h * w, w);
    }
    if k == 0 {
        lemma_basic_div(0, w);
        lemma_small_mod(0, w as nat);
    }
}

} // verus!

verus! {

/// `next` walks a bounded, non-empty region in row-major order: from the cell of linear index `k`
/// (row `k / w`, column `k % w`, `w` being the width) it goes to the cell of index `k + 1`, and
/// gives `None` from the last cell.
pub proof fn lemma_next_row_major(g: (Axis, Axis), k: int)
    requires
        g.0.1 is Some,
        g.1.1 is Some,
        axis_ordered(g.0),
        axis_ordered(g.1),
        !axis_is_empty(g.0),
        !axis_is_empty(g.1),
        0 <= k < axis_len(g.0) * axis_len(g.1),
    ensures
        next_defined(g, ((k / axis_len(g.1)) as usize, (k % axis_len(g.1)) as usize)),
        k + 1 < axis_len(g.0) * axis_len(g.1) ==> spec_next(
            g,
            ((k / axis_len(g.1)) as usize, (k % axis_len(g.1)) as usize),
        ) == Some(
            (((k + 1) / axis_len(g.1)) as usize, ((k + 1) % axis_len(g.1)) as usize),
        ),
        k + 1 == axis_len(g.0) * axis_len(g.1) ==> spec_next(
            g,
            ((k / axis_len(g.1)) as usize, (k % axis_len(g.1)) as usize),
        ) is None,
{
    let w = axis_len(g.1);
    let h = axis_len(g.0);
    let q = k / w;
    let r = k % w;
    vstd::arithmetic::div_mod::lemma_fundamental_div_mod(k, w);
    vstd::arithmetic::div_mod::lemma_mod_bound(k, w);
    vstd::arithmetic::div_mod::lemma_div_pos_is_pos(k, w);
    assert(q < h) by {
        assert(q * w <= k);
        if q >= h {
            assert(q * w >= h * w) by (nonlinear_arith)
                requires
                    q >= h,
                    w > 0,
            ;
        }
    }
    if r + 1 < w {
        vstd::arithmetic::div_mod::lemma_fundamental_div_mod_converse(k + 1, w, q, r + 1);
        assert((q + 1) * w == q * w + w) by (nonlinear_arith);
        assert((q + 1) * w <= h * w) by (nonlinear_arith)
            requires
                q + 1 <= h,
                w > 0,
        ;
    } else {
        assert(r == w - 1);
        assert(k + 1 == (q + 1) * w + 0) by (nonlinear_arith)
            requires
                k == q * w + r,
                r == w - 1,
        ;
        vstd::arithmetic::div_mod::lemma_fundamental_div_mod_converse(k + 1, w, q + 1, 0);
        if k + 1 == h * w {
            assert(q + 1 == h) by (nonlinear_arith)
                requires
                    k + 1 == (q + 1) * w,
                    k + 1 == h * w,
                    w > 0,
            ;
        }
        if q + 1 < h {
        } else {
            assert(q == h - 1);
            assert(k + 1 == h * w) by (nonlinear_arith)
                requires
                    k == q * w + r,
                    r == w - 1,
                    q == h - 1,
            ;
        }
        if k + 1 < h * w {
            assert(q + 1 < h) by {
                if q + 1 >= h {
                    assert(k + 1 == h * w) by (nonlinear_arith)
                        requires
                            k == q * w + r,
                            r == w - 1,
                            q == h - 1,
                    ;
                }
            }
        }
    }
}

} // verus!
