//! An iterator adapter that pairs each item with its position in a region.

use vstd::prelude::*;
use vstd::std_specs::iter::IteratorSpec;
use crate::linear::goggles::{
    axis_is_empty, axis_len, axis_ordered, lemma_next_row_major, lemma_nth_from_origin_row_major, next_defined,
    spec_is_relative_in, spec_next, spec_nth, Axis, Goggles,
};
use crate::linear::view::MatrixView;

verus! {

/// The position reached from `cur` after `k` moves to the next position of `g`, `None` once the
/// region is left.
pub open spec fn position_after(g: (Axis, Axis), cur: Option<(usize, usize)>, k: nat) -> Option<(usize, usize)>
    decreases k,
{
    if k == 0 {
        cur
    } else {
        match position_after(g, cur, (k - 1) as nat) {
            Some(p) => spec_next(g, p),
            None => None,
        }
    }
}

/// In a bounded, non-empty region, taking `k` steps at once from the first cell with `nth` is
/// moving `k` times to the next position, as long as `k` is below the number of cells.
pub proof fn lemma_nth_is_repeated_next(g: (Axis, Axis), k: usize)
    requires
        g.0.1 is Some,
        g.1.1 is Some,
        axis_ordered(g.0),
        axis_ordered(g.1),
        !axis_is_empty(g.0),
        !axis_is_empty(g.1),
        k < axis_len(g.0) * axis_len(g.1),
    ensures
        spec_nth(g, (0, 0), k) == position_after(g, Some((0usize, 0usize)), k as nat),
    decreases k,
{
    lemma_nth_from_origin_row_major(g, k);
    if k > 0 {
        let j = (k - 1) as usize;
        lemma_nth_is_repeated_next(g, j);
        lemma_nth_from_origin_row_major(g, j);
        lemma_next_row_major(g, j as int);
        assert(((k - 1) as nat) == j as nat);
    }
}

/// Moving `k` times from the position of linear index `q` (row-major, in a bounded, non-empty
/// region of width `w`) reaches the position of linear index `q + k`, while it is inside.
proof fn lemma_position_after_linear(g: (Axis, Axis), q: int, k: nat)
    requires
        g.0.1 is Some,
        g.1.1 is Some,
        axis_ordered(g.0),
        axis_ordered(g.1),
        !axis_is_empty(g.0),
        !axis_is_empty(g.1),
        0 <= q,
        q + k < axis_len(g.0) * axis_len(g.1),
    ensures
        position_after(g, Some(((q / axis_len(g.1)) as usize, (q % axis_len(g.1)) as usize)), k) == Some(
            ((((q + k) / axis_len(g.1)) as usize, ((q + k) % axis_len(g.1)) as usize)),
        ),
    decreases k,
{
    if k > 0 {
        lemma_position_after_linear(g, q, (k - 1) as nat);
        lemma_next_row_major(g, q + k - 1);
    }
}

/// In a bounded, non-empty region, taking `n` steps at once from a position of the region with
/// `nth` is moving `n` times to the next position, as long as the last of them is still in the
/// region: `pos.0 * w + pos.1 + n` is below the number of cells, `w` being the width.
pub proof fn lemma_nth_is_repeated_next_from(g: (Axis, Axis), pos: (usize, usize), n: usize)
    requires
        g.0.1 is Some,
        g.1.1 is Some,
        axis_ordered(g.0),
        axis_ordered(g.1),
        spec_is_relative_in(g, pos),
        pos.0 * axis_len(g.1) + pos.1 + n < axis_len(g.0) * axis_len(g.1),
    ensures
        spec_nth(g, pos, n) == position_after(g, Some(pos), n as nat),
{
    let w = axis_len(g.1);
    let h = axis_len(g.0);
    let q = pos.0 * w + pos.1;
    assert(w > 0 && h > 0);
    assert(q >= 0) by (nonlinear_arith)
        requires
            pos.0 >= 0,
            pos.1 >= 0,
            w > 0,
            q == pos.0 * w + pos.1,
    ;
    vstd::arithmetic::div_mod::lemma_fundamental_div_mod_converse(q, w, pos.0 as int, pos.1 as int);
    lemma_position_after_linear(g, q, n as nat);
    if n > 0 {
        let t = pos.1 + n;
        let a = t / w;
        let b = t % w;
        vstd::arithmetic::div_mod::lemma_fundamental_div_mod(t, w);
        vstd::arithmetic::div_mod::lemma_mod_bound(t, w);
        vstd::arithmetic::div_mod::lemma_div_pos_is_pos(t, w);
        assert(q + n == (pos.0 + a) * w + b) by (nonlinear_arith)
            requires
                q == pos.0 * w + pos.1,
                t == pos.1 + n,
                t == w * a + b,
        ;
        vstd::arithmetic::div_mod::lemma_fundamental_div_mod_converse(q + n, w, pos.0 + a, b);
        let k = q + n;
        assert(k / w < h) by {
            if k / w >= h {
                vstd::arithmetic::div_mod::lemma_fundamental_div_mod(k, w);
                vstd::arithmetic::div_mod::lemma_mod_bound(k, w);
                assert(k >= h * w) by (nonlinear_arith)
                    requires
                        k == w * (k / w) + k % w,
                        k % w >= 0,
                        k / w >= h,
                        w > 0,
                ;
            }
        }
    }
}

/// The items with their positions that are still to come, from the position `cur` of `g`, when
/// the items still to come are `items`: `items[k]` at the position `k` moves after `cur`, until
/// the items or the positions are exhausted.
pub open spec fn walk<A>(g: (Axis, Axis), cur: Option<(usize, usize)>, items: Seq<A>) -> Seq<((usize, usize), A)>
    decreases items.len(),
{
    match cur {
        None => Seq::empty(),
        Some(p) => if items.len() == 0 {
            Seq::empty()
        } else {
            seq![(p, items[0])] + walk(g, spec_next(g, p), items.drop_first())
        },
    }
}

/// The `k`th item still to come comes with the position `k` moves after `cur`.
pub proof fn lemma_walk_index<A>(g: (Axis, Axis), cur: Option<(usize, usize)>, items: Seq<A>, k: nat)
    requires
        k < walk(g, cur, items).len(),
    ensures
        k < items.len(),
        position_after(g, cur, k) is Some,
        walk(g, cur, items)[k as int] == (position_after(g, cur, k)->0, items[k as int]),
    decreases k,
{
    let p = cur->0;
    if k > 0 {
        lemma_walk_index(g, spec_next(g, p), items.drop_first(), (k - 1) as nat);
        lemma_position_after_shift(g, cur, (k - 1) as nat);
    }
}

/// Moving `k + 1` times from `cur` is moving `k` times from the position after `cur`.
proof fn lemma_position_after_shift(g: (Axis, Axis), cur: Option<(usize, usize)>, k: nat)
    requires
        cur is Some,
    ensures
        position_after(g, cur, k + 1) == position_after(g, spec_next(g, cur->0), k),
    decreases k,
{
    let n = spec_next(g, cur->0);
    if k > 0 {
        lemma_position_after_shift(g, cur, (k - 1) as nat);
        assert(((k + 1) - 1) as nat == k);
        assert(position_after(g, cur, k + 1) == match position_after(g, cur, k) {
            Some(p) => spec_next(g, p),
            None => None,
        });
        assert(position_after(g, n, k) == match position_after(g, n, (k - 1) as nat) {
            Some(p) => spec_next(g, p),
            None => None,
        });
    } else {
        assert(position_after(g, cur, 1) == match position_after(g, cur, 0) {
            Some(p) => spec_next(g, p),
            None => None,
        });
    }
}

/// Pairs each item of `iter` with its position in a region, positions following each other in
/// row-major order.
pub struct Positions<I> {
    iter: I,
    goggles: Goggles,
    cur: Option<(usize, usize)>,
}

impl<I> Positions<I> {
    /// The wrapped iterator.
    pub closed spec fn inner(self) -> I {
        self.iter
    }

    /// The region whose positions are given.
    pub closed spec fn goggles(self) -> Goggles {
        self.goggles
    }

    /// The position of the next item, `None` once the region is exhausted.
    pub closed spec fn cur(self) -> Option<(usize, usize)> {
        self.cur
    }

    /// Starts at the first position, `(0, 0)`.
    pub fn new(iter: I, goggles: Goggles) -> (r: Self)
        ensures
            r.inner() == iter,
            r.goggles() == goggles,
            r.cur() == Some((0usize, 0usize)),
    {
        Self::new_at(iter, goggles, (0, 0))
    }

    /// Starts at the position `cur`.
    pub fn new_at(iter: I, goggles: Goggles, cur: (usize, usize)) -> (r: Self)
        ensures
            r.inner() == iter,
            r.goggles() == goggles,
            r.cur() == Some(cur),
    {
        Self { iter, goggles, cur: Some(cur) }
    }
}

impl<I: Iterator> Positions<I> {
    /// Gives the next item with its position, then moves to the following position. `None` when
    /// the positions or the items are exhausted; the position is then kept.
    pub fn next(&mut self) -> (r: Option<((usize, usize), I::Item)>)
        requires
            old(self).cur() matches Some(p) ==> next_defined(old(self).goggles()@, p),
        ensures
            final(self).goggles() == old(self).goggles(),
            old(self).cur() is None ==> r is None && *final(self) == *old(self),
            old(self).cur() matches Some(p) ==> (old(self).inner().obeys_prophetic_iter_laws() ==> {
                let items = old(self).inner().remaining();
                &&& items.len() == 0 ==> {
                    &&& r is None
                    &&& final(self).cur() == old(self).cur()
                    &&& final(self).inner().remaining() == items
                }
                &&& items.len() > 0 ==> {
                    &&& r == Some((p, items[0]))
                    &&& final(self).cur() == spec_next(old(self).goggles()@, p)
                    &&& final(self).inner().remaining() == items.drop_first()
                }
            }),
            // over the whole walk: the next of the items with positions still to come (see
            // [`walk`]), or `None` once they are all given
            old(self).inner().obeys_prophetic_iter_laws() ==> ({
                let before = walk(old(self).goggles()@, old(self).cur(), old(self).inner().remaining());
                &&& before.len() == 0 ==> r is None
                &&& before.len() > 0 ==> {
                    &&& r == Some(before[0])
                    &&& walk(final(self).goggles()@, final(self).cur(), final(self).inner().remaining())
                        == before.drop_first()
                }
            }),
    {
        match self.cur {
            Some(cur) => {
                let item = match self.iter.next() {
                    Some(item) => item,
                    None => return None,
                };
                self.cur = self.goggles.next(cur);
                Some((cur, item))
            },
            None => None,
        }
    }
}

/// Whether a cell iterator walks a row or a column.
#[derive(Clone, Copy, PartialEq, Eq, Debug)]
pub enum IterMode {
    Row,
    Col,
}

/// Iterates over the cells of one row, or one column, of a view, from both ends.
pub struct MatrixCellIter<'a, T> {
    matrix: MatrixView<'a, T>,
    index: usize,
    current: usize,
    current_rev: usize,
    mode: IterMode,
}

impl<'a, T> MatrixCellIter<'a, T> {
    /// The two ends never cross.
    #[verifier::type_invariant]
    closed spec fn wf(self) -> bool {
        self.current <= self.current_rev
    }

    /// The view whose cells are given.
    pub closed spec fn matrix(self) -> MatrixView<'a, T> {
        self.matrix
    }

    /// The row (or column) that is walked.
    pub closed spec fn index(self) -> usize {
        self.index
    }

    /// The position of the next cell given from the front.
    pub closed spec fn front(self) -> usize {
        self.current
    }

    /// The position just past the next cell given from the back.
    pub closed spec fn back(self) -> usize {
        self.current_rev
    }

    /// Whether a row or a column is walked.
    pub closed spec fn mode(self) -> IterMode {
        self.mode
    }

    /// The position in the view of the `k`-th cell of the walked row or column.
    pub open spec fn pos_of(self, k: usize) -> (usize, usize) {
        match self.mode() {
            IterMode::Row => (self.index(), k),
            IterMode::Col => (k, self.index()),
        }
    }

    /// The cells of row `index` of `matrix`; none when there is no such row.
    pub fn new_row(matrix: &MatrixView<'a, T>, index: usize) -> (r: Self)
        ensures
            r.matrix() == *matrix,
            r.index() == index,
            r.mode() == IterMode::Row,
            r.front() == 0,
            r.back() == if index < matrix.spec_dim().0 { matrix.spec_dim().1 } else { 0 },
    {
        let current_rev = if index < matrix.count_rows() { matrix.count_cols() } else { 0 };
        Self { matrix: matrix.clone(), index, current: 0, current_rev, mode: IterMode::Row }
    }

    /// The cells of column `index` of `matrix`; none when there is no such column.
    pub fn new_col(matrix: &MatrixView<'a, T>, index: usize) -> (r: Self)
        ensures
            r.matrix() == *matrix,
            r.index() == index,
            r.mode() == IterMode::Col,
            r.front() == 0,
            r.back() == if index < matrix.spec_dim().1 { matrix.spec_dim().0 } else { 0 },
    {
        let current_rev = if index < matrix.count_cols() { matrix.count_rows() } else { 0 };
        Self { matrix: matrix.clone(), index, current: 0, current_rev, mode: IterMode::Col }
    }

    /// The next cell from the front.
    pub fn next(&mut self) -> (r: Option<&'a T>)
        ensures
            final(self).matrix() == old(self).matrix(),
            final(self).index() == old(self).index(),
            final(self).mode() == old(self).mode(),
            final(self).back() == old(self).back(),
            old(self).front() >= old(self).back() ==> r is None && final(self).front() == old(self).front(),
            old(self).front() < old(self).back() ==> {
                let p = old(self).pos_of(old(self).front());
                &&& final(self).front() == old(self).front() + 1
                &&& old(self).matrix().spec_is_pos_in(p) ==> r == Some(&old(self).matrix().cell(p))
                &&& !old(self).matrix().spec_is_pos_in(p) ==> r is None
            },
    {
        proof {
            use_type_invariant(&*self);
        }
        if self.current >= self.current_rev {
            return None;
        }
        let next = match self.mode {
            IterMode::Row => self.matrix.get((self.index, self.current)),
            IterMode::Col => self.matrix.get((self.current, self.index)),
        };
        self.current = self.current + 1;
        next
    }

    /// The next cell from the back.
    pub fn next_back(&mut self) -> (r: Option<&'a T>)
        ensures
            final(self).matrix() == old(self).matrix(),
            final(self).index() == old(self).index(),
            final(self).mode() == old(self).mode(),
            final(self).front() == old(self).front(),
            old(self).front() >= old(self).back() ==> r is None && final(self).back() == old(self).back(),
            old(self).front() < old(self).back() ==> {
                let p = old(self).pos_of((old(self).back() - 1) as usize);
                &&& final(self).back() == old(self).back() - 1
                &&& old(self).matrix().spec_is_pos_in(p) ==> r == Some(&old(self).matrix().cell(p))
                &&& !old(self).matrix().spec_is_pos_in(p) ==> r is None
            },
    {
        proof {
            use_type_invariant(&*self);
        }
        if self.current >= self.current_rev {
            return None;
        }
        self.current_rev = self.current_rev - 1;
        match self.mode {
            IterMode::Row => self.matrix.get((self.index, self.current_rev)),
            IterMode::Col => self.matrix.get((self.current_rev, self.index)),
        }
    }

    /// The exact number of cells left.
    pub fn size_hint(&self) -> (r: (usize, Option<usize>))
        ensures
            r == ((self.back() - self.front()) as usize, Some((self.back() - self.front()) as usize)),
    {
        proof {
            use_type_invariant(self);
        }
        let k = self.current_rev - self.current;
        (k, Some(k))
    }
}

/// Iterates over the rows of a view, from both ends, each row given as references to its cells.
pub struct MatrixRows<'a, T> {
    matrix: MatrixView<'a, T>,
    current: usize,
    current_rev: usize,
}

impl<'a, T> MatrixRows<'a, T> {
    /// The two ends never cross.
    #[verifier::type_invariant]
    closed spec fn wf(self) -> bool {
        self.current <= self.current_rev
    }

    /// The view whose rows are given.
    pub closed spec fn matrix(self) -> MatrixView<'a, T> {
        self.matrix
    }

    /// The next row given from the front.
    pub closed spec fn front(self) -> usize {
        self.current
    }

    /// Just past the next row given from the back.
    pub closed spec fn back(self) -> usize {
        self.current_rev
    }

    /// All the rows of `matrix`.
    pub fn new(matrix: &MatrixView<'a, T>) -> (r: Self)
        ensures
            r.matrix() == *matrix,
            r.front() == 0,
            r.back() == matrix.spec_dim().0,
    {
        Self { matrix: matrix.clone(), current: 0, current_rev: matrix.count_rows() }
    }

    /// The next row from the front.
    pub fn next(&mut self) -> (r: Option<Vec<&'a T>>)
        ensures
            final(self).matrix() == old(self).matrix(),
            final(self).back() == old(self).back(),
            old(self).front() >= old(self).back() ==> r is None && final(self).front() == old(self).front(),
            old(self).front() < old(self).back() ==> {
                let m = old(self).matrix();
                let i = old(self).front();
                &&& final(self).front() == i + 1
                &&& i < m.spec_dim().0 ==> (r matches Some(cells) && cells@.len() == m.spec_dim().1
                    && forall|j: int| 0 <= j < cells@.len() ==> *#[trigger] cells@[j] == m.cell((i, j as usize)))
                &&& i >= m.spec_dim().0 ==> r is None
            },
    {
        proof {
            use_type_invariant(&*self);
        }
        if self.current >= self.current_rev {
            return None;
        }
        let next = self.matrix.get_row_array(self.current);
        self.current = self.current + 1;
        next
    }

    /// The next row from the back.
    pub fn next_back(&mut self) -> (r: Option<Vec<&'a T>>)
        ensures
            final(self).matrix() == old(self).matrix(),
            final(self).front() == old(self).front(),
            old(self).front() >= old(self).back() ==> r is None && final(self).back() == old(self).back(),
            old(self).front() < old(self).back() ==> {
                let m = old(self).matrix();
                let i = (old(self).back() - 1) as usize;
                &&& final(self).back() == i
                &&& i < m.spec_dim().0 ==> (r matches Some(cells) && cells@.len() == m.spec_dim().1
                    && forall|j: int| 0 <= j < cells@.len() ==> *#[trigger] cells@[j] == m.cell((i, j as usize)))
                &&& i >= m.spec_dim().0 ==> r is None
            },
    {
        proof {
            use_type_invariant(&*self);
        }
        if self.current >= self.current_rev {
            return None;
        }
        self.current_rev = self.current_rev - 1;
        self.matrix.get_row_array(self.current_rev)
    }

    /// The exact number of rows left.
    pub fn size_hint(&self) -> (r: (usize, Option<usize>))
        ensures
            r == ((self.back() - self.front()) as usize, Some((self.back() - self.front()) as usize)),
    {
        proof {
            use_type_invariant(self);
        }
        let k = self.current_rev - self.current;
        (k, Some(k))
    }
}

/// Iterates over the columns of a view, from both ends, each column given as references to its
/// cells.
pub struct MatrixCols<'a, T> {
    matrix: MatrixView<'a, T>,
    current: usize,
    current_rev: usize,
}

impl<'a, T> MatrixCols<'a, T> {
    /// The two ends never cross.
    #[verifier::type_invariant]
    closed spec fn wf(self) -> bool {
        self.current <= self.current_rev
    }

    /// The view whose columns are given.
    pub closed spec fn matrix(self) -> MatrixView<'a, T> {
        self.matrix
    }

    /// The next column given from the front.
    pub closed spec fn front(self) -> usize {
        self.current
    }

    /// Just past the next column given from the back.
    pub closed spec fn back(self) -> usize {
        self.current_rev
    }

    /// All the columns of `matrix`.
    pub fn new(matrix: &MatrixView<'a, T>) -> (r: Self)
        ensures
            r.matrix() == *matrix,
            r.front() == 0,
            r.back() == matrix.spec_dim().1,
    {
        Self { matrix: matrix.clone(), current: 0, current_rev: matrix.count_cols() }
    }

    /// The next column from the front.
    pub fn next(&mut self) -> (r: Option<Vec<&'a T>>)
        ensures
            final(self).matrix() == old(self).matrix(),
            final(self).back() == old(self).back(),
            old(self).front() >= old(self).back() ==> r is None && final(self).front() == old(self).front(),
            old(self).front() < old(self).back() ==> {
                let m = old(self).matrix();
                let j = old(self).front();
                &&& final(self).front() == j + 1
                &&& j < m.spec_dim().1 ==> (r matches Some(cells) && cells@.len() == m.spec_dim().0
                    && forall|i: int| 0 <= i < cells@.len() ==> *#[trigger] cells@[i] == m.cell((i as usize, j)))
                &&& j >= m.spec_dim().1 ==> r is None
            },
    {
        proof {
            use_type_invariant(&*self);
        }
        if self.current >= self.current_rev {
            return None;
        }
        let next = self.matrix.get_col_array(self.current);
        self.current = self.current + 1;
        next
    }

    /// The next column from the back.
    pub fn next_back(&mut self) -> (r: Option<Vec<&'a T>>)
        ensures
            final(self).matrix() == old(self).matrix(),
            final(self).front() == old(self).front(),
            old(self).front() >= old(self).back() ==> r is None && final(self).back() == old(self).back(),
            old(self).front() < old(self).back() ==> {
                let m = old(self).matrix();
                let j = (old(self).back() - 1) as usize;
                &&& final(self).back() == j
                &&& j < m.spec_dim().1 ==> (r matches Some(cells) && cells@.len() == m.spec_dim().0
                    && forall|i: int| 0 <= i < cells@.len() ==> *#[trigger] cells@[i] == m.cell((i as usize, j)))
                &&& j >= m.spec_dim().1 ==> r is None
            },
    {
        proof {
            use_type_invariant(&*self);
        }
        if self.current >= self.current_rev {
            return None;
        }
        self.current_rev = self.current_rev - 1;
        self.matrix.get_col_array(self.current_rev)
    }

    /// The exact number of columns left.
    pub fn size_hint(&self) -> (r: (usize, Option<usize>))
        ensures
            r == ((self.back() - self.front()) as usize, Some((self.back() - self.front()) as usize)),
    {
        proof {
            use_type_invariant(self);
        }
        let k = self.current_rev - self.current;
        (k, Some(k))
    }
}

} // verus!
