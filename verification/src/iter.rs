//! A cross-product iterator.

use vstd::prelude::*;
use vstd::std_specs::iter::IteratorSpec;

verus! {

/// The pairs of `c` with the items of `s` from index `p` on, in order.
pub open spec fn row_from<A, B>(c: A, s: Seq<B>, p: int) -> Seq<(A, B)> {
    Seq::new((s.len() - p) as nat, |k: int| (c, s[p + k]))
}

/// Every pair of an item of `f` with an item of `s`, in lexicographic order: the items of `s`
/// with `f[0]`, then with `f[1]`, and so on.
pub open spec fn grid<A, B>(f: Seq<A>, s: Seq<B>) -> Seq<(A, B)>
    decreases f.len(),
{
    if f.len() == 0 {
        Seq::empty()
    } else {
        row_from(f[0], s, 0) + grid(f.drop_first(), s)
    }
}

/// The pairs that a cross product still gives, in order, when it pairs `current` (if any) and has
/// paired it with the first `p` items of `s`, and its first iterator still gives `f`: the rest of
/// the row of `current`, then every pair of an item of `f` (see [`grid`]). Without a current item
/// the row is completed from `f[0]`.
pub open spec fn pending_pairs<A, B>(current: Option<A>, s: Seq<B>, p: int, f: Seq<A>) -> Seq<(A, B)> {
    if s.len() == 0 {
        Seq::empty()
    } else if p < s.len() {
        match current {
            Some(c) => row_from(c, s, p) + grid(f, s),
            None => if f.len() == 0 {
                Seq::empty()
            } else {
                row_from(f[0], s, p) + grid(f.drop_first(), s)
            },
        }
    } else {
        grid(f, s)
    }
}

/// With no second item there is no pair.
proof fn lemma_grid_of_empty<A, B>(f: Seq<A>, s: Seq<B>)
    requires
        s.len() == 0,
    ensures
        grid(f, s) == Seq::<(A, B)>::empty(),
    decreases f.len(),
{
    if f.len() > 0 {
        lemma_grid_of_empty(f.drop_first(), s);
        assert(row_from(f[0], s, 0) =~= Seq::<(A, B)>::empty());
        assert(grid(f, s) =~= Seq::<(A, B)>::empty());
    }
}

/// The pairs in lexicographic order are all `f.len() * s.len()` pairs, the pair of `f[i]` and
/// `s[k]` coming at index `i * s.len() + k`.
pub proof fn lemma_grid_index<A, B>(f: Seq<A>, s: Seq<B>, i: int, k: int)
    requires
        0 <= i < f.len(),
        0 <= k < s.len(),
    ensures
        grid(f, s).len() == f.len() * s.len(),
        grid(f, s)[i * s.len() + k] == (f[i], s[k]),
    decreases f.len(),
{
    lemma_grid_len(f, s);
    let n = s.len() as int;
    if i == 0 {
        assert(grid(f, s)[k] == row_from(f[0], s, 0)[k]);
    } else {
        lemma_grid_index(f.drop_first(), s, i - 1, k);
        assert(i * n + k - n == (i - 1) * n + k) by (nonlinear_arith);
        assert(i * n + k >= n) by (nonlinear_arith)
            requires
                i >= 1,
                k >= 0,
                n >= 0,
        ;
        let m = f.len() - 1;
        assert((i - 1) * n + k < m * n) by (nonlinear_arith)
            requires
                0 <= i - 1 < m,
                0 <= k < n,
        ;
        let row = row_from(f[0], s, 0);
        let rest = grid(f.drop_first(), s);
        assert(row.len() == n);
        assert(grid(f, s) == row + rest);
        assert((row + rest)[i * n + k] == rest[i * n + k - n]);
    }
}

/// There are `f.len() * s.len()` pairs in lexicographic order.
proof fn lemma_grid_len<A, B>(f: Seq<A>, s: Seq<B>)
    ensures
        grid(f, s).len() == f.len() * s.len(),
    decreases f.len(),
{
    if f.len() > 0 {
        lemma_grid_len(f.drop_first(), s);
        assert(f.len() * s.len() == s.len() + (f.len() - 1) * s.len()) by (nonlinear_arith);
    }
}

/// A cross-product iterator: for each item of `first`, every item of `second` in turn.
///
/// The second sequence is held as a `Vec` so that it can be walked again for every item of the
/// first one.
pub struct Cross<U: Iterator, B: Clone> where U::Item: Clone {
    first: U,
    current: Option<U::Item>,
    second: Vec<B>,
    second_pos: usize,
}

impl<U: Iterator, B: Clone> Cross<U, B> where U::Item: Clone {
    /// The iterator over the first items.
    pub closed spec fn first_iter(self) -> U {
        self.first
    }

    /// The item of the first iterator that is being paired, if one was taken.
    pub closed spec fn current(self) -> Option<U::Item> {
        self.current
    }

    /// The second items.
    pub closed spec fn second(self) -> Seq<B> {
        self.second@
    }

    /// How many of the second items were paired with the current first item.
    pub closed spec fn second_pos(self) -> usize {
        self.second_pos
    }

    /// The walk over the second items never goes past their end.
    pub closed spec fn wf(self) -> bool {
        self.second_pos <= self.second@.len()
    }

    /// Makes the cross product of `first` and `second`.
    pub fn new(first: U, second: Vec<B>) -> (r: Self)
        ensures
            r.wf(),
            r.first_iter() == first,
            r.current() is None,
            r.second() == second@,
            r.second_pos() == 0,
            first.obeys_prophetic_iter_laws() ==> pending_pairs(
                r.current(),
                r.second(),
                r.second_pos() as int,
                first.remaining(),
            ) == grid(first.remaining(), second@),
    {
        proof {
            if second@.len() == 0 {
                lemma_grid_of_empty(first.remaining(), second@);
            }
        }
        Self { first, current: None, second, second_pos: 0 }
    }

    /// Gives the next pair. The second items are walked in order; when they are exhausted, the
    /// walk restarts and the next first item is taken. `None` comes when there is no second item,
    /// or when a first item is needed and the first iterator is exhausted (the restarted walk of
    /// the second items is then kept).
    pub fn next(&mut self) -> (r: Option<(U::Item, B)>)
        requires
            old(self).wf(),
        ensures
            final(self).wf(),
            final(self).second() == old(self).second(),
            // the second item paired, and where the walk over the second items stands
            old(self).second().len() == 0 ==> {
                &&& r is None
                &&& final(self).second_pos() == 0
                &&& final(self).first_iter() == old(self).first_iter()
                &&& final(self).current() == old(self).current()
            },
            old(self).second().len() > 0 ==> {
                let restart = old(self).second_pos() == old(self).second().len();
                let j = if restart { 0 } else { old(self).second_pos() as int };
                let needs_first = restart || old(self).current() is None;
                &&& final(self).second_pos() == j + 1
                &&& !needs_first ==> {
                    &&& final(self).first_iter() == old(self).first_iter()
                    &&& final(self).current() == old(self).current()
                    &&& r matches Some((a, b)) && cloned(old(self).current()->0, a)
                        && cloned(old(self).second()[j], b)
                }
                &&& needs_first ==> (old(self).first_iter().obeys_prophetic_iter_laws() ==> {
                    let items = old(self).first_iter().remaining();
                    &&& items.len() == 0 ==> {
                        &&& r is None
                        &&& final(self).current() == old(self).current()
                        &&& final(self).first_iter().remaining() == items
                    }
                    &&& items.len() > 0 ==> {
                        &&& final(self).current() == Some(items[0])
                        &&& final(self).first_iter().remaining() == items.drop_first()
                        &&& r matches Some((a, b)) && cloned(items[0], a) && cloned(
                            old(self).second()[j],
                            b,
                        )
                    }
                })
            },
            // over the whole walk: the next of the pairs still to come, or `None` once they are
            // all given
            old(self).first_iter().obeys_prophetic_iter_laws() ==> ({
                let before = pending_pairs(
                    old(self).current(),
                    old(self).second(),
                    old(self).second_pos() as int,
                    old(self).first_iter().remaining(),
                );
                &&& before.len() == 0 ==> r is None
                &&& before.len() > 0 ==> {
                    &&& r matches Some((a, b)) && cloned(before[0].0, a) && cloned(before[0].1, b)
                    &&& pending_pairs(
                        final(self).current(),
                        final(self).second(),
                        final(self).second_pos() as int,
                        final(self).first_iter().remaining(),
                    ) == before.drop_first()
                }
            }),
    {
        if self.second.len() == 0 {
            self.second_pos = 0;
            return None;
        }
        let (second, need_first) = if self.second_pos < self.second.len() {
            let s = self.second[self.second_pos].clone();
            self.second_pos = self.second_pos + 1;
            (s, false)
        } else {
            let s = self.second[0].clone();
            self.second_pos = 1;
            (s, true)
        };
        let first = if need_first || self.current.is_none() {
            match self.first.next() {
                Some(item) => {
                    let c = item.clone();
                    self.current = Some(item);
                    c
                },
                None => return None,
            }
        } else {
            match &self.current {
                Some(item) => item.clone(),
                None => return None,
            }
        };
        Some((first, second))
    }
}

} // verus!
