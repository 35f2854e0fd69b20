//! Iterator adapters that flatten nested pairs into triples.

use vstd::prelude::*;
use vstd::std_specs::iter::{DoubleEndedIteratorSpec, IteratorSpec};

verus! {

/// Flattens the items of an iterator of nested pairs.
pub trait UnpackableIter<A, B, C>: Sized {
    /// `((a, b), c)` becomes `(a, b, c)`.
    fn unpack_left(self) -> (r: LeftUnpacker<Self>) where Self: Iterator<Item = ((A, B), C)>
        ensures
            r.inner() == self,
    ;

    /// `(a, (b, c))` becomes `(a, b, c)`.
    fn unpack_right(self) -> (r: RightUnpacker<Self>) where Self: Iterator<Item = (A, (B, C))>
        ensures
            r.inner() == self,
    ;
}

impl<T: Iterator, A, B, C> UnpackableIter<A, B, C> for T {
    fn unpack_left(self) -> (r: LeftUnpacker<Self>) where Self: Iterator<Item = ((A, B), C)> {
        LeftUnpacker(self)
    }

    fn unpack_right(self) -> (r: RightUnpacker<Self>) where Self: Iterator<Item = (A, (B, C))> {
        RightUnpacker(self)
    }
}

/// Gives `(a, b, c)` for each item `((a, b), c)` of the wrapped iterator.
pub struct LeftUnpacker<T>(T);

/// Gives `(a, b, c)` for each item `(a, (b, c))` of the wrapped iterator.
pub struct RightUnpacker<T>(T);

impl<T> LeftUnpacker<T> {
    /// The wrapped iterator.
    pub closed spec fn inner(self) -> T {
        self.0
    }
}

impl<T> RightUnpacker<T> {
    /// The wrapped iterator.
    pub closed spec fn inner(self) -> T {
        self.0
    }
}

/// `((a, b), c)` as `(a, b, c)`.
pub open spec fn flat_left<A, B, C>(x: ((A, B), C)) -> (A, B, C) {
    (x.0.0, x.0.1, x.1)
}

/// `(a, (b, c))` as `(a, b, c)`.
pub open spec fn flat_right<A, B, C>(x: (A, (B, C))) -> (A, B, C) {
    (x.0, x.1.0, x.1.1)
}

impl<A, B, C, T: Iterator<Item = ((A, B), C)>> LeftUnpacker<T> {
    /// The next item of the wrapped iterator, flattened.
    pub fn next(&mut self) -> (r: Option<(A, B, C)>)
        ensures
            final(self).inner().obeys_prophetic_iter_laws() == old(self).inner().obeys_prophetic_iter_laws(),
            old(self).inner().obeys_prophetic_iter_laws() ==> {
                let items = old(self).inner().remaining();
                &&& items.len() > 0 ==> {
                    &&& r == Some(flat_left(items[0]))
                    &&& final(self).inner().remaining() == items.drop_first()
                }
                &&& items.len() == 0 ==> r is None && final(self).inner().remaining() == items
            },
    {
        match self.0.next() {
            Some(((a, b), c)) => Some((a, b, c)),
            None => None,
        }
    }
}

impl<A, B, C, T: DoubleEndedIterator<Item = ((A, B), C)>> LeftUnpacker<T> {
    /// The last item of the wrapped iterator, flattened.
    pub fn next_back(&mut self) -> (r: Option<(A, B, C)>)
        ensures
            <T as IteratorSpec>::obeys_prophetic_iter_laws(&final(self).inner())
                == <T as IteratorSpec>::obeys_prophetic_iter_laws(&old(self).inner()),
            <T as IteratorSpec>::obeys_prophetic_iter_laws(&old(self).inner()) ==> {
                let items = <T as IteratorSpec>::remaining(&old(self).inner());
                &&& items.len() > 0 ==> {
                    &&& r == Some(flat_left(items.last()))
                    &&& <T as IteratorSpec>::remaining(&final(self).inner()) == items.drop_last()
                }
                &&& items.len() == 0 ==> r is None && <T as IteratorSpec>::remaining(&final(self).inner())
                    == items
            },
    {
        match self.0.next_back() {
            Some(((a, b), c)) => Some((a, b, c)),
            None => None,
        }
    }
}

impl<A, B, C, T: Iterator<Item = (A, (B, C))>> RightUnpacker<T> {
    /// The next item of the wrapped iterator, flattened.
    pub fn next(&mut self) -> (r: Option<(A, B, C)>)
        ensures
            final(self).inner().obeys_prophetic_iter_laws() == old(self).inner().obeys_prophetic_iter_laws(),
            old(self).inner().obeys_prophetic_iter_laws() ==> {
                let items = old(self).inner().remaining();
                &&& items.len() > 0 ==> {
                    &&& r == Some(flat_right(items[0]))
                    &&& final(self).inner().remaining() == items.drop_first()
                }
                &&& items.len() == 0 ==> r is None && final(self).inner().remaining() == items
            },
    {
        match self.0.next() {
            Some((a, (b, c))) => Some((a, b, c)),
            None => None,
        }
    }
}

impl<A, B, C, T: DoubleEndedIterator<Item = (A, (B, C))>> RightUnpacker<T> {
    /// The last item of the wrapped iterator, flattened.
    pub fn next_back(&mut self) -> (r: Option<(A, B, C)>)
        ensures
            <T as IteratorSpec>::obeys_prophetic_iter_laws(&final(self).inner())
                == <T as IteratorSpec>::obeys_prophetic_iter_laws(&old(self).inner()),
            <T as IteratorSpec>::obeys_prophetic_iter_laws(&old(self).inner()) ==> {
                let items = <T as IteratorSpec>::remaining(&old(self).inner());
                &&& items.len() > 0 ==> {
                    &&& r == Some(flat_right(items.last()))
                    &&& <T as IteratorSpec>::remaining(&final(self).inner()) == items.drop_last()
                }
                &&& items.len() == 0 ==> r is None && <T as IteratorSpec>::remaining(&final(self).inner())
                    == items
            },
    {
        match self.0.next_back() {
            Some((a, (b, c))) => Some((a, b, c)),
            None => None,
        }
    }
}

} // verus!
