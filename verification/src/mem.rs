//! Ownership helpers: a value tied to a lifetime, an owned storage seen as another type, and the
//! vector operations shared by growable sequences.

use core::marker::PhantomData;
use vstd::prelude::*;

verus! {

/// An owned value that is only meant to live during `'a`.
///
/// It does not hold a pointer: it owns its `T` and marks itself as holding a reference that lives
/// `'a`. With `MUT`, the inner value may be borrowed mutably.
pub struct Living<'a, T, const MUT: bool> {
    inner: T,
    _marker: PhantomData<&'a ()>,
}

impl<'a, T, const MUT: bool> Living<'a, T, MUT> {
    /// The owned value.
    pub closed spec fn inner(self) -> T {
        self.inner
    }

    /// Wraps `inner`.
    pub fn new(inner: T) -> (r: Self)
        ensures
            r.inner() == inner,
    {
        Self { inner, _marker: PhantomData }
    }

    /// Borrows the owned value.
    pub fn get(&self) -> (r: &T)
        ensures
            *r == self.inner(),
    {
        &self.inner
    }
}

impl<'a, T> Living<'a, T, true> {
    /// Borrows the owned value mutably.
    pub fn to_mut(&mut self) -> (r: &mut T)
        ensures
            *r == old(self).inner(),
            final(self).inner() == *final(r),
    {
        &mut self.inner
    }
}

/// A type that can be seen through a storage of type `Owned`.
pub trait FromOwned<Owned> {
    /// Sees `owned` as a `Self`.
    fn from_owned(owned: &Owned) -> &Self;

    /// Sees `owned` as a mutable `Self`.
    fn from_owned_mut(owned: &mut Owned) -> &mut Self;
}

/// An owned storage of type `O` that is seen as a `K`, through [`FromOwned`].
pub struct Owned<K, O> where K: FromOwned<O> {
    inner: O,
    _data: PhantomData<K>,
}

impl<K, O> Owned<K, O> where K: FromOwned<O> {
    /// The storage.
    pub closed spec fn storage(self) -> O {
        self.inner
    }

    /// Wraps the storage `inner`.
    pub fn new(inner: O) -> (r: Self)
        ensures
            r.storage() == inner,
    {
        Self { inner, _data: PhantomData }
    }

    /// Gives the storage back.
    pub fn into_inner(self) -> (r: O)
        ensures
            r == self.storage(),
    {
        self.inner
    }

    /// Borrows the storage.
    pub fn to_inner(&self) -> (r: &O)
        ensures
            *r == self.storage(),
    {
        &self.inner
    }

    /// Borrows the storage mutably.
    pub fn to_inner_mut(&mut self) -> (r: &mut O)
        ensures
            *r == old(self).storage(),
            final(self).storage() == *final(r),
    {
        &mut self.inner
    }

    /// Sees the storage as a `K`: what [`FromOwned::from_owned`] gives for the storage.
    pub fn get(&self) -> (r: &K)
        ensures
            call_ensures(K::from_owned, (&self.storage(),), r),
    {
        K::from_owned(&self.inner)
    }

    /// Sees the storage as a mutable `K`: what [`FromOwned::from_owned_mut`] gives for a
    /// mutable borrow of the storage, which holds the storage at the call and leaves it as the
    /// storage afterwards.
    pub fn get_mut(&mut self) -> (r: &mut K)
        ensures
            exists|m: &mut O|
                {
                    &&& *m == old(self).storage()
                    &&& *final(m) == final(self).storage()
                    &&& #[trigger] call_ensures(K::from_owned_mut, (m,), r)
                },
    {
        K::from_owned_mut(&mut self.inner)
    }
}

impl<K, O: Clone> Clone for Owned<K, O> where K: FromOwned<O> {
    fn clone(&self) -> (r: Self)
        ensures
            cloned(self.storage(), r.storage()),
    {
        Self::new(self.inner.clone())
    }
}

/// The operations of a growable sequence of `T`.
pub trait AbstractVec<T> {
    /// The items, in order.
    spec fn items(&self) -> Seq<T>;

    /// Appends `v`.
    fn push(&mut self, v: T)
        ensures
            final(self).items() == old(self).items().push(v),
    ;

    /// Removes and gives the last item, `None` when there is none.
    fn pop(&mut self) -> (r: Option<T>)
        ensures
            old(self).items().len() > 0 ==> {
                &&& r == Some(old(self).items().last())
                &&& final(self).items() == old(self).items().drop_last()
            },
            old(self).items().len() == 0 ==> r is None && final(self).items() == old(self).items(),
    ;

    /// Removes and gives the item at `i`, shifting the following ones.
    fn remove(&mut self, i: usize) -> (r: T)
        requires
            i < old(self).items().len(),
        ensures
            r == old(self).items()[i as int],
            final(self).items() == old(self).items().remove(i as int),
    ;

    /// Keeps the first `len` items.
    fn truncate(&mut self, len: usize)
        ensures
            len <= old(self).items().len() ==> final(self).items() == old(self).items().take(
                len as int,
            ),
            len > old(self).items().len() ==> final(self).items() == old(self).items(),
    ;

    /// Makes the length `new_len`: extra items are removed, missing ones are clones of `value`.
    fn resize(&mut self, new_len: usize, value: T) where T: Clone
        ensures
            new_len <= old(self).items().len() ==> final(self).items() == old(self).items().take(
                new_len as int,
            ),
            new_len > old(self).items().len() ==> {
                &&& final(self).items().len() == new_len
                &&& final(self).items().take(old(self).items().len() as int) == old(self).items()
                &&& forall|i: int|
                    old(self).items().len() <= i < new_len ==> cloned(
                        value,
                        #[trigger] final(self).items()[i],
                    )
            },
    ;
}

impl<T> AbstractVec<T> for Vec<T> {
    open spec fn items(&self) -> Seq<T> {
        self@
    }

    fn push(&mut self, v: T) {
        Vec::push(self, v);
    }

    fn pop(&mut self) -> (r: Option<T>) {
        Vec::pop(self)
    }

    fn remove(&mut self, i: usize) -> (r: T) {
        Vec::remove(self, i)
    }

    fn truncate(&mut self, len: usize) {
        Vec::truncate(self, len);
    }

    fn resize(&mut self, new_len: usize, value: T) where T: Clone {
        Vec::resize(self, new_len, value);
    }
}

} // verus!
