//! Data shared with widgets that do not own it. The data lives in a `Shared`
//! store owned outside the tree; a widget holds a proxy, an index into that
//! store, and reaches the data through the store on each access.
use crate::group::{GroupEvent, GroupID, GroupQueue};
use core::marker::PhantomData;
use vstd::prelude::*;

verus! {

/// Owner of externally shared values.
pub struct Shared<T> {
    values: Vec<T>,
}

impl<T> View for Shared<T> {
    type V = Seq<T>;

    closed spec fn view(&self) -> Seq<T> {
        self.values@
    }
}

impl<T> Shared<T> {
    pub fn new() -> (s: Self)
        ensures
            s@ == Seq::<T>::empty(),
    {
        Shared { values: Vec::new() }
    }

    /// Number of values held.
    pub fn len(&self) -> (r: usize)
        ensures
            r == self@.len(),
    {
        self.values.len()
    }

    /// Moves `value` into the store; returns its index.
    pub fn share(&mut self, value: T) -> (r: usize)
        ensures
            final(self)@ == old(self)@.push(value),
            r == old(self)@.len(),
    {
        let r = self.values.len();
        self.values.push(value);
        r
    }

    /// The value at `index`.
    pub fn get(&self, index: usize) -> (r: &T)
        requires
            index < self@.len(),
        ensures
            *r == self@[index as int],
    {
        &self.values[index]
    }

    /// The value at `index`, to change in place.
    pub fn get_mut(&mut self, index: usize) -> (r: &mut T)
        requires
            index < old(self)@.len(),
        ensures
            *r == old(self)@[index as int],
            final(self)@ == old(self)@.update(index as int, *final(r)),
    {
        &mut self.values[index]
    }
}

/// A handle to a value of a `Shared` store.
pub struct BindProxy<T> {
    index: usize,
    marker: PhantomData<T>,
}

impl<T> BindProxy<T> {
    pub closed spec fn at(&self) -> usize {
        self.index
    }

    /// Index of the value in its store.
    pub fn index(&self) -> (r: usize)
        ensures
            r == self.at(),
    {
        self.index
    }

    /// The value.
    pub fn read<'a>(&self, shared: &'a Shared<T>) -> (r: &'a T)
        requires
            self.at() < shared@.len(),
        ensures
            *r == shared@[self.at() as int],
    {
        shared.get(self.index)
    }

    /// The value, to change in place.
    pub fn read_write<'a>(&self, shared: &'a mut Shared<T>) -> (r: &'a mut T)
        requires
            self.at() < old(shared)@.len(),
        ensures
            *r == old(shared)@[self.at() as int],
            final(shared)@ == old(shared)@.update(self.at() as int, *final(r)),
    {
        shared.get_mut(self.index)
    }

    /// The value, to change in place, after queueing the signal `id`.
    pub fn rw_push<'a>(&self, shared: &'a mut Shared<T>, queue: &mut GroupQueue, id: GroupID) -> (r: &'a mut T)
        requires
            self.at() < old(shared)@.len(),
        ensures
            *r == old(shared)@[self.at() as int],
            final(shared)@ == old(shared)@.update(self.at() as int, *final(r)),
            final(queue)@ == (if old(queue)@.contains(GroupEvent::Signal(id)) {
                old(queue)@
            } else {
                old(queue)@.push(GroupEvent::Signal(id))
            }),
    {
        queue.push_event(GroupEvent::Signal(id));
        shared.get_mut(self.index)
    }
}

/// Hands out a `BindProxy` for a value it takes in.
pub trait Binding<T> {
    /// Takes in `value` and returns a proxy to it.
    fn proxy(&mut self, value: T) -> BindProxy<T>;
}

impl<T> Binding<T> for Shared<T> {
    fn proxy(&mut self, value: T) -> (p: BindProxy<T>)
        ensures
            final(self)@ == old(self)@.push(value),
            p.at() == old(self)@.len(),
    {
        let index = self.share(value);
        BindProxy { index, marker: PhantomData }
    }
}

} // verus!
