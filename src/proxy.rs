//! Proxies made from a store borrowed mutably: the same index handles as
//! `BindProxy`, for code that builds its proxies while it owns the store.
use crate::binding::Shared;
use crate::group::{GroupEvent, GroupID, GroupQueue};
use core::marker::PhantomData;
use vstd::prelude::*;

verus! {

/// A handle to a value of a `Shared` store.
pub struct RefProxy<T> {
    index: usize,
    marker: PhantomData<T>,
}

impl<T> RefProxy<T> {
    pub closed spec fn at(&self) -> usize {
        self.index
    }

    /// Index of the value in its store.
    pub fn index(&self) -> (r: usize)
        ensures
            r == self.at(),
    {
        self.index
    }

    /// The value.
    pub fn read<'a>(&self, shared: &'a Shared<T>) -> (r: &'a T)
        requires
            self.at() < shared@.len(),
        ensures
            *r == shared@[self.at() as int],
    {
        shared.get(self.index)
    }

    /// The value, to change in place.
    pub fn read_write<'a>(&self, shared: &'a mut Shared<T>) -> (r: &'a mut T)
        requires
            self.at() < old(shared)@.len(),
        ensures
            *r == old(shared)@[self.at() as int],
            final(shared)@ == old(shared)@.update(self.at() as int, *final(r)),
    {
        shared.get_mut(self.index)
    }

    /// The value, to change in place, after queueing the signal `id`.
    pub fn rw_push<'a>(&self, shared: &'a mut Shared<T>, queue: &mut GroupQueue, id: GroupID) -> (r: &'a mut T)
        requires
            self.at() < old(shared)@.len(),
        ensures
            *r == old(shared)@[self.at() as int],
            final(shared)@ == old(shared)@.update(self.at() as int, *final(r)),
            final(queue)@ == (if old(queue)@.contains(GroupEvent::Signal(id)) {
                old(queue)@
            } else {
                old(queue)@.push(GroupEvent::Signal(id))
            }),
    {
        queue.push_event(GroupEvent::Signal(id));
        shared.get_mut(self.index)
    }
}

/// Hands out a `RefProxy` for a value it takes in.
pub trait Proxy<T> {
    /// Takes in `value` and returns a proxy to it.
    fn proxy(&mut self, value: T) -> RefProxy<T>;
}

impl<T> Proxy<T> for Shared<T> {
    fn proxy(&mut self, value: T) -> (p: RefProxy<T>)
        ensures
            final(self)@ == old(self)@.push(value),
            p.at() == old(self)@.len(),
    {
        let index = self.share(value);
        RefProxy { index, marker: PhantomData }
    }
}

} // verus!
