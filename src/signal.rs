//! Signals: a membership filter that can be switched off, and a deduplicated FIFO
//! of pending signal ids.
use crate::group::slice_contains;
use std::collections::VecDeque;
use vstd::prelude::*;

verus! {

pub type SignalID = usize;

/// The signal ids a widget listens to; the disabled forms listen to nothing
/// until enabled again.
#[derive(Clone, Copy, Debug)]
pub enum Signal {
    Any,
    Single(SignalID),
    DisabledSingle(SignalID),
    Slice(&'static [SignalID]),
    DisabledSlice(&'static [SignalID]),
    Disabled,
}

impl Signal {
    pub open spec fn enabled_form(self) -> Signal {
        match self {
            Signal::Disabled => Signal::Any,
            Signal::DisabledSingle(signal) => Signal::Single(signal),
            Signal::DisabledSlice(signal_slice) => Signal::Slice(signal_slice),
            _ => self,
        }
    }

    pub open spec fn disabled_form(self) -> Signal {
        match self {
            Signal::Any => Signal::Disabled,
            Signal::Single(signal) => Signal::DisabledSingle(signal),
            Signal::Slice(signal_slice) => Signal::DisabledSlice(signal_slice),
            _ => self,
        }
    }

    pub open spec fn is_enabled(self) -> bool {
        self is Any || self is Single || self is Slice
    }

    /// Whether the signal listens to `id`.
    pub open spec fn accepts(self, id: SignalID) -> bool {
        match self {
            Signal::Any => true,
            Signal::Single(signal) => signal == id,
            Signal::Slice(signal_slice) => signal_slice@.contains(id),
            _ => false,
        }
    }

    /// Enables the signal: containers then find its widget.
    pub fn enable(&mut self)
        ensures
            *final(self) == old(self).enabled_form(),
    {
        *self = match *self {
            Signal::Disabled => Signal::Any,
            Signal::DisabledSingle(signal) => Signal::Single(signal),
            Signal::DisabledSlice(signal_slice) => Signal::Slice(signal_slice),
            other => other,
        };
    }

    /// Disables the signal: containers no longer find its widget.
    pub fn disable(&mut self)
        ensures
            *final(self) == old(self).disabled_form(),
    {
        *self = match *self {
            Signal::Any => Signal::Disabled,
            Signal::Single(signal) => Signal::DisabledSingle(signal),
            Signal::Slice(signal_slice) => Signal::DisabledSlice(signal_slice),
            other => other,
        };
    }

    /// Whether the signal is enabled.
    pub fn enabled(&self) -> (r: bool)
        ensures
            r == self.is_enabled(),
    {
        match self {
            Signal::Any | Signal::Single(_) | Signal::Slice(_) => true,
            Signal::Disabled | Signal::DisabledSingle(_) | Signal::DisabledSlice(_) => false,
        }
    }

    /// Whether the signal listens to `id`.
    pub fn check(&self, id: SignalID) -> (r: bool)
        ensures
            r == self.accepts(id),
    {
        match self {
            Signal::Any => true,
            Signal::Single(signal) => *signal == id,
            Signal::Slice(signal_slice) => slice_contains(signal_slice, id),
            _ => false,
        }
    }
}

/// A first-in first-out queue of signal ids in which each id is held at most once.
pub struct SignalQueue {
    queue: VecDeque<SignalID>,
}

impl View for SignalQueue {
    type V = Seq<SignalID>;

    closed spec fn view(&self) -> Seq<SignalID> {
        self.queue@
    }
}

impl SignalQueue {
    pub fn new() -> (q: Self)
        ensures
            q@ == Seq::<SignalID>::empty(),
    {
        SignalQueue { queue: VecDeque::new() }
    }

    /// Pushes `id` to the back of the queue unless it is already queued.
    pub fn emit_id(&mut self, id: SignalID)
        ensures
            final(self)@ == (if old(self)@.contains(id) {
                old(self)@
            } else {
                old(self)@.push(id)
            }),
            old(self)@.no_duplicates() ==> final(self)@.no_duplicates(),
    {
        let mut i: usize = 0;
        while i < self.queue.len()
            invariant
                i <= self@.len(),
                forall|j: int| 0 <= j < i ==> self@[j] != id,
            decreases self@.len() - i,
        {
            if self.queue[i] == id {
                return;
            }
            i = i + 1;
        }
        self.queue.push_back(id);
    }

    /// Pops the oldest queued id.
    pub fn next_signal(&mut self) -> (r: Option<SignalID>)
        ensures
            old(self)@.len() == 0 ==> r is None && final(self)@ == old(self)@,
            old(self)@.len() > 0 ==> r == Some(old(self)@[0]) && final(self)@ == old(self)@.drop_first(),
    {
        self.queue.pop_front()
    }
}

} // verus!
