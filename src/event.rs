//! Event ids: a filter over ids and a deduplicated FIFO of pending ids.
use std::collections::VecDeque;
use vstd::prelude::*;

verus! {

pub type EventID = u32;

/// Which event ids a widget answers to.
#[derive(Clone, Copy, Debug, PartialEq, Eq, Structural)]
pub enum EventType {
    Any,
    ID(EventID),
    Nothing,
}

/// A first-in first-out queue of event ids in which each id is held at most once.
pub struct EventQueue {
    queue: VecDeque<EventID>,
}

impl View for EventQueue {
    type V = Seq<EventID>;

    closed spec fn view(&self) -> Seq<EventID> {
        self.queue@
    }
}

impl EventQueue {
    pub fn new() -> (q: Self)
        ensures
            q@ == Seq::<EventID>::empty(),
    {
        EventQueue { queue: VecDeque::new() }
    }

    /// Pushes `id` to the back of the queue unless it is already queued.
    pub fn queue_event_id(&mut self, id: EventID)
        ensures
            final(self)@ == (if old(self)@.contains(id) {
                old(self)@
            } else {
                old(self)@.push(id)
            }),
            old(self)@.no_duplicates() ==> final(self)@.no_duplicates(),
    {
        let mut i: usize = 0;
        while i < self.queue.len()
            invariant
                i <= self@.len(),
                forall|j: int| 0 <= j < i ==> self@[j] != id,
            decreases self@.len() - i,
        {
            if self.queue[i] == id {
                return;
            }
            i = i + 1;
        }
        self.queue.push_back(id);
    }

    /// Pops the oldest queued id.
    pub fn next_event(&mut self) -> (r: Option<EventID>)
        ensures
            old(self)@.len() == 0 ==> r is None && final(self)@ == old(self)@,
            old(self)@.len() > 0 ==> r == Some(old(self)@[0]) && final(self)@ == old(self)@.drop_first(),
    {
        self.queue.pop_front()
    }
}

} // verus!
