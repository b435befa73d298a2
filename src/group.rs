//! Communication between widgets outside the parent-child hierarchy: groups of ids
//! stored in each `WidgetInternal`, and a deduplicated FIFO of pending group events.
use std::collections::VecDeque;
use vstd::prelude::*;

verus! {

pub type GroupID = usize;

/// An event waiting to be dispatched through the widget tree.
#[derive(PartialEq, Eq, Structural, Clone, Copy, Debug)]
pub enum GroupEvent {
    Signal(GroupID),
    Layout,
}

/// The topics a widget is a member of.
#[derive(Clone, Copy, Debug)]
pub enum Group {
    Any,
    Single(GroupID),
    Slice(&'static [GroupID]),
}

impl Group {
    /// Whether the group accepts the id `id`.
    pub open spec fn matches(self, id: GroupID) -> bool {
        match self {
            Group::Any => true,
            Group::Single(single_id) => single_id == id,
            Group::Slice(slice_id) => slice_id@.contains(id),
        }
    }

    pub fn is_any(&self) -> (r: bool)
        ensures
            r == (*self is Any),
    {
        match *self {
            Group::Any => true,
            _ => false,
        }
    }

    pub fn check_id(&self, id: GroupID) -> (r: bool)
        ensures
            r == self.matches(id),
    {
        match *self {
            Group::Single(single_id) => single_id == id,
            Group::Slice(slice_id) => slice_contains(slice_id, id),
            Group::Any => true,
        }
    }
}

/// Linear membership test on a slice of ids.
pub fn slice_contains(ids: &[GroupID], id: GroupID) -> (r: bool)
    ensures
        r == ids@.contains(id),
{
    let mut i: usize = 0;
    while i < ids.len()
        invariant
            i <= ids@.len(),
            forall|j: int| 0 <= j < i ==> ids@[j] != id,
        decreases ids@.len() - i,
    {
        if ids[i] == id {
            return true;
        }
        i = i + 1;
    }
    false
}

/// A first-in first-out queue of group events in which each event is held at most once.
pub struct GroupQueue {
    queue: VecDeque<GroupEvent>,
}

impl View for GroupQueue {
    type V = Seq<GroupEvent>;

    closed spec fn view(&self) -> Seq<GroupEvent> {
        self.queue@
    }
}

impl GroupQueue {
    pub fn new() -> (q: Self)
        ensures
            q@ == Seq::<GroupEvent>::empty(),
    {
        GroupQueue { queue: VecDeque::new() }
    }

    /// Whether `event` is waiting in the queue.
    pub fn contains(&self, event: &GroupEvent) -> (r: bool)
        ensures
            r == self@.contains(*event),
    {
        let mut i: usize = 0;
        while i < self.queue.len()
            invariant
                i <= self@.len(),
                forall|j: int| 0 <= j < i ==> self@[j] != *event,
            decreases self@.len() - i,
        {
            if self.queue[i] == *event {
                return true;
            }
            i = i + 1;
        }
        false
    }

    /// Pushes an event to the back of the queue unless it is already queued.
    pub fn push_event(&mut self, event: GroupEvent)
        ensures
            final(self)@ == (if old(self)@.contains(event) {
                old(self)@
            } else {
                old(self)@.push(event)
            }),
            old(self)@.no_duplicates() ==> final(self)@.no_duplicates(),
    {
        if !self.contains(&event) {
            self.queue.push_back(event);
        }
    }

    /// Pops the oldest queued event.
    pub fn next_event(&mut self) -> (r: Option<GroupEvent>)
        ensures
            old(self)@.len() == 0 ==> r is None && final(self)@ == old(self)@,
            old(self)@.len() > 0 ==> r == Some(old(self)@[0]) && final(self)@ == old(self)@.drop_first(),
    {
        self.queue.pop_front()
    }
}

} // verus!
