//! The root of a widget tree, with its own record and the input snapshots that a
//! driver fills and hands down once per tick.
use crate::container::{routes_to, Container};
use crate::decorator::Decorator;
use crate::flags::{holds, Flags, DRAW, ENABLED, GRAB, UPDATE, VISIBLE};
use crate::layout::Layout;
use crate::state::{KeyState, MouseState};
use crate::widget::{fit, Dimensions, InternalView, Widget, WidgetInternal};
use crate::group::{Group, GroupEvent, GroupQueue};
use vstd::prelude::*;

verus! {

/// Flags of a new window: ENABLED | VISIBLE | DRAW | UPDATE, so that its first
/// tick updates and draws the tree
pub const WINDOW: Flags = ENABLED | VISIBLE | DRAW | UPDATE;

pub struct Window<C, W, L, D> {
    root_container: Container<C, W, L, D>,
    internal: WidgetInternal,
    mouse_s: MouseState,
    key_s: KeyState,
}

impl<C, W: Widget<C>, L: Layout, D: Decorator<C>> Window<C, W, L, D> {
    pub closed spec fn root(&self) -> Container<C, W, L, D> {
        self.root_container
    }

    pub closed spec fn record(&self) -> InternalView {
        self.internal@
    }

    pub closed spec fn mouse(&self) -> MouseState {
        self.mouse_s
    }

    pub closed spec fn key(&self) -> KeyState {
        self.key_s
    }

    /// A window around `root`, with a fresh mouse state and no key pressed.
    pub fn new(root: Container<C, W, L, D>) -> (r: Self)
        ensures
            r.root() == root,
            r.record() == (InternalView {
                flags: WINDOW,
                dim: (0i32, 0i32),
                min_dim: (0i32, 0i32),
                pivot: (0i32, 0i32),
                rel: (0i32, 0i32),
                group: Group::Any,
            }),
            r.mouse().m_count == 0,
            r.key() == KeyState::Released(0, 0),
    {
        Window {
            root_container: root,
            internal: WidgetInternal::new(WINDOW, Group::Any),
            mouse_s: MouseState::new(),
            key_s: KeyState::Released(0, 0),
        }
    }

    pub fn container(&self) -> (r: &Container<C, W, L, D>)
        ensures
            *r == self.root(),
    {
        &self.root_container
    }

    pub fn container_mut(&mut self) -> (r: &mut Container<C, W, L, D>)
        ensures
            *r == old(self).root(),
            final(self).root() == *final(r),
            final(self).record() == old(self).record(),
            final(self).mouse() == old(self).mouse(),
            final(self).key() == old(self).key(),
    {
        &mut self.root_container
    }

    /// Hands the keys, then the mouse, to the tree.
    pub fn handle_all(&mut self)
        requires
            old(self).root().wf(),
        ensures
            final(self).root().wf(),
            final(self).root().children().len() == old(self).root().children().len(),
            final(self).mouse() == old(self).mouse(),
            final(self).key() == old(self).key(),
    {
        self.handle_keys();
        self.handle_mouse();
    }

    pub fn handle_mouse(&mut self)
        requires
            old(self).root().wf(),
        ensures
            final(self).root().wf(),
            final(self).root().children().len() == old(self).root().children().len(),
            old(self).root().hovered() is Some && holds(
                old(self).root().children()[old(self).root().hovered()->0 as int].flags,
                GRAB,
            ) ==> final(self).root().hovered() == old(self).root().hovered(),
            !(old(self).root().hovered() is None && holds(old(self).record().flags, GRAB)) ==> routes_to(
                old(self).root().children(),
                old(self).root().hovered(),
                old(self).mouse().position(),
                final(self).root().hovered(),
            ),
            final(self).mouse() == old(self).mouse(),
            final(self).key() == old(self).key(),
    {
        self.root_container.handle_mouse(&mut self.internal, &self.mouse_s);
    }

    pub fn handle_keys(&mut self)
        requires
            old(self).root().wf(),
        ensures
            final(self).root().wf(),
            final(self).root().hovered() == old(self).root().hovered(),
            final(self).root().children().len() == old(self).root().children().len(),
            final(self).root().focused() is None || final(self).root().focused() == old(self).root().focused(),
            old(self).root().focused() is None ==> final(self).root().children() == old(self).root().children()
                && final(self).record() == old(self).record(),
            final(self).mouse() == old(self).mouse(),
            final(self).key() == old(self).key(),
    {
        self.root_container.handle_keys(&mut self.internal, self.key_s);
    }

    /// Moves the focus forward; past the last child it starts again from the first.
    pub fn next_focus(&mut self)
        requires
            old(self).root().wf(),
        ensures
            final(self).root().wf(),
            final(self).root().hovered() == old(self).root().hovered(),
            final(self).root().children().len() == old(self).root().children().len(),
            final(self).mouse() == old(self).mouse(),
            final(self).key() == old(self).key(),
    {
        if !self.root_container.step_focus(&mut self.internal, false) {
            self.root_container.step_focus(&mut self.internal, false);
        }
    }

    /// Moves the focus backward; past the first child it starts again from the last.
    pub fn prev_focus(&mut self)
        requires
            old(self).root().wf(),
        ensures
            final(self).root().wf(),
            final(self).root().hovered() == old(self).root().hovered(),
            final(self).root().children().len() == old(self).root().children().len(),
            final(self).mouse() == old(self).mouse(),
            final(self).key() == old(self).key(),
    {
        if !self.root_container.step_focus(&mut self.internal, true) {
            self.root_container.step_focus(&mut self.internal, true);
        }
    }

    /// Updates the tree when it asked for it.
    pub fn update_window(&mut self)
        requires
            old(self).root().wf(),
        ensures
            final(self).root().wf(),
            !holds(old(self).record().flags, UPDATE) ==> final(self).root() == old(self).root()
                && final(self).record() == old(self).record(),
    {
        if self.internal.check(UPDATE) {
            self.root_container.update(&mut self.internal);
        }
    }

    /// Draws the tree when it asked for it; DRAW stays on while a child still
    /// wants frames.
    pub fn draw_window(&mut self, ctx: &mut C)
        requires
            old(self).root().wf(),
        ensures
            final(self).root().wf(),
            !holds(old(self).record().flags, DRAW) ==> final(self).root() == old(self).root()
                && final(self).record() == old(self).record(),
    {
        if self.internal.check(DRAW) {
            let status = self.root_container.draw(&self.internal, ctx);
            self.internal.turn(DRAW, status);
        }
    }

    /// Lays the whole tree out.
    pub fn update_layout(&mut self)
        requires
            old(self).root().wf(),
        ensures
            final(self).root().wf(),
            final(self).record() == old(self).record().with_flags(final(self).record().flags),
    {
        self.root_container.layout(&mut self.internal, true);
    }

    pub fn internal(&self) -> (r: &WidgetInternal)
        ensures
            r@ == self.record(),
    {
        &self.internal
    }

    pub fn state(&self) -> (r: (&MouseState, &KeyState))
        ensures
            *r.0 == self.mouse(),
            *r.1 == self.key(),
    {
        (&self.mouse_s, &self.key_s)
    }

    pub fn state_mut(&mut self) -> (r: (&mut MouseState, &mut KeyState))
        ensures
            *r.0 == old(self).mouse(),
            *r.1 == old(self).key(),
            final(self).mouse() == *final(r.0),
            final(self).key() == *final(r.1),
            final(self).root() == old(self).root(),
            final(self).record() == old(self).record(),
    {
        (&mut self.mouse_s, &mut self.key_s)
    }

    /// Resizes the window: the pointer leaves the tree, then it is laid out again.
    pub fn set_dimensions(&mut self, dimensions: Dimensions)
        requires
            old(self).root().wf(),
        ensures
            final(self).root().wf(),
            final(self).record().dim == fit(dimensions, old(self).record().min_dim),
    {
        self.root_container.hover_out(&mut self.internal);
        self.internal.set_dimensions(dimensions);
        self.update_layout();
    }

    /// Flushes the queued group events into the tree, oldest first: a signal is
    /// handed to `handle_signal`, a layout request lays the whole tree out. Ends
    /// with the queue empty.
    pub fn flush_events(&mut self, queue: &mut GroupQueue)
        requires
            old(self).root().wf(),
        ensures
            final(self).root().wf(),
            final(queue)@.len() == 0,
    {
        loop
            invariant
                self.root().wf(),
            ensures
                queue@.len() == 0,
            decreases queue@.len(),
        {
            match queue.next_event() {
                Some(GroupEvent::Signal(id)) => {
                    self.root_container.handle_signal(&mut self.internal, id);
                },
                Some(GroupEvent::Layout) => {
                    self.root_container.layout(&mut self.internal, true);
                },
                None => {
                    break;
                },
            }
        }
    }
}

} // verus!
