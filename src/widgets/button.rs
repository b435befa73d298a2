//! A push button: pressing it takes the capture and the focus, releasing it
//! gives the capture back.
use crate::flags::{Flags, DRAW, FOCUS, GRAB};
use crate::state::MouseState;
use crate::widget::{Widget, WidgetInternal};
use vstd::prelude::*;

verus! {

/// Flags a button turns on when pressed: GRAB | FOCUS | DRAW
pub const PRESS: Flags = GRAB | FOCUS | DRAW;

pub struct Button {
    label: String,
    clicked: bool,
}

impl Button {
    pub closed spec fn label_view(&self) -> Seq<char> {
        self.label@
    }

    /// Whether the button is held down.
    pub closed spec fn pressed(&self) -> bool {
        self.clicked
    }

    pub fn new(label: &str) -> (r: Self)
        ensures
            r.label_view() == label@,
            !r.pressed(),
    {
        Button { label: label.to_owned(), clicked: false }
    }

    /// The label of the button.
    pub fn get_label(&self) -> (r: &str)
        ensures
            r@ == self.label_view(),
    {
        self.label.as_str()
    }

    /// Sets a new label.
    pub fn set_label(&mut self, label: String)
        ensures
            final(self).label_view() == label@,
            final(self).pressed() == old(self).pressed(),
    {
        self.label = label;
    }

    /// Whether the button is held down.
    pub fn is_pressed(&self) -> (r: bool)
        ensures
            r == self.pressed(),
    {
        self.clicked
    }
}

impl<C> Widget<C> for Button {
    /// A press takes GRAB and FOCUS and asks for a frame; the release that
    /// follows gives GRAB back and asks for a frame.
    fn handle_mouse(&mut self, internal: &mut WidgetInternal, mouse: &MouseState)
        ensures
            mouse.m_count > 0 && !old(self).pressed() ==> final(self).pressed() && final(internal)@ == old(
                internal,
            )@.with_flags(old(internal)@.flags | PRESS),
            mouse.m_count == 0 && old(self).pressed() ==> !final(self).pressed() && final(internal)@ == old(
                internal,
            )@.with_flags((old(internal)@.flags & !GRAB) | DRAW),
            !(mouse.m_count > 0 && !old(self).pressed()) && !(mouse.m_count == 0 && old(self).pressed())
                ==> final(self).pressed() == old(self).pressed() && final(internal)@ == old(internal)@,
    {
        if mouse.m_count > 0 {
            if !self.clicked {
                self.clicked = true;
                internal.on(PRESS);
            }
        } else if self.clicked {
            self.clicked = false;
            internal.off_on(GRAB, DRAW);
        }
    }
}

} // verus!
