//! Hooks around the drawing of a container.
use crate::widget::WidgetInternal;
use vstd::prelude::*;

verus! {

/// Decorator of a container; `C` is the drawing context.
pub trait Decorator<C> {
    /// Prepares the decorator before the widgets are drawn.
    fn before(&mut self, internal: &WidgetInternal, ctx: &mut C);

    /// Finishes the decorator after the widgets are drawn.
    fn after(&mut self, internal: &WidgetInternal, ctx: &mut C);

    /// Called when the layout of the container changed.
    fn update(&mut self, internal: &WidgetInternal);
}

/// Decorator that does nothing, for a root container.
pub struct EmptyDecorator;

impl<C> Decorator<C> for EmptyDecorator {
    fn before(&mut self, internal: &WidgetInternal, ctx: &mut C) {
    }

    fn after(&mut self, internal: &WidgetInternal, ctx: &mut C) {
    }

    fn update(&mut self, internal: &WidgetInternal) {
    }
}

} // verus!
