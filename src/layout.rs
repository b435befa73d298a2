//! Strategy that places the widgets of a container.
use crate::widget::{Dimensions, WidgetInternal};
use vstd::prelude::*;

verus! {

/// Layout strategy of a container.
pub trait Layout {
    /// Places the widgets of a container, given the container's own record.
    /// A slice keeps its length.
    fn layout(&self, internal_list: &mut [WidgetInternal], c_internal: &WidgetInternal)
        ensures
            final(internal_list)@.len() == old(internal_list)@.len(),
    ;

    /// Smallest size that the widgets of a container can be laid out in.
    fn min_dimensions(&self, internal_list: &[WidgetInternal]) -> Dimensions;
}

/// Layout that moves nothing, for widgets with fixed positions and sizes.
pub struct EmptyLayout;

impl Layout for EmptyLayout {
    fn layout(&self, internal_list: &mut [WidgetInternal], c_internal: &WidgetInternal) {
    }

    fn min_dimensions(&self, internal_list: &[WidgetInternal]) -> (r: Dimensions)
        ensures
            r == (0i32, 0i32),
    {
        (0, 0)
    }
}

} // verus!
