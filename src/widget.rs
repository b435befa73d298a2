//! The per-widget record (flags and geometry) and the trait every widget implements.
use crate::flags::{holds, Flags, DRAW, FOCUS, VISIBLE};
use crate::group::{Group, GroupID};
use crate::state::{KeyState, MouseState};
use vstd::prelude::*;

verus! {

pub type Position = (i32, i32);
pub type Dimensions = (i32, i32);
pub type Boundaries = (i32, i32, i32, i32);

/// A coordinate sum, saturated to the range of `i32`.
pub open spec fn clamp_coord(v: int) -> i32 {
    if v < i32::MIN {
        i32::MIN
    } else if v > i32::MAX {
        i32::MAX
    } else {
        v as i32
    }
}

/// Dimensions `dim` raised, on each axis, to at least `min`.
pub open spec fn fit(dim: Dimensions, min: Dimensions) -> Dimensions {
    (
        if dim.0 < min.0 {
            min.0
        } else {
            dim.0
        },
        if dim.1 < min.1 {
            min.1
        } else {
            dim.1
        },
    )
}

/// What a `WidgetInternal` holds: flags, size, minimum size, the pivot (the origin
/// handed down by the parent), the position relative to the pivot, and the group.
pub struct InternalView {
    pub flags: Flags,
    pub dim: Dimensions,
    pub min_dim: Dimensions,
    pub pivot: Position,
    pub rel: Position,
    pub group: Group,
}

impl InternalView {
    /// Absolute position: the pivot plus the relative position.
    pub open spec fn absolute(self) -> Position {
        (clamp_coord(self.pivot.0 + self.rel.0), clamp_coord(self.pivot.1 + self.rel.1))
    }

    /// A visible widget whose closed box `[absolute, absolute + dim]` holds `p`.
    pub open spec fn intersects(self, p: Position) -> bool {
        &&& holds(self.flags, VISIBLE)
        &&& self.absolute().0 <= p.0 <= self.absolute().0 + self.dim.0
        &&& self.absolute().1 <= p.1 <= self.absolute().1 + self.dim.1
    }

    /// The size never falls below the minimum size.
    pub open spec fn wf(self) -> bool {
        self.dim.0 >= self.min_dim.0 && self.dim.1 >= self.min_dim.1
    }

    pub open spec fn with_flags(self, flags: Flags) -> InternalView {
        InternalView { flags, ..self }
    }
}

/// General widget data, handed to the widget trait functions.
pub struct WidgetInternal {
    flags: Flags,
    dim: Dimensions,
    min_dim: Dimensions,
    pivot: Position,
    rel: Position,
    group: Group,
}

impl View for WidgetInternal {
    type V = InternalView;

    closed spec fn view(&self) -> InternalView {
        InternalView {
            flags: self.flags,
            dim: self.dim,
            min_dim: self.min_dim,
            pivot: self.pivot,
            rel: self.rel,
            group: self.group,
        }
    }
}

/// Draining the same mask twice in a row: the second drain reads nothing, since
/// the first one cleared the mask, and leaves the record as the first one left it.
pub proof fn lemma_drain_twice(w: InternalView, mask: Flags)
    ensures
        ({
            let w1 = w.with_flags(w.flags & !mask);
            &&& w1.flags & mask == 0
            &&& w1.with_flags(w1.flags & !mask) == w1
        }),
{
    let f = w.flags;
    assert((f & !mask) & mask == 0 && (f & !mask) & !mask == f & !mask) by (bit_vector);
}

fn clamp_sum(a: i32, b: i32) -> (r: i32)
    ensures
        r == clamp_coord(a + b),
{
    let v: i64 = a as i64 + b as i64;
    if v < i32::MIN as i64 {
        i32::MIN
    } else if v > i32::MAX as i64 {
        i32::MAX
    } else {
        v as i32
    }
}

fn fit_exec(dim: Dimensions, min: Dimensions) -> (r: Dimensions)
    ensures
        r == fit(dim, min),
{
    (
        if dim.0 < min.0 {
            min.0
        } else {
            dim.0
        },
        if dim.1 < min.1 {
            min.1
        } else {
            dim.1
        },
    )
}

impl WidgetInternal {
    /// Turns the flags of `mask` on or off.
    pub fn turn(&mut self, mask: Flags, toggle: bool)
        ensures
            final(self)@ == old(self)@.with_flags(
                if toggle {
                    old(self)@.flags | mask
                } else {
                    old(self)@.flags & !mask
                },
            ),
    {
        if toggle {
            self.flags = self.flags | mask;
        } else {
            self.flags = self.flags & !mask;
        }
    }

    /// Clears the flags of `mask`, then turns on those of `flags` that lie in `mask`.
    pub fn replace(&mut self, mask: Flags, flags: Flags)
        ensures
            final(self)@ == old(self)@.with_flags((old(self)@.flags & !mask) | (flags & mask)),
    {
        self.flags = (self.flags & !mask) | (flags & mask);
    }

    /// Toggles the flags of `mask`.
    pub fn toggle(&mut self, mask: Flags)
        ensures
            final(self)@ == old(self)@.with_flags(old(self)@.flags ^ mask),
    {
        self.flags = self.flags ^ mask;
    }

    /// Turns on the flags of `mask`.
    pub fn on(&mut self, mask: Flags)
        ensures
            final(self)@ == old(self)@.with_flags(old(self)@.flags | mask),
    {
        self.flags = self.flags | mask;
    }

    /// Turns off the flags of `mask`.
    pub fn off(&mut self, mask: Flags)
        ensures
            final(self)@ == old(self)@.with_flags(old(self)@.flags & !mask),
    {
        self.flags = self.flags & !mask;
    }

    /// Turns off the flags of `off_mask`, then turns on those of `on_mask`.
    pub fn off_on(&mut self, off_mask: Flags, on_mask: Flags)
        ensures
            final(self)@ == old(self)@.with_flags((old(self)@.flags & !off_mask) | on_mask),
    {
        self.flags = (self.flags & !off_mask) | on_mask;
    }

    /// Reads the flags of `get_mask`, then turns off those of `off_mask`.
    pub fn drain(&mut self, get_mask: Flags, off_mask: Flags) -> (r: Flags)
        ensures
            r == old(self)@.flags & get_mask,
            final(self)@ == old(self)@.with_flags(old(self)@.flags & !off_mask),
    {
        let r = self.flags & get_mask;
        self.flags = self.flags & !off_mask;
        r
    }

    /// Whether at least one flag of `mask` is on.
    pub fn check_any(&self, mask: Flags) -> (r: bool)
        ensures
            r == (self@.flags & mask != 0),
    {
        self.flags & mask != 0
    }

    /// Whether every flag of `mask` is on.
    pub fn check(&self, mask: Flags) -> (r: bool)
        ensures
            r == holds(self@.flags, mask),
    {
        self.flags & mask == mask
    }

    /// The flags of `mask` that are on.
    pub fn val(&self, mask: Flags) -> (r: Flags)
        ensures
            r == self@.flags & mask,
    {
        self.flags & mask
    }

    pub fn group(&self) -> (r: &Group)
        ensures
            *r == self@.group,
    {
        &self.group
    }

    pub fn set_group(&mut self, group: Group)
        ensures
            final(self)@ == (InternalView { group, ..old(self)@ }),
    {
        self.group = group;
    }

    /// A record with the given flags and group, all geometry at zero.
    pub fn new(flags: Flags, group: Group) -> (r: Self)
        ensures
            r@ == (InternalView {
                flags,
                dim: (0i32, 0i32),
                min_dim: (0i32, 0i32),
                pivot: (0i32, 0i32),
                rel: (0i32, 0i32),
                group,
            }),
            r@.wf(),
    {
        WidgetInternal { flags, dim: (0, 0), min_dim: (0, 0), pivot: (0, 0), rel: (0, 0), group }
    }

    /// A record with the given position, size, flags and group, and minimum size zero.
    pub fn new_with(pos: Position, dim: Dimensions, flags: Flags, group: Group) -> (r: Self)
        ensures
            r@ == (InternalView {
                flags,
                dim,
                min_dim: (0i32, 0i32),
                pivot: (0i32, 0i32),
                rel: pos,
                group,
            }),
            dim.0 >= 0 && dim.1 >= 0 ==> r@.wf(),
    {
        WidgetInternal {
            flags,
            dim,
            min_dim: (0, 0),
            pivot: (0, 0),
            rel: pos,
            group,
        }
    }

    fn check_min(&mut self)
        ensures
            final(self)@ == (InternalView { dim: fit(old(self)@.dim, old(self)@.min_dim), ..old(self)@ }),
            final(self)@.wf(),
    {
        self.dim = fit_exec(self.dim, self.min_dim);
    }

    /// Sets the relative position and the size.
    pub fn set_boundaries(&mut self, bounds: Boundaries)
        ensures
            final(self)@ == (InternalView {
                rel: (bounds.0, bounds.1),
                dim: fit((bounds.2, bounds.3), old(self)@.min_dim),
                ..old(self)@
            }),
            final(self)@.wf(),
    {
        self.rel = (bounds.0, bounds.1);
        self.dim = (bounds.2, bounds.3);
        self.check_min();
    }

    /// Sets the relative position.
    pub fn set_position(&mut self, pos: Position)
        ensures
            final(self)@ == (InternalView { rel: pos, ..old(self)@ }),
    {
        self.rel = pos;
    }

    /// Sets the pivot; the relative position is kept, so the absolute one follows.
    pub fn set_pivot(&mut self, pivot: Position)
        ensures
            final(self)@ == (InternalView { pivot, ..old(self)@ }),
    {
        self.pivot = pivot;
    }

    /// Sets the size, never below the minimum size.
    pub fn set_dimensions(&mut self, dim: Dimensions)
        ensures
            final(self)@ == (InternalView { dim: fit(dim, old(self)@.min_dim), ..old(self)@ }),
            final(self)@.wf(),
    {
        self.dim = dim;
        self.check_min();
    }

    /// Sets the minimum size and raises the size to it.
    pub fn set_min_dimensions(&mut self, dim: Dimensions)
        ensures
            final(self)@ == (InternalView { min_dim: dim, dim: fit(old(self)@.dim, dim), ..old(self)@ }),
            final(self)@.wf(),
    {
        self.min_dim = dim;
        self.check_min();
    }

    /// Sets the relative x coordinate.
    pub fn set_x(&mut self, x: i32)
        ensures
            final(self)@ == (InternalView { rel: (x, old(self)@.rel.1), ..old(self)@ }),
    {
        self.rel.0 = x;
    }

    /// Sets the relative y coordinate.
    pub fn set_y(&mut self, y: i32)
        ensures
            final(self)@ == (InternalView { rel: (old(self)@.rel.0, y), ..old(self)@ }),
    {
        self.rel.1 = y;
    }

    /// Sets the width, never below the minimum width.
    pub fn set_width(&mut self, width: i32)
        ensures
            final(self)@ == (InternalView {
                dim: fit((width, old(self)@.dim.1), old(self)@.min_dim),
                ..old(self)@
            }),
    {
        self.dim.0 = width;
        self.check_min();
    }

    /// Sets the height, never below the minimum height.
    pub fn set_height(&mut self, height: i32)
        ensures
            final(self)@ == (InternalView {
                dim: fit((old(self)@.dim.0, height), old(self)@.min_dim),
                ..old(self)@
            }),
    {
        self.dim.1 = height;
        self.check_min();
    }

    /// Relative position and size.
    pub fn boundaries_rel(&self) -> (r: Boundaries)
        ensures
            r == (self@.rel.0, self@.rel.1, self@.dim.0, self@.dim.1),
    {
        (self.rel.0, self.rel.1, self.dim.0, self.dim.1)
    }

    /// Absolute position and size.
    pub fn boundaries_abs(&self) -> (r: Boundaries)
        ensures
            r == (self@.absolute().0, self@.absolute().1, self@.dim.0, self@.dim.1),
    {
        let pos = self.absolute_pos();
        (pos.0, pos.1, self.dim.0, self.dim.1)
    }

    /// Position relative to the pivot.
    pub fn relative_pos(&self) -> (r: Position)
        ensures
            r == self@.rel,
    {
        self.rel
    }

    /// Absolute position.
    pub fn absolute_pos(&self) -> (r: Position)
        ensures
            r == self@.absolute(),
    {
        (clamp_sum(self.pivot.0, self.rel.0), clamp_sum(self.pivot.1, self.rel.1))
    }

    /// Minimum size, for layouts.
    pub fn min_dimensions(&self) -> (r: Dimensions)
        ensures
            r == self@.min_dim,
    {
        self.min_dim
    }

    pub fn dimensions(&self) -> (r: Dimensions)
        ensures
            r == self@.dim,
    {
        self.dim
    }

    /// Whether the widget is visible and its area, edges included, holds `p`.
    pub fn p_intersect(&self, p: Position) -> (r: bool)
        ensures
            r == self@.intersects(p),
    {
        let pos = self.absolute_pos();
        self.flags & VISIBLE == VISIBLE && p.0 as i64 >= pos.0 as i64 && p.0 as i64 <= pos.0 as i64
            + self.dim.0 as i64 && p.1 as i64 >= pos.1 as i64 && p.1 as i64 <= pos.1 as i64
            + self.dim.1 as i64
    }
}

/// A node of the widget tree. Every hook has a default, so a widget overrides
/// only what it needs. `C` is the drawing context.
pub trait Widget<C> {
    /// What the widget keeps true of its own state between calls; nothing by default.
    open spec fn inv(&self) -> bool {
        true
    }

    /// Draws the widget; returns whether it wants to be drawn again.
    fn draw(&mut self, internal: &WidgetInternal, ctx: &mut C) -> (r: bool)
        requires
            old(self).inv(),
        ensures
            final(self).inv(),
    {
        false
    }

    /// Updates the state of the widget.
    fn update(&mut self, internal: &mut WidgetInternal)
        requires
            old(self).inv(),
        ensures
            final(self).inv(),
    {
    }

    /// Updates the layout of the widget.
    fn layout(&mut self, internal: &mut WidgetInternal, complete: bool)
        requires
            old(self).inv(),
        ensures
            final(self).inv(),
    {
    }

    /// Called by a container on the members of a group when that group is signalled.
    fn handle_signal(&mut self, internal: &mut WidgetInternal, group: GroupID)
        requires
            old(self).inv(),
        ensures
            final(self).inv(),
    {
    }

    /// Called by a container when the mouse is over the widget or the widget holds the capture.
    fn handle_mouse(&mut self, internal: &mut WidgetInternal, mouse: &MouseState)
        requires
            old(self).inv(),
        ensures
            final(self).inv(),
    {
    }

    /// Called by a container on its focused widget.
    fn handle_keys(&mut self, internal: &mut WidgetInternal, key: KeyState)
        requires
            old(self).inv(),
        ensures
            final(self).inv(),
    {
    }

    /// Asked by a container while stepping the focus: whether the widget takes it.
    /// By default a widget takes the focus when it does not hold it yet.
    fn step_focus(&mut self, internal: &mut WidgetInternal, back: bool) -> (r: bool)
        requires
            old(self).inv(),
        ensures
            final(self).inv(),
        default_ensures
            r == !holds(old(internal)@.flags, FOCUS),
            final(internal)@ == old(internal)@.with_flags(old(internal)@.flags | DRAW),
    {
        let check = !internal.check(FOCUS);
        internal.on(DRAW);
        check
    }

    /// Called when the pointer leaves the widget.
    fn hover_out(&mut self, internal: &mut WidgetInternal)
        requires
            old(self).inv(),
        ensures
            final(self).inv(),
        default_ensures
            final(internal)@ == old(internal)@.with_flags(old(internal)@.flags | DRAW),
    {
        internal.on(DRAW);
    }

    /// Called when the widget loses the focus.
    fn focus_out(&mut self, internal: &mut WidgetInternal)
        requires
            old(self).inv(),
        ensures
            final(self).inv(),
        default_ensures
            final(internal)@ == old(internal)@.with_flags(old(internal)@.flags | DRAW),
    {
        internal.on(DRAW);
    }

    /// Smallest size the widget can take.
    fn min_dimensions(&self) -> (r: Dimensions)
        requires
            self.inv(),
        default_ensures
            r == (0i32, 0i32),
    {
        (0, 0)
    }
}

} // verus!
