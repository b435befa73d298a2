//! A list of widgets that dispatches the widget hooks to the right children.
//!
//! A container implements `Widget`, so containers nest. It keeps three promises
//! about its children: a child has FOCUS exactly when it is the focused child, and
//! only the hovered child may have HOVER or GRAB.
use crate::decorator::Decorator;
use crate::flags::{
    holds, is_bit, lemma_flag_algebra, lemma_named_bits, Flags, DRAW, ENABLED, FOCUS, GRAB,
    HOVER, LAYOUT, PARTIAL, PREV_LAYOUT, SIGNAL, UPDATE, VISIBLE,
};
use crate::group::{Group, GroupID};
use crate::layout::Layout;
use crate::state::{KeyState, MouseState};
use crate::widget::{fit, Boundaries, Dimensions, InternalView, Position, Widget, WidgetInternal};
use core::marker::PhantomData;
use vstd::prelude::*;

verus! {

/// FOCUS | GRAB | HOVER: the flags that only the container sets on its children
pub const HANDLERS: Flags = FOCUS | GRAB | HOVER;
/// DRAW | UPDATE | LAYOUT | PREV_LAYOUT: what a child reports to its container
pub const REACTIVE: Flags = DRAW | UPDATE | LAYOUT | PREV_LAYOUT;
/// FOCUS | ENABLED | VISIBLE: a child that may keep the focus
pub const FOCUSABLE: Flags = FOCUS | ENABLED | VISIBLE;
/// FOCUS | PREV_LAYOUT: cleared on a child that loses the focus
pub const DRAIN_FOCUS: Flags = FOCUS | PREV_LAYOUT;
/// HOVER | GRAB | PREV_LAYOUT: cleared on a child that loses the pointer
pub const DRAIN_HOVER: Flags = HOVER | GRAB | PREV_LAYOUT;
/// LAYOUT | PARTIAL: set on a container whose children asked for a relayout
pub const PARTIAL_TURN: Flags = LAYOUT | PARTIAL;

/// Whether the stored index `id` is `i`.
pub open spec fn is_at(id: Option<usize>, i: int) -> bool {
    match id {
        Some(j) => j as int == i,
        None => false,
    }
}

/// The handler flags of `children` agree with the focused and hovered indices:
/// a child has FOCUS exactly when it is the focused one, and HOVER or GRAB only
/// when it is the hovered one.
pub open spec fn consistent(children: Seq<InternalView>, focus: Option<usize>, hover: Option<usize>) -> bool {
    &&& (focus matches Some(f) ==> f < children.len())
    &&& (hover matches Some(h) ==> h < children.len())
    &&& forall|i: int|
        0 <= i < children.len() ==> (holds(#[trigger] children[i].flags, FOCUS) <==> is_at(focus, i))
    &&& forall|i: int|
        0 <= i < children.len() ==> (holds(#[trigger] children[i].flags, GRAB) ==> is_at(hover, i))
    &&& forall|i: int|
        0 <= i < children.len() ==> (holds(#[trigger] children[i].flags, HOVER) ==> is_at(hover, i))
}

/// A stored index after the removal of the child at `k`: cleared when it was `k`,
/// moved down by one when it was above `k`.
pub open spec fn repaired(id: Option<usize>, k: usize) -> Option<usize> {
    match id {
        Some(i) => if i == k {
            None
        } else if i > k {
            Some((i - 1) as usize)
        } else {
            Some(i)
        },
        None => None,
    }
}

/// Relies on `Vec::shrink_to_fit`, which only lowers the capacity: the
/// elements stay as they are.
#[verifier::external_body]
fn shrink<T>(v: &mut Vec<T>)
    ensures
        final(v)@ == old(v)@,
{
    v.shrink_to_fit();
}

fn repair_index(id: Option<usize>, k: usize) -> (r: Option<usize>)
    ensures
        r == repaired(id, k),
{
    match id {
        Some(i) => if i == k {
            None
        } else if i > k {
            Some(i - 1)
        } else {
            Some(i)
        },
        None => None,
    }
}

/// The index after `c` in the direction of `back` among `n` children; none past the ends.
pub open spec fn next_index(c: usize, back: bool, n: usize) -> Option<usize> {
    if back {
        if c == 0 {
            None
        } else {
            Some((c - 1) as usize)
        }
    } else {
        if c + 1 >= n {
            None
        } else {
            Some((c + 1) as usize)
        }
    }
}

fn step_index(c: usize, back: bool, n: usize) -> (r: Option<usize>)
    requires
        c < n,
    ensures
        r == next_index(c, back, n),
{
    if back {
        if c == 0 {
            None
        } else {
            Some(c - 1)
        }
    } else {
        if c + 1 >= n {
            None
        } else {
            Some(c + 1)
        }
    }
}

/// Where stepping starts among `n > 0` children when none is focused: the first
/// child forward, the last one backward.
pub open spec fn start_index(n: usize, back: bool) -> usize {
    if back {
        (n - 1) as usize
    } else {
        0
    }
}

fn first_index(n: usize, back: bool) -> (r: usize)
    requires
        n > 0,
    ensures
        r == start_index(n, back),
{
    if back {
        n - 1
    } else {
        0
    }
}

/// `f` lies past `o` in the direction of `back`.
pub open spec fn beyond(f: usize, o: Option<usize>, back: bool) -> bool {
    match o {
        Some(o) => if back {
            f < o
        } else {
            f > o
        },
        None => true,
    }
}

/// `r` is the first child, in list order, that the pointer at `p` is over.
pub open spec fn is_first_hit(c: Seq<InternalView>, p: Position, r: Option<usize>) -> bool {
    match r {
        Some(j) => j < c.len() && c[j as int].intersects(p) && forall|k: int| 0 <= k < j ==> !(#[trigger] c[k]).intersects(p),
        None => forall|k: int| 0 <= k < c.len() ==> !(#[trigger] c[k]).intersects(p),
    }
}

/// Where the pointer at `p` goes: to the hovered child while it holds GRAB or the
/// pointer is still over it, else to the first child the pointer is over.
pub open spec fn routes_to(c: Seq<InternalView>, hover: Option<usize>, p: Position, r: Option<usize>) -> bool {
    if hover is Some && hover->0 < c.len() && (holds(c[hover->0 as int].flags, GRAB) || c[hover->0 as int].intersects(p)) {
        r == hover
    } else {
        is_first_hit(c, p, r)
    }
}

/// While the hovered child holds GRAB, the pointer goes to it wherever it is.
pub proof fn lemma_capture_routes(c: Seq<InternalView>, hover: Option<usize>, p: Position, r: Option<usize>)
    requires
        routes_to(c, hover, p, r),
        hover matches Some(k) && k < c.len() && holds(c[k as int].flags, GRAB),
    ensures
        r == hover,
{
}

/// FOCUS, GRAB and HOVER stand in `a` as in `b`.
pub open spec fn same_handlers(a: Flags, b: Flags) -> bool {
    &&& holds(a, FOCUS) == holds(b, FOCUS)
    &&& holds(a, GRAB) == holds(b, GRAB)
    &&& holds(a, HOVER) == holds(b, HOVER)
}

/// The named constants of this module, bit by bit.
proof fn lemma_masks()
    ensures
        PREV_LAYOUT & (ENABLED | VISIBLE) == 0,
        PREV_LAYOUT & (ENABLED | VISIBLE | GRAB | HOVER) == 0,
        (LAYOUT | PREV_LAYOUT) & (ENABLED | VISIBLE) == 0,
        is_bit(FOCUS) && is_bit(GRAB) && is_bit(HOVER) && is_bit(DRAW) && is_bit(UPDATE),
        is_bit(VISIBLE) && is_bit(ENABLED) && is_bit(LAYOUT) && is_bit(PREV_LAYOUT),
        is_bit(PARTIAL) && is_bit(SIGNAL),
        holds(HANDLERS, FOCUS) && holds(HANDLERS, GRAB) && holds(HANDLERS, HOVER),
        !holds(HANDLERS, DRAW) && !holds(HANDLERS, UPDATE) && !holds(HANDLERS, LAYOUT),
        !holds(HANDLERS, PREV_LAYOUT) && !holds(HANDLERS, PARTIAL),
        !holds(HANDLERS, VISIBLE) && !holds(HANDLERS, ENABLED),
        holds(REACTIVE, DRAW) && holds(REACTIVE, UPDATE) && holds(REACTIVE, LAYOUT),
        holds(REACTIVE, PREV_LAYOUT),
        !holds(REACTIVE, FOCUS) && !holds(REACTIVE, GRAB) && !holds(REACTIVE, HOVER),
        !holds(REACTIVE, PARTIAL),
        holds(DRAIN_FOCUS, FOCUS) && holds(DRAIN_FOCUS, PREV_LAYOUT),
        !holds(DRAIN_FOCUS, GRAB) && !holds(DRAIN_FOCUS, HOVER) && !holds(DRAIN_FOCUS, UPDATE),
        holds(DRAIN_HOVER, GRAB) && holds(DRAIN_HOVER, HOVER) && holds(DRAIN_HOVER, PREV_LAYOUT),
        !holds(DRAIN_HOVER, FOCUS) && !holds(DRAIN_HOVER, UPDATE),
        holds(PARTIAL_TURN, LAYOUT) && holds(PARTIAL_TURN, PARTIAL),
        !holds(PARTIAL_TURN, PREV_LAYOUT) && !holds(PARTIAL_TURN, UPDATE),
        !holds(PARTIAL_TURN, GRAB) && !holds(PARTIAL_TURN, FOCUS),
        forall|f: Flags| #[trigger]
            holds(f, FOCUSABLE) == (holds(f, FOCUS) && holds(f, ENABLED) && holds(f, VISIBLE)),
{
    lemma_flag_algebra();
    lemma_named_bits();
    assert(PREV_LAYOUT & (ENABLED | VISIBLE) == 0) by (bit_vector);
    assert(PREV_LAYOUT & (ENABLED | VISIBLE | GRAB | HOVER) == 0) by (bit_vector);
    assert((LAYOUT | PREV_LAYOUT) & (ENABLED | VISIBLE) == 0) by (bit_vector);
}

/// Only the reactive flags of `after` may differ from those of `before`.
pub open spec fn reported(before: Flags, after: Flags) -> bool {
    after & !REACTIVE == before & !REACTIVE
}

/// Turning on reported flags changes nothing else.
proof fn lemma_report(f: Flags, x: Flags)
    by (bit_vector)
    ensures
        (f | (x & REACTIVE)) & !REACTIVE == f & !REACTIVE,
        (f | (x & (DRAW | LAYOUT | PREV_LAYOUT))) & !REACTIVE == f & !REACTIVE,
        (f | (x & (DRAW | UPDATE))) & !REACTIVE == f & !REACTIVE,
{
}

/// A flag outside the reactive ones is the same on both sides of `reported`.
proof fn lemma_reported_bit(before: Flags, after: Flags, b: Flags)
    requires
        reported(before, after),
        is_bit(b),
        !holds(REACTIVE, b),
    ensures
        holds(after, b) == holds(before, b),
{
    lemma_flag_algebra();
    assert(holds(after & !REACTIVE, b) == holds(before & !REACTIVE, b));
}

proof fn lemma_children_update(v: Seq<WidgetInternal>, k: int, w: WidgetInternal)
    requires
        0 <= k < v.len(),
    ensures
        v.update(k, w).map_values(|x: WidgetInternal| x@) == v.map_values(|x: WidgetInternal| x@).update(k, w@),
{
    assert(v.update(k, w).map_values(|x: WidgetInternal| x@) =~= v.map_values(|x: WidgetInternal| x@).update(
        k,
        w@,
    ));
}

/// Replacing one child by a record whose handler flags agree with the new
/// indices keeps the children consistent, where the indices change at most at
/// that child.
proof fn lemma_consistent_update(
    c: Seq<InternalView>,
    focus: Option<usize>,
    hover: Option<usize>,
    k: int,
    v: InternalView,
    focus2: Option<usize>,
    hover2: Option<usize>,
)
    requires
        consistent(c, focus, hover),
        0 <= k < c.len(),
        focus2 matches Some(f) ==> f < c.len(),
        hover2 matches Some(h) ==> h < c.len(),
        forall|i: int| i != k ==> (is_at(focus2, i) == is_at(focus, i)),
        forall|i: int| i != k ==> (is_at(hover2, i) == is_at(hover, i)),
        holds(v.flags, FOCUS) <==> is_at(focus2, k),
        holds(v.flags, GRAB) ==> is_at(hover2, k),
        holds(v.flags, HOVER) ==> is_at(hover2, k),
    ensures
        consistent(c.update(k, v), focus2, hover2),
{
    let d = c.update(k, v);
    assert forall|i: int| 0 <= i < d.len() implies (holds(#[trigger] d[i].flags, FOCUS) <==> is_at(focus2, i)) by {
        if i != k {
            assert(d[i] == c[i]);
        }
    }
    assert forall|i: int| 0 <= i < d.len() && holds(#[trigger] d[i].flags, GRAB) implies is_at(hover2, i) by {
        if i != k {
            assert(d[i] == c[i]);
        }
    }
    assert forall|i: int| 0 <= i < d.len() && holds(#[trigger] d[i].flags, HOVER) implies is_at(hover2, i) by {
        if i != k {
            assert(d[i] == c[i]);
        }
    }
}

/// After a hook, restoring the saved handler flags brings them back.
proof fn lemma_restore(f: Flags, clear: Flags, saved: Flags)
    by (bit_vector)
    ensures
        same_handlers(((f & !clear) & !HANDLERS) | ((saved & HANDLERS) & HANDLERS), saved),
{
}

/// Restoring the handler flags leaves ENABLED and VISIBLE as the hook left them.
proof fn lemma_restore_keeps(f: Flags, clear: Flags, saved: Flags)
    by (bit_vector)
    requires
        clear & (ENABLED | VISIBLE) == 0,
    ensures
        holds(((f & !clear) & !HANDLERS) | ((saved & HANDLERS) & HANDLERS), ENABLED) == holds(f, ENABLED),
        holds(((f & !clear) & !HANDLERS) | ((saved & HANDLERS) & HANDLERS), VISIBLE) == holds(f, VISIBLE),
{
}

/// Handler flags saved before a layout strategy ran, put back after it.
proof fn lemma_restore_plain(f: Flags, saved: Flags)
    by (bit_vector)
    ensures
        same_handlers((f & !HANDLERS) | ((saved & HANDLERS) & HANDLERS), saved),
{
}

/// Clearing LAYOUT and PARTIAL at the end of a layout pass.
proof fn lemma_layout_done(f: Flags)
    by (bit_vector)
    ensures
        !holds(f & !PARTIAL_TURN, LAYOUT),
        !holds(f & !PARTIAL_TURN, PARTIAL),
        holds(f & !PARTIAL_TURN, GRAB) == holds(f, GRAB),
        holds(f & !PARTIAL_TURN, FOCUS) == holds(f, FOCUS),
        holds(f & !PARTIAL_TURN, PREV_LAYOUT) == holds(f, PREV_LAYOUT),
{
}

/// What a child keeps of DRAW and UPDATE shows on its container too.
pub open spec fn draw_update_passed_up(child: Flags, parent: Flags) -> bool {
    &&& (holds(child, DRAW) ==> holds(parent, DRAW))
    &&& (holds(child, UPDATE) ==> holds(parent, UPDATE))
}

/// Clearing LAYOUT and PARTIAL keeps DRAW and UPDATE.
proof fn lemma_layout_done_keeps(f: Flags)
    by (bit_vector)
    ensures
        holds(f, DRAW) ==> holds(f & !PARTIAL_TURN, DRAW),
        holds(f, UPDATE) ==> holds(f & !PARTIAL_TURN, UPDATE),
{
}

/// Records whose handler flags agree one by one with consistent ones are consistent.
proof fn lemma_consistent_same_handlers(
    c: Seq<InternalView>,
    d: Seq<InternalView>,
    focus: Option<usize>,
    hover: Option<usize>,
)
    requires
        consistent(c, focus, hover),
        c.len() == d.len(),
        forall|j: int| 0 <= j < d.len() ==> same_handlers(#[trigger] d[j].flags, c[j].flags),
    ensures
        consistent(d, focus, hover),
{
    assert forall|i: int| 0 <= i < d.len() implies (holds(#[trigger] d[i].flags, FOCUS) <==> is_at(focus, i)) by {
        assert(same_handlers(d[i].flags, c[i].flags));
    }
    assert forall|i: int| 0 <= i < d.len() && holds(#[trigger] d[i].flags, GRAB) implies is_at(hover, i) by {
        assert(same_handlers(d[i].flags, c[i].flags));
    }
    assert forall|i: int| 0 <= i < d.len() && holds(#[trigger] d[i].flags, HOVER) implies is_at(hover, i) by {
        assert(same_handlers(d[i].flags, c[i].flags));
    }
}

/// Giving a child the focus changes no other flag.
proof fn lemma_focus_on(f: Flags)
    by (bit_vector)
    ensures
        holds(f | FOCUS, FOCUS),
        holds(f | FOCUS, GRAB) == holds(f, GRAB),
        holds(f | FOCUS, HOVER) == holds(f, HOVER),
        holds(f | FOCUS, ENABLED) == holds(f, ENABLED),
        holds(f | FOCUS, VISIBLE) == holds(f, VISIBLE),
        holds(f | FOCUS, DRAW) == holds(f, DRAW),
        holds(f | FOCUS, UPDATE) == holds(f, UPDATE),
        holds(f | FOCUS, LAYOUT) == holds(f, LAYOUT),
        keeps_dirty(f, f | FOCUS),
{
}

/// Setting HOVER touches neither FOCUS nor GRAB.
proof fn lemma_hover_bits(f: Flags)
    by (bit_vector)
    ensures
        holds(f | HOVER, FOCUS) == holds(f, FOCUS),
        holds(f | HOVER, GRAB) == holds(f, GRAB),
        holds(f & !HOVER, FOCUS) == holds(f, FOCUS),
        holds(f & !HOVER, GRAB) == holds(f, GRAB),
{
}

/// Putting back FOCUS alone leaves GRAB, HOVER, ENABLED and VISIBLE as they were.
proof fn lemma_restore_focus(f: Flags, clear: Flags, saved: Flags)
    by (bit_vector)
    requires
        clear & (ENABLED | VISIBLE | GRAB | HOVER) == 0,
    ensures
        holds(((f & !clear) & !FOCUS) | ((saved & HANDLERS) & FOCUS), FOCUS) == holds(saved, FOCUS),
        holds(((f & !clear) & !FOCUS) | ((saved & HANDLERS) & FOCUS), GRAB) == holds(f, GRAB),
        holds(((f & !clear) & !FOCUS) | ((saved & HANDLERS) & FOCUS), HOVER) == holds(f, HOVER),
        holds(((f & !clear) & !FOCUS) | ((saved & HANDLERS) & FOCUS), ENABLED) == holds(f, ENABLED),
        holds(((f & !clear) & !FOCUS) | ((saved & HANDLERS) & FOCUS), VISIBLE) == holds(f, VISIBLE),
{
}

/// A new child starts with no handler flag.
proof fn lemma_handlers_off(f: Flags)
    by (bit_vector)
    ensures
        !holds(f & !HANDLERS, FOCUS),
        !holds(f & !HANDLERS, GRAB),
        !holds(f & !HANDLERS, HOVER),
{
}

/// Turning UPDATE on or off touches no other flag that callers read.
proof fn lemma_turn_update(f: Flags)
    by (bit_vector)
    ensures
        holds(f | UPDATE, UPDATE),
        !holds(f & !UPDATE, UPDATE),
        holds(f | UPDATE, GRAB) == holds(f, GRAB),
        holds(f & !UPDATE, GRAB) == holds(f, GRAB),
        holds(f | UPDATE, FOCUS) == holds(f, FOCUS),
        holds(f & !UPDATE, FOCUS) == holds(f, FOCUS),
        holds(f | UPDATE, PREV_LAYOUT) == holds(f, PREV_LAYOUT),
        holds(f & !UPDATE, PREV_LAYOUT) == holds(f, PREV_LAYOUT),
        holds(f | UPDATE, DRAW) == holds(f, DRAW),
        holds(f & !UPDATE, DRAW) == holds(f, DRAW),
        holds(f | UPDATE, LAYOUT) == holds(f, LAYOUT),
        holds(f & !UPDATE, LAYOUT) == holds(f, LAYOUT),
        holds(f | UPDATE, PARTIAL) == holds(f, PARTIAL),
        holds(f & !UPDATE, PARTIAL) == holds(f, PARTIAL),
{
}

/// Turning GRAB on or off.
proof fn lemma_turn_grab(f: Flags)
    by (bit_vector)
    ensures
        holds(f | GRAB, GRAB),
        !holds(f & !GRAB, GRAB),
        keeps_dirty(f, f | GRAB),
        keeps_dirty(f, f & !GRAB),
{
}

/// A child just laid out: DRAW set to VISIBLE, LAYOUT and PREV_LAYOUT drained,
/// handler flags put back.
pub open spec fn laid_out(f: Flags) -> bool {
    holds(f, DRAW) == holds(f, VISIBLE) && !holds(f, LAYOUT) && !holds(f, PREV_LAYOUT)
}

proof fn lemma_laid_out(f: Flags, saved: Flags)
    by (bit_vector)
    ensures
        holds(f, VISIBLE) ==> laid_out(((((f | DRAW) & !(LAYOUT | PREV_LAYOUT))) & !HANDLERS) | ((saved & HANDLERS) & HANDLERS)),
        !holds(f, VISIBLE) ==> laid_out(((((f & !DRAW) & !(LAYOUT | PREV_LAYOUT))) & !HANDLERS) | ((saved & HANDLERS) & HANDLERS)),
{
}

/// Turning DRAW off touches no handler flag.
proof fn lemma_draw_bits(f: Flags)
    by (bit_vector)
    ensures
        holds(f, DRAW | VISIBLE) == (holds(f, DRAW) && holds(f, VISIBLE)),
        same_handlers(f & !DRAW, f),
        !holds(f & !DRAW, DRAW),
        holds(f & !DRAW, VISIBLE) == holds(f, VISIBLE),
{
}

/// After `focus_out`, FOCUS is off and GRAB and HOVER are as saved.
proof fn lemma_focus_released(f: Flags, saved: Flags)
    by (bit_vector)
    ensures
        !holds(((f & !DRAIN_FOCUS) & !(GRAB | HOVER)) | ((saved & HANDLERS) & (GRAB | HOVER)), FOCUS),
        holds(((f & !DRAIN_FOCUS) & !(GRAB | HOVER)) | ((saved & HANDLERS) & (GRAB | HOVER)), GRAB)
            == holds(saved, GRAB),
        holds(((f & !DRAIN_FOCUS) & !(GRAB | HOVER)) | ((saved & HANDLERS) & (GRAB | HOVER)), HOVER)
            == holds(saved, HOVER),
{
}

/// After `hover_out`, GRAB and HOVER are off and FOCUS is as saved.
proof fn lemma_hover_released(f: Flags, saved: Flags)
    by (bit_vector)
    ensures
        !holds(((f & !DRAIN_HOVER) & !FOCUS) | ((saved & HANDLERS) & FOCUS), GRAB),
        !holds(((f & !DRAIN_HOVER) & !FOCUS) | ((saved & HANDLERS) & FOCUS), HOVER),
        holds(((f & !DRAIN_HOVER) & !FOCUS) | ((saved & HANDLERS) & FOCUS), FOCUS) == holds(saved, FOCUS),
{
}

/// What a child keeps of DRAW, UPDATE and LAYOUT shows on its container too.
pub open spec fn passed_up(child: Flags, parent: Flags) -> bool {
    &&& (holds(child, DRAW) ==> holds(parent, DRAW))
    &&& (holds(child, UPDATE) ==> holds(parent, UPDATE))
    &&& (holds(child, LAYOUT) ==> holds(parent, LAYOUT))
}

/// `after` keeps every DRAW, UPDATE, LAYOUT and PREV_LAYOUT of `before`.
pub open spec fn keeps_dirty(before: Flags, after: Flags) -> bool {
    &&& (holds(before, DRAW) ==> holds(after, DRAW))
    &&& (holds(before, UPDATE) ==> holds(after, UPDATE))
    &&& (holds(before, LAYOUT) ==> holds(after, LAYOUT))
    &&& (holds(before, PREV_LAYOUT) ==> holds(after, PREV_LAYOUT))
}

/// A relayout request on the container before a call ends as LAYOUT and PARTIAL.
pub open spec fn promoted(before: Flags, after: Flags) -> bool {
    holds(before, PREV_LAYOUT) ==> holds(after, LAYOUT) && holds(after, PARTIAL)
}

proof fn lemma_on_keeps(f: Flags, d: Flags)
    by (bit_vector)
    ensures
        keeps_dirty(f, f | d),
{
}

/// A child restored after a hook whose reactive flags were reported.
proof fn lemma_pass_reactive(fi: Flags, fh: Flags, saved: Flags)
    by (bit_vector)
    ensures
        passed_up(((fh & !PREV_LAYOUT) & !HANDLERS) | ((saved & HANDLERS) & HANDLERS), fi | (fh & REACTIVE)),
{
}

/// A child after `focus_out`, whose reactive flags were reported.
proof fn lemma_pass_focus_out(fi: Flags, fh: Flags, saved: Flags)
    by (bit_vector)
    ensures
        passed_up(
            ((fh & !DRAIN_FOCUS) & !(GRAB | HOVER)) | ((saved & HANDLERS) & (GRAB | HOVER)),
            fi | (fh & REACTIVE),
        ),
{
}

/// A child after `update`, whose DRAW and layout requests were reported.
proof fn lemma_pass_update(fi: Flags, fh: Flags, saved: Flags)
    by (bit_vector)
    ensures
        holds(((fh & !PREV_LAYOUT) & !HANDLERS) | ((saved & HANDLERS) & HANDLERS), DRAW) ==> holds(
            fi | (fh & (DRAW | LAYOUT | PREV_LAYOUT)),
            DRAW,
        ),
        holds(((fh & !PREV_LAYOUT) & !HANDLERS) | ((saved & HANDLERS) & HANDLERS), LAYOUT) ==> holds(
            fi | (fh & (DRAW | LAYOUT | PREV_LAYOUT)),
            LAYOUT,
        ),
{
}

/// A child after `layout`, whose DRAW and UPDATE were reported.
proof fn lemma_pass_layout(fi: Flags, fh: Flags, saved: Flags)
    by (bit_vector)
    ensures
        passed_up(
            ((fh & !(LAYOUT | PREV_LAYOUT)) & !HANDLERS) | ((saved & HANDLERS) & HANDLERS),
            fi | (fh & (DRAW | UPDATE)),
        ),
{
}

/// Settles the answer `again` of a drawn child: one that wants no further frame
/// has its DRAW turned off.
fn settle_draw(w: &mut WidgetInternal, again: bool)
    ensures
        final(w)@ == (if again {
            old(w)@
        } else {
            old(w)@.with_flags(old(w)@.flags & !DRAW)
        }),
{
    if !again {
        w.off(DRAW);
    }
}

/// Moves a relayout request of a child up one level: PREV_LAYOUT on the
/// container becomes LAYOUT and PARTIAL.
fn promote_layout(internal: &mut WidgetInternal)
    ensures
        final(internal)@ == old(internal)@.with_flags(final(internal)@.flags),
        !holds(final(internal)@.flags, PREV_LAYOUT),
        holds(old(internal)@.flags, PREV_LAYOUT) ==> holds(final(internal)@.flags, LAYOUT) && holds(
            final(internal)@.flags,
            PARTIAL,
        ),
        !holds(old(internal)@.flags, PREV_LAYOUT) ==> final(internal)@ == old(internal)@,
        passed_up(old(internal)@.flags, final(internal)@.flags),
        forall|b: Flags|
            is_bit(b) && b != PREV_LAYOUT && b != LAYOUT && b != PARTIAL ==> #[trigger] holds(
                final(internal)@.flags,
                b,
            ) == holds(old(internal)@.flags, b),
{
    proof {
        lemma_masks();
        lemma_flag_algebra();
    }
    if internal.check(PREV_LAYOUT) {
        internal.off_on(PREV_LAYOUT, PARTIAL_TURN);
    }
}

/// Widget list that dispatches the widget hooks.
pub struct Container<C, W, L, D> {
    widgets_i: Vec<WidgetInternal>,
    widgets: Vec<W>,
    layout: L,
    focus_id: Option<usize>,
    mouse_id: Option<usize>,
    decorator: D,
    context: PhantomData<C>,
}

impl<C, W: Widget<C>, L: Layout, D: Decorator<C>> Container<C, W, L, D> {
    pub open spec fn views(wi: Seq<WidgetInternal>) -> Seq<InternalView> {
        wi.map_values(|w: WidgetInternal| w@)
    }

    /// Paired lists, children that keep their own invariant, handler flags that
    /// agree with the indices.
    pub open spec fn parts_wf(wi: Seq<WidgetInternal>, ws: Seq<W>, focus: Option<usize>, hover: Option<usize>) -> bool {
        &&& wi.len() == ws.len()
        &&& forall|i: int| 0 <= i < ws.len() ==> (#[trigger] ws[i]).inv()
        &&& consistent(Self::views(wi), focus, hover)
    }

    /// Replacing one child, and its record by one with the same handler flags,
    /// keeps the parts well formed.
    proof fn lemma_child_replaced(
        wi: Seq<WidgetInternal>,
        ws: Seq<W>,
        focus: Option<usize>,
        hover: Option<usize>,
        k: int,
        w: WidgetInternal,
        x: W,
    )
        requires
            Self::parts_wf(wi, ws, focus, hover),
            0 <= k < wi.len(),
            x.inv(),
            same_handlers(w@.flags, wi[k]@.flags),
        ensures
            Self::parts_wf(wi.update(k, w), ws.update(k, x), focus, hover),
            Self::views(wi.update(k, w)) == Self::views(wi).update(k, w@),
    {
        let c = Self::views(wi);
        lemma_children_update(wi, k, w);
        assert(holds(c[k].flags, FOCUS) == is_at(focus, k));
        assert(holds(c[k].flags, GRAB) ==> is_at(hover, k));
        assert(holds(c[k].flags, HOVER) ==> is_at(hover, k));
        lemma_consistent_update(c, focus, hover, k, w@, focus, hover);
        let ws2 = ws.update(k, x);
        assert forall|i: int| 0 <= i < ws2.len() implies (#[trigger] ws2[i]).inv() by {
            if i != k {
                assert(ws2[i] == ws[i]);
            }
        }
    }

    /// The records of the children, in order.
    pub closed spec fn children(&self) -> Seq<InternalView> {
        Self::views(self.widgets_i@)
    }

    /// Index of the focused child.
    pub closed spec fn focused(&self) -> Option<usize> {
        self.focus_id
    }

    /// Index of the hovered child, which receives the pointer.
    pub closed spec fn hovered(&self) -> Option<usize> {
        self.mouse_id
    }

    /// The children themselves.
    pub closed spec fn widgets(&self) -> Seq<W> {
        self.widgets@
    }

    /// The two lists stay paired, every child keeps its own invariant, and the
    /// handler flags agree with the stored indices.
    pub closed spec fn wf(&self) -> bool {
        Self::parts_wf(self.widgets_i@, self.widgets@, self.focus_id, self.mouse_id)
    }

    /// Creates an empty container with a decorator and a layout.
    pub fn new(decorator: D, layout: L) -> (r: Self)
        ensures
            r.wf(),
            r.children() == Seq::<InternalView>::empty(),
            r.focused() is None,
            r.hovered() is None,
    {
        let r = Container {
            widgets_i: Vec::new(),
            widgets: Vec::new(),
            layout,
            focus_id: None,
            mouse_id: None,
            decorator,
            context: PhantomData,
        };
        assert(r.children() =~= Seq::<InternalView>::empty());
        r
    }

    /// Gives back the spare capacity of the two lists and moves the container
    /// into a box.
    pub fn pack(self) -> (r: Box<Self>)
        ensures
            r.children() == self.children(),
            r.widgets() == self.widgets(),
            r.focused() == self.focused(),
            r.hovered() == self.hovered(),
            self.wf() ==> r.wf(),
    {
        let mut c = self;
        shrink(&mut c.widgets_i);
        shrink(&mut c.widgets);
        Box::new(c)
    }

    /// Number of children.
    pub fn len(&self) -> (r: usize)
        ensures
            r == self.children().len(),
    {
        self.widgets_i.len()
    }

    /// Index of the focused child.
    pub fn focus_id(&self) -> (r: Option<usize>)
        ensures
            r == self.focused(),
    {
        self.focus_id
    }

    /// Index of the hovered child.
    pub fn hover_id(&self) -> (r: Option<usize>)
        ensures
            r == self.hovered(),
    {
        self.mouse_id
    }

    /// The record of the child at `index`.
    pub fn internal_at(&self, index: usize) -> (r: Option<&WidgetInternal>)
        ensures
            index < self.children().len() ==> r is Some && r->0@ == self.children()[index as int],
            index >= self.children().len() ==> r is None,
    {
        if index < self.widgets_i.len() {
            Some(&self.widgets_i[index])
        } else {
            None
        }
    }

    fn push_child(&mut self, widget: W, internal: WidgetInternal)
        requires
            old(self).wf(),
            widget.inv(),
            !holds(internal@.flags, FOCUS),
            !holds(internal@.flags, GRAB),
            !holds(internal@.flags, HOVER),
        ensures
            final(self).wf(),
            final(self).children() == old(self).children().push(internal@),
            final(self).focused() == old(self).focused(),
            final(self).hovered() == old(self).hovered(),
    {
        self.widgets_i.push(internal);
        self.widgets.push(widget);
        assert(self.children() =~= old(self).children().push(internal@));
        assert forall|i: int| 0 <= i < self.widgets@.len() implies (#[trigger] self.widgets@[i]).inv() by {
            if i < old(self).widgets@.len() {
                assert(self.widgets@[i] == old(self).widgets@[i]);
            }
        }
        let ghost c = self.children();
        assert forall|i: int| 0 <= i < c.len() implies (holds(#[trigger] c[i].flags, FOCUS) <==> is_at(self.focus_id, i)) by {
            if i < old(self).children().len() {
                assert(c[i] == old(self).children()[i]);
            } else {
                assert(c[i] == internal@);
            }
        }
    }

    /// Adds a widget at the end of the list, with the given flags (FOCUS, GRAB and
    /// HOVER left off) and group, at position and size zero.
    pub fn add_widget(&mut self, widget: W, flags: Flags, group: Group)
        requires
            old(self).wf(),
            widget.inv(),
        ensures
            final(self).wf(),
            final(self).children().len() == old(self).children().len() + 1,
            final(self).children().drop_last() == old(self).children(),
            final(self).children().last() == (InternalView {
                flags: flags & !HANDLERS,
                dim: fit((0i32, 0i32), final(self).children().last().min_dim),
                pivot: (0i32, 0i32),
                rel: (0i32, 0i32),
                group,
                ..final(self).children().last()
            }),
            final(self).focused() == old(self).focused(),
            final(self).hovered() == old(self).hovered(),
    {
        let mut internal = WidgetInternal::new(flags, group);
        internal.off(HANDLERS);
        internal.set_min_dimensions(widget.min_dimensions());
        proof {
            lemma_handlers_off(flags);
        }
        self.push_child(widget, internal);
    }

    /// Adds a widget at the end of the list, with the given flags (FOCUS, GRAB and
    /// HOVER left off), group and relative position and size.
    pub fn add_widget_b(&mut self, widget: W, flags: Flags, group: Group, bounds: Boundaries)
        requires
            old(self).wf(),
            widget.inv(),
        ensures
            final(self).wf(),
            final(self).children().len() == old(self).children().len() + 1,
            final(self).children().drop_last() == old(self).children(),
            final(self).children().last() == (InternalView {
                flags: flags & !HANDLERS,
                dim: fit((bounds.2, bounds.3), final(self).children().last().min_dim),
                pivot: (0i32, 0i32),
                rel: (bounds.0, bounds.1),
                group,
                ..final(self).children().last()
            }),
            final(self).focused() == old(self).focused(),
            final(self).hovered() == old(self).hovered(),
    {
        let mut internal = WidgetInternal::new_with((bounds.0, bounds.1), (bounds.2, bounds.3), flags, group);
        internal.off(HANDLERS);
        internal.set_min_dimensions(widget.min_dimensions());
        proof {
            lemma_handlers_off(flags);
        }
        self.push_child(widget, internal);
    }

    /// Removes the child at `index` and hands it back. A stored focused or hovered
    /// index that was `index` is cleared; one above it moves down by one.
    pub fn remove_widget(&mut self, index: usize) -> (r: W)
        requires
            old(self).wf(),
            index < old(self).children().len(),
        ensures
            final(self).wf(),
            r == old(self).widgets()[index as int],
            final(self).widgets() == old(self).widgets().remove(index as int),
            final(self).children() == old(self).children().remove(index as int),
            final(self).focused() == repaired(old(self).focused(), index),
            final(self).hovered() == repaired(old(self).hovered(), index),
    {
        self.focus_id = repair_index(self.focus_id, index);
        self.mouse_id = repair_index(self.mouse_id, index);
        self.widgets_i.remove(index);
        let r = self.widgets.remove(index);
        let ghost c = self.children();
        let ghost o = old(self).children();
        assert(c =~= o.remove(index as int));
        assert forall|i: int| 0 <= i < self.widgets@.len() implies (#[trigger] self.widgets@[i]).inv() by {
            if i < index {
                assert(self.widgets@[i] == old(self).widgets@[i]);
            } else {
                assert(self.widgets@[i] == old(self).widgets@[i + 1]);
            }
        }
        assert forall|i: int| 0 <= i < c.len() implies (holds(#[trigger] c[i].flags, FOCUS) <==> is_at(
            self.focus_id,
            i,
        )) by {
            if i < index {
                assert(c[i] == o[i]);
            } else {
                assert(c[i] == o[i + 1]);
            }
        }
        assert forall|i: int| 0 <= i < c.len() && holds(#[trigger] c[i].flags, GRAB) implies is_at(
            self.mouse_id,
            i,
        ) by {
            if i < index {
                assert(c[i] == o[i]);
            } else {
                assert(c[i] == o[i + 1]);
            }
        }
        assert forall|i: int| 0 <= i < c.len() && holds(#[trigger] c[i].flags, HOVER) implies is_at(
            self.mouse_id,
            i,
        ) by {
            if i < index {
                assert(c[i] == o[i]);
            } else {
                assert(c[i] == o[i + 1]);
            }
        }
        r
    }

    /// Takes the focus from the focused child, if any: calls its `focus_out`,
    /// reports its reactive flags to `internal` and clears its FOCUS.
    fn release_focus(&mut self, internal: &mut WidgetInternal)
        requires
            old(self).wf(),
        ensures
            final(self).wf(),
            final(self).focused() is None,
            final(self).hovered() == old(self).hovered(),
            final(self).children().len() == old(self).children().len(),
            forall|i: int|
                0 <= i < old(self).children().len() && !is_at(old(self).focused(), i)
                    ==> #[trigger] final(self).children()[i] == old(self).children()[i],
            old(self).focused() matches Some(f) ==> {
                let (a, b) = (old(self).children()[f as int].flags, final(self).children()[f as int].flags);
                !holds(b, FOCUS) && holds(b, GRAB) == holds(a, GRAB) && holds(b, HOVER) == holds(a, HOVER)
            },
            old(self).focused() matches Some(f) ==> passed_up(
                final(self).children()[f as int].flags,
                final(internal)@.flags,
            ),
            old(self).focused() is None ==> final(self).children() == old(self).children() && final(internal)@
                == old(internal)@,
            final(internal)@ == old(internal)@.with_flags(final(internal)@.flags),
            reported(old(internal)@.flags, final(internal)@.flags),
            keeps_dirty(old(internal)@.flags, final(internal)@.flags),
    {
        if let Some(id) = self.focus_id {
            let ghost o = self.children();
            let ghost f0 = self.widgets_i@[id as int]@.flags;
            let backup = self.widgets_i[id].val(HANDLERS);
            self.widgets[id].focus_out(&mut self.widgets_i[id]);
            let ghost fh = self.widgets_i@[id as int]@.flags;
            let d = self.widgets_i[id].drain(REACTIVE, DRAIN_FOCUS);
            proof {
                lemma_report(internal@.flags, fh);
            }
            internal.on(d);
            self.widgets_i[id].replace(GRAB | HOVER, backup);
            self.focus_id = None;
            proof {
                let v = self.widgets_i@[id as int]@;
                lemma_focus_released(fh, f0);
                lemma_pass_focus_out(old(internal)@.flags, fh, f0);
                lemma_on_keeps(old(internal)@.flags, d);
                lemma_children_update(old(self).widgets_i@, id as int, self.widgets_i@[id as int]);
                assert(self.widgets_i@ =~= old(self).widgets_i@.update(id as int, self.widgets_i@[id as int]));
                assert(holds(o[id as int].flags, FOCUS));
                lemma_consistent_update(o, Some(id), self.mouse_id, id as int, v, None, self.mouse_id);
                assert forall|i: int| 0 <= i < self.widgets@.len() implies (#[trigger] self.widgets@[i]).inv() by {
                    if i != id {
                        assert(self.widgets@[i] == old(self).widgets@[i]);
                    }
                }
            }
        } else {
            proof {
                assert(reported(internal@.flags, internal@.flags));
            }
        }
    }

    /// Takes the pointer from the hovered child, if any: calls its `hover_out`,
    /// reports its reactive flags to `internal` and clears its HOVER and GRAB.
    fn release_hover(&mut self, internal: &mut WidgetInternal)
        requires
            old(self).wf(),
        ensures
            final(self).wf(),
            final(self).hovered() is None,
            final(self).focused() == old(self).focused(),
            final(self).children().len() == old(self).children().len(),
            forall|i: int|
                0 <= i < old(self).children().len() && !is_at(old(self).hovered(), i)
                    ==> #[trigger] final(self).children()[i] == old(self).children()[i],
            old(self).hovered() is None ==> final(self).children() == old(self).children() && final(internal)@
                == old(internal)@,
            final(internal)@ == old(internal)@.with_flags(final(internal)@.flags),
            reported(old(internal)@.flags, final(internal)@.flags),
            keeps_dirty(old(internal)@.flags, final(internal)@.flags),
    {
        if let Some(id) = self.mouse_id {
            let ghost o = self.children();
            let ghost f0 = self.widgets_i@[id as int]@.flags;
            let backup = self.widgets_i[id].val(HANDLERS);
            self.widgets[id].hover_out(&mut self.widgets_i[id]);
            let ghost fh = self.widgets_i@[id as int]@.flags;
            let d = self.widgets_i[id].drain(REACTIVE, DRAIN_HOVER);
            proof {
                lemma_report(internal@.flags, fh);
            }
            internal.on(d);
            self.widgets_i[id].replace(FOCUS, backup);
            self.mouse_id = None;
            proof {
                let v = self.widgets_i@[id as int]@;
                lemma_hover_released(fh, f0);
                lemma_on_keeps(old(internal)@.flags, d);
                lemma_children_update(old(self).widgets_i@, id as int, self.widgets_i@[id as int]);
                assert(self.widgets_i@ =~= old(self).widgets_i@.update(id as int, self.widgets_i@[id as int]));
                assert(holds(o[id as int].flags, FOCUS) == is_at(self.focus_id, id as int));
                lemma_consistent_update(o, self.focus_id, Some(id), id as int, v, self.focus_id, None);
                assert forall|i: int| 0 <= i < self.widgets@.len() implies (#[trigger] self.widgets@[i]).inv() by {
                    if i != id {
                        assert(self.widgets@[i] == old(self).widgets@[i]);
                    }
                }
            }
        } else {
            proof {
                assert(reported(internal@.flags, internal@.flags));
            }
        }
    }

    /// Takes the focus from the focused child when it is no longer enabled and visible.
    fn focus_check(&mut self, internal: &mut WidgetInternal)
        requires
            old(self).wf(),
        ensures
            final(self).wf(),
            final(self).hovered() == old(self).hovered(),
            final(self).children().len() == old(self).children().len(),
            forall|i: int|
                0 <= i < old(self).children().len() && !is_at(old(self).focused(), i)
                    ==> #[trigger] final(self).children()[i] == old(self).children()[i],
            final(self).focused() is None || final(self).focused() == old(self).focused(),
            final(self).focused() matches Some(f) ==> holds(final(self).children()[f as int].flags, FOCUSABLE),
            final(self).focused() == old(self).focused() ==> final(self).children() == old(self).children()
                && final(internal)@ == old(internal)@,
            old(self).focused() is Some && final(self).focused() is None ==> passed_up(
                final(self).children()[old(self).focused()->0 as int].flags,
                final(internal)@.flags,
            ),
            final(internal)@ == old(internal)@.with_flags(final(internal)@.flags),
            reported(old(internal)@.flags, final(internal)@.flags),
            keeps_dirty(old(internal)@.flags, final(internal)@.flags),
    {
        if let Some(id) = self.focus_id {
            if !self.widgets_i[id].check(FOCUSABLE) {
                self.release_focus(internal);
            } else {
                proof {
                    assert(reported(internal@.flags, internal@.flags));
                }
            }
        } else {
            proof {
                assert(reported(internal@.flags, internal@.flags));
            }
        }
    }

    /// Whether some child has every flag of `mask` on.
    fn any_child(&self, mask: Flags) -> (r: bool)
        requires
            self.wf(),
        ensures
            r == exists|i: int| 0 <= i < self.children().len() && holds(#[trigger] self.children()[i].flags, mask),
    {
        let mut i: usize = 0;
        while i < self.widgets_i.len()
            invariant
                self.wf(),
                i <= self.children().len(),
                forall|j: int| 0 <= j < i ==> !holds(#[trigger] self.children()[j].flags, mask),
            decreases self.children().len() - i,
        {
            if self.widgets_i[i].check(mask) {
                assert(holds(self.children()[i as int].flags, mask));
                return true;
            }
            i = i + 1;
        }
        false
    }

    /// Runs the layout strategy over the records of the children, then puts back
    /// their handler flags, which only the container sets, and updates the decorator.
    fn apply_layout(&mut self, internal: &WidgetInternal)
        requires
            old(self).wf(),
        ensures
            final(self).wf(),
            final(self).focused() == old(self).focused(),
            final(self).hovered() == old(self).hovered(),
            final(self).children().len() == old(self).children().len(),
    {
        let n = self.widgets_i.len();
        let ghost c0 = self.children();
        let mut saved: Vec<Flags> = Vec::new();
        let mut i: usize = 0;
        while i < n
            invariant
                self.wf(),
                n == self.children().len(),
                c0 == self.children(),
                i <= n,
                saved@.len() == i,
                forall|j: int| 0 <= j < i ==> #[trigger] saved@[j] == c0[j].flags & HANDLERS,
            decreases n - i,
        {
            saved.push(self.widgets_i[i].val(HANDLERS));
            i = i + 1;
        }
        self.layout.layout(self.widgets_i.as_mut_slice(), internal);
        let ghost wi1 = self.widgets_i@;
        let mut i: usize = 0;
        while i < n
            invariant
                self.widgets_i@.len() == n,
                self.widgets@ == old(self).widgets@,
                self.focus_id == old(self).focus_id,
                self.mouse_id == old(self).mouse_id,
                Self::parts_wf(old(self).widgets_i@, old(self).widgets@, self.focus_id, self.mouse_id),
                c0 == old(self).children(),
                saved@.len() == n,
                i <= n,
                forall|j: int| 0 <= j < n ==> #[trigger] saved@[j] == c0[j].flags & HANDLERS,
                forall|j: int| 0 <= j < i ==> same_handlers(#[trigger] self.widgets_i@[j]@.flags, c0[j].flags),
            decreases n - i,
        {
            let ghost f = self.widgets_i@[i as int]@.flags;
            self.widgets_i[i].replace(HANDLERS, saved[i]);
            proof {
                lemma_restore_plain(f, c0[i as int].flags);
            }
            i = i + 1;
        }
        proof {
            let d = self.children();
            assert forall|j: int| 0 <= j < d.len() implies same_handlers(#[trigger] d[j].flags, c0[j].flags) by {
                assert(d[j] == self.widgets_i@[j]@);
            }
            lemma_consistent_same_handlers(c0, d, self.focus_id, self.mouse_id);
        }
        self.decorator.update(internal);
    }

    /// The child that the pointer at `p` goes to.
    fn mouse_target(&self, p: Position) -> (r: Option<usize>)
        requires
            self.wf(),
        ensures
            routes_to(self.children(), self.hovered(), p, r),
    {
        if let Some(h) = self.mouse_id {
            assert(self.children()[h as int] == self.widgets_i@[h as int]@);
            if self.widgets_i[h].check(GRAB) || self.widgets_i[h].p_intersect(p) {
                return Some(h);
            }
        }
        let mut i: usize = 0;
        while i < self.widgets_i.len()
            invariant
                self.wf(),
                i <= self.children().len(),
                forall|k: int| 0 <= k < i ==> !(#[trigger] self.children()[k]).intersects(p),
                self.mouse_id matches Some(h) ==> !(holds(self.children()[h as int].flags, GRAB)
                    || self.children()[h as int].intersects(p)),
            decreases self.children().len() - i,
        {
            assert(self.children()[i as int] == self.widgets_i@[i as int]@);
            if self.widgets_i[i].p_intersect(p) {
                return Some(i);
            }
            i = i + 1;
        }
        None
    }

    /// Hands the mouse to the hovered child `n`, then settles the focus: `n` is
    /// focused afterwards exactly when it has FOCUS, ENABLED and VISIBLE on, and
    /// a child that held the focus before loses it to `n`. The container's own
    /// GRAB follows the child's.
    fn route_mouse(&mut self, internal: &mut WidgetInternal, mouse: &MouseState, n: usize)
        requires
            old(self).wf(),
            old(self).hovered() == Some(n),
        ensures
            final(self).wf(),
            final(self).hovered() == Some(n),
            final(self).children().len() == old(self).children().len(),
            forall|i: int|
                0 <= i < old(self).children().len() && i != n && !is_at(old(self).focused(), i)
                    ==> #[trigger] final(self).children()[i] == old(self).children()[i],
            (final(self).focused() == Some(n)) == holds(final(self).children()[n as int].flags, FOCUSABLE),
            final(self).focused() matches Some(f) ==> f == n || final(self).focused() == old(self).focused(),
            holds(final(internal)@.flags, GRAB) == holds(final(self).children()[n as int].flags, GRAB),
            final(internal)@ == old(internal)@.with_flags(final(internal)@.flags),
            keeps_dirty(old(internal)@.flags, final(internal)@.flags),
    {
        proof {
            lemma_masks();
        }
        let ghost wi0 = self.widgets_i@;
        let ghost c0 = self.children();
        let p = mouse.absolute_pos();
        proof {
            assert(c0[n as int] == wi0[n as int]@);
            lemma_hover_bits(wi0[n as int]@.flags);
        }
        if self.widgets_i[n].check(GRAB) {
            let hit = self.widgets_i[n].p_intersect(p);
            self.widgets_i[n].turn(HOVER, hit);
        } else {
            self.widgets_i[n].on(HOVER);
        }
        proof {
            let v = self.widgets_i@[n as int]@;
            lemma_children_update(wi0, n as int, self.widgets_i@[n as int]);
            assert(self.widgets_i@ =~= wi0.update(n as int, self.widgets_i@[n as int]));
            assert(holds(c0[n as int].flags, FOCUS) == is_at(self.focus_id, n as int));
            lemma_consistent_update(c0, self.focus_id, self.mouse_id, n as int, v, self.focus_id, self.mouse_id);
        }
        let ghost wi1 = self.widgets_i@;
        let ghost ws1 = self.widgets@;
        let ghost c1 = self.children();
        let backup = self.widgets_i[n].val(HANDLERS);
        self.widgets[n].handle_mouse(&mut self.widgets_i[n], mouse);
        let ghost fh = self.widgets_i@[n as int]@.flags;
        let focusable = self.widgets_i[n].check(FOCUSABLE);
        let wanted = self.widgets_i[n].check(FOCUS);
        let d = self.widgets_i[n].drain(REACTIVE, PREV_LAYOUT);
        proof {
            lemma_report(internal@.flags, fh);
            lemma_on_keeps(internal@.flags, d);
        }
        internal.on(d);
        self.widgets_i[n].replace(FOCUS, backup);
        proof {
            let v = self.widgets_i@[n as int]@;
            lemma_restore_focus(fh, PREV_LAYOUT, wi1[n as int]@.flags);
            assert(c1[n as int] == wi1[n as int]@);
            lemma_children_update(wi1, n as int, self.widgets_i@[n as int]);
            assert(self.widgets_i@ =~= wi1.update(n as int, self.widgets_i@[n as int]));
            assert(self.widgets@ =~= ws1.update(n as int, self.widgets@[n as int]));
            assert(holds(c1[n as int].flags, FOCUS) == is_at(self.focus_id, n as int));
            lemma_consistent_update(c1, self.focus_id, self.mouse_id, n as int, v, self.focus_id, self.mouse_id);
            assert forall|i: int| 0 <= i < self.widgets@.len() implies (#[trigger] self.widgets@[i]).inv() by {
                if i != n {
                    assert(self.widgets@[i] == ws1[i]);
                }
            }
            assert forall|i: int| 0 <= i < c0.len() && i != n implies #[trigger] self.children()[i] == c0[i] by {
                assert(c1[i] == c0[i]);
            }
        }
        let grabbing = self.widgets_i[n].check(GRAB);
        proof {
            lemma_turn_grab(internal@.flags);
        }
        internal.turn(GRAB, grabbing);
        let ghost c2 = self.children();
        let ghost g = internal@.flags;
        let focused_here = match self.focus_id {
            Some(id) => id == n,
            None => false,
        };
        if focusable {
            if !focused_here {
                let was_none = self.focus_id.is_none();
                self.release_focus(internal);
                let ghost wi2 = self.widgets_i@;
                let ghost c3 = self.children();
                proof {
                    assert(c3[n as int] == c2[n as int]);
                    assert(c3[n as int] == wi2[n as int]@);
                    lemma_focus_on(wi2[n as int]@.flags);
                }
                self.widgets_i[n].on(FOCUS);
                self.focus_id = Some(n);
                proof {
                    let v = self.widgets_i@[n as int]@;
                    lemma_children_update(wi2, n as int, self.widgets_i@[n as int]);
                    assert(self.widgets_i@ =~= wi2.update(n as int, self.widgets_i@[n as int]));
                    lemma_consistent_update(c3, None, self.mouse_id, n as int, v, Some(n), self.mouse_id);
                    assert forall|i: int| 0 <= i < c0.len() && i != n && !is_at(old(self).focused(), i) implies #[trigger] self.children()[i] == c0[i] by {
                        assert(c3[i] == c2[i]);
                    }
                    lemma_reported_bit(g, internal@.flags, GRAB);
                    lemma_focus_on(internal@.flags);
                }
                if was_none {
                    internal.on(FOCUS);
                }
            }
        } else if focused_here {
            self.release_focus(internal);
            proof {
                lemma_reported_bit(g, internal@.flags, GRAB);
            }
        } else if wanted {
            self.refuse_focus(internal, n);
            proof {
                lemma_reported_bit(g, internal@.flags, GRAB);
            }
        }
    }

    /// Tells the child `k`, which is not focused and asked for the focus while not
    /// enabled or not visible, that it has none: calls its `focus_out` and reports
    /// its reactive flags to `internal`. Its handler flags stay as they were.
    fn refuse_focus(&mut self, internal: &mut WidgetInternal, k: usize)
        requires
            old(self).wf(),
            k < old(self).children().len(),
            !is_at(old(self).focused(), k as int),
        ensures
            final(self).wf(),
            final(self).focused() == old(self).focused(),
            final(self).hovered() == old(self).hovered(),
            final(self).children().len() == old(self).children().len(),
            forall|i: int|
                0 <= i < old(self).children().len() && i != k ==> #[trigger] final(self).children()[i] == old(
                    self,
                ).children()[i],
            same_handlers(final(self).children()[k as int].flags, old(self).children()[k as int].flags),
            final(internal)@ == old(internal)@.with_flags(final(internal)@.flags),
            reported(old(internal)@.flags, final(internal)@.flags),
            keeps_dirty(old(internal)@.flags, final(internal)@.flags),
    {
        let ghost wi0 = self.widgets_i@;
        let ghost ws0 = self.widgets@;
        let backup = self.widgets_i[k].val(HANDLERS);
        self.widgets[k].focus_out(&mut self.widgets_i[k]);
        let ghost fh = self.widgets_i@[k as int]@.flags;
        let d = self.widgets_i[k].drain(REACTIVE, DRAIN_FOCUS);
        proof {
            lemma_report(internal@.flags, fh);
            lemma_on_keeps(internal@.flags, d);
        }
        internal.on(d);
        self.widgets_i[k].replace(HANDLERS, backup);
        proof {
            lemma_restore(fh, DRAIN_FOCUS, wi0[k as int]@.flags);
            assert(self.widgets_i@ =~= wi0.update(k as int, self.widgets_i@[k as int]));
            assert(self.widgets@ =~= ws0.update(k as int, self.widgets@[k as int]));
            Self::lemma_child_replaced(
                wi0,
                ws0,
                self.focus_id,
                self.mouse_id,
                k as int,
                self.widgets_i@[k as int],
                self.widgets@[k as int],
            );
            assert(self.children()[k as int] == self.widgets_i@[k as int]@);
        }
    }

    /// Settles the answer `keep` of the focused child asked to step its own focus:
    /// when it keeps the focus nothing changes and stepping stops; otherwise it
    /// loses the focus and stepping goes on from the index past it.
    fn settle_focused(&mut self, internal: &mut WidgetInternal, keep: bool, back: bool) -> (next: Option<usize>)
        requires
            old(self).wf(),
            old(self).focused() is Some,
        ensures
            final(self).wf(),
            final(self).hovered() == old(self).hovered(),
            final(self).children().len() == old(self).children().len(),
            keep ==> next is None && final(self).focused() == old(self).focused() && final(self).children()
                == old(self).children() && final(internal)@ == old(internal)@,
            !keep ==> {
                let f = old(self).focused()->0;
                &&& next == next_index(f, back, old(self).children().len() as usize)
                &&& final(self).focused() is None
                &&& !holds(final(self).children()[f as int].flags, FOCUS)
                &&& passed_up(final(self).children()[f as int].flags, final(internal)@.flags)
                &&& forall|i: int|
                    0 <= i < old(self).children().len() && i != f ==> #[trigger] final(self).children()[i]
                        == old(self).children()[i]
            },
            final(internal)@ == old(internal)@.with_flags(final(internal)@.flags),
            reported(old(internal)@.flags, final(internal)@.flags),
            keeps_dirty(old(internal)@.flags, final(internal)@.flags),
    {
        if keep {
            proof {
                assert(reported(internal@.flags, internal@.flags));
            }
            None
        } else {
            let f = self.focus_id.unwrap();
            self.release_focus(internal);
            step_index(f, back, self.widgets_i.len())
        }
    }

    /// Settles the answer `took` of the candidate `c` while no child is focused:
    /// a candidate that took the focus gets FOCUS and becomes the focused child,
    /// and stepping stops; otherwise nothing changes and stepping moves on.
    fn settle_candidate(&mut self, c: usize, took: bool, back: bool) -> (next: Option<usize>)
        requires
            old(self).wf(),
            old(self).focused() is None,
            c < old(self).children().len(),
        ensures
            final(self).wf(),
            final(self).hovered() == old(self).hovered(),
            final(self).children().len() == old(self).children().len(),
            took ==> next is None && final(self).focused() == Some(c) && final(self).children() == old(
                self,
            ).children().update(
                c as int,
                old(self).children()[c as int].with_flags(old(self).children()[c as int].flags | FOCUS),
            ),
            !took ==> next == next_index(c, back, old(self).children().len() as usize) && final(self).focused()
                is None && final(self).children() == old(self).children(),
    {
        if took {
            let ghost wi0 = self.widgets_i@;
            let ghost c0 = self.children();
            proof {
                assert(c0[c as int] == wi0[c as int]@);
                lemma_focus_on(wi0[c as int]@.flags);
                assert(holds(c0[c as int].flags, GRAB) ==> is_at(self.mouse_id, c as int));
                assert(holds(c0[c as int].flags, HOVER) ==> is_at(self.mouse_id, c as int));
            }
            self.widgets_i[c].on(FOCUS);
            self.focus_id = Some(c);
            proof {
                let v = self.widgets_i@[c as int]@;
                lemma_children_update(wi0, c as int, self.widgets_i@[c as int]);
                assert(self.widgets_i@ =~= wi0.update(c as int, self.widgets_i@[c as int]));
                lemma_consistent_update(c0, None, self.mouse_id, c as int, v, Some(c), self.mouse_id);
            }
            None
        } else {
            step_index(c, back, self.widgets_i.len())
        }
    }

    /// In a well-formed container the lists are paired and the handler flags
    /// agree with the stored indices: a child has FOCUS exactly when it is the
    /// focused one, and HOVER or GRAB only when it is the hovered one.
    pub proof fn lemma_bookkeeping(c: &Self)
        requires
            c.wf(),
        ensures
            consistent(c.children(), c.focused(), c.hovered()),
            c.widgets().len() == c.children().len(),
    {
    }

    /// In a well-formed container at most one child has FOCUS and at most one has
    /// GRAB. Every operation of a container keeps it well formed, so this holds
    /// after any sequence of dispatches.
    pub proof fn lemma_single_focus_and_grab(c: &Self)
        requires
            c.wf(),
        ensures
            forall|i: int, j: int|
                0 <= i < c.children().len() && 0 <= j < c.children().len() && holds(
                    #[trigger] c.children()[i].flags,
                    FOCUS,
                ) && holds(#[trigger] c.children()[j].flags, FOCUS) ==> i == j,
            forall|i: int, j: int|
                0 <= i < c.children().len() && 0 <= j < c.children().len() && holds(
                    #[trigger] c.children()[i].flags,
                    GRAB,
                ) && holds(#[trigger] c.children()[j].flags, GRAB) ==> i == j,
    {
    }
}

impl<C, W: Widget<C>, L: Layout, D: Decorator<C>> Widget<C> for Container<C, W, L, D> {
    open spec fn inv(&self) -> bool {
        self.wf()
    }

    /// Draws the children that have DRAW and VISIBLE on, between the decorator's
    /// two hooks. A drawn child that asks for no further frame has its DRAW turned
    /// off; every other child is left as it was. The result tells whether a child
    /// still has DRAW and VISIBLE on.
    fn draw(&mut self, internal: &WidgetInternal, ctx: &mut C) -> (r: bool)
        ensures
            final(self).focused() == old(self).focused(),
            final(self).hovered() == old(self).hovered(),
            final(self).children().len() == old(self).children().len(),
            forall|i: int|
                0 <= i < old(self).children().len() ==> {
                    let (a, b) = (old(self).children()[i], #[trigger] final(self).children()[i]);
                    &&& (holds(a.flags, DRAW) && holds(a.flags, VISIBLE) ==> b == a || b == a.with_flags(
                        a.flags & !DRAW,
                    ))
                    &&& (!(holds(a.flags, DRAW) && holds(a.flags, VISIBLE)) ==> b == a)
                },
            r == exists|i: int|
                0 <= i < final(self).children().len() && holds(#[trigger] final(self).children()[i].flags, DRAW)
                    && holds(final(self).children()[i].flags, VISIBLE),
    {
        self.decorator.before(internal, ctx);
        let n = self.widgets_i.len();
        let mut drew = false;
        let mut i: usize = 0;
        while i < n
            invariant
                self.wf(),
                n == self.children().len(),
                n == old(self).children().len(),
                i <= n,
                self.focused() == old(self).focused(),
                self.hovered() == old(self).hovered(),
                forall|j: int| i <= j < n ==> #[trigger] self.children()[j] == old(self).children()[j],
                forall|j: int|
                    0 <= j < i ==> {
                        let (a, b) = (old(self).children()[j], #[trigger] self.children()[j]);
                        &&& (holds(a.flags, DRAW) && holds(a.flags, VISIBLE) ==> b == a || b == a.with_flags(
                            a.flags & !DRAW,
                        ))
                        &&& (!(holds(a.flags, DRAW) && holds(a.flags, VISIBLE)) ==> b == a)
                    },
                drew == exists|j: int|
                    0 <= j < i && holds(#[trigger] self.children()[j].flags, DRAW) && holds(
                        self.children()[j].flags,
                        VISIBLE,
                    ),
            decreases n - i,
        {
            let ghost c0 = self.children();
            let ghost wi0 = self.widgets_i@;
            let ghost ws0 = self.widgets@;
            let ghost drew0 = drew;
            proof {
                lemma_draw_bits(wi0[i as int]@.flags);
                assert(c0[i as int] == wi0[i as int]@);
            }
            if self.widgets_i[i].check(DRAW | VISIBLE) {
                let again = self.widgets[i].draw(&self.widgets_i[i], ctx);
                settle_draw(&mut self.widgets_i[i], again);
                if again {
                    drew = true;
                }
            }
            proof {
                assert(self.widgets_i@ =~= wi0.update(i as int, self.widgets_i@[i as int]));
                assert(self.widgets@ =~= ws0.update(i as int, self.widgets@[i as int]));
                Self::lemma_child_replaced(
                    wi0,
                    ws0,
                    self.focus_id,
                    self.mouse_id,
                    i as int,
                    self.widgets_i@[i as int],
                    self.widgets@[i as int],
                );
                assert forall|j: int| 0 <= j < n && j != i implies #[trigger] self.children()[j] == c0[j] by {}
                assert(self.children()[i as int] == self.widgets_i@[i as int]@);
                let b = self.children()[i as int].flags;
                if drew0 {
                    let w = choose|j: int| 0 <= j < i && holds(#[trigger] c0[j].flags, DRAW) && holds(c0[j].flags, VISIBLE);
                    assert(self.children()[w] == c0[w]);
                } else if drew {
                    assert(holds(b, DRAW) && holds(b, VISIBLE));
                } else {
                    assert(!(holds(b, DRAW) && holds(b, VISIBLE)));
                    assert forall|j: int| 0 <= j < i + 1 implies !(holds(#[trigger] self.children()[j].flags, DRAW)
                        && holds(self.children()[j].flags, VISIBLE)) by {
                        if j < i {
                            assert(self.children()[j] == c0[j]);
                        }
                    }
                }
            }
            i = i + 1;
        }
        self.decorator.after(internal, ctx);
        drew
    }

    /// Lays the children out. With `complete`, or with PARTIAL on the container,
    /// the layout strategy runs and every child is laid out; otherwise only the
    /// children with LAYOUT on are. Each child laid out gets the container's
    /// absolute position as pivot and DRAW as its VISIBLE, and reports DRAW and
    /// UPDATE. LAYOUT and PARTIAL end off on the container.
    fn layout(&mut self, internal: &mut WidgetInternal, complete: bool)
        ensures
            final(self).hovered() == old(self).hovered(),
            final(self).children().len() == old(self).children().len(),
            forall|i: int|
                0 <= i < old(self).children().len() && (complete || holds(old(internal)@.flags, PARTIAL) || holds(
                    old(self).children()[i].flags,
                    LAYOUT,
                )) && (!is_at(old(self).focused(), i) || final(self).focused() == old(self).focused())
                    ==> laid_out(#[trigger] final(self).children()[i].flags),
            forall|i: int|
                0 <= i < old(self).children().len() && (complete || holds(old(internal)@.flags, PARTIAL) || holds(
                    old(self).children()[i].flags,
                    LAYOUT,
                )) ==> draw_update_passed_up(#[trigger] final(self).children()[i].flags, final(internal)@.flags),
            !complete && !holds(old(internal)@.flags, PARTIAL) ==> forall|i: int|
                0 <= i < old(self).children().len() && !holds(old(self).children()[i].flags, LAYOUT)
                    && !is_at(old(self).focused(), i) ==> #[trigger] final(self).children()[i] == old(
                    self,
                ).children()[i],
            final(self).focused() is None || final(self).focused() == old(self).focused(),
            final(self).focused() matches Some(f) ==> holds(final(self).children()[f as int].flags, FOCUSABLE),
            final(internal)@ == old(internal)@.with_flags(final(internal)@.flags),
            !holds(final(internal)@.flags, LAYOUT),
            !holds(final(internal)@.flags, PARTIAL),
            holds(final(internal)@.flags, GRAB) == holds(old(internal)@.flags, GRAB),
            holds(final(internal)@.flags, FOCUS) == holds(old(internal)@.flags, FOCUS),
    {
        proof {
            lemma_masks();
        }
        let ghost i0 = internal@.flags;
        let do_layout = complete || internal.check(PARTIAL);
        if do_layout {
            self.apply_layout(internal);
        }
        let ghost c1 = self.children();
        let n = self.widgets_i.len();
        let mut i: usize = 0;
        while i < n
            invariant
                self.wf(),
                n == self.children().len(),
                n == old(self).children().len(),
                i <= n,
                self.focused() == old(self).focused(),
                self.hovered() == old(self).hovered(),
                !do_layout ==> c1 == old(self).children(),
                forall|j: int| i <= j < n ==> #[trigger] self.children()[j] == c1[j],
                forall|j: int|
                    0 <= j < i && !do_layout && !holds(c1[j].flags, LAYOUT) ==> #[trigger] self.children()[j]
                        == c1[j],
                forall|j: int|
                    0 <= j < i && (do_layout || holds(c1[j].flags, LAYOUT)) ==> laid_out(
                        #[trigger] self.children()[j].flags,
                    ) && passed_up(self.children()[j].flags, internal@.flags),
                do_layout == (complete || holds(old(internal)@.flags, PARTIAL)),
                internal@ == old(internal)@.with_flags(internal@.flags),
                reported(i0, internal@.flags),
            decreases n - i,
        {
            let ghost c0 = self.children();
            let ghost ib = internal@.flags;
            if do_layout || self.widgets_i[i].check(LAYOUT) {
                let ghost wi0 = self.widgets_i@;
                let ghost ws0 = self.widgets@;
                let pivot = internal.absolute_pos();
                self.widgets_i[i].set_pivot(pivot);
                let backup = self.widgets_i[i].val(HANDLERS);
                self.widgets[i].layout(&mut self.widgets_i[i], complete);
                let ghost f_hook = self.widgets_i@[i as int]@.flags;
                let visible = self.widgets_i[i].check(VISIBLE);
                self.widgets_i[i].turn(DRAW, visible);
                let ghost fh = self.widgets_i@[i as int]@.flags;
                let d = self.widgets_i[i].drain(DRAW | UPDATE, LAYOUT | PREV_LAYOUT);
                proof {
                    lemma_report(internal@.flags, fh);
                }
                internal.on(d);
                self.widgets_i[i].replace(HANDLERS, backup);
                proof {
                    lemma_on_keeps(ib, d);
                    lemma_pass_layout(ib, fh, wi0[i as int]@.flags);
                    lemma_laid_out(f_hook, wi0[i as int]@.flags);
                    lemma_restore(fh, LAYOUT | PREV_LAYOUT, wi0[i as int]@.flags);
                    assert(self.widgets_i@ =~= wi0.update(i as int, self.widgets_i@[i as int]));
                    assert(self.widgets@ =~= ws0.update(i as int, self.widgets@[i as int]));
                    Self::lemma_child_replaced(
                        wi0,
                        ws0,
                        self.focus_id,
                        self.mouse_id,
                        i as int,
                        self.widgets_i@[i as int],
                        self.widgets@[i as int],
                    );
                    assert forall|j: int| 0 <= j < n && j != i implies #[trigger] self.children()[j] == c0[j] by {}
                }
            } else {
                assert(self.children()[i as int] == self.widgets_i@[i as int]@);
            }
            assert forall|j: int|
                0 <= j < i + 1 && !do_layout && !holds(c1[j].flags, LAYOUT) implies #[trigger] self.children()[j]
                == c1[j] by {
                assert(c0[j] == c1[j] || j < i);
            }
            assert forall|j: int|
                0 <= j < i + 1 && (do_layout || holds(c1[j].flags, LAYOUT)) implies laid_out(
                #[trigger] self.children()[j].flags,
            ) && passed_up(self.children()[j].flags, internal@.flags) by {
                if j < i {
                    assert(self.children()[j] == c0[j]);
                } else {
                    assert(c0[j] == c1[j]);
                }
            }
            i = i + 1;
        }
        let ghost c2 = self.children();
        let ghost i2 = internal@.flags;
        self.focus_check(internal);
        let ghost c3 = self.children();
        let ghost i1 = internal@.flags;
        internal.off(PARTIAL_TURN);
        proof {
            lemma_reported_bit(i0, i1, GRAB);
            lemma_reported_bit(i0, i1, FOCUS);
            lemma_layout_done(i1);
            lemma_layout_done_keeps(i1);
            assert forall|j: int|
                0 <= j < n && (do_layout || holds(c1[j].flags, LAYOUT)) implies draw_update_passed_up(
                #[trigger] c3[j].flags,
                internal@.flags,
            ) by {
                assert(passed_up(c2[j].flags, i2));
                if is_at(old(self).focused(), j) && self.focus_id is None {
                    assert(passed_up(c3[j].flags, i1));
                } else {
                    assert(c3[j] == c2[j]);
                }
            }
        }
    }

    /// Hands the signal `group` to every child that has SIGNAL on and whose group
    /// matches it. A child that turned its FOCUS on while enabled and visible takes
    /// the focus (the last such one, when several did); otherwise the focused child
    /// loses the focus when it is no longer enabled and visible.
    fn handle_signal(&mut self, internal: &mut WidgetInternal, group: GroupID)
        ensures
            final(self).hovered() == old(self).hovered(),
            final(self).children().len() == old(self).children().len(),
            forall|i: int|
                0 <= i < old(self).children().len() && !(holds(old(self).children()[i].flags, SIGNAL)
                    && old(self).children()[i].group.matches(group)) && !is_at(old(self).focused(), i)
                    ==> #[trigger] final(self).children()[i] == old(self).children()[i],
            final(self).focused() matches Some(f) ==> final(self).focused() == old(self).focused() || (holds(
                old(self).children()[f as int].flags,
                SIGNAL,
            ) && old(self).children()[f as int].group.matches(group)),
            final(self).focused() matches Some(f) ==> holds(final(self).children()[f as int].flags, FOCUSABLE),
            final(internal)@ == old(internal)@.with_flags(final(internal)@.flags),
            forall|i: int|
                0 <= i < old(self).children().len() && holds(old(self).children()[i].flags, SIGNAL)
                    && old(self).children()[i].group.matches(group) ==> passed_up(
                    #[trigger] final(self).children()[i].flags,
                    final(internal)@.flags,
                ),
            !holds(final(internal)@.flags, PREV_LAYOUT),
            promoted(old(internal)@.flags, final(internal)@.flags),
            holds(final(internal)@.flags, GRAB) == holds(old(internal)@.flags, GRAB),
            holds(final(internal)@.flags, FOCUS) == holds(old(internal)@.flags, FOCUS),
    {
        proof {
            lemma_masks();
        }
        let ghost i0 = internal@.flags;
        let ghost c1 = self.children();
        let n = self.widgets_i.len();
        let mut n_focus: Option<usize> = None;
        let mut i: usize = 0;
        while i < n
            invariant
                self.wf(),
                n == self.children().len(),
                c1 == old(self).children(),
                n == c1.len(),
                i <= n,
                self.focused() == old(self).focused(),
                self.hovered() == old(self).hovered(),
                forall|j: int| i <= j < n ==> #[trigger] self.children()[j] == c1[j],
                forall|j: int|
                    0 <= j < i && !(holds(c1[j].flags, SIGNAL) && c1[j].group.matches(group))
                        ==> #[trigger] self.children()[j] == c1[j],
                n_focus matches Some(k) ==> {
                    &&& k < i
                    &&& !is_at(self.focus_id, k as int)
                    &&& holds(c1[k as int].flags, SIGNAL) && c1[k as int].group.matches(group)
                    &&& holds(self.children()[k as int].flags, ENABLED)
                    &&& holds(self.children()[k as int].flags, VISIBLE)
                },
                forall|j: int|
                    0 <= j < i && holds(c1[j].flags, SIGNAL) && c1[j].group.matches(group) ==> passed_up(
                        #[trigger] self.children()[j].flags,
                        internal@.flags,
                    ),
                internal@ == old(internal)@.with_flags(internal@.flags),
                reported(i0, internal@.flags),
                keeps_dirty(i0, internal@.flags),
            decreases n - i,
        {
            proof {
                lemma_masks();
            }
            let ghost c0 = self.children();
            let ghost ib = internal@.flags;
            assert(c0[i as int] == self.widgets_i@[i as int]@);
            if self.widgets_i[i].check(SIGNAL) && self.widgets_i[i].group().check_id(group) {
                let ghost wi0 = self.widgets_i@;
                let ghost ws0 = self.widgets@;
                let had = self.widgets_i[i].check(FOCUS);
                let backup = self.widgets_i[i].val(HANDLERS);
                self.widgets[i].handle_signal(&mut self.widgets_i[i], group);
                let ghost fh = self.widgets_i@[i as int]@.flags;
                let wants = !had && self.widgets_i[i].check(FOCUSABLE);
                let d = self.widgets_i[i].drain(REACTIVE, PREV_LAYOUT);
                proof {
                    lemma_report(internal@.flags, fh);
                }
                internal.on(d);
                self.widgets_i[i].replace(HANDLERS, backup);
                proof {
                    lemma_on_keeps(ib, d);
                    lemma_pass_reactive(ib, fh, wi0[i as int]@.flags);
                    lemma_restore(fh, PREV_LAYOUT, wi0[i as int]@.flags);
                    lemma_restore_keeps(fh, PREV_LAYOUT, wi0[i as int]@.flags);
                    assert(self.widgets_i@ =~= wi0.update(i as int, self.widgets_i@[i as int]));
                    assert(self.widgets@ =~= ws0.update(i as int, self.widgets@[i as int]));
                    Self::lemma_child_replaced(
                        wi0,
                        ws0,
                        self.focus_id,
                        self.mouse_id,
                        i as int,
                        self.widgets_i@[i as int],
                        self.widgets@[i as int],
                    );
                    assert forall|j: int| 0 <= j < n && j != i implies #[trigger] self.children()[j] == c0[j] by {}
                    assert(holds(c0[i as int].flags, FOCUS) == is_at(self.focus_id, i as int));
                }
                if wants {
                    n_focus = Some(i);
                }
            }
            assert forall|j: int|
                0 <= j < i + 1 && !(holds(c1[j].flags, SIGNAL) && c1[j].group.matches(group)) implies #[trigger] self.children()[j]
                == c1[j] by {
                assert(c0[j] == c1[j] || j < i);
            }
            assert forall|j: int|
                0 <= j < i + 1 && holds(c1[j].flags, SIGNAL) && c1[j].group.matches(group) implies passed_up(
                #[trigger] self.children()[j].flags,
                internal@.flags,
            ) by {
                if j < i {
                    assert(self.children()[j] == c0[j]);
                } else {
                    assert(c0[j] == c1[j]);
                }
            }
            i = i + 1;
        }
        let ghost c2 = self.children();
        let ghost i2 = internal@.flags;
        if let Some(k) = n_focus {
            self.release_focus(internal);
            let ghost wi0 = self.widgets_i@;
            let ghost c0 = self.children();
            proof {
                assert(c0[k as int] == wi0[k as int]@);
                lemma_focus_on(wi0[k as int]@.flags);
            }
            self.widgets_i[k].on(FOCUS);
            self.focus_id = Some(k);
            proof {
                let v = self.widgets_i@[k as int]@;
                lemma_children_update(wi0, k as int, self.widgets_i@[k as int]);
                assert(self.widgets_i@ =~= wi0.update(k as int, self.widgets_i@[k as int]));
                assert(holds(c0[k as int].flags, GRAB) ==> is_at(self.mouse_id, k as int));
                assert(holds(c0[k as int].flags, HOVER) ==> is_at(self.mouse_id, k as int));
                lemma_consistent_update(c0, None, self.mouse_id, k as int, v, Some(k), self.mouse_id);
                assert forall|j: int| 0 <= j < n && j != k implies #[trigger] self.children()[j] == c0[j] by {}
            }
        } else {
            self.focus_check(internal);
        }
        let ghost c3 = self.children();
        let ghost i1 = internal@.flags;
        promote_layout(internal);
        proof {
            lemma_reported_bit(i0, i1, GRAB);
            lemma_reported_bit(i0, i1, FOCUS);
            assert forall|j: int|
                0 <= j < n && holds(c1[j].flags, SIGNAL) && c1[j].group.matches(group) implies passed_up(
                #[trigger] c3[j].flags,
                i1,
            ) by {
                assert(passed_up(c2[j].flags, i2));
                if is_at(old(self).focused(), j) {
                } else if n_focus == Some(j as usize) {
                } else {
                    assert(c3[j] == c2[j]);
                }
            }
        }
    }

    /// Moves the focus one step in tab order. The focused child is first asked to
    /// step its own focus; when it declines it loses the focus, and the children
    /// past it (from the first or the last one when none was focused) are asked in
    /// turn, each only when enabled and visible, until one takes the focus. When
    /// none does, no child is focused and the result is false, so that the parent
    /// can move the focus on.
    fn step_focus(&mut self, internal: &mut WidgetInternal, back: bool) -> (r: bool)
        ensures
            final(self).hovered() == old(self).hovered(),
            final(self).children().len() == old(self).children().len(),
            r == final(self).focused() is Some,
            final(self).focused() matches Some(f) ==> final(self).focused() == old(self).focused() || beyond(
                f,
                old(self).focused(),
                back,
            ),
            final(self).focused() is Some && final(self).focused() != old(self).focused() ==> holds(
                old(self).children()[final(self).focused()->0 as int].flags,
                ENABLED | VISIBLE,
            ),
            forall|i: int|
                0 <= i < old(self).children().len() && !is_at(old(self).focused(), i) && !holds(
                    old(self).children()[i].flags,
                    ENABLED | VISIBLE,
                ) ==> #[trigger] final(self).children()[i] == old(self).children()[i],
            final(internal)@ == old(internal)@.with_flags(final(internal)@.flags),
            !holds(final(internal)@.flags, PREV_LAYOUT),
            promoted(old(internal)@.flags, final(internal)@.flags),
            holds(final(internal)@.flags, GRAB) == holds(old(internal)@.flags, GRAB),
            holds(final(internal)@.flags, FOCUS) == holds(old(internal)@.flags, FOCUS),
    {
        proof {
            lemma_masks();
        }
        let ghost i0 = internal@.flags;
        let ghost o = self.focus_id;
        let n = self.widgets_i.len();
        let mut done = false;
        let mut cursor: Option<usize> = None;
        if n > 0 {
            match self.focus_id {
                Some(id) => {
                    let ghost wi0 = self.widgets_i@;
                    let ghost ws0 = self.widgets@;
                    let backup = self.widgets_i[id].val(HANDLERS);
                    let keep = self.widgets[id].step_focus(&mut self.widgets_i[id], back);
                    let ghost fh = self.widgets_i@[id as int]@.flags;
                    let d = self.widgets_i[id].drain(REACTIVE, PREV_LAYOUT);
                    proof {
                        lemma_report(internal@.flags, fh);
                        lemma_on_keeps(internal@.flags, d);
                    }
                    internal.on(d);
                    self.widgets_i[id].replace(HANDLERS, backup);
                    proof {
                        lemma_restore(fh, PREV_LAYOUT, wi0[id as int]@.flags);
                        assert(self.widgets_i@ =~= wi0.update(id as int, self.widgets_i@[id as int]));
                        assert(self.widgets@ =~= ws0.update(id as int, self.widgets@[id as int]));
                        Self::lemma_child_replaced(
                            wi0,
                            ws0,
                            self.focus_id,
                            self.mouse_id,
                            id as int,
                            self.widgets_i@[id as int],
                            self.widgets@[id as int],
                        );
                    }
                    cursor = self.settle_focused(internal, keep, back);
                    done = keep;
                },
                None => {
                    cursor = Some(first_index(n, back));
                },
            }
        }
        proof {
            assert forall|j: int| 0 <= j < n && !is_at(o, j) implies #[trigger] self.children()[j] == old(
                self,
            ).children()[j] by {}
        }
        while !done && cursor.is_some()
            invariant
                self.wf(),
                n == self.children().len(),
                self.hovered() == old(self).hovered(),
                o == old(self).focused(),
                done ==> (self.focused() matches Some(f) && (self.focused() == o || beyond(f, o, back))),
                !done ==> self.focused() is None,
                cursor matches Some(c) ==> c < n && beyond(c, o, back),
                cursor matches Some(c) ==> forall|j: int|
                    0 <= j < n && (if back {
                        j <= c
                    } else {
                        j >= c
                    }) ==> #[trigger] self.children()[j] == old(self).children()[j],
                forall|j: int|
                    0 <= j < n && !is_at(o, j) && !holds(old(self).children()[j].flags, ENABLED | VISIBLE)
                        ==> #[trigger] self.children()[j] == old(self).children()[j],
                self.focused() is Some && self.focused() != o ==> holds(
                    old(self).children()[self.focused()->0 as int].flags,
                    ENABLED | VISIBLE,
                ),
                internal@ == old(internal)@.with_flags(internal@.flags),
                reported(i0, internal@.flags),
                keeps_dirty(i0, internal@.flags),
            decreases
                (if done {
                    0
                } else {
                    match cursor {
                        Some(c) => if back {
                            c + 1
                        } else {
                            n - c
                        },
                        None => 0,
                    }
                }),
        {
            proof {
                lemma_masks();
            }
            let c = cursor.unwrap();
            let ghost c_start = self.children();
            assert(c_start[c as int] == old(self).children()[c as int]);
            let mut took = false;
            if self.widgets_i[c].check(ENABLED | VISIBLE) {
                let ghost wi0 = self.widgets_i@;
                let ghost ws0 = self.widgets@;
                let backup = self.widgets_i[c].val(HANDLERS);
                took = self.widgets[c].step_focus(&mut self.widgets_i[c], back);
                let ghost fh = self.widgets_i@[c as int]@.flags;
                let d = self.widgets_i[c].drain(REACTIVE, PREV_LAYOUT);
                proof {
                    lemma_report(internal@.flags, fh);
                    lemma_on_keeps(internal@.flags, d);
                }
                internal.on(d);
                self.widgets_i[c].replace(HANDLERS, backup);
                proof {
                    lemma_restore(fh, PREV_LAYOUT, wi0[c as int]@.flags);
                    assert(self.widgets_i@ =~= wi0.update(c as int, self.widgets_i@[c as int]));
                    assert(self.widgets@ =~= ws0.update(c as int, self.widgets@[c as int]));
                    Self::lemma_child_replaced(
                        wi0,
                        ws0,
                        self.focus_id,
                        self.mouse_id,
                        c as int,
                        self.widgets_i@[c as int],
                        self.widgets@[c as int],
                    );
                }
            }
            proof {
                assert forall|j: int| 0 <= j < n && j != c implies #[trigger] self.children()[j] == c_start[j] by {}
            }
            cursor = self.settle_candidate(c, took, back);
            done = took;
            proof {
                assert forall|j: int|
                    0 <= j < n && !is_at(o, j) && !holds(old(self).children()[j].flags, ENABLED | VISIBLE)
                    implies #[trigger] self.children()[j] == old(self).children()[j] by {
                    assert(c_start[j] == old(self).children()[j]);
                }
                if let Some(c2) = cursor {
                    assert forall|j: int|
                        0 <= j < n && (if back {
                            j <= c2
                        } else {
                            j >= c2
                        }) implies #[trigger] self.children()[j] == old(self).children()[j] by {
                        assert(c_start[j] == old(self).children()[j]);
                    }
                }
            }
        }
        let ghost i1 = internal@.flags;
        promote_layout(internal);
        proof {
            lemma_reported_bit(i0, i1, GRAB);
            lemma_reported_bit(i0, i1, FOCUS);
        }
        done
    }

    /// Routes the mouse. A container with GRAB on and no hovered child holds the
    /// pointer itself, until no button is held. Otherwise the pointer goes to the
    /// hovered child while it holds GRAB or the pointer is still over it, else to
    /// the first child it is over; a child that loses the pointer gets `hover_out`
    /// first. The child reached is focused afterwards exactly when it has FOCUS,
    /// ENABLED and VISIBLE on, and the container's GRAB follows its GRAB. When no
    /// child is reached, the container has GRAB exactly while a button is held.
    fn handle_mouse(&mut self, internal: &mut WidgetInternal, mouse: &MouseState)
        ensures
            final(self).children().len() == old(self).children().len(),
            old(self).hovered() is None && holds(old(internal)@.flags, GRAB) ==> {
                &&& final(self).hovered() is None
                &&& final(self).focused() == old(self).focused()
                &&& final(self).children() == old(self).children()
                &&& holds(final(internal)@.flags, GRAB) == (mouse.m_count != 0)
            },
            !(old(self).hovered() is None && holds(old(internal)@.flags, GRAB)) ==> {
                &&& routes_to(old(self).children(), old(self).hovered(), mouse.position(), final(self).hovered())
                &&& forall|i: int|
                    0 <= i < old(self).children().len() && !is_at(final(self).hovered(), i) && !is_at(
                        old(self).hovered(),
                        i,
                    ) && !is_at(old(self).focused(), i) ==> #[trigger] final(self).children()[i] == old(
                        self,
                    ).children()[i]
                &&& final(self).focused() matches Some(f) ==> final(self).focused() == old(self).focused()
                    || final(self).hovered() == Some(f)
                &&& final(self).hovered() matches Some(n) ==> {
                    &&& (final(self).focused() == Some(n)) == holds(final(self).children()[n as int].flags, FOCUSABLE)
                    &&& holds(final(internal)@.flags, GRAB) == holds(final(self).children()[n as int].flags, GRAB)
                }
                &&& final(self).hovered() is None ==> holds(final(internal)@.flags, GRAB) == (mouse.m_count != 0)
            },
            old(self).hovered() is Some && holds(old(self).children()[old(self).hovered()->0 as int].flags, GRAB)
                ==> final(self).hovered() == old(self).hovered(),
            final(internal)@ == old(internal)@.with_flags(final(internal)@.flags),
            !holds(final(internal)@.flags, PREV_LAYOUT),
            promoted(old(internal)@.flags, final(internal)@.flags),
    {
        proof {
            lemma_masks();
            lemma_turn_grab(internal@.flags);
        }
        let ghost c0 = self.children();
        let ghost h0 = self.mouse_id;
        let captured_here = self.mouse_id.is_none() && internal.check(GRAB);
        if !captured_here {
            let target = self.mouse_target(mouse.absolute_pos());
            proof {
                if h0 is Some && holds(c0[h0->0 as int].flags, GRAB) {
                    lemma_capture_routes(c0, h0, mouse.position(), target);
                }
            }
            let changed = match (target, self.mouse_id) {
                (Some(a), Some(b)) => a != b,
                (None, None) => false,
                _ => true,
            };
            if changed {
                self.release_hover(internal);
            }
            self.mouse_id = target;
            proof {
                let c = self.children();
                assert forall|i: int| 0 <= i < c.len() && holds(#[trigger] c[i].flags, GRAB) implies is_at(self.mouse_id, i) by {}
                assert forall|i: int| 0 <= i < c.len() && holds(#[trigger] c[i].flags, HOVER) implies is_at(self.mouse_id, i) by {}
            }
            match target {
                Some(n) => {
                    self.route_mouse(internal, mouse, n);
                },
                None => {
                    proof {
                        lemma_turn_grab(internal@.flags);
                    }
                    internal.turn(GRAB, mouse.m_count > 0);
                },
            }
        } else if mouse.m_count == 0 {
            internal.off(GRAB);
        }
        promote_layout(internal);
    }

    /// Updates the children that have UPDATE on and reports their DRAW and layout
    /// requests. Afterwards the container has UPDATE on exactly when a child has.
    fn update(&mut self, internal: &mut WidgetInternal)
        ensures
            final(self).hovered() == old(self).hovered(),
            final(self).children().len() == old(self).children().len(),
            forall|i: int|
                0 <= i < old(self).children().len() && !holds(old(self).children()[i].flags, UPDATE)
                    && !is_at(old(self).focused(), i) ==> #[trigger] final(self).children()[i] == old(
                    self,
                ).children()[i],
            final(self).focused() is None || final(self).focused() == old(self).focused(),
            final(self).focused() matches Some(f) ==> holds(final(self).children()[f as int].flags, FOCUSABLE),
            final(internal)@ == old(internal)@.with_flags(final(internal)@.flags),
            holds(final(internal)@.flags, UPDATE) == exists|i: int|
                0 <= i < final(self).children().len() && holds(#[trigger] final(self).children()[i].flags, UPDATE),
            forall|i: int|
                0 <= i < old(self).children().len() && holds(old(self).children()[i].flags, UPDATE)
                    ==> passed_up(#[trigger] final(self).children()[i].flags, final(internal)@.flags),
            !holds(final(internal)@.flags, PREV_LAYOUT),
            promoted(old(internal)@.flags, final(internal)@.flags),
            holds(final(internal)@.flags, GRAB) == holds(old(internal)@.flags, GRAB),
            holds(final(internal)@.flags, FOCUS) == holds(old(internal)@.flags, FOCUS),
    {
        proof {
            lemma_masks();
        }
        let ghost i0 = internal@.flags;
        let n = self.widgets_i.len();
        let mut i: usize = 0;
        while i < n
            invariant
                self.wf(),
                n == self.children().len(),
                n == old(self).children().len(),
                i <= n,
                self.focused() == old(self).focused(),
                self.hovered() == old(self).hovered(),
                forall|j: int| i <= j < n ==> #[trigger] self.children()[j] == old(self).children()[j],
                forall|j: int|
                    0 <= j < i && !holds(old(self).children()[j].flags, UPDATE) ==> #[trigger] self.children()[j]
                        == old(self).children()[j],
                forall|j: int|
                    0 <= j < i && holds(old(self).children()[j].flags, UPDATE) ==> {
                        let f = #[trigger] self.children()[j].flags;
                        &&& (holds(f, DRAW) ==> holds(internal@.flags, DRAW))
                        &&& (holds(f, LAYOUT) ==> holds(internal@.flags, LAYOUT))
                    },
                internal@ == old(internal)@.with_flags(internal@.flags),
                reported(i0, internal@.flags),
                keeps_dirty(i0, internal@.flags),
            decreases n - i,
        {
            let ghost c0 = self.children();
            let ghost ib = internal@.flags;
            if self.widgets_i[i].check(UPDATE) {
                assert(holds(c0[i as int].flags, UPDATE));
                let ghost wi0 = self.widgets_i@;
                let ghost ws0 = self.widgets@;
                let backup = self.widgets_i[i].val(HANDLERS);
                self.widgets[i].update(&mut self.widgets_i[i]);
                let ghost fh = self.widgets_i@[i as int]@.flags;
                let d = self.widgets_i[i].drain(DRAW | LAYOUT | PREV_LAYOUT, PREV_LAYOUT);
                proof {
                    lemma_report(internal@.flags, fh);
                }
                internal.on(d);
                self.widgets_i[i].replace(HANDLERS, backup);
                proof {
                    lemma_on_keeps(ib, d);
                    lemma_pass_update(ib, fh, wi0[i as int]@.flags);
                    lemma_restore(fh, PREV_LAYOUT, wi0[i as int]@.flags);
                    assert(self.widgets_i@ =~= wi0.update(i as int, self.widgets_i@[i as int]));
                    assert(self.widgets@ =~= ws0.update(i as int, self.widgets@[i as int]));
                    Self::lemma_child_replaced(
                        wi0,
                        ws0,
                        self.focus_id,
                        self.mouse_id,
                        i as int,
                        self.widgets_i@[i as int],
                        self.widgets@[i as int],
                    );
                    assert forall|j: int| 0 <= j < n && j != i implies #[trigger] self.children()[j] == c0[j] by {}
                }
            } else {
                assert(self.children()[i as int] == self.widgets_i@[i as int]@);
                assert(!holds(old(self).children()[i as int].flags, UPDATE));
            }
            assert forall|j: int|
                0 <= j < i + 1 && !holds(old(self).children()[j].flags, UPDATE) implies #[trigger] self.children()[j]
                == old(self).children()[j] by {
                assert(c0[j] == old(self).children()[j]);
            }
            assert forall|j: int|
                0 <= j < i + 1 && holds(old(self).children()[j].flags, UPDATE) implies {
                let f = #[trigger] self.children()[j].flags;
                &&& (holds(f, DRAW) ==> holds(internal@.flags, DRAW))
                &&& (holds(f, LAYOUT) ==> holds(internal@.flags, LAYOUT))
            } by {
                if j < i {
                    assert(self.children()[j] == c0[j]);
                } else {
                    assert(c0[j] == old(self).children()[j]);
                }
            }
            i = i + 1;
        }
        let ghost c2 = self.children();
        let ghost i2 = internal@.flags;
        self.focus_check(internal);
        let ghost i1 = internal@.flags;
        promote_layout(internal);
        let any = self.any_child(UPDATE);
        proof {
            lemma_reported_bit(i0, i1, GRAB);
            lemma_reported_bit(i0, i1, FOCUS);
            lemma_turn_update(internal@.flags);
        }
        internal.turn(UPDATE, any);
        proof {
            let c = self.children();
            assert forall|j: int|
                0 <= j < n && holds(old(self).children()[j].flags, UPDATE) implies passed_up(
                #[trigger] c[j].flags,
                internal@.flags,
            ) by {
                assert(holds(c2[j].flags, DRAW) ==> holds(i2, DRAW));
                if holds(c[j].flags, UPDATE) {
                    assert(0 <= j < c.len() && holds(c[j].flags, UPDATE));
                }
            }
        }
    }

    /// Hands the keys to the focused child; takes the focus from it when it
    /// gave the focus up or is no longer enabled and visible.
    fn handle_keys(&mut self, internal: &mut WidgetInternal, key: KeyState)
        ensures
            final(self).hovered() == old(self).hovered(),
            final(self).children().len() == old(self).children().len(),
            forall|i: int|
                0 <= i < old(self).children().len() && !is_at(old(self).focused(), i)
                    ==> #[trigger] final(self).children()[i] == old(self).children()[i],
            final(self).focused() is None || final(self).focused() == old(self).focused(),
            final(self).focused() matches Some(f) ==> holds(final(self).children()[f as int].flags, FOCUSABLE),
            final(internal)@ == old(internal)@.with_flags(final(internal)@.flags),
            old(self).focused() is None ==> final(self).children() == old(self).children() && final(internal)@
                == old(internal)@,
            old(self).focused() is Some ==> !holds(final(internal)@.flags, PREV_LAYOUT) && promoted(
                old(internal)@.flags,
                final(internal)@.flags,
            ),
            old(self).focused() matches Some(f) ==> passed_up(
                final(self).children()[f as int].flags,
                final(internal)@.flags,
            ),
            holds(final(internal)@.flags, GRAB) == holds(old(internal)@.flags, GRAB),
            holds(final(internal)@.flags, FOCUS) == holds(old(internal)@.flags, FOCUS),
    {
        proof {
            lemma_masks();
        }
        let ghost i0 = internal@.flags;
        if let Some(id) = self.focus_id {
            let ghost o = self.children();
            let ghost f0 = self.widgets_i@[id as int]@.flags;
            let backup = self.widgets_i[id].val(HANDLERS);
            self.widgets[id].handle_keys(&mut self.widgets_i[id], key);
            let ghost fh = self.widgets_i@[id as int]@.flags;
            let kept = self.widgets_i[id].check(FOCUSABLE);
            let d = self.widgets_i[id].drain(REACTIVE, PREV_LAYOUT);
            proof {
                lemma_report(internal@.flags, fh);
                lemma_on_keeps(internal@.flags, d);
            }
            internal.on(d);
            self.widgets_i[id].replace(HANDLERS, backup);
            proof {
                let v = self.widgets_i@[id as int]@;
                lemma_pass_reactive(i0, fh, f0);
                lemma_restore(fh, PREV_LAYOUT, f0);
                lemma_restore_keeps(fh, PREV_LAYOUT, f0);
                lemma_children_update(old(self).widgets_i@, id as int, self.widgets_i@[id as int]);
                assert(self.widgets_i@ =~= old(self).widgets_i@.update(id as int, self.widgets_i@[id as int]));
                assert(holds(o[id as int].flags, FOCUS) == is_at(self.focus_id, id as int));
                assert(holds(o[id as int].flags, GRAB) ==> is_at(self.mouse_id, id as int));
                assert(holds(o[id as int].flags, HOVER) ==> is_at(self.mouse_id, id as int));
                lemma_consistent_update(o, self.focus_id, self.mouse_id, id as int, v, self.focus_id, self.mouse_id);
                assert forall|i: int| 0 <= i < self.widgets@.len() implies (#[trigger] self.widgets@[i]).inv() by {
                    if i != id {
                        assert(self.widgets@[i] == old(self).widgets@[i]);
                    }
                }
            }
            if !kept {
                self.release_focus(internal);
            }
            let ghost i1 = internal@.flags;
            promote_layout(internal);
            proof {
                lemma_reported_bit(i0, i1, GRAB);
                lemma_reported_bit(i0, i1, FOCUS);
            }
        }
    }

    /// Takes the pointer from the hovered child.
    fn hover_out(&mut self, internal: &mut WidgetInternal)
        ensures
            final(self).hovered() is None,
            final(self).focused() == old(self).focused(),
            final(self).children().len() == old(self).children().len(),
            forall|i: int|
                0 <= i < old(self).children().len() && !is_at(old(self).hovered(), i)
                    ==> #[trigger] final(self).children()[i] == old(self).children()[i],
            final(internal)@ == old(internal)@.with_flags(final(internal)@.flags),
            old(self).hovered() is Some ==> !holds(final(internal)@.flags, PREV_LAYOUT) && promoted(
                old(internal)@.flags,
                final(internal)@.flags,
            ),
            old(self).hovered() is None ==> final(self).children() == old(self).children() && final(internal)@
                == old(internal)@,
    {
        if self.mouse_id.is_some() {
            self.release_hover(internal);
            promote_layout(internal);
        }
    }

    /// Takes the focus from the focused child.
    fn focus_out(&mut self, internal: &mut WidgetInternal)
        ensures
            final(self).focused() is None,
            final(self).hovered() == old(self).hovered(),
            final(self).children().len() == old(self).children().len(),
            forall|i: int|
                0 <= i < old(self).children().len() && !is_at(old(self).focused(), i)
                    ==> #[trigger] final(self).children()[i] == old(self).children()[i],
            final(internal)@ == old(internal)@.with_flags(final(internal)@.flags),
            old(self).focused() is Some ==> !holds(final(internal)@.flags, PREV_LAYOUT) && promoted(
                old(internal)@.flags,
                final(internal)@.flags,
            ),
            old(self).focused() matches Some(f) ==> !holds(final(self).children()[f as int].flags, FOCUS)
                && passed_up(final(self).children()[f as int].flags, final(internal)@.flags),
            old(self).focused() is None ==> final(self).children() == old(self).children() && final(internal)@
                == old(internal)@,
    {
        if self.focus_id.is_some() {
            self.release_focus(internal);
            promote_layout(internal);
        }
    }

    /// Minimum size given by the layout.
    fn min_dimensions(&self) -> (r: Dimensions) {
        self.layout.min_dimensions(self.widgets_i.as_slice())
    }
}

} // verus!
