use widget_tree::container::Container;
use widget_tree::decorator::EmptyDecorator;
use widget_tree::flags::{
    Flags, DRAW, ENABLED, FOCUS, GRAB, HOVER, LAYOUT, PARTIAL, PREV_LAYOUT, SIGNAL, UPDATE, VISIBLE,
    WIDGET, WIDGET_S,
};
use widget_tree::group::{Group, GroupID};
use widget_tree::layout::EmptyLayout;
use widget_tree::state::{KeyState, MouseState, MouseType};
use widget_tree::widget::{Widget, WidgetInternal};
use widget_tree::widgets::button::Button;

type Buttons = Container<(), Button, EmptyLayout, EmptyDecorator>;

fn three_buttons() -> Buttons {
    let mut c = Buttons::new(EmptyDecorator, EmptyLayout);
    c.add_widget_b(Button::new("a"), WIDGET, Group::Any, (0, 0, 10, 10));
    c.add_widget_b(Button::new("b"), WIDGET, Group::Any, (10, 0, 10, 10));
    c.add_widget_b(Button::new("c"), WIDGET, Group::Any, (20, 0, 10, 10));
    c
}

fn flags_of(c: &Buttons, i: usize) -> Flags {
    c.internal_at(i).unwrap().val(0xffff)
}

fn focused_count(c: &Buttons) -> usize {
    (0..c.len()).filter(|&i| flags_of(c, i) & FOCUS != 0).count()
}

fn grabbed_count(c: &Buttons) -> usize {
    (0..c.len()).filter(|&i| flags_of(c, i) & GRAB != 0).count()
}

#[test]
fn add_widget_clears_handler_flags() {
    let mut c = Buttons::new(EmptyDecorator, EmptyLayout);
    c.add_widget(Button::new("x"), WIDGET | FOCUS | GRAB | HOVER | DRAW, Group::Any);
    assert_eq!(c.len(), 1);
    assert_eq!(flags_of(&c, 0), WIDGET | DRAW);
    assert_eq!(c.internal_at(0).unwrap().boundaries_rel(), (0, 0, 0, 0));
    assert!(c.internal_at(1).is_none());
    assert_eq!(c.focus_id(), None);
    assert_eq!(c.hover_id(), None);
}

#[test]
fn press_focuses_and_captures_then_drag_keeps_capture() {
    let mut c = three_buttons();
    let mut root = WidgetInternal::new(WIDGET, Group::Any);
    c.layout(&mut root, true);

    let mut m = MouseState::new();
    m.set_position((25, 5));
    m.set_type(MouseType::Pressed(1));
    c.handle_mouse(&mut root, &m);
    assert_eq!(c.hover_id(), Some(2));
    assert_eq!(c.focus_id(), Some(2));
    assert!(c.internal_at(2).unwrap().check(FOCUS | GRAB | HOVER));
    assert!(root.check(GRAB));
    assert!(root.check(FOCUS));

    // drag over child 0 while the button is still held
    m.set_position((5, 5));
    m.set_type(MouseType::CursorMoved);
    c.handle_mouse(&mut root, &m);
    assert_eq!(c.hover_id(), Some(2));
    assert_eq!(c.focus_id(), Some(2));
    assert!(c.internal_at(2).unwrap().check(GRAB));
    assert!(!c.internal_at(2).unwrap().check(HOVER));
    assert_eq!(flags_of(&c, 0) & (HOVER | GRAB | FOCUS), 0);
    assert_eq!(grabbed_count(&c), 1);
    assert_eq!(focused_count(&c), 1);

    // release: the capture ends, the pointer then goes by position
    m.set_type(MouseType::Released(1));
    c.handle_mouse(&mut root, &m);
    assert!(!c.internal_at(2).unwrap().check(GRAB));
    assert!(!root.check(GRAB));
    m.set_type(MouseType::CursorMoved);
    c.handle_mouse(&mut root, &m);
    assert_eq!(c.hover_id(), Some(0));
    assert!(c.internal_at(0).unwrap().check(HOVER));
    assert!(!c.internal_at(2).unwrap().check(HOVER));
    assert_eq!(c.focus_id(), Some(2));
}

#[test]
fn pressing_another_child_moves_focus() {
    let mut c = three_buttons();
    let mut root = WidgetInternal::new(WIDGET, Group::Any);
    let mut m = MouseState::new();
    m.set_position((5, 5));
    m.set_type(MouseType::Pressed(1));
    c.handle_mouse(&mut root, &m);
    assert_eq!(c.focus_id(), Some(0));
    m.set_type(MouseType::Released(1));
    c.handle_mouse(&mut root, &m);

    m.set_position((15, 5));
    m.set_type(MouseType::Pressed(1));
    c.handle_mouse(&mut root, &m);
    assert_eq!(c.focus_id(), Some(1));
    assert_eq!(c.hover_id(), Some(1));
    assert!(!c.internal_at(0).unwrap().check(FOCUS));
    assert!(!c.internal_at(0).unwrap().check(HOVER));
    assert_eq!(focused_count(&c), 1);
}

#[test]
fn press_on_empty_area_captures_container() {
    let mut c = three_buttons();
    let mut root = WidgetInternal::new(WIDGET, Group::Any);
    let mut m = MouseState::new();
    m.set_position((100, 100));
    m.set_type(MouseType::Pressed(1));
    c.handle_mouse(&mut root, &m);
    assert_eq!(c.hover_id(), None);
    assert!(root.check(GRAB));
    // held: the container keeps the pointer, even over a child
    m.set_position((5, 5));
    m.set_type(MouseType::CursorMoved);
    c.handle_mouse(&mut root, &m);
    assert_eq!(c.hover_id(), None);
    assert!(root.check(GRAB));
    m.set_type(MouseType::Released(1));
    c.handle_mouse(&mut root, &m);
    assert!(!root.check(GRAB));
    m.set_type(MouseType::CursorMoved);
    c.handle_mouse(&mut root, &m);
    assert_eq!(c.hover_id(), Some(0));
}

#[test]
fn invisible_child_is_not_hit() {
    let mut c = Buttons::new(EmptyDecorator, EmptyLayout);
    c.add_widget_b(Button::new("hidden"), ENABLED, Group::Any, (0, 0, 10, 10));
    c.add_widget_b(Button::new("under"), WIDGET, Group::Any, (0, 0, 10, 10));
    let mut root = WidgetInternal::new(WIDGET, Group::Any);
    let mut m = MouseState::new();
    m.set_position((5, 5));
    c.handle_mouse(&mut root, &m);
    assert_eq!(c.hover_id(), Some(1));
}

#[test]
fn step_focus_visits_each_child_then_fails() {
    let mut c = three_buttons();
    let mut root = WidgetInternal::new(WIDGET, Group::Any);
    assert!(c.step_focus(&mut root, false));
    assert_eq!(c.focus_id(), Some(0));
    assert!(c.step_focus(&mut root, false));
    assert_eq!(c.focus_id(), Some(1));
    assert!(c.step_focus(&mut root, false));
    assert_eq!(c.focus_id(), Some(2));
    assert!(!c.step_focus(&mut root, false));
    assert_eq!(c.focus_id(), None);
    assert_eq!(focused_count(&c), 0);
}

#[test]
fn step_focus_backward_and_skips_disabled() {
    let mut c = Buttons::new(EmptyDecorator, EmptyLayout);
    c.add_widget(Button::new("a"), WIDGET, Group::Any);
    c.add_widget(Button::new("b"), VISIBLE, Group::Any);
    c.add_widget(Button::new("c"), WIDGET, Group::Any);
    let mut root = WidgetInternal::new(WIDGET, Group::Any);
    assert!(c.step_focus(&mut root, true));
    assert_eq!(c.focus_id(), Some(2));
    assert!(c.step_focus(&mut root, true));
    assert_eq!(c.focus_id(), Some(0));
    assert!(!c.step_focus(&mut root, true));
    assert_eq!(c.focus_id(), None);
}

#[test]
fn step_focus_on_empty_container_fails() {
    let mut c = Buttons::new(EmptyDecorator, EmptyLayout);
    let mut root = WidgetInternal::new(WIDGET, Group::Any);
    assert!(!c.step_focus(&mut root, false));
    assert_eq!(c.focus_id(), None);
}

#[test]
fn removal_repairs_indices() {
    let mut c = three_buttons();
    let mut root = WidgetInternal::new(WIDGET, Group::Any);
    let mut m = MouseState::new();
    m.set_position((25, 5));
    m.set_type(MouseType::Pressed(1));
    c.handle_mouse(&mut root, &m);
    assert_eq!((c.focus_id(), c.hover_id()), (Some(2), Some(2)));

    // an index above the removed one moves down
    let removed = c.remove_widget(0);
    assert_eq!(removed.get_label(), "a");
    assert_eq!(c.len(), 2);
    assert_eq!((c.focus_id(), c.hover_id()), (Some(1), Some(1)));
    assert!(c.internal_at(1).unwrap().check(FOCUS | GRAB));

    // an index below the removed one stays
    c.add_widget(Button::new("d"), WIDGET, Group::Any);
    c.remove_widget(2);
    assert_eq!((c.focus_id(), c.hover_id()), (Some(1), Some(1)));

    // the removed index itself is cleared
    c.remove_widget(1);
    assert_eq!((c.focus_id(), c.hover_id()), (None, None));
    assert_eq!(c.len(), 1);
    assert_eq!(focused_count(&c), 0);
}

#[test]
fn focus_out_and_hover_out_clear_indices() {
    let mut c = three_buttons();
    let mut root = WidgetInternal::new(WIDGET, Group::Any);
    let mut m = MouseState::new();
    m.set_position((15, 5));
    m.set_type(MouseType::Pressed(1));
    c.handle_mouse(&mut root, &m);
    c.focus_out(&mut root);
    assert_eq!(c.focus_id(), None);
    assert!(!c.internal_at(1).unwrap().check(FOCUS));
    assert!(c.internal_at(1).unwrap().check(DRAW));
    c.hover_out(&mut root);
    assert_eq!(c.hover_id(), None);
    assert_eq!(flags_of(&c, 1) & (HOVER | GRAB), 0);
    // a second call finds nothing to clear
    c.hover_out(&mut root);
    c.focus_out(&mut root);
    assert_eq!((c.focus_id(), c.hover_id()), (None, None));
}

/// A widget that wants `left` more updates and frames, and that takes the focus
/// when signalled.
struct Ticker {
    left: u32,
    signals: u32,
    keys: u32,
}

impl Ticker {
    fn new(left: u32) -> Self {
        Ticker { left, signals: 0, keys: 0 }
    }
}

impl Widget<u32> for Ticker {
    fn draw(&mut self, _: &WidgetInternal, frames: &mut u32) -> bool {
        *frames += 1;
        self.left > 0
    }

    fn update(&mut self, internal: &mut WidgetInternal) {
        if self.left > 0 {
            self.left -= 1;
            internal.on(DRAW);
        } else {
            internal.off(UPDATE);
        }
    }

    fn handle_signal(&mut self, internal: &mut WidgetInternal, _: GroupID) {
        self.signals += 1;
        internal.on(FOCUS | PREV_LAYOUT);
    }

    fn handle_keys(&mut self, internal: &mut WidgetInternal, key: KeyState) {
        self.keys += 1;
        if let KeyState::Pressed(27, _) = key {
            internal.off(ENABLED);
        }
    }
}

type Tickers = Container<u32, Ticker, EmptyLayout, EmptyDecorator>;

fn ticker_flags(c: &Tickers, i: usize) -> Flags {
    c.internal_at(i).unwrap().val(0xffff)
}

#[test]
fn update_flag_follows_children() {
    let mut c = Tickers::new(EmptyDecorator, EmptyLayout);
    c.add_widget(Ticker::new(2), WIDGET | UPDATE, Group::Any);
    c.add_widget(Ticker::new(0), WIDGET | UPDATE, Group::Any);
    c.add_widget(Ticker::new(5), WIDGET, Group::Any);
    let mut root = WidgetInternal::new(WIDGET | UPDATE, Group::Any);

    c.update(&mut root);
    // child 0 still updates, child 1 stopped, child 2 was never asked
    assert!(root.check(UPDATE));
    assert!(root.check(DRAW));
    assert!(ticker_flags(&c, 0) & UPDATE != 0);
    assert!(ticker_flags(&c, 1) & UPDATE == 0);

    c.update(&mut root);
    assert!(root.check(UPDATE));
    c.update(&mut root);
    assert!(!root.check(UPDATE));
    for i in 0..3 {
        assert_eq!(ticker_flags(&c, i) & UPDATE, 0);
    }
}

#[test]
fn draw_turns_off_finished_children() {
    let mut c = Tickers::new(EmptyDecorator, EmptyLayout);
    c.add_widget(Ticker::new(2), WIDGET | DRAW, Group::Any);
    c.add_widget(Ticker::new(0), WIDGET | DRAW, Group::Any);
    c.add_widget(Ticker::new(3), ENABLED | DRAW, Group::Any);
    let root = WidgetInternal::new(WIDGET | DRAW, Group::Any);
    let mut frames: u32 = 0;

    assert!(c.draw(&root, &mut frames));
    assert_eq!(frames, 2);
    assert!(ticker_flags(&c, 0) & DRAW != 0);
    assert_eq!(ticker_flags(&c, 1) & DRAW, 0);
    // not visible: not drawn, left as it was
    assert_eq!(ticker_flags(&c, 2), ENABLED | DRAW);

    let mut c2 = Tickers::new(EmptyDecorator, EmptyLayout);
    c2.add_widget(Ticker::new(0), WIDGET | DRAW, Group::Any);
    c2.add_widget(Ticker::new(0), WIDGET, Group::Any);
    let mut frames2: u32 = 0;
    assert!(!c2.draw(&root, &mut frames2));
    assert_eq!(frames2, 1);
    assert_eq!(ticker_flags(&c2, 0) & DRAW, 0);
}

#[test]
fn signal_reaches_members_and_moves_focus() {
    let mut c = Tickers::new(EmptyDecorator, EmptyLayout);
    c.add_widget(Ticker::new(0), WIDGET_S, Group::Single(3));
    c.add_widget(Ticker::new(0), WIDGET_S, Group::Slice(&[3, 7]));
    c.add_widget(Ticker::new(0), WIDGET, Group::Single(3));
    c.add_widget(Ticker::new(0), WIDGET_S, Group::Single(4));
    let mut root = WidgetInternal::new(WIDGET, Group::Any);

    c.handle_signal(&mut root, 7);
    assert_eq!(c.focus_id(), Some(1));
    assert!(ticker_flags(&c, 1) & FOCUS != 0);

    c.handle_signal(&mut root, 3);
    // child 1 already held the focus; child 0 newly asked for it and takes it
    assert_eq!(c.focus_id(), Some(0));
    assert!(ticker_flags(&c, 0) & FOCUS != 0);
    assert_eq!(ticker_flags(&c, 1) & FOCUS, 0);
    assert_eq!(ticker_flags(&c, 2) & FOCUS, 0);
    assert_eq!(ticker_flags(&c, 3) & FOCUS, 0);
    // the relayout request moved up as LAYOUT | PARTIAL
    assert!(root.check(LAYOUT | PARTIAL));
    assert!(!root.check(PREV_LAYOUT));
    assert!(ticker_flags(&c, 0) & SIGNAL != 0);
}

#[test]
fn keys_go_to_focused_child_only() {
    let mut c = Tickers::new(EmptyDecorator, EmptyLayout);
    c.add_widget(Ticker::new(0), WIDGET, Group::Any);
    c.add_widget(Ticker::new(0), WIDGET, Group::Any);
    let mut root = WidgetInternal::new(WIDGET, Group::Any);
    c.handle_keys(&mut root, KeyState::Pressed(1, 0));
    assert!(c.step_focus(&mut root, false));
    assert!(c.step_focus(&mut root, false));
    assert_eq!(c.focus_id(), Some(1));
    c.handle_keys(&mut root, KeyState::Pressed(1, 0));
    assert_eq!(c.focus_id(), Some(1));
    // the child disables itself: it loses the focus
    c.handle_keys(&mut root, KeyState::Pressed(27, 0));
    assert_eq!(c.focus_id(), None);
    assert_eq!(ticker_flags(&c, 1) & (FOCUS | ENABLED), 0);
}

#[test]
fn layout_sets_pivot_and_draw() {
    let mut c = Tickers::new(EmptyDecorator, EmptyLayout);
    c.add_widget_b(Ticker::new(0), WIDGET | LAYOUT, Group::Any, (1, 2, 3, 4));
    c.add_widget_b(Ticker::new(0), ENABLED, Group::Any, (5, 6, 7, 8));
    let mut root = WidgetInternal::new(WIDGET | PARTIAL | LAYOUT, Group::Any);
    root.set_position((100, 200));
    c.layout(&mut root, false);
    assert_eq!(c.internal_at(0).unwrap().absolute_pos(), (101, 202));
    assert_eq!(c.internal_at(1).unwrap().absolute_pos(), (105, 206));
    assert!(ticker_flags(&c, 0) & DRAW != 0);
    assert_eq!(ticker_flags(&c, 0) & LAYOUT, 0);
    assert_eq!(ticker_flags(&c, 1) & DRAW, 0);
    assert!(root.check(DRAW));
    assert!(!root.check_any(LAYOUT | PARTIAL));

    // without PARTIAL only the children that ask are laid out
    root.set_position((0, 0));
    c.layout(&mut root, false);
    assert_eq!(c.internal_at(0).unwrap().absolute_pos(), (101, 202));
    assert_eq!(c.min_dimensions(), (0, 0));
}

#[test]
fn evictions_with_nothing_held_change_nothing() {
    let mut c = three_buttons();
    let mut root = WidgetInternal::new(WIDGET | PREV_LAYOUT, Group::Any);
    c.focus_out(&mut root);
    c.hover_out(&mut root);
    c.handle_keys(&mut root, KeyState::Pressed(1, 0));
    assert_eq!(root.val(0xffff), WIDGET | PREV_LAYOUT);
    assert_eq!((c.focus_id(), c.hover_id()), (None, None));
    for i in 0..3 {
        assert_eq!(flags_of(&c, i), WIDGET);
    }
}

#[test]
fn hover_out_after_removing_hovered_child_changes_nothing() {
    let mut c = three_buttons();
    let mut root = WidgetInternal::new(WIDGET, Group::Any);
    let mut m = MouseState::new();
    m.set_position((5, 5));
    c.handle_mouse(&mut root, &m);
    assert_eq!(c.hover_id(), Some(0));
    c.remove_widget(0);
    assert_eq!(c.hover_id(), None);
    root.on(PREV_LAYOUT);
    let before = root.val(0xffff);
    c.hover_out(&mut root);
    assert_eq!(root.val(0xffff), before);
    assert_eq!(flags_of(&c, 0), WIDGET);
    assert_eq!(flags_of(&c, 1), WIDGET);
}

#[test]
fn relayout_request_on_container_is_promoted() {
    let mut c = Tickers::new(EmptyDecorator, EmptyLayout);
    c.add_widget(Ticker::new(0), WIDGET, Group::Any);
    let mut root = WidgetInternal::new(WIDGET | PREV_LAYOUT, Group::Any);
    c.update(&mut root);
    assert!(root.check(LAYOUT | PARTIAL));
    assert!(!root.check(PREV_LAYOUT));
}
