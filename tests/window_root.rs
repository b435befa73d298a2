use widget_tree::container::Container;
use widget_tree::decorator::EmptyDecorator;
use widget_tree::flags::{DRAW, UPDATE, WIDGET};
use widget_tree::group::{Group, GroupEvent, GroupQueue};
use widget_tree::layout::EmptyLayout;
use widget_tree::state::{KeyState, MouseType};
use widget_tree::widgets::button::Button;
use widget_tree::window::Window;

fn window() -> Window<(), Button, EmptyLayout, EmptyDecorator> {
    let mut c = Container::new(EmptyDecorator, EmptyLayout);
    c.add_widget_b(Button::new("one"), WIDGET, Group::Any, (0, 0, 10, 10));
    c.add_widget_b(Button::new("two"), WIDGET, Group::Any, (10, 0, 10, 10));
    Window::new(c)
}

#[test]
fn focus_wraps_around() {
    let mut w = window();
    w.next_focus();
    assert_eq!(w.container().focus_id(), Some(0));
    w.next_focus();
    assert_eq!(w.container().focus_id(), Some(1));
    w.next_focus();
    assert_eq!(w.container().focus_id(), Some(0));
    w.prev_focus();
    assert_eq!(w.container().focus_id(), Some(1));
}

#[test]
fn draw_and_update_follow_children() {
    let mut w = window();
    assert!(w.internal().check(DRAW | UPDATE));
    w.update_window();
    assert!(!w.internal().check(UPDATE));
    w.update_layout();
    assert!(w.internal().check(DRAW));
    w.draw_window(&mut ());
    // buttons draw once and ask for nothing more
    assert!(!w.internal().check(DRAW));
}

#[test]
fn driver_hands_input_down() {
    let mut w = window();
    {
        let (mouse, key) = w.state_mut();
        mouse.set_position((15, 5));
        mouse.set_type(MouseType::Pressed(1));
        *key = KeyState::Pressed(13, 0);
    }
    w.handle_all();
    assert_eq!(w.container().hover_id(), Some(1));
    assert_eq!(w.container().focus_id(), Some(1));
    assert_eq!(w.state().0.m_count, 1);
    w.set_dimensions((50, 40));
    assert_eq!(w.internal().dimensions(), (50, 40));
    assert_eq!(w.container().hover_id(), None);
    assert_eq!(w.container_mut().len(), 2);
}

#[test]
fn flush_hands_queued_events_to_tree() {
    let mut w = window();
    let mut q = GroupQueue::new();
    q.push_event(GroupEvent::Layout);
    q.push_event(GroupEvent::Signal(1));
    q.push_event(GroupEvent::Layout);
    w.flush_events(&mut q);
    assert_eq!(q.next_event(), None);
    // the layout pass asked the visible buttons for a frame
    assert!(w.internal().check(DRAW));
    assert_eq!(w.container().internal_at(1).unwrap().absolute_pos(), (10, 0));
}
