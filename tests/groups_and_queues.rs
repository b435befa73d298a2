use widget_tree::event::{EventQueue, EventType};
use widget_tree::group::{Group, GroupEvent, GroupQueue};
use widget_tree::signal::{Signal, SignalQueue};

#[test]
fn slice_group_matches_its_members_only() {
    let g = Group::Slice(&[3, 7]);
    assert!(g.check_id(3));
    assert!(g.check_id(7));
    assert!(!g.check_id(5));
    assert!(!g.is_any());
}

#[test]
fn any_group_matches_every_id() {
    let g = Group::Any;
    for id in [0usize, 1, 5, 1000, usize::MAX] {
        assert!(g.check_id(id));
    }
    assert!(g.is_any());
}

#[test]
fn single_group_matches_one_id() {
    let g = Group::Single(2);
    assert!(g.check_id(2));
    assert!(!g.check_id(3));
    assert!(!Group::Slice(&[]).check_id(0));
}

#[test]
fn group_queue_is_deduplicated_fifo() {
    let mut q = GroupQueue::new();
    assert_eq!(q.next_event(), None);
    q.push_event(GroupEvent::Signal(1));
    q.push_event(GroupEvent::Layout);
    q.push_event(GroupEvent::Signal(1));
    q.push_event(GroupEvent::Signal(2));
    assert!(q.contains(&GroupEvent::Layout));
    assert_eq!(q.next_event(), Some(GroupEvent::Signal(1)));
    assert_eq!(q.next_event(), Some(GroupEvent::Layout));
    assert_eq!(q.next_event(), Some(GroupEvent::Signal(2)));
    assert_eq!(q.next_event(), None);
    q.push_event(GroupEvent::Signal(1));
    assert_eq!(q.next_event(), Some(GroupEvent::Signal(1)));
}

#[test]
fn signal_queue_is_deduplicated_fifo() {
    let mut q = SignalQueue::new();
    q.emit_id(4);
    q.emit_id(4);
    q.emit_id(2);
    assert_eq!(q.next_signal(), Some(4));
    assert_eq!(q.next_signal(), Some(2));
    assert_eq!(q.next_signal(), None);
}

#[test]
fn event_queue_is_deduplicated_fifo() {
    let mut q = EventQueue::new();
    q.queue_event_id(9);
    q.queue_event_id(1);
    q.queue_event_id(9);
    assert_eq!(q.next_event(), Some(9));
    assert_eq!(q.next_event(), Some(1));
    assert_eq!(q.next_event(), None);
    assert_eq!(EventType::ID(3), EventType::ID(3));
    assert_ne!(EventType::Any, EventType::Nothing);
}

#[test]
fn signal_enable_and_disable() {
    let mut s = Signal::Single(5);
    assert!(s.enabled());
    assert!(s.check(5));
    s.disable();
    assert!(matches!(s, Signal::DisabledSingle(5)));
    assert!(!s.enabled());
    assert!(!s.check(5));
    s.enable();
    assert!(matches!(s, Signal::Single(5)));

    let mut a = Signal::Any;
    a.disable();
    assert!(matches!(a, Signal::Disabled));
    assert!(!a.check(1));
    a.enable();
    assert!(a.check(1));

    let mut sl = Signal::Slice(&[1, 2]);
    assert!(sl.check(2));
    assert!(!sl.check(3));
    sl.disable();
    assert!(matches!(sl, Signal::DisabledSlice(_)));
    assert!(!sl.check(2));
    sl.disable();
    assert!(matches!(sl, Signal::DisabledSlice(_)));
    sl.enable();
    assert!(sl.check(1));
}
