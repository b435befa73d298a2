use widget_tree::binding::{BindProxy, Binding, Shared};
use widget_tree::group::{GroupEvent, GroupQueue};
use widget_tree::proxy::{Proxy, RefProxy};

#[test]
fn bind_proxy_reads_and_writes_shared_value() {
    let mut shared: Shared<i64> = Shared::new();
    let p: BindProxy<i64> = Binding::proxy(&mut shared, 10);
    let q: BindProxy<i64> = Binding::proxy(&mut shared, 20);
    assert_eq!(shared.len(), 2);
    assert_eq!(p.index(), 0);
    assert_eq!(q.index(), 1);
    assert_eq!(*p.read(&shared), 10);
    *p.read_write(&mut shared) += 5;
    assert_eq!(*p.read(&shared), 15);
    assert_eq!(*q.read(&shared), 20);
}

#[test]
fn rw_push_queues_signal_once() {
    let mut shared: Shared<String> = Shared::new();
    let mut queue = GroupQueue::new();
    let p: RefProxy<String> = Proxy::proxy(&mut shared, String::from("a"));
    p.rw_push(&mut shared, &mut queue, 3).push('b');
    p.rw_push(&mut shared, &mut queue, 3).push('c');
    assert_eq!(p.read(&shared), "abc");
    assert_eq!(*shared.get(0), "abc");
    assert_eq!(queue.next_event(), Some(GroupEvent::Signal(3)));
    assert_eq!(queue.next_event(), None);
    *p.read_write(&mut shared) = String::from("z");
    assert_eq!(shared.get_mut(0).as_str(), "z");
}
