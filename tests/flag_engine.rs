use widget_tree::flags::{
    Flags, DRAW, ENABLED, FOCUS, GRAB, HOVER, LAYOUT, PREV_LAYOUT, SIGNAL, UPDATE, VISIBLE, WIDGET,
    WIDGET_S,
};
use widget_tree::group::Group;
use widget_tree::widget::WidgetInternal;

fn record(flags: Flags) -> WidgetInternal {
    WidgetInternal::new(flags, Group::Any)
}

#[test]
fn on_off_toggle() {
    let mut w = record(0);
    w.on(DRAW | UPDATE);
    assert_eq!(w.val(0xffff), DRAW | UPDATE);
    w.off(DRAW);
    assert_eq!(w.val(0xffff), UPDATE);
    w.toggle(UPDATE | FOCUS);
    assert_eq!(w.val(0xffff), FOCUS);
}

#[test]
fn turn_sets_or_clears() {
    let mut w = record(VISIBLE);
    w.turn(GRAB, true);
    assert_eq!(w.val(0xffff), VISIBLE | GRAB);
    w.turn(GRAB, false);
    assert_eq!(w.val(0xffff), VISIBLE);
}

#[test]
fn replace_clears_mask_then_sets_new_bits_in_mask() {
    let mut w = record(FOCUS | DRAW | VISIBLE);
    // FOCUS cleared, HOVER set from the new bits, LAYOUT outside the mask ignored
    w.replace(FOCUS | GRAB | HOVER, HOVER | LAYOUT);
    assert_eq!(w.val(0xffff), DRAW | VISIBLE | HOVER);
}

#[test]
fn off_on_clears_then_sets() {
    let mut w = record(PREV_LAYOUT | DRAW);
    w.off_on(PREV_LAYOUT, LAYOUT | 0b100_0000_0000);
    assert_eq!(w.val(0xffff), DRAW | LAYOUT | 0b100_0000_0000);
}

#[test]
fn drain_reads_one_mask_and_clears_another() {
    let mut w = record(DRAW | UPDATE | LAYOUT | PREV_LAYOUT | VISIBLE);
    let got = w.drain(DRAW | LAYOUT | PREV_LAYOUT, PREV_LAYOUT);
    assert_eq!(got, DRAW | LAYOUT | PREV_LAYOUT);
    assert_eq!(w.val(0xffff), DRAW | UPDATE | LAYOUT | VISIBLE);
}

#[test]
fn drain_twice_reads_value_then_zero() {
    let mut w = record(DRAW | UPDATE | VISIBLE);
    let mask = DRAW | UPDATE;
    assert_eq!(w.drain(mask, mask), DRAW | UPDATE);
    assert_eq!(w.drain(mask, mask), 0);
    assert_eq!(w.val(0xffff), VISIBLE);
}

#[test]
fn check_and_check_any() {
    let w = record(ENABLED | VISIBLE);
    assert!(w.check(ENABLED | VISIBLE));
    assert!(!w.check(ENABLED | FOCUS));
    assert!(w.check_any(ENABLED | FOCUS));
    assert!(!w.check_any(FOCUS | GRAB));
    assert!(w.check(0));
}

#[test]
fn default_flag_sets() {
    assert_eq!(WIDGET, ENABLED | VISIBLE);
    assert_eq!(WIDGET_S, ENABLED | VISIBLE | SIGNAL);
    assert_eq!(HOVER | GRAB | FOCUS, 0b1110_0000);
}
