use widget_tree::flags::{VISIBLE, WIDGET};
use widget_tree::group::Group;
use widget_tree::widget::WidgetInternal;

#[test]
fn new_record_is_all_zero() {
    let w = WidgetInternal::new(WIDGET, Group::Single(4));
    assert_eq!(w.boundaries_abs(), (0, 0, 0, 0));
    assert_eq!(w.min_dimensions(), (0, 0));
    assert!(w.check(WIDGET));
    assert!(w.group().check_id(4));
}

#[test]
fn new_with_keeps_size_as_given() {
    let w = WidgetInternal::new_with((3, 4), (-5, 7), WIDGET, Group::Any);
    assert_eq!(w.boundaries_rel(), (3, 4, -5, 7));
    assert_eq!(w.absolute_pos(), (3, 4));
    assert_eq!(w.min_dimensions(), (0, 0));
}

#[test]
fn size_never_below_minimum() {
    let mut w = WidgetInternal::new(WIDGET, Group::Any);
    w.set_min_dimensions((10, 20));
    assert_eq!(w.dimensions(), (10, 20));
    w.set_dimensions((5, 30));
    assert_eq!(w.dimensions(), (10, 30));
    w.set_width(4);
    assert_eq!(w.dimensions(), (10, 30));
    w.set_height(25);
    assert_eq!(w.dimensions(), (10, 25));
    w.set_boundaries((1, 2, 3, 4));
    assert_eq!(w.boundaries_rel(), (1, 2, 10, 20));
}

#[test]
fn pivot_moves_absolute_position_only() {
    let mut w = WidgetInternal::new(WIDGET, Group::Any);
    w.set_boundaries((5, 6, 10, 10));
    w.set_pivot((100, 200));
    assert_eq!(w.absolute_pos(), (105, 206));
    assert_eq!(w.relative_pos(), (5, 6));
    w.set_pivot((-5, 0));
    assert_eq!(w.absolute_pos(), (0, 6));
    assert_eq!(w.boundaries_abs(), (0, 6, 10, 10));
    w.set_x(1);
    w.set_y(2);
    assert_eq!(w.absolute_pos(), (-4, 2));
    w.set_position((7, 8));
    assert_eq!(w.boundaries_rel(), (7, 8, 10, 10));
}

#[test]
fn absolute_position_saturates() {
    let mut w = WidgetInternal::new(WIDGET, Group::Any);
    w.set_position((i32::MAX, i32::MIN));
    w.set_pivot((10, -10));
    assert_eq!(w.absolute_pos(), (i32::MAX, i32::MIN));
}

#[test]
fn intersection_is_inclusive_and_needs_visible() {
    let mut w = WidgetInternal::new(WIDGET, Group::Any);
    w.set_boundaries((10, 0, 10, 10));
    assert!(w.p_intersect((10, 0)));
    assert!(w.p_intersect((20, 10)));
    assert!(w.p_intersect((15, 5)));
    assert!(!w.p_intersect((21, 5)));
    assert!(!w.p_intersect((9, 5)));
    w.off(VISIBLE);
    assert!(!w.p_intersect((15, 5)));
}

#[test]
fn group_can_be_replaced() {
    let mut w = WidgetInternal::new(WIDGET, Group::Any);
    assert!(w.group().is_any());
    w.set_group(Group::Single(9));
    assert!(!w.group().is_any());
    assert!(w.group().check_id(9));
    assert!(!w.group().check_id(8));
}
