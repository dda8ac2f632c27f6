use way_cooler::geometry::{Area, Origin, Size};
use way_cooler::view::{Shell, View};

fn area(x: i32, y: i32, width: i32, height: i32) -> Area {
    Area::new(Origin::new(x, y), Size::new(width, height))
}

#[test]
fn resize_applies_origin_after_matching_ack() {
    let mut view = View::new(Shell::XdgV6(1));
    let size = Size::new(100, 100);
    let target = view.resize_target(area(5, 5, 200, 200), size);
    assert_eq!(target, area(5, 5, 200, 200));
    view.move_resize(target, 7);
    assert_eq!(view.geometry(size).origin, Origin::new(0, 0));
    assert!(view.acknowledge(7));
    assert_eq!(view.geometry(Size::new(200, 200)), area(5, 5, 200, 200));
    assert!(view.pending_move_resize.is_none());
}

#[test]
fn superseded_serial_is_ignored() {
    let mut view = View::new(Shell::XdgV6(1));
    view.move_resize(area(5, 5, 200, 200), 7);
    view.move_resize(area(9, 9, 300, 300), 8);
    assert!(!view.acknowledge(7));
    assert_eq!(view.origin, Origin::new(0, 0));
    assert!(view.acknowledge(8));
    assert_eq!(view.origin, Origin::new(9, 9));
}

#[test]
fn serial_zero_moves_at_once() {
    let mut view = View::new(Shell::XdgV6(3));
    view.move_resize(area(4, -6, 50, 50), 0);
    assert_eq!(view.origin, Origin::new(4, -6));
    assert!(view.pending_move_resize.is_none());
    assert!(!view.acknowledge(0));
}

#[test]
fn serial_zero_drops_earlier_pending_request() {
    let mut view = View::new(Shell::XdgV6(3));
    view.move_resize(area(5, 5, 200, 200), 7);
    view.move_resize(area(1, 2, 100, 100), 0);
    assert_eq!(view.origin, Origin::new(1, 2));
    assert!(!view.acknowledge(7));
    assert_eq!(view.origin, Origin::new(1, 2));
}

#[test]
fn only_last_of_many_requests_matches() {
    let mut view = View::new(Shell::XdgV6(2));
    for serial in 1..=5u32 {
        view.move_resize(area(serial as i32, 0, 10, 10), serial);
    }
    for serial in 1..=4u32 {
        assert!(!view.acknowledge(serial));
        assert_eq!(view.origin, Origin::new(0, 0));
    }
    assert!(view.acknowledge(5));
    assert_eq!(view.origin, Origin::new(5, 0));
}

#[test]
fn unchanged_axis_is_not_updated_on_ack() {
    let mut view = View::new(Shell::XdgV6(2));
    view.move_resize(area(0, 30, 10, 10), 11);
    let pending = view.pending_move_resize.unwrap();
    assert!(!pending.update_x);
    assert!(pending.update_y);
    assert_eq!(pending.serial, 11);
    assert!(view.acknowledge(11));
    assert_eq!(view.origin, Origin::new(0, 30));
}

#[test]
fn resize_target_keeps_nonpositive_axes() {
    let view = View::new(Shell::XdgV6(1));
    let current = Size::new(640, 480);
    assert_eq!(view.resize_target(area(1, 2, 0, 300), current), area(1, 2, 640, 300));
    assert_eq!(view.resize_target(area(1, 2, 300, -4), current), area(1, 2, 300, 480));
    assert_eq!(view.resize_target(area(1, 2, -1, 0), current), area(1, 2, 640, 480));
}

#[test]
fn views_compare_by_shell() {
    let mut a = View::new(Shell::XdgV6(9));
    a.move_resize(area(3, 3, 1, 1), 0);
    let b = View::new(Shell::XdgV6(9));
    let c = View::new(Shell::XdgV6(10));
    assert!(a == b);
    assert!(a != c);
}

#[test]
fn size_resized_per_axis() {
    let s = Size::new(10, 20);
    assert_eq!(s.resized(Size::new(0, 5)), Size::new(10, 5));
    assert_eq!(s.resized(Size::new(7, -1)), Size::new(7, 20));
    assert_eq!(area(0, 0, 10, 20).resized(area(3, 4, 0, 0)), area(3, 4, 10, 20));
}
