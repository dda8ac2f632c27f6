use way_cooler::drawin::{Drawin, DrawinError, DrawinRegistry, DrawinState};
use way_cooler::geometry::{Area, Origin, Size};

fn area(x: i32, y: i32, width: i32, height: i32) -> Area {
    Area::new(Origin::new(x, y), Size::new(width, height))
}

#[test]
fn visible_drawin_is_collected_with_its_geometry() {
    let mut reg = DrawinRegistry::new();
    let d = Drawin::new(&mut reg);
    d.resize(&mut reg, area(10, 10, 100, 50)).unwrap();
    d.set_visible(&mut reg, true).unwrap();
    let visible = DrawinState::collect_visible(&mut reg);
    assert_eq!(visible, vec![d.state]);
    assert_eq!(reg.get(visible[0]).unwrap().geometry, area(10, 10, 100, 50));
}

#[test]
fn new_drawin_is_hidden_and_empty() {
    let mut reg = DrawinRegistry::new();
    let d = Drawin::new(&mut reg);
    assert_eq!(d.get_visible(&reg), Ok(false));
    assert_eq!(d.get_geometry(&reg), Ok(area(0, 0, 0, 0)));
    assert_eq!(d.surface(&reg), Ok(None));
    assert_eq!(d.redraw_target(&reg), Ok(None));
    assert!(DrawinState::collect_visible(&mut reg).is_empty());
}

#[test]
fn destroyed_drawins_are_pruned_and_never_returned() {
    let mut reg = DrawinRegistry::new();
    let a = Drawin::new(&mut reg);
    let b = Drawin::new(&mut reg);
    let c = Drawin::new(&mut reg);
    for d in [a, b, c] {
        d.set_visible(&mut reg, true).unwrap();
    }
    reg.destroy(b.state).unwrap();
    assert_eq!(DrawinState::collect_visible(&mut reg), vec![a.state, c.state]);
    c.set_visible(&mut reg, false).unwrap();
    assert_eq!(DrawinState::collect_visible(&mut reg), vec![a.state]);
    reg.destroy(a.state).unwrap();
    reg.destroy(c.state).unwrap();
    assert!(DrawinState::collect_visible(&mut reg).is_empty());
}

#[test]
fn registry_stays_bounded_under_churn() {
    let mut reg = DrawinRegistry::new();
    let keep = Drawin::new(&mut reg);
    keep.set_visible(&mut reg, true).unwrap();
    for _ in 0..1000 {
        let d = Drawin::new(&mut reg);
        d.set_visible(&mut reg, true).unwrap();
        reg.destroy(d.state).unwrap();
        assert_eq!(DrawinState::collect_visible(&mut reg), vec![keep.state]);
    }
}

#[test]
fn stale_handle_fails_after_slot_reuse() {
    let mut reg = DrawinRegistry::new();
    let old = Drawin::new(&mut reg);
    reg.destroy(old.state).unwrap();
    let new = Drawin::new(&mut reg);
    assert_eq!(new.state.index, old.state.index);
    assert_ne!(new.state.generation, old.state.generation);
    assert!(!reg.contains(old.state));
    assert!(reg.contains(new.state));
    assert_eq!(old.get_visible(&reg), Err(DrawinError::Destroyed));
    assert_eq!(old.set_visible(&mut reg, true), Err(DrawinError::Destroyed));
    assert_eq!(old.resize(&mut reg, area(1, 1, 1, 1)), Err(DrawinError::Destroyed));
    assert_eq!(old.update_drawing(&mut reg, Some(3)), Err(DrawinError::Destroyed));
    assert_eq!(old.geometry(&mut reg, None), Err(DrawinError::Destroyed));
    assert_eq!(reg.destroy(old.state), Err(DrawinError::Destroyed));
    assert_eq!(new.get_visible(&reg), Ok(false));
}

#[test]
fn set_visible_twice_equals_once() {
    let mut once = DrawinRegistry::new();
    let a = Drawin::new(&mut once);
    a.set_visible(&mut once, true).unwrap();
    let mut twice = DrawinRegistry::new();
    let b = Drawin::new(&mut twice);
    b.set_visible(&mut twice, true).unwrap();
    b.set_visible(&mut twice, true).unwrap();
    let sa = once.get(a.state).unwrap();
    let sb = twice.get(b.state).unwrap();
    assert_eq!(sa.visible, sb.visible);
    assert_eq!(sa.geometry_dirty, sb.geometry_dirty);
    assert_eq!(sa.geometry, sb.geometry);
    assert_eq!(sa.surface, sb.surface);
}

#[test]
fn repeated_geometry_regenerates_once() {
    let mut reg = DrawinRegistry::new();
    let d = Drawin::new(&mut reg);
    d.resize(&mut reg, area(0, 0, 10, 10)).unwrap();
    d.resize(&mut reg, area(0, 0, 10, 10)).unwrap();
    let mut redraws = 0;
    for frame in 0..3u64 {
        if let Some(target) = d.redraw_target(&reg).unwrap() {
            assert_eq!(target, area(0, 0, 10, 10));
            redraws += 1;
            d.update_drawing(&mut reg, Some(frame)).unwrap();
        }
    }
    assert_eq!(redraws, 1);
    assert_eq!(d.surface(&reg), Ok(Some(0)));
    d.resize(&mut reg, area(0, 0, 10, 10)).unwrap();
    assert_eq!(d.redraw_target(&reg), Ok(None));
}

#[test]
fn nonpositive_axis_keeps_old_value() {
    let mut reg = DrawinRegistry::new();
    let d = Drawin::new(&mut reg);
    d.resize(&mut reg, area(0, 0, 40, 30)).unwrap();
    d.resize(&mut reg, area(5, 6, 0, 70)).unwrap();
    assert_eq!(d.get_geometry(&reg), Ok(area(5, 6, 40, 70)));
    d.resize(&mut reg, area(5, 6, 90, -3)).unwrap();
    assert_eq!(d.get_geometry(&reg), Ok(area(5, 6, 90, 70)));
}

#[test]
fn property_setters_change_one_field() {
    let mut reg = DrawinRegistry::new();
    let d = Drawin::new(&mut reg);
    d.resize(&mut reg, area(1, 2, 3, 4)).unwrap();
    d.set_x(&mut reg, 11).unwrap();
    d.set_y(&mut reg, 12).unwrap();
    d.set_width(&mut reg, 13).unwrap();
    d.set_height(&mut reg, 14).unwrap();
    assert_eq!(d.get_geometry(&reg), Ok(area(11, 12, 13, 14)));
    d.set_width(&mut reg, 0).unwrap();
    d.set_height(&mut reg, -2).unwrap();
    assert_eq!(d.get_geometry(&reg), Ok(area(11, 12, 13, 14)));
}

#[test]
fn geometry_request_falls_back_per_axis() {
    let mut reg = DrawinRegistry::new();
    let d = Drawin::new(&mut reg);
    assert_eq!(d.geometry(&mut reg, Some(area(1, 1, 20, 20))), Ok(area(1, 1, 20, 20)));
    assert_eq!(d.geometry(&mut reg, Some(area(7, 7, 0, 20))), Ok(area(7, 7, 20, 20)));
    assert_eq!(d.geometry(&mut reg, None), Ok(area(7, 7, 20, 20)));
}

#[test]
fn geometry_request_keeps_only_the_bad_axis() {
    let mut reg = DrawinRegistry::new();
    let d = Drawin::new(&mut reg);
    d.resize(&mut reg, area(0, 0, 100, 50)).unwrap();
    assert_eq!(d.geometry(&mut reg, Some(area(5, 5, 0, 80))), Ok(area(5, 5, 100, 80)));
    assert_eq!(d.geometry(&mut reg, Some(area(6, 6, 30, -1))), Ok(area(6, 6, 30, 80)));
}

#[test]
fn visibility_change_asks_for_redraw() {
    let mut reg = DrawinRegistry::new();
    let d = Drawin::new(&mut reg);
    d.set_visible(&mut reg, false).unwrap();
    assert_eq!(d.redraw_target(&reg), Ok(None));
    d.set_visible(&mut reg, true).unwrap();
    assert_eq!(d.redraw_target(&reg), Ok(Some(area(0, 0, 0, 0))));
}
