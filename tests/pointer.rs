use azimuth::{Datamap, MouseEvent, MouseReport, PointerState, BTN_LEFT, BTN_RIGHT, DEFAULT_SENSITIVITY, PITCH_LIMIT};

#[test]
fn new_pointer_looks_ahead() {
    let s = PointerState::new();
    assert_eq!((s.yaw, s.pitch, s.sensitivity), (0, 0, DEFAULT_SENSITIVITY));
    assert_eq!(s.datamap, Datamap { select: false, grab: false, scroll_x: 0, scroll_y: 0 });
}

#[test]
fn motion_sums_times_sensitivity() {
    let mut s = PointerState::new();
    s.frame(&vec![MouseEvent::Moved { dx: 10, dy: 5 }, MouseEvent::Moved { dx: -3, dy: 2 }]);
    assert_eq!(s.yaw, 700);
    assert_eq!(s.pitch, 700);
}

#[test]
fn motion_order_does_not_matter() {
    let mut a = PointerState::new();
    let mut b = PointerState::new();
    a.frame(&vec![MouseEvent::Moved { dx: 40, dy: -7 }, MouseEvent::Moved { dx: -1, dy: 30 }]);
    b.frame(&vec![MouseEvent::Moved { dx: -1, dy: 30 }, MouseEvent::Moved { dx: 40, dy: -7 }]);
    assert_eq!((a.yaw, a.pitch), (b.yaw, b.pitch));
    assert_eq!((a.yaw, a.pitch), (3900, 2300));
}

#[test]
fn pitch_clamps_to_limit() {
    let mut s = PointerState::new();
    s.frame(&vec![MouseEvent::Moved { dx: 0, dy: 1000 }]);
    assert_eq!(s.pitch, PITCH_LIMIT);
    s.frame(&vec![MouseEvent::Moved { dx: 0, dy: -5000 }]);
    assert_eq!(s.pitch, -PITCH_LIMIT);
}

#[test]
fn pitch_clamps_once_per_frame() {
    let mut s = PointerState::new();
    s.frame(&vec![MouseEvent::Moved { dx: 0, dy: 1000 }, MouseEvent::Moved { dx: 0, dy: -1000 }]);
    assert_eq!(s.pitch, 0);
    let mut t = PointerState::new();
    t.frame(&vec![MouseEvent::Moved { dx: 0, dy: -1000 }, MouseEvent::Moved { dx: 0, dy: 1000 }]);
    assert_eq!(t.pitch, 0);
}

#[test]
fn pitch_sums_past_the_limit_within_a_frame() {
    let mut s = PointerState::new();
    s.frame(&vec![MouseEvent::Moved { dx: 0, dy: 1000 }, MouseEvent::Moved { dx: 0, dy: -950 }]);
    assert_eq!(s.pitch, 5000);
    s.frame(&vec![MouseEvent::Moved { dx: 0, dy: 2000 }]);
    s.frame(&vec![MouseEvent::Moved { dx: 0, dy: -100 }]);
    assert_eq!(s.pitch, 80_000);
}

#[test]
fn yaw_is_not_clamped_and_saturates() {
    let mut s = PointerState::with_sensitivity(u32::MAX);
    s.frame(&vec![MouseEvent::Moved { dx: 5000, dy: 0 }]);
    assert_eq!(s.yaw, 5000 * u32::MAX as i64);
    s.frame(&vec![MouseEvent::Moved { dx: i32::MAX, dy: 0 }, MouseEvent::Moved { dx: i32::MAX, dy: 0 }]);
    assert_eq!(s.yaw, i64::MAX);
}

#[test]
fn double_press_keeps_level_set() {
    let mut s = PointerState::new();
    s.frame(&vec![MouseEvent::LeftClick(true), MouseEvent::LeftClick(true), MouseEvent::RightClick(true), MouseEvent::RightClick(true)]);
    assert!(s.datamap.select);
    assert!(s.datamap.grab);
}

#[test]
fn release_without_press_clears_level() {
    let mut s = PointerState::new();
    s.frame(&vec![MouseEvent::LeftClick(false), MouseEvent::RightClick(false)]);
    assert!(!s.datamap.select);
    assert!(!s.datamap.grab);
}

#[test]
fn levels_hold_across_frames() {
    let mut s = PointerState::new();
    s.frame(&vec![MouseEvent::LeftClick(true)]);
    s.frame(&vec![]);
    assert!(s.datamap.select);
    s.frame(&vec![MouseEvent::LeftClick(false)]);
    assert!(!s.datamap.select);
}

#[test]
fn scroll_resets_each_frame_without_scroll() {
    let mut s = PointerState::new();
    s.frame(&vec![MouseEvent::Scroll { x: 0.3f32.to_bits(), y: (-0.2f32).to_bits() }]);
    assert_eq!((s.datamap.scroll_x, s.datamap.scroll_y), (0.3f32.to_bits(), (-0.2f32).to_bits()));
    s.frame(&vec![MouseEvent::Moved { dx: 1, dy: 1 }]);
    assert_eq!((s.datamap.scroll_x, s.datamap.scroll_y), (0, 0));
}

#[test]
fn last_scroll_of_a_frame_wins() {
    let mut s = PointerState::new();
    s.frame(&vec![
        MouseEvent::Scroll { x: 1.5f32.to_bits(), y: 2.5f32.to_bits() },
        MouseEvent::ScrollDiscrete { x: 1.0f32.to_bits(), y: (-1.0f32).to_bits() },
    ]);
    assert_eq!((s.datamap.scroll_x, s.datamap.scroll_y), (1.0f32.to_bits(), (-1.0f32).to_bits()));
}

#[test]
fn apply_folds_one_event() {
    let mut s = PointerState::with_sensitivity(2);
    s.apply(MouseEvent::Moved { dx: -4, dy: 3 });
    assert_eq!((s.yaw, s.pitch), (-8, 6));
}

#[test]
fn report_becomes_events_in_order() {
    let report = MouseReport {
        delta: Some((3, -2)),
        buttons_down: vec![BTN_LEFT, 0x112, BTN_RIGHT],
        buttons_up: vec![BTN_LEFT],
        scroll_distance: Some((0.5f32.to_bits(), 0)),
        scroll_steps: Some((0, 1.0f32.to_bits())),
    };
    assert_eq!(
        report.normalize(),
        vec![
            MouseEvent::Moved { dx: 3, dy: -2 },
            MouseEvent::LeftClick(true),
            MouseEvent::RightClick(true),
            MouseEvent::LeftClick(false),
            MouseEvent::Scroll { x: 0.5f32.to_bits(), y: 0 },
            MouseEvent::ScrollDiscrete { x: 0, y: 1.0f32.to_bits() },
        ]
    );
}

#[test]
fn empty_report_has_no_events() {
    let report = MouseReport { delta: None, buttons_down: vec![], buttons_up: vec![0x113], scroll_distance: None, scroll_steps: None };
    assert_eq!(report.normalize(), Vec::<MouseEvent>::new());
}
