use gadget_events::touch::{
    key_for_x, Point, PointState, TouchArbiter, TouchKey, WindowEvent,
};

fn pt(id: u8, x: u16, y: u16, state: PointState) -> Point {
    Point { id, state, x, y }
}

fn run(arbiter: &mut TouchArbiter, samples: Vec<Vec<Point>>) -> Vec<WindowEvent> {
    let mut all = Vec::new();
    for sample in samples {
        let outcome = arbiter.process_sample(&sample);
        assert_eq!(outcome.keep_polling, !sample.is_empty());
        all.extend(outcome.events);
    }
    all
}

#[test]
fn gesture_press_duplicate_then_release() {
    let mut a = TouchArbiter::new();
    let events = run(
        &mut a,
        vec![
            vec![pt(0, 50, 50, PointState::Pressed)],
            vec![pt(0, 50, 50, PointState::Moved)],
            vec![],
        ],
    );
    assert_eq!(
        events,
        vec![
            WindowEvent::PointerPressed { x: 50, y: 50 },
            WindowEvent::PointerReleased { x: 50, y: 50 },
            WindowEvent::PointerExited,
        ]
    );
    assert_eq!(a.pointer_id(), None);
}

#[test]
fn center_key_press_and_release() {
    let mut a = TouchArbiter::new();
    let events = run(&mut a, vec![vec![pt(0, 200, 260, PointState::Pressed)], vec![]]);
    assert_eq!(
        events,
        vec![
            WindowEvent::KeyPressed { key: TouchKey::Center },
            WindowEvent::KeyReleased { key: TouchKey::Center },
        ]
    );
}

#[test]
fn gesture_and_key_together_release_independently() {
    let mut a = TouchArbiter::new();
    let first = a.process_sample(&vec![
        pt(0, 100, 100, PointState::Pressed),
        pt(1, 300, 250, PointState::Pressed),
    ]);
    assert_eq!(
        first.events,
        vec![
            WindowEvent::PointerPressed { x: 100, y: 100 },
            WindowEvent::KeyPressed { key: TouchKey::Right },
        ]
    );
    assert_eq!(a.pointer_id(), Some(0));
    assert!(a.is_active(0) && a.is_active(1));

    // the gesture contact lifts; the key stays held
    let second = a.process_sample(&vec![pt(1, 300, 250, PointState::Moved)]);
    assert_eq!(
        second.events,
        vec![WindowEvent::PointerReleased { x: 100, y: 100 }, WindowEvent::PointerExited]
    );
    assert_eq!(a.pointer_id(), None);
    assert!(a.is_active(1));

    let last = a.process_sample(&vec![]);
    assert_eq!(last.events, vec![WindowEvent::KeyReleased { key: TouchKey::Right }]);
    assert!(!last.keep_polling);
}

#[test]
fn key_released_first_leaves_pointer_alone() {
    let mut a = TouchArbiter::new();
    run(
        &mut a,
        vec![vec![pt(0, 10, 10, PointState::Pressed), pt(1, 20, 270, PointState::Pressed)]],
    );
    let out = a.process_sample(&vec![pt(0, 12, 11, PointState::Moved)]);
    assert_eq!(
        out.events,
        vec![
            WindowEvent::PointerMoved { x: 12, y: 11 },
            WindowEvent::KeyReleased { key: TouchKey::Left },
        ]
    );
    assert_eq!(a.pointer_id(), Some(0));
}

#[test]
fn second_gesture_touch_is_ignored() {
    let mut a = TouchArbiter::new();
    let out = a.process_sample(&vec![
        pt(0, 30, 40, PointState::Pressed),
        pt(1, 200, 100, PointState::Pressed),
    ]);
    assert_eq!(out.events, vec![WindowEvent::PointerPressed { x: 30, y: 40 }]);
    assert_eq!(a.pointer_id(), Some(0));
    assert!(!a.is_active(1));
    let out = a.process_sample(&vec![pt(1, 210, 100, PointState::Moved)]);
    assert_eq!(
        out.events,
        vec![WindowEvent::PointerReleased { x: 30, y: 40 }, WindowEvent::PointerExited]
    );
    // id 1 was seen while id 0 held the pointer; it is now a fresh contact
    let out = a.process_sample(&vec![pt(1, 220, 100, PointState::Moved)]);
    assert_eq!(out.events, vec![WindowEvent::PointerPressed { x: 220, y: 100 }]);
}

#[test]
fn pointer_moves_emit_moved_and_duplicates_are_dropped() {
    let mut a = TouchArbiter::new();
    let events = run(
        &mut a,
        vec![
            vec![pt(1, 5, 6, PointState::Pressed)],
            vec![pt(1, 7, 6, PointState::Moved)],
            vec![pt(1, 7, 6, PointState::Moved)],
            vec![pt(1, 7, 6, PointState::Moved)],
            vec![pt(1, 9, 8, PointState::Moved)],
            vec![],
        ],
    );
    assert_eq!(
        events,
        vec![
            WindowEvent::PointerPressed { x: 5, y: 6 },
            WindowEvent::PointerMoved { x: 7, y: 6 },
            WindowEvent::PointerMoved { x: 9, y: 8 },
            WindowEvent::PointerReleased { x: 9, y: 8 },
            WindowEvent::PointerExited,
        ]
    );
}

#[test]
fn held_key_does_not_repeat() {
    let mut a = TouchArbiter::new();
    let events = run(
        &mut a,
        vec![
            vec![pt(0, 50, 250, PointState::Pressed)],
            vec![pt(0, 60, 255, PointState::Moved)],
            vec![pt(0, 150, 255, PointState::Moved)],
            vec![],
        ],
    );
    // the key is released as the one it was pressed as
    assert_eq!(
        events,
        vec![
            WindowEvent::KeyPressed { key: TouchKey::Left },
            WindowEvent::KeyReleased { key: TouchKey::Left },
        ]
    );
}

#[test]
fn key_contact_sliding_up_never_becomes_pointer() {
    let mut a = TouchArbiter::new();
    let events = run(
        &mut a,
        vec![
            vec![pt(0, 250, 260, PointState::Pressed)],
            vec![pt(0, 250, 100, PointState::Moved)],
            vec![],
        ],
    );
    assert_eq!(
        events,
        vec![
            WindowEvent::KeyPressed { key: TouchKey::Right },
            WindowEvent::KeyReleased { key: TouchKey::Right },
        ]
    );
    assert_eq!(a.pointer_id(), None);
}

#[test]
fn pointer_contact_sliding_down_stays_pointer() {
    let mut a = TouchArbiter::new();
    let events = run(
        &mut a,
        vec![
            vec![pt(0, 100, 200, PointState::Pressed)],
            vec![pt(0, 100, 260, PointState::Moved)],
            vec![],
        ],
    );
    assert_eq!(
        events,
        vec![
            WindowEvent::PointerPressed { x: 100, y: 200 },
            WindowEvent::PointerReleased { x: 100, y: 200 },
            WindowEvent::PointerExited,
        ]
    );
}

#[test]
fn gesture_zone_edge_is_at_240() {
    let mut a = TouchArbiter::new();
    let out = a.process_sample(&vec![pt(0, 10, 239, PointState::Pressed)]);
    assert_eq!(out.events, vec![WindowEvent::PointerPressed { x: 10, y: 239 }]);
    let mut b = TouchArbiter::new();
    let out = b.process_sample(&vec![pt(0, 10, 240, PointState::Pressed)]);
    assert_eq!(out.events, vec![WindowEvent::KeyPressed { key: TouchKey::Left }]);
}

#[test]
fn key_zone_boundaries() {
    assert_eq!(key_for_x(0), TouchKey::Left);
    assert_eq!(key_for_x(106), TouchKey::Left);
    assert_eq!(key_for_x(107), TouchKey::Center);
    assert_eq!(key_for_x(213), TouchKey::Center);
    assert_eq!(key_for_x(214), TouchKey::Right);
    assert_eq!(key_for_x(319), TouchKey::Right);
    assert_eq!(key_for_x(u16::MAX), TouchKey::Right);
}

#[test]
fn empty_sample_on_fresh_state_ends_session_silently() {
    let mut a = TouchArbiter::new();
    let out = a.process_sample(&vec![]);
    assert!(out.events.is_empty());
    assert!(!out.keep_polling);
    assert_eq!(a, TouchArbiter::new());
}

#[test]
fn presses_and_releases_balance_over_a_session() {
    let mut a = TouchArbiter::new();
    let events = run(
        &mut a,
        vec![
            vec![pt(0, 10, 10, PointState::Pressed)],
            vec![pt(0, 11, 10, PointState::Moved), pt(1, 300, 300, PointState::Pressed)],
            vec![pt(1, 300, 300, PointState::Moved)],
            vec![pt(0, 50, 260, PointState::Pressed), pt(1, 300, 300, PointState::Moved)],
            vec![pt(0, 50, 260, PointState::Moved)],
            vec![],
        ],
    );
    let count = |f: &dyn Fn(&WindowEvent) -> bool| events.iter().filter(|e| f(e)).count();
    let pp = count(&|e| matches!(e, WindowEvent::PointerPressed { .. }));
    let pr = count(&|e| matches!(e, WindowEvent::PointerReleased { .. }));
    let px = count(&|e| matches!(e, WindowEvent::PointerExited));
    let kp = count(&|e| matches!(e, WindowEvent::KeyPressed { .. }));
    let kr = count(&|e| matches!(e, WindowEvent::KeyReleased { .. }));
    assert_eq!((pp, pr, px), (1, 1, 1));
    assert_eq!((kp, kr), (2, 2));
    assert!(!a.is_active(0) && !a.is_active(1));
}

#[test]
fn retouch_at_recorded_spot_presses_again_and_key_contact_stays_key() {
    let mut a = TouchArbiter::new();
    let events = run(
        &mut a,
        vec![
            vec![pt(0, 50, 50, PointState::Pressed), pt(1, 200, 260, PointState::Pressed)],
            vec![pt(1, 200, 260, PointState::Moved)],
            vec![pt(0, 50, 50, PointState::Pressed), pt(1, 200, 260, PointState::Moved)],
            vec![pt(1, 200, 260, PointState::Moved)],
            vec![pt(0, 100, 260, PointState::Pressed), pt(1, 200, 260, PointState::Moved)],
            vec![pt(0, 100, 100, PointState::Moved), pt(1, 200, 260, PointState::Moved)],
            vec![],
        ],
    );
    assert_eq!(
        events,
        vec![
            WindowEvent::PointerPressed { x: 50, y: 50 },
            WindowEvent::KeyPressed { key: TouchKey::Center },
            WindowEvent::PointerReleased { x: 50, y: 50 },
            WindowEvent::PointerExited,
            WindowEvent::PointerPressed { x: 50, y: 50 },
            WindowEvent::PointerReleased { x: 50, y: 50 },
            WindowEvent::PointerExited,
            WindowEvent::KeyPressed { key: TouchKey::Left },
            WindowEvent::KeyReleased { key: TouchKey::Left },
            WindowEvent::KeyReleased { key: TouchKey::Center },
        ]
    );
    assert_eq!(a.pointer_id(), None);
}

#[test]
fn first_touch_at_origin_is_pressed() {
    let mut a = TouchArbiter::new();
    let events = run(&mut a, vec![vec![pt(0, 0, 0, PointState::Pressed)], vec![]]);
    assert_eq!(
        events,
        vec![
            WindowEvent::PointerPressed { x: 0, y: 0 },
            WindowEvent::PointerReleased { x: 0, y: 0 },
            WindowEvent::PointerExited,
        ]
    );
}

#[test]
fn pointer_and_right_key_released_together() {
    let mut a = TouchArbiter::new();
    let events = run(
        &mut a,
        vec![
            vec![pt(0, 50, 50, PointState::Pressed), pt(1, 250, 260, PointState::Pressed)],
            vec![],
        ],
    );
    assert_eq!(
        events,
        vec![
            WindowEvent::PointerPressed { x: 50, y: 50 },
            WindowEvent::KeyPressed { key: TouchKey::Right },
            WindowEvent::PointerReleased { x: 50, y: 50 },
            WindowEvent::PointerExited,
            WindowEvent::KeyReleased { key: TouchKey::Right },
        ]
    );
}

#[test]
fn key_released_while_pointer_moves() {
    let mut a = TouchArbiter::new();
    let events = run(
        &mut a,
        vec![
            vec![pt(0, 50, 50, PointState::Pressed), pt(1, 250, 260, PointState::Pressed)],
            vec![pt(0, 60, 60, PointState::Moved)],
            vec![],
        ],
    );
    assert_eq!(
        events,
        vec![
            WindowEvent::PointerPressed { x: 50, y: 50 },
            WindowEvent::KeyPressed { key: TouchKey::Right },
            WindowEvent::PointerMoved { x: 60, y: 60 },
            WindowEvent::KeyReleased { key: TouchKey::Right },
            WindowEvent::PointerReleased { x: 60, y: 60 },
            WindowEvent::PointerExited,
        ]
    );
}

#[test]
fn still_pointer_with_second_contact_sends_no_move() {
    let mut a = TouchArbiter::new();
    run(&mut a, vec![vec![pt(0, 30, 30, PointState::Pressed)]]);
    let out = a.process_sample(&vec![
        pt(0, 30, 30, PointState::Moved),
        pt(1, 90, 90, PointState::Pressed),
    ]);
    assert!(out.events.is_empty());
    let out = a.process_sample(&vec![
        pt(1, 95, 90, PointState::Moved),
        pt(0, 30, 30, PointState::Moved),
    ]);
    assert!(out.events.is_empty());
    assert_eq!(a.pointer_id(), Some(0));
}
