use event_tracker::events::{normalize, RawEvent};
use event_tracker::pipeline::{capture_step, run_events, CaptureState};
use event_tracker::relay::Relay;
use event_tracker::tracker::PositionTracker;

fn three_events() -> Vec<(u64, RawEvent)> {
    vec![
        (100, RawEvent::MouseMove("10".to_string(), "20".to_string())),
        (150, RawEvent::ButtonPress("Left".to_string())),
        (200, RawEvent::KeyPress("A".to_string())),
    ]
}

#[test]
fn three_events_produce_expected_rows_and_displays() {
    let mut state = CaptureState::new();
    let mut rows: Vec<String> = Vec::new();
    let mut relay = Relay::new();
    run_events(&mut state, &three_events(), &mut rows, &mut relay);

    assert_eq!(
        rows,
        vec![
            "100,mouse_move,,,10,20".to_string(),
            "150,button_press,,Left,10,20".to_string(),
            "200,key_press,A,,,".to_string(),
        ]
    );

    let displays = relay.drain_all();
    assert_eq!(displays.len(), 3);
    assert!(displays[0].contains("Mouse Move: x=10, y=20"));
    assert!(displays[1].contains("Button Press: Left at x=10, y=20"));
    assert!(displays[2].contains("Key Press: A"));
    assert_eq!(displays[0], "100: Mouse Move: x=10, y=20");
    assert_eq!(displays[1], "150: Button Press: Left at x=10, y=20");
    assert_eq!(displays[2], "200: Key Press: A");
}

#[test]
fn one_late_drain_receives_everything_in_order() {
    let mut state = CaptureState::new();
    let mut rows: Vec<String> = Vec::new();
    let mut relay = Relay::new();
    run_events(&mut state, &three_events(), &mut rows, &mut relay);
    assert_eq!(relay.queued(), 3);
    // The observer polls only now, once, and gets all three at once.
    let displays = relay.drain_all();
    assert_eq!(
        displays,
        vec![
            "100: Mouse Move: x=10, y=20".to_string(),
            "150: Button Press: Left at x=10, y=20".to_string(),
            "200: Key Press: A".to_string(),
        ]
    );
    assert_eq!(relay.queued(), 0);
}

#[test]
fn sink_keeps_filling_while_nobody_drains() {
    let mut state = CaptureState::new();
    let mut rows: Vec<String> = Vec::new();
    let mut relay = Relay::new();
    for round in 0..200u64 {
        let events = vec![
            (round * 2, RawEvent::MouseMove(round.to_string(), "5".to_string())),
            (round * 2 + 1, RawEvent::ButtonPress("Left".to_string())),
        ];
        run_events(&mut state, &events, &mut rows, &mut relay);
    }
    // Nothing was ever drained, yet every row reached the sink.
    assert_eq!(rows.len(), 400);
    assert_eq!(relay.queued(), 400);
    assert_eq!(rows[399], "399,button_press,,Left,199,5");
}

#[test]
fn button_reads_origin_before_any_move() {
    let mut tracker = PositionTracker::new();
    let (record, display) = normalize(&mut tracker, 42, &RawEvent::ButtonPress("Right".to_string()));
    let record = record.expect("a button press always yields a record");
    assert_eq!(record.x, "0");
    assert_eq!(record.y, "0");
    assert_eq!(display.expect("and a display line"), "42: Button Press: Right at x=0, y=0");
}

#[test]
fn button_reads_most_recent_move() {
    let mut tracker = PositionTracker::new();
    normalize(&mut tracker, 1, &RawEvent::MouseMove("3".to_string(), "4".to_string()));
    normalize(&mut tracker, 2, &RawEvent::MouseMove("7".to_string(), "8".to_string()));
    let (record, _) = normalize(&mut tracker, 3, &RawEvent::ButtonRelease("Left".to_string()));
    let record = record.unwrap();
    assert_eq!(record.x, "7");
    assert_eq!(record.y, "8");
}

#[test]
fn wheel_events_are_silently_ignored() {
    let mut tracker = PositionTracker::new();
    let (record, display) = normalize(&mut tracker, 5, &RawEvent::Wheel(0, -1));
    assert!(record.is_none());
    assert!(display.is_none());
}

#[test]
fn ignored_events_produce_no_row_and_no_display() {
    let mut state = CaptureState::new();
    let out = capture_step(&mut state, 9, &RawEvent::Wheel(1, 0));
    assert_eq!(out.0, None);
    assert_eq!(out.1, None);
}

#[test]
fn key_release_and_button_release_rows() {
    let mut state = CaptureState::new();
    let out = capture_step(&mut state, 10, &RawEvent::KeyRelease("ShiftLeft".to_string()));
    assert_eq!(out.0.unwrap(), "10,key_release,ShiftLeft,,,");
    let out = capture_step(&mut state, 11, &RawEvent::ButtonRelease("Middle".to_string()));
    assert_eq!(out.0.unwrap(), "11,button_release,,Middle,0,0");
    assert_eq!(out.1.unwrap(), "11: Button Release: Middle at x=0, y=0");
}
