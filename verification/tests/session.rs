use kmflow::edge::{EdgeDetector, EdgeHit};
use kmflow::proto::{
    ButtonState, ControlCommand, Delta, Double, Edge, InputEvent, KeyState, MouseButton,
    ScreenInfo, ScreenPosition,
};
use kmflow::session::{
    DaemonState, HeldButtons, Plan, Session, EMERGENCY_HOTKEY_ALT,
    EMERGENCY_HOTKEY_CTRL, EMERGENCY_HOTKEY_ESC, EVENT_BATCH_LIMIT,
};
use kmflow::state::ConnectionState;

fn screen(width: u32, height: u32) -> ScreenInfo {
    ScreenInfo {
        width,
        height,
        scale_factor: Double { bits: 1.0f64.to_bits() },
        position: ScreenPosition { edge: Edge::Right, monitor_id: 0 },
    }
}

fn session(receive_only: bool) -> Session {
    Session { detector: EdgeDetector::new(screen(1920, 1080), Edge::Right), receive_only }
}

fn state() -> DaemonState {
    DaemonState::new(screen(1920, 1080))
}

fn motion(dx: i64, dy: i64) -> InputEvent {
    InputEvent::MouseMove {
        dx: Delta::from_whole(dx as i128),
        dy: Delta::from_whole(dy as i128),
    }
}

fn key(scancode: u32, pressed: bool) -> InputEvent {
    let state = if pressed { KeyState::Pressed } else { KeyState::Released };
    InputEvent::Key { scancode, state }
}

fn button(button: MouseButton, pressed: bool) -> InputEvent {
    let state = if pressed { ButtonState::Pressed } else { ButtonState::Released };
    InputEvent::MouseButton { button, state }
}

fn is_idle(p: &Plan) -> bool {
    p.grab.is_none()
        && p.frame.is_none()
        && p.flush.is_none()
        && p.control.is_none()
        && p.emit.is_empty()
        && p.batch.is_none()
        && !p.stop
}

fn switches(p: &Plan) -> bool {
    p.control == Some(ControlCommand::SwitchFocus { to_peer: "remote".to_string() })
        && p.frame.is_none()
        && p.emit.is_empty()
}

#[test]
fn a_daemon_starts_in_the_middle_of_its_screen() {
    let s = state();
    assert_eq!((s.cursor_x, s.cursor_y), (960, 540));
    assert_eq!(s.connection_state, ConnectionState::Disconnected);
    assert!(!s.focus_is_remote);
    assert_eq!(s.seq_counter, 0);
    assert_eq!(s.remote_screen, None);
    assert!(s.pressed_keys.is_empty());
}

#[test]
fn keys_and_buttons_are_followed() {
    let mut s = state();
    s.track_key_state(&key(30, true));
    s.track_key_state(&button(MouseButton::Left, true));
    assert!(s.pressed_keys.contains(&30));
    assert!(s.pressed_buttons.contains(MouseButton::Left));
    assert!(!s.pressed_buttons.contains(MouseButton::Right));
    s.track_key_state(&motion(1, 1));
    s.track_key_state(&key(30, false));
    s.track_key_state(&button(MouseButton::Left, false));
    assert!(s.pressed_keys.is_empty());
    assert_eq!(s.pressed_buttons, HeldButtons::new());
}

#[test]
fn frames_are_numbered_round() {
    let mut s = state();
    assert_eq!(s.next_seq(), 1);
    assert_eq!(s.next_seq(), 2);
    s.seq_counter = u32::MAX;
    assert_eq!(s.next_seq(), 0);
}

#[test]
fn everything_held_is_released_once() {
    let mut s = state();
    for e in [key(30, true), key(31, true), button(MouseButton::Back, true)] {
        s.track_key_state(&e);
    }
    let releases = s.flush_pressed_keys();
    assert_eq!(releases.len(), 3);
    assert!(releases.contains(&key(30, false)));
    assert!(releases.contains(&key(31, false)));
    assert_eq!(releases[2], button(MouseButton::Back, false));
    for e in &releases {
        s.track_key_state(e);
    }
    assert!(s.flush_pressed_keys().is_empty());
}

#[test]
fn the_edge_passes_the_focus() {
    let mut s = state();
    let session = session(false);
    assert!(is_idle(&s.on_captured(&session, motion(10, 20))));
    assert_eq!((s.cursor_x, s.cursor_y), (970, 560));
    let plan = s.on_captured(&session, motion(5000, 0));
    assert!(switches(&plan));
    assert_eq!(plan.grab, Some(true));
    assert!(s.focus_is_remote);
    assert_eq!((s.cursor_x, s.cursor_y), (960, 540));
}

#[test]
fn the_corner_does_not_pass_the_focus() {
    let mut s = state();
    let plan = s.on_captured(&session(false), motion(5000, -5000));
    assert!(is_idle(&plan));
    assert_eq!((s.cursor_x, s.cursor_y), (1919, 0));
    assert!(!s.focus_is_remote);
}

#[test]
fn the_focus_passes_from_one_machine_to_the_other() {
    let mut here = state();
    let mut there = state();
    there.focus_is_remote = true;
    let plan = here.on_captured(&session(false), motion(5000, 0));
    let reply = there.on_control(&session(false), plan.control.unwrap());
    assert!(here.focus_is_remote);
    assert!(!there.focus_is_remote);
    assert_eq!(reply.grab, Some(false));
    let plan = there.on_datagram(&session(true), vec![motion(5000, 0)]);
    assert!(switches(&plan));
    assert_eq!(plan.grab, None);
    here.on_control(&session(false), plan.control.unwrap());
    assert!(!here.focus_is_remote);
    assert!(there.focus_is_remote);
}

#[test]
fn events_go_to_the_peer_that_has_the_focus() {
    let mut s = state();
    s.focus_is_remote = true;
    let plan = s.on_captured(&session(false), key(30, true));
    assert!(plan.grab.is_none() && plan.frame.is_none() && plan.control.is_none());
    assert!(plan.flush.is_none() && !plan.stop);
    let mut batch = plan.batch.unwrap();
    assert_eq!(batch, vec![key(30, true)]);
    for e in [motion(1, 1), key(30, false), key(31, true)] {
        assert!(s.drains(batch.len()));
        s.drain(&mut batch, e);
    }
    let plan = s.forward(&session(false), batch);
    assert!(plan.grab.is_none() && plan.flush.is_none() && plan.control.is_none());
    let batch = plan.frame.unwrap();
    assert_eq!(batch.seq, 1);
    assert_eq!(
        batch.events,
        vec![key(30, true), motion(1, 1), key(30, false), key(31, true)]
    );
    assert!(s.focus_is_remote);
    assert!(!s.pressed_keys.contains(&30));
    assert!(s.pressed_keys.contains(&31));
    assert_eq!((s.cursor_x, s.cursor_y), (960, 540));
}

#[test]
fn batches_are_limited() {
    let s = state();
    assert_eq!(EVENT_BATCH_LIMIT, 64);
    assert!(s.drains(63));
    assert!(!s.drains(64));
}

#[test]
fn the_hotkey_counts_in_a_batch_too() {
    let mut s = state();
    s.focus_is_remote = true;
    let session = session(false);
    let first = key(EMERGENCY_HOTKEY_CTRL, true);
    let mut batch = s.on_captured(&session, first).batch.unwrap();
    assert_eq!(batch, vec![first]);
    s.drain(&mut batch, key(EMERGENCY_HOTKEY_ALT, true));
    assert!(s.drains(batch.len()));
    s.drain(&mut batch, key(EMERGENCY_HOTKEY_ESC, true));
    assert!(!s.drains(batch.len()));
    let plan = s.forward(&session, batch);
    assert!(!s.focus_is_remote);
    assert_eq!(plan.grab, Some(false));
    assert_eq!(plan.control, Some(ControlCommand::ReleaseFocus));
    let frame = plan.frame.unwrap();
    assert_eq!(frame.seq, 1);
    assert_eq!(frame.events, vec![first, key(EMERGENCY_HOTKEY_ALT, true)]);
    let flush = plan.flush.unwrap();
    assert_eq!(flush.seq, 2);
    assert_eq!(flush.events.len(), 3);
    assert!(flush.events.contains(&key(EMERGENCY_HOTKEY_ESC, false)));
}

#[test]
fn the_emergency_hotkey_frees_the_focus() {
    let mut s = state();
    s.focus_is_remote = true;
    let session = session(false);
    s.on_captured(&session, key(EMERGENCY_HOTKEY_CTRL, true));
    s.on_captured(&session, key(EMERGENCY_HOTKEY_ALT, true));
    assert!(!s.check_emergency_hotkey());
    assert!(s.focus_is_remote);
    let plan = s.on_captured(&session, key(EMERGENCY_HOTKEY_ESC, true));
    assert!(s.check_emergency_hotkey());
    assert!(!s.focus_is_remote);
    assert_eq!(plan.grab, Some(false));
    assert_eq!(plan.control, Some(ControlCommand::ReleaseFocus));
    assert!(plan.frame.is_none());
    let frame = plan.flush.unwrap();
    assert_eq!(frame.seq, 1);
    assert_eq!(frame.events.len(), 3);
    for code in [EMERGENCY_HOTKEY_CTRL, EMERGENCY_HOTKEY_ALT, EMERGENCY_HOTKEY_ESC] {
        assert!(frame.events.contains(&key(code, false)));
    }
}

#[test]
fn the_hotkey_does_nothing_with_the_focus_here() {
    let mut s = state();
    let session = session(false);
    for code in [EMERGENCY_HOTKEY_CTRL, EMERGENCY_HOTKEY_ALT, EMERGENCY_HOTKEY_ESC] {
        assert!(is_idle(&s.on_captured(&session, key(code, true))));
    }
}

#[test]
fn received_events_are_replayed() {
    let mut s = state();
    let events = vec![key(30, true), motion(-5, 0)];
    let plan = s.on_datagram(&session(false), events.clone());
    assert_eq!(plan.emit, events);
    assert!(plan.grab.is_none() && plan.control.is_none() && !plan.stop);
    assert_eq!((s.cursor_x, s.cursor_y), (955, 540));
    assert!(s.pressed_keys.is_empty());
}

#[test]
fn received_events_are_ignored_without_the_focus() {
    let mut s = state();
    s.focus_is_remote = true;
    assert!(is_idle(&s.on_datagram(&session(false), vec![motion(5000, 0)])));
    assert_eq!((s.cursor_x, s.cursor_y), (960, 540));
}

#[test]
fn received_events_can_hand_the_focus_back() {
    let mut s = state();
    let plan = s.on_datagram(&session(false), vec![key(1, true), motion(5000, 0), motion(-1, 0)]);
    assert!(switches(&plan));
    assert_eq!(plan.grab, Some(true));
    assert!(s.focus_is_remote);
    assert_eq!((s.cursor_x, s.cursor_y), (960, 540));
}

#[test]
fn control_messages_are_answered() {
    let mut s = state();
    s.focus_is_remote = true;
    let plan = s.on_control(&session(false), ControlCommand::Ping { timestamp_us: 77 });
    assert_eq!(plan.control, Some(ControlCommand::Pong { echo_timestamp_us: 77 }));
    assert!(s.focus_is_remote);
    let plan = s.on_control(&session(false), ControlCommand::ReleaseFocus);
    assert_eq!(plan.grab, Some(false));
    assert!(!s.focus_is_remote);
    let plan = s.on_control(&session(true), ControlCommand::ReleaseFocus);
    assert_eq!(plan.grab, None);
    assert!(s.on_control(&session(false), ControlCommand::PeerDisconnecting).stop);
    let plan = s.on_control(&session(false), ControlCommand::Pong { echo_timestamp_us: 1 });
    assert!(is_idle(&plan));
}

#[test]
fn a_session_ends_with_nothing_held() {
    let mut s = state();
    s.connection_state = ConnectionState::Active;
    s.remote_screen = Some(screen(800, 600));
    s.focus_is_remote = true;
    s.track_key_state(&key(30, true));
    let batch = s.finish().unwrap();
    assert_eq!(batch.seq, 1);
    assert_eq!(batch.events, vec![key(30, false)]);
    assert_eq!(s.connection_state, ConnectionState::Disconnected);
    assert_eq!(s.remote_screen, None);
    assert!(!s.focus_is_remote);
    assert!(s.pressed_keys.is_empty());
    assert!(s.finish().is_none());
    s.track_key_state(&key(30, true));
    assert!(s.finish().is_none());
    assert_eq!(s.seq_counter, 1);
}

#[test]
fn motions_that_cannot_be_followed_are_told() {
    let ok = session(false);
    let mut s = state();
    assert!(ok.motion_fits(&s, &[motion(5, 5), key(1, true)]));
    assert!(!ok.motion_fits(&s, &[motion(i32::MAX as i64, 0)]));
    assert!(ok.motion_fits(&s, &[motion(5000, 0), motion(i32::MAX as i64, 0)]));
    assert!(!ok.motion_fits(&s, &[motion(-5, 0), motion(0, i32::MAX as i64)]));
    let none = Session { detector: EdgeDetector::new(screen(0, 1080), Edge::Right), receive_only: false };
    assert!(!none.motion_fits(&s, &[motion(1, 0)]));
    assert!(none.motion_fits(&s, &[key(1, true)]));
    assert!(is_idle(&s.on_captured(&none, key(1, true))));
}

#[test]
fn the_cursor_stays_on_the_screen() {
    let mut s = state();
    let session = Session {
        detector: EdgeDetector::new(screen(1920, 1080), Edge::Left),
        receive_only: false,
    };
    for (dx, dy) in [(5000, 0), (0, 5000), (-3, -9000), (700, 3)] {
        s.on_captured(&session, motion(dx, dy));
        assert!(0 <= s.cursor_x && s.cursor_x < 1920);
        assert!(0 <= s.cursor_y && s.cursor_y < 1080);
    }
}

#[test]
fn the_middle_is_clear_of_the_edge() {
    for edge in [Edge::Left, Edge::Right, Edge::Top, Edge::Bottom] {
        for (w, h) in [(1920, 1080), (3, 1080), (1920, 3), (7, 7)] {
            let s = DaemonState::new(screen(w, h));
            let detector = EdgeDetector::new(screen(w, h), edge);
            assert_eq!(detector.check(s.cursor_x, s.cursor_y), EdgeHit::Miss);
        }
    }
    let s = DaemonState::new(screen(2, 1080));
    let detector = EdgeDetector::new(screen(2, 1080), Edge::Right);
    assert_eq!(detector.check(s.cursor_x, s.cursor_y), EdgeHit::Triggered(Edge::Right));
}

#[test]
fn no_event_is_lost_between_batches() {
    let mut s = state();
    s.focus_is_remote = true;
    let session = session(false);
    let events: Vec<InputEvent> = (0..150).map(|i| key(100 + i, true)).collect();
    let mut waiting = events.clone().into_iter();
    let mut sent = Vec::new();
    let mut sizes = Vec::new();
    while let Some(first) = waiting.next() {
        let mut batch = s.on_captured(&session, first).batch.unwrap();
        while s.drains(batch.len()) {
            match waiting.next() {
                Some(e) => s.drain(&mut batch, e),
                None => break,
            }
        }
        let frame = s.forward(&session, batch).frame.unwrap();
        sizes.push(frame.events.len());
        sent.extend(frame.events);
    }
    assert_eq!(sent, events);
    assert_eq!(sizes, vec![64, 64, 22]);
    assert_eq!(s.pressed_keys.len(), 150);
}
