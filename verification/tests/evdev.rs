use kmflow::evdev::{
    capability_requests, emit, parse_raw_event, raw_event_bytes, translate_key_event,
    virtual_device_name, EvdevCapture, RawEvent, BTN_LEFT, BTN_SIDE, EV_KEY, EV_REL, EV_SYN,
    INPUT_EVENT_SIZE, REL_HWHEEL, REL_WHEEL, REL_X, REL_Y, SYN_REPORT, UI_SET_EVBIT,
    UI_SET_KEYBIT, UI_SET_RELBIT,
};
use kmflow::proto::{ButtonState, Delta, InputEvent, KeyState, MouseButton};
use std::collections::HashSet;

fn raw(type_: u16, code: u16, value: i32) -> RawEvent {
    RawEvent { type_, code, value }
}

fn whole(v: i64) -> Delta {
    Delta::from_whole(v as i128)
}

fn report() -> RawEvent {
    raw(EV_SYN, SYN_REPORT, 0)
}

fn captured(events: &[RawEvent]) -> Vec<InputEvent> {
    let mut capture = EvdevCapture::new();
    let mut out = Vec::new();
    for e in events {
        if let Some(event) = capture.feed(e) {
            out.push(event);
        }
    }
    out
}

#[test]
fn events_survive_the_way_through_bytes() {
    for e in [raw(EV_KEY, 30, 1), raw(EV_REL, REL_X, -5), raw(0xffff, 0x1234, i32::MIN)] {
        for big_endian in [false, true] {
            let bytes = raw_event_bytes(&e, big_endian);
            assert_eq!(bytes.len(), INPUT_EVENT_SIZE);
            assert_eq!(parse_raw_event(&bytes, big_endian), Some(e));
        }
    }
}

#[test]
fn events_lie_where_the_kernel_puts_them() {
    let bytes = raw_event_bytes(&raw(1, 0x0203, -2), false);
    assert_eq!(&bytes[..16], &[0u8; 16]);
    assert_eq!(&bytes[16..], &[1, 0, 3, 2, 0xfe, 0xff, 0xff, 0xff]);
    assert_eq!(parse_raw_event(&bytes[1..], false), None);
}

#[test]
fn keys_and_buttons_are_told_apart() {
    let mut held = HashSet::new();
    assert_eq!(
        translate_key_event(&raw(EV_KEY, 30, 1), &mut held),
        Some(InputEvent::Key { scancode: 30, state: KeyState::Pressed })
    );
    assert!(held.contains(&30));
    assert_eq!(translate_key_event(&raw(EV_KEY, 30, 2), &mut held), None);
    assert_eq!(
        translate_key_event(&raw(EV_KEY, BTN_SIDE, 1), &mut held),
        Some(InputEvent::MouseButton { button: MouseButton::Back, state: ButtonState::Pressed })
    );
    assert_eq!(held.len(), 1);
    assert_eq!(
        translate_key_event(&raw(EV_KEY, 30, 0), &mut held),
        Some(InputEvent::Key { scancode: 30, state: KeyState::Released })
    );
    assert!(held.is_empty());
}

#[test]
fn motion_is_gathered_until_the_report() {
    let events = captured(&[
        raw(EV_REL, REL_X, 3),
        raw(EV_REL, REL_Y, -2),
        raw(EV_REL, REL_X, 4),
        report(),
        report(),
    ]);
    assert_eq!(events, vec![InputEvent::MouseMove { dx: whole(7), dy: whole(-2) }]);
}

#[test]
fn wheels_count_at_once() {
    let events = captured(&[raw(EV_REL, REL_WHEEL, 1), raw(EV_REL, REL_HWHEEL, -2), raw(9, 9, 9)]);
    assert_eq!(
        events,
        vec![
            InputEvent::Scroll { dx: whole(0), dy: whole(-1) },
            InputEvent::Scroll { dx: whole(-2), dy: whole(0) },
        ]
    );
}

#[test]
fn sums_are_kept_in_double_precision() {
    let mut capture = EvdevCapture::new();
    let mut sum = 0.0f64;
    let mut n = 0;
    while n < 4_500_000 {
        let value = i32::MAX - n;
        capture.feed(&raw(EV_REL, REL_Y, value));
        sum += value as f64;
        n += 1;
    }
    assert!(sum > 9007199254740992.0);
    assert_eq!(
        capture.feed(&report()),
        Some(InputEvent::MouseMove { dx: whole(0), dy: Delta::from_whole(sum as i128) })
    );
}

#[test]
fn grabbing_is_done_once() {
    let mut capture = EvdevCapture::new();
    assert!(!capture.ungrab_pointer());
    assert!(capture.grab_pointer());
    assert!(!capture.grab_pointer());
    assert!(capture.ungrab_pointer());
    assert!(!capture.ungrab_pointer());
}

#[test]
fn replayed_events_are_captured_again() {
    let mut events = vec![
        InputEvent::MouseMove { dx: whole(5), dy: whole(0) },
        InputEvent::MouseMove { dx: whole(0), dy: whole(-9) },
        InputEvent::MouseMove { dx: whole(i32::MAX as i64), dy: whole(i32::MIN as i64) },
        InputEvent::Key { scancode: 30, state: KeyState::Pressed },
        InputEvent::Key { scancode: 65535, state: KeyState::Released },
    ];
    for button in [
        MouseButton::Left,
        MouseButton::Right,
        MouseButton::Middle,
        MouseButton::Back,
        MouseButton::Forward,
    ] {
        events.push(InputEvent::MouseButton { button, state: ButtonState::Pressed });
        events.push(InputEvent::MouseButton { button, state: ButtonState::Released });
    }
    for e in events {
        assert_eq!(captured(&emit(&e)), vec![e]);
    }
}

#[test]
fn every_kind_of_event_is_replayed() {
    assert_eq!(
        emit(&InputEvent::MouseMove { dx: whole(3), dy: whole(-4) }),
        vec![raw(EV_REL, REL_X, 3), raw(EV_REL, REL_Y, -4), report()]
    );
    assert_eq!(emit(&InputEvent::MouseMove { dx: whole(0), dy: whole(0) }), vec![report()]);
    assert_eq!(
        emit(&InputEvent::MouseButton { button: MouseButton::Left, state: ButtonState::Released }),
        vec![raw(EV_KEY, BTN_LEFT, 0), report()]
    );
    assert_eq!(
        emit(&InputEvent::Scroll { dx: whole(2), dy: whole(-1) }),
        vec![raw(EV_REL, REL_WHEEL, 1), raw(EV_REL, REL_HWHEEL, 2), report()]
    );
    assert_eq!(
        emit(&InputEvent::Key { scancode: 0x1001e, state: KeyState::Pressed }),
        vec![raw(EV_KEY, 0x1e, 1), report()]
    );
}

#[test]
fn motions_of_less_than_a_step_are_written_as_zero() {
    let half = Delta::from_fixed(0, 0x8000_0000);
    assert_eq!(
        emit(&InputEvent::MouseMove { dx: half, dy: whole(0) }),
        vec![raw(EV_REL, REL_X, 0), report()]
    );
}

#[test]
fn the_virtual_device_can_do_what_is_replayed() {
    let requests = capability_requests();
    assert_eq!(requests.len(), 3 + 4 + 5 + 255);
    assert_eq!(requests[0], (UI_SET_EVBIT, EV_KEY as u64));
    assert_eq!(requests[3], (UI_SET_RELBIT, REL_X as u64));
    assert_eq!(requests[7], (UI_SET_KEYBIT, BTN_LEFT as u64));
    assert_eq!(requests[12], (UI_SET_KEYBIT, 1));
    assert_eq!(requests[266], (UI_SET_KEYBIT, 255));
    let name = virtual_device_name();
    assert_eq!(name.len(), 80);
    assert_eq!(&name[..20], b"KMFlow Virtual Input");
    assert!(name[20..].iter().all(|b| *b == 0));
}

#[test]
fn replayed_wheel_steps_are_captured_again() {
    for (x, y) in [(0, 3), (-2, 0), (4, -5), (0, 0)] {
        let mut expected = Vec::new();
        if y != 0 {
            expected.push(InputEvent::Scroll { dx: whole(0), dy: whole(y) });
        }
        if x != 0 {
            expected.push(InputEvent::Scroll { dx: whole(x), dy: whole(0) });
        }
        let e = InputEvent::Scroll { dx: whole(x), dy: whole(y) };
        assert_eq!(captured(&emit(&e)), expected);
    }
}
