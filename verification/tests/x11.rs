use kmflow::evdev::{RawEvent, EV_KEY, EV_REL};
use kmflow::proto::{ButtonState, Delta, InputEvent, KeyState, MouseButton, DELTA_UNIT};
use kmflow::x11::{
    extract_raw_motion_values, fake_input, keyboard_event, map_x11_button, FakeInput, X11Capture,
    X11Event, BUTTON_PRESS, BUTTON_RELEASE, KEY_PRESS, KEY_RELEASE, MOTION_NOTIFY, RAW_EVENT_MASK,
};

fn whole(v: i64) -> Delta {
    Delta::from_whole(v as i128)
}

fn single(kind: u8, detail: u8, x: i16, y: i16) -> FakeInput {
    FakeInput::Event { kind, detail, x, y }
}

const BUTTONS: [(u32, MouseButton); 5] = [
    (1, MouseButton::Left),
    (2, MouseButton::Middle),
    (3, MouseButton::Right),
    (8, MouseButton::Back),
    (9, MouseButton::Forward),
];

#[test]
fn five_raw_events_are_selected() {
    assert_eq!(RAW_EVENT_MASK, (1 << 13) | (1 << 14) | (1 << 15) | (1 << 16) | (1 << 17));
}

#[test]
fn buttons_have_their_numbers() {
    for (n, button) in BUTTONS {
        assert_eq!(map_x11_button(n), Some(button));
    }
    for n in [0, 4, 5, 6, 7, 10, u32::MAX] {
        assert_eq!(map_x11_button(n), None);
    }
}

#[test]
fn axis_values_are_found_by_the_mask() {
    let one = (1, 0);
    let half = (0, 0x8000_0000);
    assert_eq!(
        extract_raw_motion_values(&[0b11], &[one, half]),
        (whole(1), Delta { raw: DELTA_UNIT / 2 })
    );
    assert_eq!(extract_raw_motion_values(&[0b01], &[one, half]), (whole(1), whole(0)));
    assert_eq!(extract_raw_motion_values(&[0b10], &[one, half]), (whole(0), whole(1)));
    assert_eq!(extract_raw_motion_values(&[0b111, 7], &[one, (-2, 0), half]), (whole(1), whole(-2)));
    assert_eq!(extract_raw_motion_values(&[0b100], &[one]), (whole(0), whole(0)));
    assert_eq!(extract_raw_motion_values(&[0b11], &[one]), (whole(1), whole(0)));
    assert_eq!(extract_raw_motion_values(&[], &[one]), (whole(0), whole(0)));
    assert_eq!(extract_raw_motion_values(&[0, 0b11], &[one, one]), (whole(0), whole(0)));
}

#[test]
fn raw_events_are_translated() {
    let capture = X11Capture::new(3);
    assert_eq!(
        capture.on_event(&X11Event::Motion { mask: vec![3], values: vec![(2, 0), (-1, 0)] }),
        Some(InputEvent::MouseMove { dx: whole(2), dy: whole(-1) })
    );
    assert_eq!(
        capture.on_event(&X11Event::Motion { mask: vec![3], values: vec![(0, 0), (0, 0)] }),
        None
    );
    for (detail, dx, dy) in [(4, 0, -1), (5, 0, 1), (6, -1, 0), (7, 1, 0)] {
        assert_eq!(
            capture.on_event(&X11Event::ButtonPress { detail }),
            Some(InputEvent::Scroll { dx: whole(dx), dy: whole(dy) })
        );
        assert_eq!(capture.on_event(&X11Event::ButtonRelease { detail }), None);
    }
    for (detail, button) in BUTTONS {
        assert_eq!(
            capture.on_event(&X11Event::ButtonPress { detail }),
            Some(InputEvent::MouseButton { button, state: ButtonState::Pressed })
        );
        assert_eq!(
            capture.on_event(&X11Event::ButtonRelease { detail }),
            Some(InputEvent::MouseButton { button, state: ButtonState::Released })
        );
    }
    assert_eq!(capture.on_event(&X11Event::ButtonPress { detail: 12 }), None);
    assert_eq!(
        capture.on_event(&X11Event::KeyPress { detail: 38 }),
        Some(InputEvent::Key { scancode: 30, state: KeyState::Pressed })
    );
    assert_eq!(
        capture.on_event(&X11Event::KeyRelease { detail: 3 }),
        Some(InputEvent::Key { scancode: 0, state: KeyState::Released })
    );
    assert_eq!(capture.on_event(&X11Event::Other), None);
}

#[test]
fn grabbed_keyboards_are_read_directly() {
    let mut capture = X11Capture::new(3);
    assert_eq!(capture.poll_timeout(), -1);
    assert!(!capture.reads_keyboards_first());
    assert!(!capture.reads_keyboards(4));
    capture.on_grab(&[-1, -1]);
    assert!(!capture.reads_keyboards_first());
    capture.on_grab(&[-1, 0, -1]);
    assert!(capture.reads_keyboards_first());
    assert_eq!(capture.poll_timeout(), 10);
    assert!(capture.reads_keyboards(4));
    assert!(!capture.reads_keyboards(3));
    assert_eq!(capture.on_event(&X11Event::KeyPress { detail: 38 }), None);
    assert_eq!(capture.on_event(&X11Event::KeyRelease { detail: 38 }), None);
    assert!(capture.on_event(&X11Event::ButtonPress { detail: 1 }).is_some());
    assert!(capture.on_ungrab());
    assert!(!capture.on_ungrab());
    assert_eq!(capture.poll_timeout(), -1);
}

#[test]
fn keyboard_events_are_keys() {
    let raw = |type_, code, value| RawEvent { type_, code, value };
    assert_eq!(
        keyboard_event(&raw(EV_KEY, 30, 1)),
        Some(InputEvent::Key { scancode: 30, state: KeyState::Pressed })
    );
    assert_eq!(
        keyboard_event(&raw(EV_KEY, 30, 0)),
        Some(InputEvent::Key { scancode: 30, state: KeyState::Released })
    );
    assert_eq!(keyboard_event(&raw(EV_KEY, 30, 2)), None);
    assert_eq!(keyboard_event(&raw(EV_REL, 0, 1)), None);
}

#[test]
fn every_kind_of_event_is_faked() {
    assert_eq!(
        fake_input(&InputEvent::MouseMove { dx: whole(3), dy: whole(-70000) }),
        vec![single(MOTION_NOTIFY, 0, 3, i16::MIN)]
    );
    assert_eq!(
        fake_input(&InputEvent::MouseButton {
            button: MouseButton::Right,
            state: ButtonState::Pressed
        }),
        vec![single(BUTTON_PRESS, 3, 0, 0)]
    );
    assert_eq!(
        fake_input(&InputEvent::Key { scancode: 30, state: KeyState::Released }),
        vec![single(KEY_RELEASE, 38, 0, 0)]
    );
    assert_eq!(
        fake_input(&InputEvent::Key { scancode: 250, state: KeyState::Pressed }),
        vec![single(KEY_PRESS, 2, 0, 0)]
    );
    assert_eq!(
        fake_input(&InputEvent::Scroll { dx: whole(-2), dy: whole(3) }),
        vec![
            FakeInput::Clicks { button: 5, count: 3 },
            FakeInput::Clicks { button: 6, count: 2 }
        ]
    );
    let little = Delta { raw: -1 };
    assert_eq!(
        fake_input(&InputEvent::Scroll { dx: whole(1), dy: little }),
        vec![
            FakeInput::Clicks { button: 4, count: 1 },
            FakeInput::Clicks { button: 7, count: 1 }
        ]
    );
    assert_eq!(fake_input(&InputEvent::Scroll { dx: whole(0), dy: whole(0) }), vec![]);
}

#[test]
fn faked_events_come_back() {
    let capture = X11Capture::new(3);
    let mut events = Vec::new();
    for (_, button) in BUTTONS {
        events.push(InputEvent::MouseButton { button, state: ButtonState::Pressed });
        events.push(InputEvent::MouseButton { button, state: ButtonState::Released });
    }
    for scancode in [0, 1, 30, 247] {
        events.push(InputEvent::Key { scancode, state: KeyState::Pressed });
        events.push(InputEvent::Key { scancode, state: KeyState::Released });
    }
    for e in events {
        let faked = fake_input(&e);
        assert_eq!(faked.len(), 1);
        if let FakeInput::Event { kind, detail, .. } = faked[0] {
            let detail = detail as u32;
            let back = if kind == BUTTON_PRESS {
                X11Event::ButtonPress { detail }
            } else if kind == BUTTON_RELEASE {
                X11Event::ButtonRelease { detail }
            } else if kind == KEY_PRESS {
                X11Event::KeyPress { detail }
            } else {
                X11Event::KeyRelease { detail }
            };
            assert_eq!(capture.on_event(&back), Some(e));
        } else {
            panic!("one event was expected");
        }
    }
    for detail in 4..=7 {
        let step = capture.on_event(&X11Event::ButtonPress { detail }).unwrap();
        assert_eq!(
            fake_input(&step),
            vec![FakeInput::Clicks { button: detail as u8, count: 1 }]
        );
    }
}
