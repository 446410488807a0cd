use kmflow::evdev::{virtual_device_name, BTN_LEFT, EV_KEY, EV_REL};
use kmflow::input::{
    after_capture, after_send, detect_backend, fallback, get_device_name, grabs_keyboard,
    has_event_type, has_key, is_event_node, uses_device, Backend, CaptureStep, GrabAction,
    GrabSwitch, KEY_A,
};
use kmflow::proto::{InputEvent, KeyState};

fn bits(len: usize, set: &[u16]) -> Vec<u8> {
    let mut out = vec![0u8; len];
    for n in set {
        out[*n as usize / 8] |= 1 << (*n % 8);
    }
    out
}

#[test]
fn the_backend_follows_the_display() {
    assert_eq!(detect_backend(Some(":0")), Backend::X11);
    assert_eq!(detect_backend(Some("")), Backend::Evdev);
    assert_eq!(detect_backend(None), Backend::Evdev);
    assert_eq!(fallback(Backend::X11), Some(Backend::Evdev));
    assert_eq!(fallback(Backend::Evdev), None);
}

#[test]
fn event_nodes_are_told_by_name() {
    assert!(is_event_node("event0"));
    assert!(!is_event_node("mouse0"));
    assert!(!is_event_node("even"));
}

#[test]
fn bits_are_found_in_maps() {
    let map = bits(4, &[0, 9, 31]);
    for n in 0..40 {
        assert_eq!(has_event_type(Some(&map), n), [0, 9, 31].contains(&n));
    }
    assert!(!has_event_type(None, 0));
    assert!(!has_key(None, 30));
    assert!(has_key(Some(&bits(96, &[BTN_LEFT])), BTN_LEFT));
}

#[test]
fn names_end_at_the_first_zero() {
    assert_eq!(get_device_name(Some(b"AT keyboard\0\0junk")), "AT keyboard");
    assert_eq!(get_device_name(Some(b"no zero")), "no zero");
    assert_eq!(get_device_name(Some(b"bad \xff byte\0")), "bad \u{fffd} byte");
    assert_eq!(get_device_name(Some(b"\0")), "");
    assert_eq!(get_device_name(None), "");
}

#[test]
fn keyboards_and_mice_are_used() {
    let mouse_types = bits(4, &[EV_REL]);
    let mouse_keys = bits(96, &[BTN_LEFT]);
    let kbd_types = bits(4, &[EV_KEY]);
    let kbd_keys = bits(96, &[KEY_A]);
    assert!(uses_device(Some(&mouse_types), Some(&mouse_keys), "a mouse"));
    assert!(uses_device(Some(&kbd_types), Some(&kbd_keys), "a keyboard"));
    assert!(!uses_device(Some(&kbd_types), Some(&mouse_keys), "a power button"));
    assert!(!uses_device(Some(&mouse_types), Some(&kbd_keys), "a joystick"));
    assert!(!uses_device(None, Some(&kbd_keys), "unreadable"));
    assert!(!uses_device(Some(&kbd_types), None, "unreadable"));
}

#[test]
fn keyboards_that_move_are_not_grabbed() {
    let types = bits(4, &[EV_KEY]);
    let keys = bits(96, &[KEY_A]);
    assert!(grabs_keyboard(Some(&types), Some(&keys), None, None));
    assert!(grabs_keyboard(Some(&types), Some(&keys), Some(&bits(4, &[8])), Some(b"kbd\0")));
    assert!(!grabs_keyboard(Some(&types), Some(&keys), Some(&bits(4, &[0])), None));
    assert!(!grabs_keyboard(Some(&types), Some(&bits(96, &[31])), None, None));
    assert!(!grabs_keyboard(Some(&bits(4, &[EV_REL])), Some(&keys), None, None));
}

#[test]
fn the_own_device_is_skipped() {
    let types = bits(4, &[EV_KEY, EV_REL]);
    let keys = bits(96, &[KEY_A, BTN_LEFT]);
    let buffer = virtual_device_name();
    let name = get_device_name(Some(&buffer));
    assert_eq!(name, "KMFlow Virtual Input");
    assert!(!uses_device(Some(&types), Some(&keys), &name));
    assert!(!grabs_keyboard(Some(&types), Some(&keys), None, Some(&buffer)));
}

#[test]
fn the_grab_follows_what_is_wanted() {
    let mut switch = GrabSwitch::new();
    assert_eq!(switch.wanted(false), GrabAction::Keep);
    assert_eq!(switch.wanted(true), GrabAction::Grab);
    switch.performed(GrabAction::Grab, false);
    assert_eq!(switch.wanted(true), GrabAction::Grab);
    switch.performed(GrabAction::Grab, true);
    assert_eq!(switch.wanted(true), GrabAction::Keep);
    assert_eq!(switch.wanted(false), GrabAction::Ungrab);
    switch.performed(GrabAction::Keep, true);
    assert_eq!(switch.wanted(false), GrabAction::Ungrab);
    switch.performed(GrabAction::Ungrab, true);
    assert_eq!(switch.wanted(false), GrabAction::Keep);
}

#[test]
fn capturing_goes_round() {
    let mut switch = GrabSwitch::new();
    assert_eq!(switch.after_poll(true, Some(true)), CaptureStep::End);
    assert_eq!(switch.after_poll(false, None), CaptureStep::Capture);
    assert_eq!(switch.after_poll(false, Some(false)), CaptureStep::Capture);
    assert_eq!(switch.after_poll(false, Some(true)), CaptureStep::Change(GrabAction::Grab));
    assert_eq!(switch.performed(GrabAction::Grab, false), CaptureStep::Capture);
    assert_eq!(switch.performed(GrabAction::Grab, true), CaptureStep::Capture);
    assert_eq!(switch.after_poll(false, Some(true)), CaptureStep::Capture);
    assert_eq!(switch.after_poll(false, Some(false)), CaptureStep::Change(GrabAction::Ungrab));
    let e = InputEvent::Key { scancode: 30, state: KeyState::Pressed };
    assert_eq!(after_capture(Some(e)), CaptureStep::Send(e));
    assert_eq!(after_capture(None), CaptureStep::End);
    assert_eq!(after_send(true), CaptureStep::Poll);
    assert_eq!(after_send(false), CaptureStep::End);
}

#[test]
fn grabs_alternate_and_events_keep_their_order() {
    let wishes = [None, Some(true), Some(true), Some(false), Some(false), Some(true), Some(false)];
    let works = [true, false, true, true, true, true, true];
    let mut switch = GrabSwitch::new();
    let mut worked = Vec::new();
    let mut sent = Vec::new();
    for (round, wish) in wishes.iter().enumerate() {
        let mut step = switch.after_poll(false, *wish);
        if let CaptureStep::Change(action) = step {
            if works[round] {
                worked.push(action);
            }
            step = switch.performed(action, works[round]);
        }
        assert_eq!(step, CaptureStep::Capture);
        let e = InputEvent::Key { scancode: round as u32, state: KeyState::Pressed };
        if let CaptureStep::Send(e) = after_capture(Some(e)) {
            sent.push(e);
        }
    }
    let (g, u) = (GrabAction::Grab, GrabAction::Ungrab);
    assert_eq!(worked, vec![g, u, g, u]);
    assert_eq!(sent.len(), 7);
    for (round, e) in sent.iter().enumerate() {
        assert_eq!(*e, InputEvent::Key { scancode: round as u32, state: KeyState::Pressed });
    }
}
