//! X11 input: what is read from the X Input extension and sent to the XTest
//! extension.
use crate::evdev::{RawEvent, EV_KEY};
use crate::proto::{
    clamped, rounded, ButtonState, Delta, InputEvent, KeyState, MouseButton, DELTA_UNIT,
};
use vstd::prelude::*;

verus! {

/// The raw events to select: key press and release, button press and release,
/// and motion, one bit for each.
pub const RAW_EVENT_MASK: u32 = 0x3_e000;

/// How many milliseconds to wait for events while the keyboards are grabbed.
pub const GRABBED_TIMEOUT_MS: i32 = 10;

/// The difference between X11 key codes and scan codes.
pub const KEYCODE_OFFSET: u32 = 8;

/// A raw event of the X Input extension.
#[derive(Debug, Clone, PartialEq, Eq)]
pub enum X11Event {
    /// A motion: which axes have a value, one bit for each, and the values of
    /// those axes in their order, as fixed-point numbers.
    Motion { mask: Vec<u32>, values: Vec<(i32, u32)> },
    ButtonPress { detail: u32 },
    ButtonRelease { detail: u32 },
    KeyPress { detail: u32 },
    KeyRelease { detail: u32 },
    Other,
}

/// The button with the given number. The numbers from 4 to 7 are the wheel.
pub open spec fn button_numbered(n: u32) -> Option<MouseButton> {
    if n == 1 {
        Some(MouseButton::Left)
    } else if n == 2 {
        Some(MouseButton::Middle)
    } else if n == 3 {
        Some(MouseButton::Right)
    } else if n == 8 {
        Some(MouseButton::Back)
    } else if n == 9 {
        Some(MouseButton::Forward)
    } else {
        None
    }
}

/// The button with the given number.
pub fn map_x11_button(button: u32) -> (r: Option<MouseButton>)
    ensures
        r == button_numbered(button),
{
    match button {
        1 => Some(MouseButton::Left),
        2 => Some(MouseButton::Middle),
        3 => Some(MouseButton::Right),
        8 => Some(MouseButton::Back),
        9 => Some(MouseButton::Forward),
        _ => None,
    }
}

/// The number of a button.
pub open spec fn number_of(button: MouseButton) -> u8 {
    match button {
        MouseButton::Left => 1,
        MouseButton::Middle => 2,
        MouseButton::Right => 3,
        MouseButton::Back => 8,
        MouseButton::Forward => 9,
    }
}

/// Whether the number of every axis with a value fits in 32 bits.
pub open spec fn axes_fit(mask: Seq<u32>) -> bool {
    forall|i: int| 0x800_0000 <= i < mask.len() ==> mask[i] == 0
}

/// Whether a motion has a value for axis 0 or 1.
pub open spec fn has_axis(mask: Seq<u32>, axis: int) -> bool {
    mask.len() > 0 && (if axis == 0 {
        mask[0] % 2 == 1
    } else {
        (mask[0] / 2) % 2 == 1
    })
}

/// A fixed-point value as a displacement.
pub open spec fn fixed_delta(v: (i32, u32)) -> Delta {
    Delta { raw: rounded(v.0 * DELTA_UNIT + v.1) as i128 }
}

/// The value at an index as a displacement, no displacement if there is none.
pub open spec fn value_at(values: Seq<(i32, u32)>, i: int) -> Delta {
    if i < values.len() {
        fixed_delta(values[i])
    } else {
        Delta { raw: 0 }
    }
}

/// The displacement that a motion means: axis 0 is horizontal and axis 1
/// vertical. Only axes in the mask have a value, so that of axis 1 comes first
/// if axis 0 has none.
pub open spec fn motion(mask: Seq<u32>, values: Seq<(i32, u32)>) -> (Delta, Delta) {
    (
        if has_axis(mask, 0) {
            value_at(values, 0)
        } else {
            Delta { raw: 0 }
        },
        if has_axis(mask, 1) {
            value_at(
                values,
                if has_axis(mask, 0) {
                    1
                } else {
                    0
                },
            )
        } else {
            Delta { raw: 0 }
        },
    )
}

fn delta_at(values: &[(i32, u32)], i: usize) -> (r: Delta)
    ensures
        r == value_at(values@, i as int),
{
    if i < values.len() {
        let v = values[i];
        Delta::from_fixed(v.0, v.1)
    } else {
        Delta::zero()
    }
}

/// The displacement that a motion means.
pub fn extract_raw_motion_values(mask: &[u32], values: &[(i32, u32)]) -> (r: (Delta, Delta))
    requires
        axes_fit(mask@),
    ensures
        r == motion(mask@, values@),
{
    let mut dx = Delta::zero();
    let mut dy = Delta::zero();
    if mask.len() > 0 {
        let word = mask[0];
        let mut value_idx: usize = 0;
        if word % 2 == 1 {
            dx = delta_at(values, value_idx);
            value_idx = 1;
        }
        if (word / 2) % 2 == 1 {
            dy = delta_at(values, value_idx);
        }
    }
    (dx, dy)
}

/// A wheel step for the button numbers from 4 to 7.
pub open spec fn wheel_step(n: u32) -> Option<InputEvent> {
    if n == 4 {
        Some(InputEvent::Scroll { dx: Delta { raw: 0 }, dy: Delta { raw: (-DELTA_UNIT) as i128 } })
    } else if n == 5 {
        Some(InputEvent::Scroll { dx: Delta { raw: 0 }, dy: Delta { raw: DELTA_UNIT } })
    } else if n == 6 {
        Some(InputEvent::Scroll { dx: Delta { raw: (-DELTA_UNIT) as i128 }, dy: Delta { raw: 0 } })
    } else if n == 7 {
        Some(InputEvent::Scroll { dx: Delta { raw: DELTA_UNIT }, dy: Delta { raw: 0 } })
    } else {
        None
    }
}

fn wheel(detail: u32) -> (r: Option<InputEvent>)
    ensures
        r == wheel_step(detail),
{
    let zero = Delta::zero();
    match detail {
        4 => Some(InputEvent::Scroll { dx: zero, dy: Delta::from_whole(-1) }),
        5 => Some(InputEvent::Scroll { dx: zero, dy: Delta::from_whole(1) }),
        6 => Some(InputEvent::Scroll { dx: Delta::from_whole(-1), dy: zero }),
        7 => Some(InputEvent::Scroll { dx: Delta::from_whole(1), dy: zero }),
        _ => None,
    }
}

/// The scan code of an X11 key code.
pub open spec fn scancode_of(keycode: u32) -> u32 {
    if keycode < KEYCODE_OFFSET {
        0
    } else {
        (keycode - KEYCODE_OFFSET) as u32
    }
}

/// What an event means, if anything. A wheel step is a press of a button; its
/// release means nothing. Keys count only while the keyboards are not grabbed:
/// grabbed keyboards are read directly.
pub open spec fn meaning(e: X11Event, kbd_grabbed: bool) -> Option<InputEvent> {
    match e {
        X11Event::Motion { mask, values } => {
            let (dx, dy) = motion(mask@, values@);
            if dx.raw != 0 || dy.raw != 0 {
                Some(InputEvent::MouseMove { dx, dy })
            } else {
                None
            }
        },
        X11Event::ButtonPress { detail } => match (wheel_step(detail), button_numbered(detail)) {
            (Some(step), _) => Some(step),
            (None, Some(button)) => Some(
                InputEvent::MouseButton { button, state: ButtonState::Pressed },
            ),
            (None, None) => None,
        },
        X11Event::ButtonRelease { detail } => match button_numbered(detail) {
            Some(button) => Some(InputEvent::MouseButton { button, state: ButtonState::Released }),
            None => None,
        },
        X11Event::KeyPress { detail } => if kbd_grabbed {
            None
        } else {
            Some(InputEvent::Key { scancode: scancode_of(detail), state: KeyState::Pressed })
        },
        X11Event::KeyRelease { detail } => if kbd_grabbed {
            None
        } else {
            Some(InputEvent::Key { scancode: scancode_of(detail), state: KeyState::Released })
        },
        X11Event::Other => None,
    }
}

/// What an event of a grabbed keyboard means: a key that was pressed or
/// released, nothing for a repetition.
pub open spec fn keyboard_meaning(raw: RawEvent) -> Option<InputEvent> {
    if raw.type_ == EV_KEY && raw.value != 2 {
        Some(
            InputEvent::Key {
                scancode: raw.code as u32,
                state: if raw.value != 0 {
                    KeyState::Pressed
                } else {
                    KeyState::Released
                },
            },
        )
    } else {
        None
    }
}

/// What an event of a grabbed keyboard means.
pub fn keyboard_event(raw: &RawEvent) -> (r: Option<InputEvent>)
    ensures
        r == keyboard_meaning(*raw),
{
    if raw.type_ == EV_KEY && raw.value != 2 {
        let state = if raw.value != 0 { KeyState::Pressed } else { KeyState::Released };
        Some(InputEvent::Key { scancode: raw.code as u32, state })
    } else {
        None
    }
}

/// The reading side of an X11 display: which descriptor its events come from,
/// and whether the keyboards are grabbed.
pub struct X11Capture {
    kbd_grabbed: bool,
    x11_fd: i32,
}

impl X11Capture {
    /// Whether the keyboards are grabbed.
    pub closed spec fn grabbed(&self) -> bool {
        self.kbd_grabbed
    }

    /// The descriptor that the events of the display come from.
    pub closed spec fn descriptor(&self) -> i32 {
        self.x11_fd
    }

    pub fn new(x11_fd: i32) -> (r: Self)
        ensures
            !r.grabbed(),
            r.descriptor() == x11_fd,
    {
        X11Capture { kbd_grabbed: false, x11_fd }
    }

    /// Whether the keyboards are to be read before waiting for events.
    pub fn reads_keyboards_first(&self) -> (r: bool)
        ensures
            r == self.grabbed(),
    {
        self.kbd_grabbed
    }

    /// How long to wait for events, in milliseconds; without end if negative.
    pub fn poll_timeout(&self) -> (r: i32)
        ensures
            r == (if self.grabbed() {
                GRABBED_TIMEOUT_MS as int
            } else {
                -1
            }),
            r < 0 <==> !self.grabbed(),
    {
        if self.kbd_grabbed {
            GRABBED_TIMEOUT_MS
        } else {
            -1
        }
    }

    /// Whether the keyboards are to be read now that a descriptor is ready.
    pub fn reads_keyboards(&self, ready_fd: i32) -> (r: bool)
        ensures
            r == (self.grabbed() && ready_fd != self.descriptor()),
    {
        self.kbd_grabbed && ready_fd != self.x11_fd
    }

    /// The display sent an event: what it means, if anything.
    pub fn on_event(&self, event: &X11Event) -> (r: Option<InputEvent>)
        requires
            *event matches X11Event::Motion { mask, values } ==> axes_fit(mask@),
        ensures
            r == meaning(*event, self.grabbed()),
    {
        match event {
            X11Event::Motion { mask, values } => {
                let (dx, dy) = extract_raw_motion_values(mask.as_slice(), values.as_slice());
                if !dx.is_zero() || !dy.is_zero() {
                    Some(InputEvent::MouseMove { dx, dy })
                } else {
                    None
                }
            },
            X11Event::ButtonPress { detail } => match wheel(*detail) {
                Some(step) => Some(step),
                None => match map_x11_button(*detail) {
                    Some(button) => Some(
                        InputEvent::MouseButton { button, state: ButtonState::Pressed },
                    ),
                    None => None,
                },
            },
            X11Event::ButtonRelease { detail } => match map_x11_button(*detail) {
                Some(button) => Some(
                    InputEvent::MouseButton { button, state: ButtonState::Released },
                ),
                None => None,
            },
            X11Event::KeyPress { detail } => if self.kbd_grabbed {
                None
            } else {
                let scancode = if *detail < KEYCODE_OFFSET { 0 } else { *detail - KEYCODE_OFFSET };
                Some(InputEvent::Key { scancode, state: KeyState::Pressed })
            },
            X11Event::KeyRelease { detail } => if self.kbd_grabbed {
                None
            } else {
                let scancode = if *detail < KEYCODE_OFFSET { 0 } else { *detail - KEYCODE_OFFSET };
                Some(InputEvent::Key { scancode, state: KeyState::Released })
            },
            X11Event::Other => None,
        }
    }

    /// The keyboards were asked to be grabbed, with the given results, zero for
    /// success. They count as grabbed as soon as one of them is.
    pub fn on_grab(&mut self, results: &[i32])
        ensures
            final(self).grabbed() == (old(self).grabbed() || results@.contains(0)),
            final(self).descriptor() == old(self).descriptor(),
    {
        let mut i: usize = 0;
        while i < results.len()
            invariant
                i <= results.len(),
                self.grabbed() == (old(self).grabbed() || results@.take(i as int).contains(0)),
                self.descriptor() == old(self).descriptor(),
            decreases results.len() - i,
        {
            assert(results@.take(i + 1) == results@.take(i as int).push(results@[i as int]));
            if results[i] == 0 {
                self.kbd_grabbed = true;
                assert(results@.take(i + 1)[i as int] == 0);
            } else {
                assert(results@.take(i + 1).contains(0) ==> results@.take(i as int).contains(0));
                assert forall|j: int| 0 <= j < i && results@.take(i as int)[j] == 0 implies
                    results@.take(i + 1).contains(0) by {
                    assert(results@.take(i + 1)[j] == 0);
                }
            }
            i += 1;
        }
        assert(results@.take(i as int) == results@);
    }

    /// The grab ends: whether the keyboards are to be let go.
    pub fn on_ungrab(&mut self) -> (r: bool)
        ensures
            r == old(self).grabbed(),
            !final(self).grabbed(),
            final(self).descriptor() == old(self).descriptor(),
    {
        let release = self.kbd_grabbed;
        self.kbd_grabbed = false;
        release
    }
}

pub const KEY_PRESS: u8 = 2;

pub const KEY_RELEASE: u8 = 3;

pub const BUTTON_PRESS: u8 = 4;

pub const BUTTON_RELEASE: u8 = 5;

pub const MOTION_NOTIFY: u8 = 6;

/// Something to send to the XTest extension.
#[derive(Debug, Clone, Copy, PartialEq, Eq, Structural)]
pub enum FakeInput {
    /// One event: its kind, the button or key, and the motion.
    Event { kind: u8, detail: u8, x: i16, y: i16 },
    /// A button that is pressed and released a number of times.
    Clicks { button: u8, count: u32 },
}

/// How many wheel steps a displacement means in its own direction, at least one.
pub open spec fn click_count(v: int) -> u32 {
    clamped(v, 1, i32::MAX as int) as u32
}

/// The clicks that a displacement of the wheel means: of button `neg` if it is
/// negative, of button `pos` if it is positive.
pub open spec fn clicks(d: Delta, neg: u8, pos: u8) -> Seq<FakeInput> {
    if d.raw < 0 {
        seq![FakeInput::Clicks { button: neg, count: click_count(-d.whole()) }]
    } else if d.raw > 0 {
        seq![FakeInput::Clicks { button: pos, count: click_count(d.whole()) }]
    } else {
        seq![]
    }
}

/// What replays an input event on the display.
pub open spec fn faked(e: InputEvent) -> Seq<FakeInput> {
    match e {
        InputEvent::MouseMove { dx, dy } => seq![
            FakeInput::Event {
                kind: MOTION_NOTIFY,
                detail: 0,
                x: clamped(dx.whole(), i16::MIN as int, i16::MAX as int) as i16,
                y: clamped(dy.whole(), i16::MIN as int, i16::MAX as int) as i16,
            },
        ],
        InputEvent::MouseButton { button, state } => seq![
            FakeInput::Event {
                kind: if state is Pressed {
                    BUTTON_PRESS
                } else {
                    BUTTON_RELEASE
                },
                detail: number_of(button),
                x: 0,
                y: 0,
            },
        ],
        InputEvent::Scroll { dx, dy } => clicks(dy, 4, 5) + clicks(dx, 6, 7),
        InputEvent::Key { scancode, state } => seq![
            FakeInput::Event {
                kind: if state is Pressed {
                    KEY_PRESS
                } else {
                    KEY_RELEASE
                },
                detail: ((scancode + KEYCODE_OFFSET) % 256) as u8,
                x: 0,
                y: 0,
            },
        ],
    }
}

fn push_clicks(out: &mut Vec<FakeInput>, d: &Delta, neg: u8, pos: u8)
    ensures
        final(out)@ == old(out)@ + clicks(*d, neg, pos),
{
    if d.raw < 0 {
        let n = d.to_i32_reversed();
        let count = if n < 1 { 1 } else { n as u32 };
        out.push(FakeInput::Clicks { button: neg, count });
    } else if d.raw > 0 {
        let n = d.to_i32();
        let count = if n < 1 { 1 } else { n as u32 };
        out.push(FakeInput::Clicks { button: pos, count });
    }
    assert(out@ == old(out)@ + clicks(*d, neg, pos));
}

/// What replays an input event on the display.
pub fn fake_input(event: &InputEvent) -> (r: Vec<FakeInput>)
    requires
        *event matches InputEvent::Key { scancode, state } ==> scancode <= u32::MAX
            - KEYCODE_OFFSET,
    ensures
        r@ == faked(*event),
{
    let mut out: Vec<FakeInput> = Vec::new();
    match event {
        InputEvent::MouseMove { dx, dy } => {
            out.push(
                FakeInput::Event { kind: MOTION_NOTIFY, detail: 0, x: dx.to_i16(), y: dy.to_i16() },
            );
        },
        InputEvent::MouseButton { button, state } => {
            let detail: u8 = match button {
                MouseButton::Left => 1,
                MouseButton::Middle => 2,
                MouseButton::Right => 3,
                MouseButton::Back => 8,
                MouseButton::Forward => 9,
            };
            let kind = match state {
                ButtonState::Pressed => BUTTON_PRESS,
                ButtonState::Released => BUTTON_RELEASE,
            };
            out.push(FakeInput::Event { kind, detail, x: 0, y: 0 });
        },
        InputEvent::Scroll { dx, dy } => {
            push_clicks(&mut out, dy, 4, 5);
            push_clicks(&mut out, dx, 6, 7);
        },
        InputEvent::Key { scancode, state } => {
            let keycode = *scancode + KEYCODE_OFFSET;
            let kind = match state {
                KeyState::Pressed => KEY_PRESS,
                KeyState::Released => KEY_RELEASE,
            };
            out.push(FakeInput::Event { kind, detail: (keycode % 256) as u8, x: 0, y: 0 });
        },
    }
    assert(out@ == faked(*event));
    out
}

/// The raw event that a faked button or key event comes back as.
pub open spec fn comes_back(f: FakeInput) -> X11Event {
    match f {
        FakeInput::Event { kind, detail, x, y } => if kind == BUTTON_PRESS {
            X11Event::ButtonPress { detail: detail as u32 }
        } else if kind == BUTTON_RELEASE {
            X11Event::ButtonRelease { detail: detail as u32 }
        } else if kind == KEY_PRESS {
            X11Event::KeyPress { detail: detail as u32 }
        } else if kind == KEY_RELEASE {
            X11Event::KeyRelease { detail: detail as u32 }
        } else {
            X11Event::Other
        },
        FakeInput::Clicks { button, count } => X11Event::ButtonPress { detail: button as u32 },
    }
}

/// A button or key event that is replayed on a display is captured from it as
/// the same event, while the keyboards are not grabbed. Key codes of the
/// display have 8 bits, so scan codes go up to 247.
pub proof fn faked_keys_come_back(e: InputEvent)
    requires
        e is MouseButton || (e matches InputEvent::Key { scancode, state } && scancode <= 247),
    ensures
        faked(e).len() == 1,
        meaning(comes_back(faked(e)[0]), false) == Some(e),
{
}

/// A wheel step that is replayed on a display is captured from it as the same
/// wheel step.
pub proof fn faked_steps_come_back(e: InputEvent, n: u32)
    requires
        wheel_step(n) == Some(e),
    ensures
        faked(e) == seq![FakeInput::Clicks { button: n as u8, count: 1 }],
        meaning(comes_back(faked(e)[0]), false) == Some(e),
{
    assert(faked(e) == seq![FakeInput::Clicks { button: n as u8, count: 1 }]);
}

/// A displacement of whole steps.
pub open spec fn whole_steps(v: int) -> Delta {
    Delta { raw: (v * 0x1_0000_0000) as i128 }
}

/// A motion of whole steps that fit in 16 bits is faked as exactly those steps, on
/// both axes and of either sign; and a motion that the display reports for those
/// steps is the same one.
pub proof fn motions_are_faked_step_by_step(x: i16, y: i16, mask: Vec<u32>, values: Vec<(i32, u32)>)
    requires
        mask@ == seq![3u32],
        values@ == seq![(x as i32, 0u32), (y as i32, 0u32)],
    ensures
        ({
            let e = InputEvent::MouseMove { dx: whole_steps(x as int), dy: whole_steps(y as int) };
            &&& faked(e) == seq![FakeInput::Event { kind: 6, detail: 0, x, y }]
            &&& x != 0 || y != 0 ==> meaning(X11Event::Motion { mask, values }, false) == Some(e)
            &&& x == 0 && y == 0 ==> meaning(X11Event::Motion { mask, values }, false) is None
        }),
{
    crate::proto::rounding_is_to_the_nearest(x * 0x1_0000_0000);
    crate::proto::rounding_is_to_the_nearest(y * 0x1_0000_0000);
    crate::proto::whole_part_is_truncated(whole_steps(x as int));
    crate::proto::whole_part_is_truncated(whole_steps(y as int));
    assert(whole_steps(x as int).whole() == x);
    assert(whole_steps(y as int).whole() == y);
}

/// Any motion is faked as one: each axis by its whole steps, towards zero, or by
/// the most that 16 bits can tell in its direction.
pub proof fn motions_are_faked_in_their_direction(dx: Delta, dy: Delta)
    ensures
        match faked(InputEvent::MouseMove { dx, dy }) {
            s => s.len() == 1 && match s[0] {
                FakeInput::Event { kind, detail, x, y } => {
                    &&& kind == 6
                    &&& detail == 0
                    &&& -0x8000 <= dx.whole() <= 0x7fff ==> x == dx.whole()
                    &&& dx.whole() > 0x7fff ==> x == 0x7fff
                    &&& dx.whole() < -0x8000 ==> x == -0x8000
                    &&& -0x8000 <= dy.whole() <= 0x7fff ==> y == dy.whole()
                    &&& dy.whole() > 0x7fff ==> y == 0x7fff
                    &&& dy.whole() < -0x8000 ==> y == -0x8000
                },
                _ => false,
            },
        },
{
}

/// A button is the same one whether the kernel or the display names it: the
/// numbers of the display and the codes of the kernel, side by side.
pub proof fn both_systems_name_the_same_buttons(n: u32)
    ensures
        button_numbered(1) == crate::evdev::button_of(0x110),
        button_numbered(3) == crate::evdev::button_of(0x111),
        button_numbered(2) == crate::evdev::button_of(0x112),
        button_numbered(8) == crate::evdev::button_of(0x113),
        button_numbered(9) == crate::evdev::button_of(0x114),
        button_numbered(n) is Some <==> n == 1 || n == 2 || n == 3 || n == 8 || n == 9,
        button_numbered(1) == Some(MouseButton::Left),
        button_numbered(2) == Some(MouseButton::Middle),
        button_numbered(3) == Some(MouseButton::Right),
        button_numbered(8) == Some(MouseButton::Back),
        button_numbered(9) == Some(MouseButton::Forward),
        number_of(MouseButton::Left) == 1,
        number_of(MouseButton::Middle) == 2,
        number_of(MouseButton::Right) == 3,
        number_of(MouseButton::Back) == 8,
        number_of(MouseButton::Forward) == 9,
        button_numbered(n) matches Some(button) ==> number_of(button) == n,
{
}

/// The same wheel step is the same event whether the kernel or the display reports
/// it: 4 is up, 5 down, 6 left and 7 right. Other numbers are no wheel.
pub proof fn both_systems_mean_the_same_steps(m: crate::evdev::CaptureModel, n: u32)
    ensures
        wheel_step(4) == m.fed(RawEvent { type_: 2, code: 8, value: 1 }).1,
        wheel_step(5) == m.fed(RawEvent { type_: 2, code: 8, value: -1i32 }).1,
        wheel_step(6) == m.fed(RawEvent { type_: 2, code: 6, value: -1i32 }).1,
        wheel_step(7) == m.fed(RawEvent { type_: 2, code: 6, value: 1 }).1,
        wheel_step(n) matches Some(e) ==> 4 <= n <= 7 && e is Scroll,
        4 <= n <= 7 ==> wheel_step(n) is Some,
        wheel_step(4) matches Some(InputEvent::Scroll { dx, dy }) && dx.raw == 0 && dy.raw
            == -0x1_0000_0000,
        wheel_step(5) matches Some(InputEvent::Scroll { dx, dy }) && dx.raw == 0 && dy.raw
            == 0x1_0000_0000,
        wheel_step(6) matches Some(InputEvent::Scroll { dx, dy }) && dx.raw == -0x1_0000_0000
            && dy.raw == 0,
        wheel_step(7) matches Some(InputEvent::Scroll { dx, dy }) && dx.raw == 0x1_0000_0000
            && dy.raw == 0,
{
}

/// A key is the same one whether the kernel or the display reports it: the display
/// counts from eight. Key codes below that stand for no key.
pub proof fn both_systems_mean_the_same_keys(raw: RawEvent)
    requires
        raw.type_ == 1,
        raw.value == 0 || raw.value == 1,
    ensures
        ({
            let detail = (raw.code + 8) as u32;
            let e = if raw.value == 1 {
                X11Event::KeyPress { detail }
            } else {
                X11Event::KeyRelease { detail }
            };
            &&& meaning(e, false) == keyboard_meaning(raw)
            &&& meaning(e, true) is None
            &&& !(0x110 <= raw.code <= 0x114) ==> crate::evdev::key_event(raw) == keyboard_meaning(
                raw,
            )
            &&& keyboard_meaning(raw) matches Some(InputEvent::Key { scancode, state }) && scancode
                == raw.code && (state is Pressed <==> raw.value == 1)
        }),
{
}

/// Key codes below eight stand for no key, and the others count from there.
pub proof fn key_codes_count_from_eight(keycode: u32)
    ensures
        keycode >= 8 ==> scancode_of(keycode) + 8 == keycode,
        keycode < 8 ==> scancode_of(keycode) == 0,
{
}

/// Grabbed keyboards mean keys alone, whatever else they report; a repetition
/// means nothing.
pub proof fn keyboards_mean_keys(raw: RawEvent)
    ensures
        raw.type_ != 1 || raw.value == 2 ==> keyboard_meaning(raw) is None,
        raw.type_ == 1 && raw.value != 2 ==> (keyboard_meaning(raw) matches Some(
            InputEvent::Key { scancode, state },
        ) && scancode == raw.code && (state is Released <==> raw.value == 0)),
{
}

/// A button of the display that goes down is a wheel step or a press, and one that
/// goes up is a release, except that of a wheel.
pub proof fn buttons_of_the_display(detail: u32, kbd_grabbed: bool)
    ensures
        4 <= detail <= 7 ==> meaning(X11Event::ButtonPress { detail }, kbd_grabbed) == wheel_step(
            detail,
        ),
        4 <= detail <= 7 ==> meaning(X11Event::ButtonRelease { detail }, kbd_grabbed) is None,
        button_numbered(detail) matches Some(button) ==> meaning(
            X11Event::ButtonPress { detail },
            kbd_grabbed,
        ) == Some(InputEvent::MouseButton { button, state: ButtonState::Pressed }) && meaning(
            X11Event::ButtonRelease { detail },
            kbd_grabbed,
        ) == Some(InputEvent::MouseButton { button, state: ButtonState::Released }),
        detail == 0 || detail > 9 ==> meaning(X11Event::ButtonPress { detail }, kbd_grabbed) is None
            && meaning(X11Event::ButtonRelease { detail }, kbd_grabbed) is None,
        meaning(X11Event::Other, kbd_grabbed) is None,
{
}

/// Motions count whether or not the keyboards are grabbed, unless they lead
/// nowhere, and are handed on as they are.
pub proof fn motions_of_the_display(mask: Vec<u32>, values: Vec<(i32, u32)>, kbd_grabbed: bool)
    ensures
        match meaning(X11Event::Motion { mask, values }, kbd_grabbed) {
            Some(InputEvent::MouseMove { dx, dy }) => (dx, dy) == motion(mask@, values@) && (dx.raw
                != 0 || dy.raw != 0),
            Some(_) => false,
            None => motion(mask@, values@).0.raw == 0 && motion(mask@, values@).1.raw == 0,
        },
{
}

/// The lowest bits of the first word say which axes have a value.
pub proof fn axes_are_bits(mask: Seq<u32>)
    ensures
        has_axis(mask, 0) <==> mask.len() > 0 && mask[0] & 1 != 0,
        has_axis(mask, 1) <==> mask.len() > 0 && mask[0] & 2 != 0,
{
    if mask.len() > 0 {
        let word = mask[0];
        assert(word % 2 == 1 <==> word & 1 != 0) by (bit_vector);
        assert((word / 2) % 2 == 1 <==> word & 2 != 0) by (bit_vector);
    }
}

/// The value of an axis stands after those of the lower axes that have one; an
/// axis without a value does not move.
pub proof fn values_stand_in_the_order_of_axes(mask: Seq<u32>, values: Seq<(i32, u32)>)
    requires
        mask.len() > 0,
    ensures
        mask[0] & 1 == 0 ==> motion(mask, values).0.raw == 0,
        mask[0] & 2 == 0 ==> motion(mask, values).1.raw == 0,
        mask[0] & 1 != 0 && values.len() > 0 ==> motion(mask, values).0 == fixed_delta(values[0]),
        mask[0] & 2 != 0 && mask[0] & 1 == 0 && values.len() > 0 ==> motion(mask, values).1
            == fixed_delta(values[0]),
        mask[0] & 2 != 0 && mask[0] & 1 != 0 && values.len() > 1 ==> motion(mask, values).1
            == fixed_delta(values[1]),
        values.len() == 0 ==> motion(mask, values).0.raw == 0 && motion(mask, values).1.raw == 0,
        mask[0] & 1 != 0 && values.len() == 1 ==> motion(mask, values).1.raw == 0,
{
    axes_are_bits(mask);
}

/// Without a mask there is no motion.
pub proof fn no_mask_means_no_motion(values: Seq<(i32, u32)>)
    ensures
        motion(seq![], values).0.raw == 0,
        motion(seq![], values).1.raw == 0,
{
}

/// A fixed-point number is its whole part and that many parts of `2^32`, exactly
/// where 53 bits can hold it.
pub proof fn fixed_point_numbers(v: (i32, u32))
    ensures
        -0x20_0000 <= v.0 < 0x20_0000 ==> fixed_delta(v).raw == v.0 * 0x1_0000_0000 + v.1,
        v.1 == 0 && -0x20_0000 <= v.0 < 0x20_0000 ==> fixed_delta(v).whole() == v.0,
{
    crate::proto::rounding_is_to_the_nearest(v.0 * 0x1_0000_0000 + v.1);
}

/// Wheel steps are faked as clicks, the upright wheel first: 4 for up, 5 for down,
/// 6 for left, 7 for right, as many as the whole steps and at least one.
pub proof fn wheel_steps_are_faked_as_clicks(x: i32, y: i32)
    requires
        x > i32::MIN,
        y > i32::MIN,
    ensures
        ({
            let e = InputEvent::Scroll { dx: whole_steps(x as int), dy: whole_steps(y as int) };
            let up = FakeInput::Clicks { button: 4, count: (-y) as u32 };
            let down = FakeInput::Clicks { button: 5, count: y as u32 };
            let left = FakeInput::Clicks { button: 6, count: (-x) as u32 };
            let right = FakeInput::Clicks { button: 7, count: x as u32 };
            faked(e) == (if y < 0 {
                seq![up]
            } else if y > 0 {
                seq![down]
            } else {
                seq![]
            }) + (if x < 0 {
                seq![left]
            } else if x > 0 {
                seq![right]
            } else {
                seq![]
            })
        }),
{
    assert(whole_steps(x as int).whole() == x);
    assert(whole_steps(y as int).whole() == y);
}

/// A displacement of less than one step is one click; there are never more than 32
/// bits can tell.
pub proof fn there_is_at_least_one_click(v: int)
    ensures
        1 <= click_count(v) <= 0x7fff_ffff,
        1 <= v <= 0x7fff_ffff ==> click_count(v) == v,
        v < 1 ==> click_count(v) == 1,
        v > 0x7fff_ffff ==> click_count(v) == 0x7fff_ffff,
{
}

/// Clicks go the way of the displacement.
pub proof fn clicks_go_the_way_of_the_displacement(d: Delta, neg: u8, pos: u8)
    ensures
        d.raw == 0 ==> clicks(d, neg, pos).len() == 0,
        d.raw < 0 ==> clicks(d, neg, pos).len() == 1 && (clicks(d, neg, pos)[0] matches
            FakeInput::Clicks { button, count } && button == neg && count == click_count(
            -d.whole(),
        )),
        d.raw > 0 ==> clicks(d, neg, pos).len() == 1 && (clicks(d, neg, pos)[0] matches
            FakeInput::Clicks { button, count } && button == pos && count == click_count(d.whole())),
{
}

/// What is faked for keys and buttons: 2 and 3 press and release a key, 4 and 5 a
/// button; keys by their scan code and eight, as far as 8 bits can tell.
pub proof fn keys_are_faked_by_number(e: InputEvent)
    ensures
        e matches InputEvent::Key { scancode, state } ==> faked(e) == seq![
            FakeInput::Event {
                kind: if state is Pressed {
                    2
                } else {
                    3
                },
                detail: ((scancode + 8) % 256) as u8,
                x: 0,
                y: 0,
            },
        ],
        e matches InputEvent::MouseButton { button, state } ==> faked(e).len() == 1 && (faked(
            e,
        )[0] matches FakeInput::Event { kind, detail, x, y } && kind == (if state is Pressed {
            4
        } else {
            5int
        }) && button_numbered(detail as u32) == Some(button) && x == 0 && y == 0),
{
}

/// The numbers of the protocol: one bit for each of the five raw events, from 13
/// for a key press to 17 for a motion.
pub proof fn display_numbers()
    ensures
        RAW_EVENT_MASK == 0x2000 + 0x4000 + 0x8000 + 0x1_0000 + 0x2_0000,
        KEYCODE_OFFSET == 8,
        GRABBED_TIMEOUT_MS == 10,
        KEY_PRESS == 2,
        KEY_RELEASE == 3,
        BUTTON_PRESS == 4,
        BUTTON_RELEASE == 5,
        MOTION_NOTIFY == 6,
{
}

/// The axes of a mask can be numbered with 32 bits exactly if no word beyond those
/// for `2^32` axes has a bit; short masks always can.
pub proof fn axes_that_can_be_numbered(mask: Seq<u32>, i: int)
    ensures
        mask.len() <= 0x800_0000 ==> axes_fit(mask),
        axes_fit(mask) && 0 <= i < mask.len() && mask[i] != 0 ==> 32 * i + 31 <= 0xffff_ffff,
        0 <= i < mask.len() && mask[i] != 0 && 32 * i > 0xffff_ffff ==> !axes_fit(mask),
        axes_fit(seq![]),
{
}

} // verus!
