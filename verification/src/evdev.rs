//! Linux input events: what is read from event devices and written to the
//! virtual device.
use crate::edge::{signed, to_signed};
use crate::frame::append_bytes;
use crate::proto::{
    clamped, round, rounded, sums_stay_bounded, ButtonState, Delta, InputEvent, KeyState,
    MouseButton, DELTA_UNIT, LARGEST_SUM,
};
use std::collections::HashSet;
use vstd::prelude::*;
use vstd::std_specs::hash::group_hash_axioms;
use vstd::string::*;

verus! {

broadcast use group_hash_axioms;

pub const EV_SYN: u16 = 0x00;

pub const SYN_REPORT: u16 = 0x00;

pub const EV_KEY: u16 = 0x01;

pub const EV_REL: u16 = 0x02;

pub const REL_X: u16 = 0x00;

pub const REL_Y: u16 = 0x01;

pub const REL_WHEEL: u16 = 0x08;

pub const REL_HWHEEL: u16 = 0x06;

pub const BTN_LEFT: u16 = 0x110;

pub const BTN_RIGHT: u16 = 0x111;

pub const BTN_MIDDLE: u16 = 0x112;

pub const BTN_SIDE: u16 = 0x113;

pub const BTN_EXTRA: u16 = 0x114;

pub const UI_SET_EVBIT: u64 = 0x40045564;

pub const UI_SET_KEYBIT: u64 = 0x40045565;

pub const UI_SET_RELBIT: u64 = 0x40045566;

/// The bytes of an event: two times of eight bytes, type, code and value.
pub const INPUT_EVENT_SIZE: usize = 24;

/// An event of a device, without its time.
#[derive(Debug, Clone, Copy, PartialEq, Eq, Structural)]
pub struct RawEvent {
    pub type_: u16,
    pub code: u16,
    pub value: i32,
}

/// Two bytes as a number; the machine's order of bytes says which comes first.
pub open spec fn u16_at(b: Seq<u8>, i: int, big_endian: bool) -> int {
    if big_endian {
        b[i] * 256 + b[i + 1]
    } else {
        b[i] + b[i + 1] * 256
    }
}

/// Four bytes as a number.
pub open spec fn u32_at(b: Seq<u8>, i: int, big_endian: bool) -> int {
    if big_endian {
        u16_at(b, i, big_endian) * 65536 + u16_at(b, i + 2, big_endian)
    } else {
        u16_at(b, i, big_endian) + u16_at(b, i + 2, big_endian) * 65536
    }
}

/// The event that the bytes of a whole event hold.
pub open spec fn raw_in(b: Seq<u8>, big_endian: bool) -> Option<RawEvent> {
    if b.len() == INPUT_EVENT_SIZE {
        Some(
            RawEvent {
                type_: u16_at(b, 16, big_endian) as u16,
                code: u16_at(b, 18, big_endian) as u16,
                value: signed(u32_at(b, 20, big_endian) as u32) as i32,
            },
        )
    } else {
        None
    }
}

fn read_u16(b: &[u8], i: usize, big_endian: bool) -> (r: u16)
    requires
        i + 1 < b@.len(),
    ensures
        r == u16_at(b@, i as int, big_endian),
{
    let x = b[i] as u16;
    let y = b[i + 1] as u16;
    if big_endian {
        x * 256 + y
    } else {
        x + y * 256
    }
}

/// Reads an event from its bytes; anything but a whole event is none.
pub fn parse_raw_event(b: &[u8], big_endian: bool) -> (r: Option<RawEvent>)
    ensures
        r == raw_in(b@, big_endian),
{
    if b.len() != INPUT_EVENT_SIZE {
        return None;
    }
    let type_ = read_u16(b, 16, big_endian);
    let code = read_u16(b, 18, big_endian);
    let first = read_u16(b, 20, big_endian) as u32;
    let second = read_u16(b, 22, big_endian) as u32;
    let v: u32 = if big_endian {
        first * 65536 + second
    } else {
        first + second * 65536
    };
    assert(v == u32_at(b@, 20, big_endian));
    Some(RawEvent { type_, code, value: to_signed(v) })
}

/// A 32-bit signed number as the unsigned one with the same bits.
pub open spec fn unsigned(v: i32) -> int {
    if v >= 0 {
        v as int
    } else {
        v + 0x1_0000_0000
    }
}

/// A number below `2^16` as two bytes.
pub open spec fn u16_bytes(n: int, big_endian: bool) -> Seq<u8> {
    if big_endian {
        seq![(n / 256) as u8, (n % 256) as u8]
    } else {
        seq![(n % 256) as u8, (n / 256) as u8]
    }
}

/// A number below `2^32` as four bytes.
pub open spec fn u32_bytes(n: int, big_endian: bool) -> Seq<u8> {
    if big_endian {
        u16_bytes(n / 65536, big_endian) + u16_bytes(n % 65536, big_endian)
    } else {
        u16_bytes(n % 65536, big_endian) + u16_bytes(n / 65536, big_endian)
    }
}

/// An event as bytes, with no time.
pub open spec fn raw_bytes_of(e: RawEvent, big_endian: bool) -> Seq<u8> {
    Seq::new(16, |i: int| 0u8) + u16_bytes(e.type_ as int, big_endian) + u16_bytes(
        e.code as int,
        big_endian,
    ) + u32_bytes(unsigned(e.value), big_endian)
}

fn append_u16(out: &mut Vec<u8>, n: u16, big_endian: bool)
    ensures
        final(out)@ == old(out)@ + u16_bytes(n as int, big_endian),
{
    let hi = (n / 256) as u8;
    let lo = (n % 256) as u8;
    if big_endian {
        out.push(hi);
        out.push(lo);
    } else {
        out.push(lo);
        out.push(hi);
    }
    assert(out@ == old(out)@ + u16_bytes(n as int, big_endian));
}

/// The bytes of an event, to be written to the virtual device.
pub fn raw_event_bytes(e: &RawEvent, big_endian: bool) -> (r: Vec<u8>)
    ensures
        r@ == raw_bytes_of(*e, big_endian),
        r@.len() == INPUT_EVENT_SIZE,
{
    let mut out: Vec<u8> = Vec::new();
    let mut i: usize = 0;
    while i < 16
        invariant
            i <= 16,
            out@ == Seq::new(i as nat, |j: int| 0u8),
        decreases 16 - i,
    {
        out.push(0);
        assert(out@ == Seq::new((i + 1) as nat, |j: int| 0u8));
        i += 1;
    }
    append_u16(&mut out, e.type_, big_endian);
    append_u16(&mut out, e.code, big_endian);
    let v: u32 = if e.value >= 0 {
        e.value as u32
    } else {
        (e.value as i64 + 0x1_0000_0000) as u32
    };
    assert(v == unsigned(e.value));
    let hi = (v / 65536) as u16;
    let lo = (v % 65536) as u16;
    if big_endian {
        append_u16(&mut out, hi, big_endian);
        append_u16(&mut out, lo, big_endian);
    } else {
        append_u16(&mut out, lo, big_endian);
        append_u16(&mut out, hi, big_endian);
    }
    assert(out@ == raw_bytes_of(*e, big_endian));
    out
}

/// An event written to a device is read from it as it was.
pub proof fn raw_event_reads_back(e: RawEvent, big_endian: bool)
    ensures
        raw_in(raw_bytes_of(e, big_endian), big_endian) == Some(e),
{
    let b = raw_bytes_of(e, big_endian);
    assert(b.len() == 24);
    assert(u16_at(b, 16, big_endian) == e.type_);
    assert(u16_at(b, 18, big_endian) == e.code);
    assert(u32_at(b, 20, big_endian) == unsigned(e.value));
}

/// The button with the given code.
pub open spec fn button_of(code: u16) -> Option<MouseButton> {
    if code == BTN_LEFT {
        Some(MouseButton::Left)
    } else if code == BTN_RIGHT {
        Some(MouseButton::Right)
    } else if code == BTN_MIDDLE {
        Some(MouseButton::Middle)
    } else if code == BTN_SIDE {
        Some(MouseButton::Back)
    } else if code == BTN_EXTRA {
        Some(MouseButton::Forward)
    } else {
        None
    }
}

/// The code of a button.
pub open spec fn code_of(button: MouseButton) -> u16 {
    match button {
        MouseButton::Left => BTN_LEFT,
        MouseButton::Right => BTN_RIGHT,
        MouseButton::Middle => BTN_MIDDLE,
        MouseButton::Back => BTN_SIDE,
        MouseButton::Forward => BTN_EXTRA,
    }
}

/// A displacement of a whole number of steps.
pub open spec fn whole_delta(v: int) -> Delta {
    Delta { raw: (v * DELTA_UNIT) as i128 }
}

/// What a key or button event of a device means. The value tells a press (one)
/// from a release (zero) and from the repetition of a held key (two), which
/// means nothing.
pub open spec fn key_event(raw: RawEvent) -> Option<InputEvent> {
    match button_of(raw.code) {
        Some(button) => Some(
            InputEvent::MouseButton {
                button,
                state: if raw.value != 0 {
                    ButtonState::Pressed
                } else {
                    ButtonState::Released
                },
            },
        ),
        None => if raw.value == 2 {
            None
        } else {
            Some(
                InputEvent::Key {
                    scancode: raw.code as u32,
                    state: if raw.value != 0 {
                        KeyState::Pressed
                    } else {
                        KeyState::Released
                    },
                },
            )
        },
    }
}

/// The keys held after a key event of a device.
pub open spec fn held_after(held: Set<u16>, raw: RawEvent) -> Set<u16> {
    if button_of(raw.code) is Some || raw.value == 2 {
        held
    } else if raw.value != 0 {
        held.insert(raw.code)
    } else {
        held.remove(raw.code)
    }
}

/// Translates a key or button event of a device.
pub fn translate_key_event(raw: &RawEvent, held_keys: &mut HashSet<u16>) -> (r: Option<InputEvent>)
    ensures
        r == key_event(*raw),
        final(held_keys)@ == held_after(old(held_keys)@, *raw),
{
    let code = raw.code;
    let button = if code == BTN_LEFT {
        Some(MouseButton::Left)
    } else if code == BTN_RIGHT {
        Some(MouseButton::Right)
    } else if code == BTN_MIDDLE {
        Some(MouseButton::Middle)
    } else if code == BTN_SIDE {
        Some(MouseButton::Back)
    } else if code == BTN_EXTRA {
        Some(MouseButton::Forward)
    } else {
        None
    };
    match button {
        Some(button) => {
            let state = if raw.value != 0 { ButtonState::Pressed } else { ButtonState::Released };
            Some(InputEvent::MouseButton { button, state })
        },
        None => {
            if raw.value == 2 {
                return None;
            }
            let state = if raw.value != 0 {
                held_keys.insert(code);
                KeyState::Pressed
            } else {
                held_keys.remove(&code);
                KeyState::Released
            };
            Some(InputEvent::Key { scancode: code as u32, state })
        },
    }
}

/// The reading side of the event devices: the motion gathered since the last
/// report, the keys held, and whether the devices are grabbed.
pub struct EvdevCapture {
    grabbed: bool,
    held_keys: HashSet<u16>,
    pending_dx: i128,
    pending_dy: i128,
}

/// The mathematical content of an [`EvdevCapture`].
#[verifier::ext_equal]
pub struct CaptureModel {
    pub grabbed: bool,
    pub held: Set<u16>,
    pub dx: int,
    pub dy: int,
}

impl View for EvdevCapture {
    type V = CaptureModel;

    closed spec fn view(&self) -> CaptureModel {
        CaptureModel {
            grabbed: self.grabbed,
            held: self.held_keys@,
            dx: self.pending_dx as int,
            dy: self.pending_dy as int,
        }
    }
}

impl CaptureModel {
    /// What an event of a device leads to: motions are gathered, in double
    /// precision, until the device reports; wheel steps and keys count at once.
    pub open spec fn fed(self, raw: RawEvent) -> (CaptureModel, Option<InputEvent>) {
        if raw.type_ == EV_SYN {
            if raw.code == SYN_REPORT && (self.dx != 0 || self.dy != 0) {
                (
                    CaptureModel { dx: 0, dy: 0, ..self },
                    Some(
                        InputEvent::MouseMove {
                            dx: whole_delta(self.dx),
                            dy: whole_delta(self.dy),
                        },
                    ),
                )
            } else {
                (self, None)
            }
        } else if raw.type_ == EV_REL {
            if raw.code == REL_X {
                (CaptureModel { dx: rounded(self.dx + raw.value), ..self }, None)
            } else if raw.code == REL_Y {
                (CaptureModel { dy: rounded(self.dy + raw.value), ..self }, None)
            } else if raw.code == REL_WHEEL {
                (
                    self,
                    Some(
                        InputEvent::Scroll {
                            dx: whole_delta(0),
                            dy: whole_delta(-raw.value),
                        },
                    ),
                )
            } else if raw.code == REL_HWHEEL {
                (
                    self,
                    Some(
                        InputEvent::Scroll {
                            dx: whole_delta(raw.value as int),
                            dy: whole_delta(0),
                        },
                    ),
                )
            } else {
                (self, None)
            }
        } else if raw.type_ == EV_KEY {
            (CaptureModel { held: held_after(self.held, raw), ..self }, key_event(raw))
        } else {
            (self, None)
        }
    }
}

impl EvdevCapture {
    /// Whether the gathered motion is within its bounds.
    pub closed spec fn wf(&self) -> bool {
        &&& -LARGEST_SUM <= self.pending_dx <= LARGEST_SUM
        &&& -LARGEST_SUM <= self.pending_dy <= LARGEST_SUM
    }

    pub fn new() -> (r: Self)
        ensures
            r.wf(),
            r@ == (CaptureModel { grabbed: false, held: Set::empty(), dx: 0, dy: 0 }),
    {
        EvdevCapture { grabbed: false, held_keys: HashSet::new(), pending_dx: 0, pending_dy: 0 }
    }

    /// A device sent an event: what it means, if anything.
    pub fn feed(&mut self, raw: &RawEvent) -> (r: Option<InputEvent>)
        requires
            old(self).wf(),
        ensures
            final(self).wf(),
            (final(self)@, r) == old(self)@.fed(*raw),
    {
        if raw.type_ == EV_SYN {
            if raw.code == SYN_REPORT && (self.pending_dx != 0 || self.pending_dy != 0) {
                let dx = Delta::from_whole(self.pending_dx);
                let dy = Delta::from_whole(self.pending_dy);
                self.pending_dx = 0;
                self.pending_dy = 0;
                Some(InputEvent::MouseMove { dx, dy })
            } else {
                None
            }
        } else if raw.type_ == EV_REL {
            if raw.code == REL_X {
                proof {
                    sums_stay_bounded(self.pending_dx as int, raw.value as int);
                }
                self.pending_dx = round(self.pending_dx + raw.value as i128);
                None
            } else if raw.code == REL_Y {
                proof {
                    sums_stay_bounded(self.pending_dy as int, raw.value as int);
                }
                self.pending_dy = round(self.pending_dy + raw.value as i128);
                None
            } else if raw.code == REL_WHEEL {
                let dy = Delta::from_whole(-(raw.value as i128));
                Some(InputEvent::Scroll { dx: Delta::zero(), dy })
            } else if raw.code == REL_HWHEEL {
                let dx = Delta::from_whole(raw.value as i128);
                Some(InputEvent::Scroll { dx, dy: Delta::zero() })
            } else {
                None
            }
        } else if raw.type_ == EV_KEY {
            translate_key_event(raw, &mut self.held_keys)
        } else {
            None
        }
    }

    /// The devices are to be grabbed: whether that is still to be done.
    pub fn grab_pointer(&mut self) -> (r: bool)
        requires
            old(self).wf(),
        ensures
            final(self).wf(),
            r == !old(self)@.grabbed,
            final(self)@ == (CaptureModel { grabbed: true, ..old(self)@ }),
    {
        let needed = !self.grabbed;
        self.grabbed = true;
        needed
    }

    /// The devices are to be let go: whether that is still to be done. If so the
    /// held keys are forgotten.
    pub fn ungrab_pointer(&mut self) -> (r: bool)
        requires
            old(self).wf(),
        ensures
            final(self).wf(),
            r == old(self)@.grabbed,
            final(self)@ == (if old(self)@.grabbed {
                CaptureModel { grabbed: false, held: Set::empty(), ..old(self)@ }
            } else {
                old(self)@
            }),
    {
        if !self.grabbed {
            return false;
        }
        self.grabbed = false;
        self.held_keys.clear();
        true
    }
}

/// The report that ends a group of events.
pub open spec fn report() -> RawEvent {
    RawEvent { type_: EV_SYN, code: SYN_REPORT, value: 0 }
}

/// A displacement as an event, none if there is no displacement.
pub open spec fn axis(code: u16, d: Delta, value: int) -> Seq<RawEvent> {
    if d.raw == 0 {
        seq![]
    } else {
        seq![RawEvent { type_: EV_REL, code, value: value as i32 }]
    }
}

/// A displacement in whole steps, as far as 32 bits can tell.
pub open spec fn steps(d: Delta) -> int {
    clamped(d.whole(), i32::MIN as int, i32::MAX as int)
}

/// The events that replay an input event on the virtual device.
pub open spec fn emitted(e: InputEvent) -> Seq<RawEvent> {
    match e {
        InputEvent::MouseMove { dx, dy } => axis(REL_X, dx, steps(dx)) + axis(REL_Y, dy, steps(dy)),
        InputEvent::MouseButton { button, state } => seq![
            RawEvent {
                type_: EV_KEY,
                code: code_of(button),
                value: if state is Pressed {
                    1
                } else {
                    0
                },
            },
        ],
        InputEvent::Scroll { dx, dy } => axis(REL_WHEEL, dy, -steps(dy)) + axis(
            REL_HWHEEL,
            dx,
            steps(dx),
        ),
        InputEvent::Key { scancode, state } => seq![
            RawEvent {
                type_: EV_KEY,
                code: (scancode % 65536) as u16,
                value: if state is Pressed {
                    1
                } else {
                    0
                },
            },
        ],
    }.push(report())
}

fn push_axis(out: &mut Vec<RawEvent>, code: u16, d: &Delta, value: i32)
    ensures
        final(out)@ == old(out)@ + axis(code, *d, value as int),
{
    if !d.is_zero() {
        out.push(RawEvent { type_: EV_REL, code, value });
    }
    assert(out@ == old(out)@ + axis(code, *d, value as int));
}

/// The events that replay an input event on the virtual device.
pub fn emit(event: &InputEvent) -> (r: Vec<RawEvent>)
    requires
        *event matches InputEvent::Scroll { dx, dy } ==> steps(dy) > i32::MIN,
    ensures
        r@ == emitted(*event),
{
    let mut out: Vec<RawEvent> = Vec::new();
    match event {
        InputEvent::MouseMove { dx, dy } => {
            push_axis(&mut out, REL_X, dx, dx.to_i32());
            push_axis(&mut out, REL_Y, dy, dy.to_i32());
        },
        InputEvent::MouseButton { button, state } => {
            let code = match button {
                MouseButton::Left => BTN_LEFT,
                MouseButton::Right => BTN_RIGHT,
                MouseButton::Middle => BTN_MIDDLE,
                MouseButton::Back => BTN_SIDE,
                MouseButton::Forward => BTN_EXTRA,
            };
            let value = match state {
                ButtonState::Pressed => 1i32,
                ButtonState::Released => 0i32,
            };
            out.push(RawEvent { type_: EV_KEY, code, value });
        },
        InputEvent::Scroll { dx, dy } => {
            push_axis(&mut out, REL_WHEEL, dy, -dy.to_i32());
            push_axis(&mut out, REL_HWHEEL, dx, dx.to_i32());
        },
        InputEvent::Key { scancode, state } => {
            let value = match state {
                KeyState::Pressed => 1i32,
                KeyState::Released => 0i32,
            };
            out.push(RawEvent { type_: EV_KEY, code: (*scancode % 65536) as u16, value });
        },
    }
    out.push(RawEvent { type_: EV_SYN, code: SYN_REPORT, value: 0 });
    assert(out@ == emitted(*event));
    out
}

/// What a run of events of a device leads to: the state after it and the input
/// events it means.
pub open spec fn fed_all(m: CaptureModel, raws: Seq<RawEvent>) -> (CaptureModel, Seq<InputEvent>)
    decreases raws.len(),
{
    if raws.len() == 0 {
        (m, seq![])
    } else {
        let (n, out) = fed_all(m, raws.drop_last());
        let (end, e) = n.fed(raws.last());
        (
            end,
            match e {
                Some(e) => out.push(e),
                None => out,
            },
        )
    }
}

/// A button or key event that is replayed on one machine's device is captured
/// from it as the same event. Scan codes of 16 bits that are no buttons count as
/// keys.
pub proof fn keys_survive_replay(m: CaptureModel, e: InputEvent)
    requires
        m.dx == 0,
        m.dy == 0,
        e is MouseButton || (e matches InputEvent::Key { scancode, state } && scancode <= u16::MAX
            && button_of(scancode as u16) is None),
    ensures
        fed_all(m, emitted(e)).1 == seq![e],
{
    let raws = emitted(e);
    assert(raws.drop_last().drop_last() == Seq::<RawEvent>::empty());
    reveal_with_fuel(fed_all, 3);
    assert(fed_all(m, raws).1 == seq![e]);
}

/// A motion of whole steps that is replayed on one machine's device is captured
/// from it as the same motion.
pub proof fn motions_survive_replay(m: CaptureModel, x: i32, y: i32)
    requires
        m.dx == 0,
        m.dy == 0,
        x != 0 || y != 0,
    ensures
        ({
            let e = InputEvent::MouseMove {
                dx: whole_delta(x as int),
                dy: whole_delta(y as int),
            };
            fed_all(m, emitted(e)).1 == seq![e]
        }),
{
    let (dx, dy) = (whole_delta(x as int), whole_delta(y as int));
    assert(steps(dx) == x && steps(dy) == y);
    let raws = emitted(InputEvent::MouseMove { dx, dy });
    let ax = axis(REL_X, dx, x as int);
    let ay = axis(REL_Y, dy, y as int);
    assert(raws.drop_last() == ax + ay);
    reveal_with_fuel(fed_all, 4);
    if x != 0 && y != 0 {
        assert((ax + ay).drop_last() == ax);
        assert(ax.drop_last() == Seq::<RawEvent>::empty());
    } else if x != 0 {
        assert(ax + ay == ax);
        assert(ax.drop_last() == Seq::<RawEvent>::empty());
    } else {
        assert(ax + ay == ay);
        assert(ay.drop_last() == Seq::<RawEvent>::empty());
    }
    assert(fed_all(m, raws).1 == seq![InputEvent::MouseMove { dx, dy }]);
}

/// A wheel event of `d` steps, vertical or horizontal; none for no steps.
pub open spec fn wheel_event(d: int, vertical: bool) -> Seq<InputEvent> {
    if d == 0 {
        seq![]
    } else if vertical {
        seq![InputEvent::Scroll { dx: whole_delta(0), dy: whole_delta(d) }]
    } else {
        seq![InputEvent::Scroll { dx: whole_delta(d), dy: whole_delta(0) }]
    }
}

/// A wheel event of whole steps that is replayed on one machine's device is
/// captured from it with the same steps, the vertical ones first and by
/// themselves.
pub proof fn wheel_steps_survive_replay(m: CaptureModel, x: i32, y: i32)
    requires
        m.dx == 0,
        m.dy == 0,
        y > i32::MIN,
    ensures
        ({
            let e = InputEvent::Scroll { dx: whole_delta(x as int), dy: whole_delta(y as int) };
            fed_all(m, emitted(e)).1 == wheel_event(y as int, true) + wheel_event(x as int, false)
        }),
{
    let (dx, dy) = (whole_delta(x as int), whole_delta(y as int));
    assert(steps(dx) == x && steps(dy) == y);
    let raws = emitted(InputEvent::Scroll { dx, dy });
    let ay = axis(REL_WHEEL, dy, -steps(dy));
    let ax = axis(REL_HWHEEL, dx, steps(dx));
    assert(raws.drop_last() == ay + ax);
    reveal_with_fuel(fed_all, 4);
    if x != 0 && y != 0 {
        assert((ay + ax).drop_last() == ay);
        assert(ay.drop_last() == Seq::<RawEvent>::empty());
    } else if y != 0 {
        assert(ay + ax == ay);
        assert(ay.drop_last() == Seq::<RawEvent>::empty());
    } else if x != 0 {
        assert(ay + ax == ax);
        assert(ax.drop_last() == Seq::<RawEvent>::empty());
    }
    assert(fed_all(m, raws).1 == wheel_event(y as int, true) + wheel_event(x as int, false));
}

/// The name of the virtual device.
pub open spec fn device_name_text() -> Seq<char> {
    "KMFlow Virtual Input"@
}

/// The name of the virtual device in a field of 80 bytes, filled up with zeros.
pub fn virtual_device_name() -> (r: Vec<u8>)
    ensures
        r@.len() == 80,
        r@ == vstd::utf8::encode_utf8(device_name_text()) + Seq::new(60, |i: int| 0u8),
{
    proof {
        reveal_strlit("KMFlow Virtual Input");
        vstd::utf8::is_ascii_chars_encode_utf8(device_name_text());
    }
    let mut out: Vec<u8> = Vec::new();
    append_bytes(&mut out, "KMFlow Virtual Input".as_bytes());
    let ghost name = out@;
    let mut i: usize = 0;
    while i < 60
        invariant
            i <= 60,
            out@ == name + Seq::new(i as nat, |j: int| 0u8),
        decreases 60 - i,
    {
        out.push(0);
        assert(out@ == name + Seq::new((i + 1) as nat, |j: int| 0u8));
        i += 1;
    }
    out
}

/// What the virtual device can do, as the requests that enable it: keys and
/// relative axes, the two wheels, five buttons and the key codes from 1 to 255.
pub open spec fn capabilities() -> Seq<(u64, u64)> {
    seq![
        (UI_SET_EVBIT, EV_KEY as u64),
        (UI_SET_EVBIT, EV_REL as u64),
        (UI_SET_EVBIT, EV_SYN as u64),
        (UI_SET_RELBIT, REL_X as u64),
        (UI_SET_RELBIT, REL_Y as u64),
        (UI_SET_RELBIT, REL_WHEEL as u64),
        (UI_SET_RELBIT, REL_HWHEEL as u64),
        (UI_SET_KEYBIT, BTN_LEFT as u64),
        (UI_SET_KEYBIT, BTN_RIGHT as u64),
        (UI_SET_KEYBIT, BTN_MIDDLE as u64),
        (UI_SET_KEYBIT, BTN_SIDE as u64),
        (UI_SET_KEYBIT, BTN_EXTRA as u64),
    ] + Seq::new(255, |i: int| (UI_SET_KEYBIT, (i + 1) as u64))
}

/// The requests that enable what the virtual device can do, in their order.
pub fn capability_requests() -> (r: Vec<(u64, u64)>)
    ensures
        r@ == capabilities(),
{
    let mut out: Vec<(u64, u64)> = Vec::new();
    out.push((UI_SET_EVBIT, EV_KEY as u64));
    out.push((UI_SET_EVBIT, EV_REL as u64));
    out.push((UI_SET_EVBIT, EV_SYN as u64));
    out.push((UI_SET_RELBIT, REL_X as u64));
    out.push((UI_SET_RELBIT, REL_Y as u64));
    out.push((UI_SET_RELBIT, REL_WHEEL as u64));
    out.push((UI_SET_RELBIT, REL_HWHEEL as u64));
    out.push((UI_SET_KEYBIT, BTN_LEFT as u64));
    out.push((UI_SET_KEYBIT, BTN_RIGHT as u64));
    out.push((UI_SET_KEYBIT, BTN_MIDDLE as u64));
    out.push((UI_SET_KEYBIT, BTN_SIDE as u64));
    out.push((UI_SET_KEYBIT, BTN_EXTRA as u64));
    let ghost head = out@;
    let mut key: u64 = 1;
    while key < 256
        invariant
            1 <= key <= 256,
            out@ == head + Seq::new((key - 1) as nat, |i: int| (UI_SET_KEYBIT, (i + 1) as u64)),
        decreases 256 - key,
    {
        out.push((UI_SET_KEYBIT, key));
        assert(out@ == head + Seq::new(key as nat, |i: int| (UI_SET_KEYBIT, (i + 1) as u64)));
        key += 1;
    }
    assert(out@ == capabilities());
    out
}

/// The codes of the kernel: left is 272, right 273, middle 274, back (the side
/// button) 275 and forward (the extra button) 276. No other code is a button.
pub proof fn buttons_have_their_kernel_codes(code: u16)
    ensures
        button_of(0x110) == Some(MouseButton::Left),
        button_of(0x111) == Some(MouseButton::Right),
        button_of(0x112) == Some(MouseButton::Middle),
        button_of(0x113) == Some(MouseButton::Back),
        button_of(0x114) == Some(MouseButton::Forward),
        button_of(code) is Some <==> 0x110 <= code <= 0x114,
        code_of(MouseButton::Left) == 0x110,
        code_of(MouseButton::Right) == 0x111,
        code_of(MouseButton::Middle) == 0x112,
        code_of(MouseButton::Back) == 0x113,
        code_of(MouseButton::Forward) == 0x114,
        button_of(code) matches Some(button) ==> code_of(button) == code,
{
}

/// The numbers of the kernel for kinds of events, axes and requests.
pub proof fn kernel_numbers()
    ensures
        EV_SYN == 0,
        EV_KEY == 1,
        EV_REL == 2,
        SYN_REPORT == 0,
        REL_X == 0,
        REL_Y == 1,
        REL_HWHEEL == 6,
        REL_WHEEL == 8,
        UI_SET_EVBIT == 0x4000_0000 + 4 * 0x1_0000 + 0x55 * 0x100 + 100,
        UI_SET_KEYBIT == 0x4000_0000 + 4 * 0x1_0000 + 0x55 * 0x100 + 101,
        UI_SET_RELBIT == 0x4000_0000 + 4 * 0x1_0000 + 0x55 * 0x100 + 102,
        INPUT_EVENT_SIZE == 16 + 2 + 2 + 4,
{
}

/// A displacement of whole steps is that many steps.
pub proof fn whole_steps_are_whole(v: int)
    requires
        -0x20_0000_0000_0000 <= v <= 0x20_0000_0000_0000,
    ensures
        whole_delta(v).whole() == v,
        whole_delta(v).raw == v * 0x1_0000_0000,
{
}

/// A button that goes down or up is a press or release of that button, whatever
/// the value of a press. A key with value one goes down, with value zero up, and
/// with value two it is repeated, which is no event.
pub proof fn presses_and_releases(raw: RawEvent)
    ensures
        0x110 <= raw.code <= 0x114 ==> match key_event(raw) {
            Some(InputEvent::MouseButton { button, state }) => code_of(button) == raw.code && (
            state is Released <==> raw.value == 0),
            _ => false,
        },
        !(0x110 <= raw.code <= 0x114) ==> match key_event(raw) {
            Some(InputEvent::Key { scancode, state }) => scancode == raw.code && raw.value != 2 && (
            state is Released <==> raw.value == 0),
            Some(_) => false,
            None => raw.value == 2,
        },
{
}

/// Held are the keys that went down and not up since; buttons and repetitions do
/// not count, and no event touches another key.
pub proof fn held_keys_are_down(held: Set<u16>, raw: RawEvent, k: u16)
    ensures
        k != raw.code ==> held_after(held, raw).contains(k) == held.contains(k),
        match key_event(raw) {
            Some(InputEvent::Key { scancode, state }) => held_after(held, raw).contains(raw.code)
                <==> state is Pressed,
            _ => held_after(held, raw) == held,
        },
{
}

/// Motions add up on their own axis and are events only when the device reports:
/// then they are one motion by both sums, after which there is none to report.
pub proof fn motions_add_up(m: CaptureModel, v: i32)
    requires
        -0x10_0000_0000_0000 <= m.dx <= 0x10_0000_0000_0000,
        -0x10_0000_0000_0000 <= m.dy <= 0x10_0000_0000_0000,
    ensures
        m.fed(RawEvent { type_: 2, code: 0, value: v }) == (
            (CaptureModel { grabbed: m.grabbed, held: m.held, dx: m.dx + v, dy: m.dy }),
            None::<InputEvent>,
        ),
        m.fed(RawEvent { type_: 2, code: 1, value: v }) == (
            (CaptureModel { grabbed: m.grabbed, held: m.held, dx: m.dx, dy: m.dy + v }),
            None::<InputEvent>,
        ),
        m.dx != 0 || m.dy != 0 ==> match m.fed(RawEvent { type_: 0, code: 0, value: v }) {
            (n, Some(InputEvent::MouseMove { dx, dy })) => n == (CaptureModel {
                grabbed: m.grabbed,
                held: m.held,
                dx: 0,
                dy: 0,
            }) && dx.whole() == m.dx && dy.whole() == m.dy && dx.raw % 0x1_0000_0000 == 0 && dy.raw
                % 0x1_0000_0000 == 0,
            _ => false,
        },
        m.dx == 0 && m.dy == 0 ==> m.fed(RawEvent { type_: 0, code: 0, value: v }) == (
            m,
            None::<InputEvent>,
        ),
{
    crate::proto::rounding_is_to_the_nearest(m.dx + v);
    crate::proto::rounding_is_to_the_nearest(m.dy + v);
}

/// The wheels count at once and leave the gathered motion as it is. The upright
/// wheel counts the other way round: away from the user is up, which is negative.
pub proof fn wheels_count_at_once(m: CaptureModel, v: i32)
    ensures
        match m.fed(RawEvent { type_: 2, code: 8, value: v }) {
            (n, Some(InputEvent::Scroll { dx, dy })) => n == m && dx.raw == 0 && dy.whole() == -v
                && dy.raw % 0x1_0000_0000 == 0,
            _ => false,
        },
        match m.fed(RawEvent { type_: 2, code: 6, value: v }) {
            (n, Some(InputEvent::Scroll { dx, dy })) => n == m && dy.raw == 0 && dx.whole() == v
                && dx.raw % 0x1_0000_0000 == 0,
            _ => false,
        },
{
}

/// Keys count at once and leave the gathered motion as it is; kinds of events and
/// axes that have no meaning here are passed over.
pub proof fn other_events_of_a_device(m: CaptureModel, raw: RawEvent)
    ensures
        raw.type_ == 1 ==> m.fed(raw).1 == key_event(raw) && m.fed(raw).0.held == held_after(
            m.held,
            raw,
        ) && m.fed(raw).0.dx == m.dx && m.fed(raw).0.dy == m.dy && m.fed(raw).0.grabbed
            == m.grabbed,
        raw.type_ > 2 ==> m.fed(raw) == (m, None::<InputEvent>),
        raw.type_ == 0 && raw.code != 0 ==> m.fed(raw) == (m, None::<InputEvent>),
        raw.type_ == 2 && raw.code != 0 && raw.code != 1 && raw.code != 6 && raw.code != 8
            ==> m.fed(raw) == (m, None::<InputEvent>),
{
}

/// A run of events leads where its parts lead one after the other, and means what
/// they mean one after the other.
pub proof fn runs_of_raw_events_compose(m: CaptureModel, a: Seq<RawEvent>, b: Seq<RawEvent>)
    ensures
        fed_all(m, a + b).0 == fed_all(fed_all(m, a).0, b).0,
        fed_all(m, a + b).1 == fed_all(m, a).1 + fed_all(fed_all(m, a).0, b).1,
    decreases b.len(),
{
    if b.len() == 0 {
        assert(a + b == a);
    } else {
        runs_of_raw_events_compose(m, a, b.drop_last());
        assert((a + b).drop_last() == a + b.drop_last());
        assert(fed_all(m, a + b).1 == fed_all(m, a).1 + fed_all(fed_all(m, a).0, b).1);
    }
}

/// What is written to the virtual device: keys and buttons by their code with one
/// for a press and zero for a release, and a report at the end.
pub proof fn keys_are_written_by_code(e: InputEvent)
    requires
        e is Key || e is MouseButton,
    ensures
        emitted(e).len() == 2,
        emitted(e)[1] == (RawEvent { type_: 0, code: 0, value: 0 }),
        emitted(e)[0].type_ == 1,
        match e {
            InputEvent::Key { scancode, state } => emitted(e)[0].code == scancode % 0x1_0000
                && emitted(e)[0].value == (if state is Pressed {
                1int
            } else {
                0
            }),
            InputEvent::MouseButton { button, state } => button_of(emitted(e)[0].code) == Some(
                button,
            ) && emitted(e)[0].value == (if state is Pressed {
                1int
            } else {
                0
            }),
            _ => false,
        },
{
}

/// What is written for a motion of whole steps that fit in 32 bits: those steps on
/// each axis that moves, horizontal first, and a report.
pub proof fn motions_are_written_by_axis(x: i32, y: i32)
    ensures
        ({
            let e = InputEvent::MouseMove { dx: whole_delta(x as int), dy: whole_delta(y as int) };
            let wx = RawEvent { type_: 2, code: 0, value: x };
            let wy = RawEvent { type_: 2, code: 1, value: y };
            let end = RawEvent { type_: 0, code: 0, value: 0 };
            &&& x != 0 && y != 0 ==> emitted(e) == seq![wx, wy, end]
            &&& x != 0 && y == 0 ==> emitted(e) == seq![wx, end]
            &&& x == 0 && y != 0 ==> emitted(e) == seq![wy, end]
            &&& x == 0 && y == 0 ==> emitted(e) == seq![end]
        }),
{
    let dx = whole_delta(x as int);
    let dy = whole_delta(y as int);
    whole_steps_are_whole(x as int);
    whole_steps_are_whole(y as int);
    let e = InputEvent::MouseMove { dx, dy };
    let wx = RawEvent { type_: 2, code: 0, value: x };
    let wy = RawEvent { type_: 2, code: 1, value: y };
    let end = RawEvent { type_: 0, code: 0, value: 0 };
    assert(x != 0 && y != 0 ==> emitted(e) =~= seq![wx, wy, end]);
    assert(x != 0 && y == 0 ==> emitted(e) =~= seq![wx, end]);
    assert(x == 0 && y != 0 ==> emitted(e) =~= seq![wy, end]);
    assert(x == 0 && y == 0 ==> emitted(e) =~= seq![end]);
}

/// What is written for wheel steps: the upright wheel the other way round, then
/// the other wheel, and a report.
pub proof fn wheel_steps_are_written_by_wheel(x: i32, y: i32)
    requires
        y > i32::MIN,
    ensures
        ({
            let e = InputEvent::Scroll { dx: whole_delta(x as int), dy: whole_delta(y as int) };
            let wx = RawEvent { type_: 2, code: 6, value: x };
            let wy = RawEvent { type_: 2, code: 8, value: (-y) as i32 };
            let end = RawEvent { type_: 0, code: 0, value: 0 };
            &&& x != 0 && y != 0 ==> emitted(e) == seq![wy, wx, end]
            &&& x != 0 && y == 0 ==> emitted(e) == seq![wx, end]
            &&& x == 0 && y != 0 ==> emitted(e) == seq![wy, end]
            &&& x == 0 && y == 0 ==> emitted(e) == seq![end]
        }),
{
    let dx = whole_delta(x as int);
    let dy = whole_delta(y as int);
    whole_steps_are_whole(x as int);
    whole_steps_are_whole(y as int);
    let e = InputEvent::Scroll { dx, dy };
    let wx = RawEvent { type_: 2, code: 6, value: x };
    let wy = RawEvent { type_: 2, code: 8, value: (-y) as i32 };
    let end = RawEvent { type_: 0, code: 0, value: 0 };
    assert(x != 0 && y != 0 ==> emitted(e) =~= seq![wy, wx, end]);
    assert(x != 0 && y == 0 ==> emitted(e) =~= seq![wx, end]);
    assert(x == 0 && y != 0 ==> emitted(e) =~= seq![wy, end]);
    assert(x == 0 && y == 0 ==> emitted(e) =~= seq![end]);
}

/// Parts of a step are not written: a displacement counts for the whole steps in
/// it, towards zero, and for the most that 32 bits can tell.
pub proof fn parts_of_steps_are_dropped(d: Delta)
    ensures
        i32::MIN <= d.whole() <= i32::MAX ==> steps(d) == d.whole(),
        d.whole() > i32::MAX ==> steps(d) == 0x7fff_ffff,
        d.whole() < i32::MIN ==> steps(d) == -0x8000_0000,
        d.raw >= 0 ==> 0 <= steps(d) * 0x1_0000_0000 <= d.raw,
        d.raw <= 0 ==> d.raw <= steps(d) * 0x1_0000_0000 <= 0,
        -0x8000_0000_0000_0000 < d.raw < 0x7fff_ffff_0000_0000 ==> -0x1_0000_0000 < d.raw - steps(d)
            * 0x1_0000_0000 < 0x1_0000_0000,
{
}

/// A displacement of less than a step is written too, as no step on its axis.
pub proof fn every_displacement_is_written(code: u16, d: Delta, v: i32)
    ensures
        axis(code, d, v as int).len() == (if d.raw == 0 {
            0int
        } else {
            1
        }),
        d.raw != 0 ==> axis(code, d, v as int)[0] == (RawEvent { type_: 2, code, value: v }),
{
}

/// The virtual device can do all that is written to it: the kinds of events, the
/// axes, the buttons and the keys with codes from 1 to 255.
pub proof fn what_is_written_is_enabled(e: InputEvent, i: int)
    requires
        0 <= i < emitted(e).len(),
        e matches InputEvent::Key { scancode, state } ==> 1 <= scancode <= 255,
    ensures
        ({
            let raw = emitted(e)[i];
            &&& capabilities().contains((0x4004_5564, raw.type_ as u64))
            &&& raw.type_ == 2 ==> capabilities().contains((0x4004_5566, raw.code as u64))
            &&& raw.type_ == 1 ==> capabilities().contains((0x4004_5565, raw.code as u64))
        }),
{
    let c = capabilities();
    let raw = emitted(e)[i];
    assert(c[0] == (0x4004_5564u64, 1u64));
    assert(c[1] == (0x4004_5564u64, 2u64));
    assert(c[2] == (0x4004_5564u64, 0u64));
    assert(c[3] == (0x4004_5566u64, 0u64));
    assert(c[4] == (0x4004_5566u64, 1u64));
    assert(c[5] == (0x4004_5566u64, 8u64));
    assert(c[6] == (0x4004_5566u64, 6u64));
    assert(c[7] == (0x4004_5565u64, 0x110u64));
    assert(c[8] == (0x4004_5565u64, 0x111u64));
    assert(c[9] == (0x4004_5565u64, 0x112u64));
    assert(c[10] == (0x4004_5565u64, 0x113u64));
    assert(c[11] == (0x4004_5565u64, 0x114u64));
    if raw.type_ == 1 && raw.code <= 255 {
        assert(c[11 + raw.code] == (0x4004_5565u64, raw.code as u64));
    }
}

/// Nothing else is enabled.
pub proof fn nothing_else_is_enabled(i: int)
    requires
        0 <= i < capabilities().len(),
    ensures
        ({
            let (request, code) = capabilities()[i];
            ||| request == 0x4004_5564 && code <= 2
            ||| request == 0x4004_5566 && (code == 0 || code == 1 || code == 6 || code == 8)
            ||| request == 0x4004_5565 && (1 <= code <= 255 || 0x110 <= code <= 0x114)
        }),
        capabilities().len() == 3 + 4 + 5 + 255,
{
}

/// The order of bytes only turns the bytes of each number round, and in the lower
/// order the low byte comes first.
pub proof fn bytes_have_an_order(n: int, b: Seq<u8>, i: int)
    requires
        0 <= n < 0x1_0000_0000,
    ensures
        u16_bytes(n % 0x1_0000, false) == seq![(n % 256) as u8, (n / 256 % 256) as u8],
        u16_bytes(n % 0x1_0000, true) == seq![(n / 256 % 256) as u8, (n % 256) as u8],
        u32_bytes(n, false) == seq![
            (n % 256) as u8,
            (n / 256 % 256) as u8,
            (n / 65536 % 256) as u8,
            (n / 16777216 % 256) as u8,
        ],
        u32_bytes(n, true) == seq![
            (n / 16777216 % 256) as u8,
            (n / 65536 % 256) as u8,
            (n / 256 % 256) as u8,
            (n % 256) as u8,
        ],
        u16_at(b, i, false) == b[i] + 256 * b[i + 1],
        u16_at(b, i, true) == 256 * b[i] + b[i + 1],
        u32_at(b, i, false) == b[i] + 256 * b[i + 1] + 65536 * b[i + 2] + 16777216 * b[i + 3],
        u32_at(b, i, true) == 16777216 * b[i] + 65536 * b[i + 1] + 256 * b[i + 2] + b[i + 3],
{
}

/// Where the parts of an event stand: after sixteen bytes of time, two bytes of
/// type, two of code and four of value, which is negative from `2^31` on.
pub proof fn raw_events_have_a_layout(b: Seq<u8>, big_endian: bool)
    ensures
        b.len() != 24 ==> raw_in(b, big_endian) is None,
        b.len() == 24 ==> match raw_in(b, big_endian) {
            Some(raw) => raw.type_ == u16_at(b, 16, big_endian) && raw.code == u16_at(
                b,
                18,
                big_endian,
            ) && raw.value as int == (if u32_at(b, 20, big_endian) < 0x8000_0000 {
                u32_at(b, 20, big_endian)
            } else {
                u32_at(b, 20, big_endian) - 0x1_0000_0000
            }),
            None => false,
        },
{
    if b.len() == 24 {
        assert(0 <= u16_at(b, 16, big_endian) < 0x1_0000);
        assert(0 <= u16_at(b, 18, big_endian) < 0x1_0000);
        assert(0 <= u32_at(b, 20, big_endian) < 0x1_0000_0000);
    }
}

/// Events are written with no time.
pub proof fn events_are_written_with_no_time(raw: RawEvent, big_endian: bool, i: int)
    requires
        0 <= i < 16,
    ensures
        raw_bytes_of(raw, big_endian).len() == 24,
        raw_bytes_of(raw, big_endian)[i] == 0,
{
}

} // verus!
