//! Which input devices are used, and when they are grabbed.
use crate::evdev::{device_name_text, BTN_LEFT, EV_KEY, EV_REL, REL_X};
use crate::proto::InputEvent;
use crate::text::{
    contains, from_utf8_lossy, has_infix, starts_with, to_chars, utf8_text, utf8_text_reads_back,
};
use vstd::prelude::*;
use vstd::string::*;
use vstd::utf8::*;

verus! {

#[derive(Debug, Clone, Copy, PartialEq, Eq, Structural)]
pub enum Backend {
    X11,
    Evdev,
}

/// The backend to use: X11 if the environment variable `DISPLAY` says where the
/// display is, else the event devices, which work everywhere.
pub fn detect_backend(display: Option<&str>) -> (r: Backend)
    ensures
        r == (if display matches Some(d) && d@.len() > 0 {
            Backend::X11
        } else {
            Backend::Evdev
        }),
{
    match display {
        Some(d) => if d.is_empty() {
            Backend::Evdev
        } else {
            Backend::X11
        },
        None => Backend::Evdev,
    }
}

/// The backend to try when one could not be opened.
pub fn fallback(failed: Backend) -> (r: Option<Backend>)
    ensures
        r == (match failed {
            Backend::X11 => Some(Backend::Evdev),
            Backend::Evdev => None::<Backend>,
        }),
        r != Some(failed),
{
    match failed {
        Backend::X11 => Some(Backend::Evdev),
        Backend::Evdev => None,
    }
}

/// The code of the key A, which every keyboard has.
pub const KEY_A: u16 = 30;

/// Whether a file in the directory of input devices is an event device.
pub fn is_event_node(name: &str) -> (r: bool)
    ensures
        r == "event"@.is_prefix_of(name@),
{
    let chars = to_chars(name);
    starts_with(chars.as_slice(), "event")
}

/// Whether bit `n` is set in a bit map, bit 0 being the lowest of the first
/// byte. A map that could not be read has no bits.
pub open spec fn bit_set(bits: Option<Seq<u8>>, n: u16) -> bool {
    match bits {
        Some(b) => n / 8 < b.len() && b[(n / 8) as int] & (1u8 << ((n % 8) as u8)) != 0,
        None => false,
    }
}

fn has_bit(bits: &[u8], n: u16) -> (r: bool)
    ensures
        r == bit_set(Some(bits@), n),
{
    let byte_idx = (n / 8) as usize;
    let bit_idx = (n % 8) as u8;
    byte_idx < bits.len() && bits[byte_idx] & (1u8 << bit_idx) != 0
}

/// A bit map as a sequence of bytes.
pub open spec fn map_view(bits: Option<&[u8]>) -> Option<Seq<u8>> {
    match bits {
        Some(b) => Some(b@),
        None => None,
    }
}

/// Whether a device has events of the given type, by its map of event types.
pub fn has_event_type(bits: Option<&[u8]>, ev_type: u16) -> (r: bool)
    ensures
        r == bit_set(map_view(bits), ev_type),
{
    match bits {
        Some(b) => has_bit(b, ev_type),
        None => false,
    }
}

/// Whether a device has the given key, by its map of keys.
pub fn has_key(bits: Option<&[u8]>, key: u16) -> (r: bool)
    ensures
        r == bit_set(map_view(bits), key),
{
    match bits {
        Some(b) => has_bit(b, key),
        None => false,
    }
}

/// The bytes before the first zero.
pub open spec fn until_zero(bytes: Seq<u8>) -> Seq<u8>
    decreases bytes.len(),
{
    if bytes.len() == 0 || bytes[0] == 0 {
        seq![]
    } else {
        seq![bytes[0]] + until_zero(bytes.skip(1))
    }
}

/// The number of bytes before the first zero.
fn zero_position(bytes: &[u8]) -> (r: usize)
    ensures
        r <= bytes.len(),
        bytes@.take(r as int) == until_zero(bytes@),
{
    let mut i: usize = 0;
    assert(bytes@.skip(0) == bytes@);
    while i < bytes.len() && bytes[i] != 0
        invariant
            i <= bytes.len(),
            until_zero(bytes@) == bytes@.take(i as int) + until_zero(bytes@.skip(i as int)),
        decreases bytes.len() - i,
    {
        assert(bytes@.skip(i as int).skip(1) == bytes@.skip(i + 1));
        assert(bytes@.take(i as int) + seq![bytes@[i as int]] == bytes@.take(i + 1));
        i += 1;
    }
    assert(until_zero(bytes@) == bytes@.take(i as int));
    i
}

/// The name of a device, from the buffer it was written to: what comes before
/// the first zero. A device whose name could not be read has no name.
pub fn get_device_name(buffer: Option<&[u8]>) -> (r: String)
    ensures
        r@ == (match buffer {
            Some(b) => utf8_text(until_zero(b@)),
            None => seq![],
        }),
{
    match buffer {
        Some(b) => {
            let len = zero_position(b);
            from_utf8_lossy(vstd::slice::slice_subrange(b, 0, len))
        },
        None => {
            proof {
                reveal_strlit("");
            }
            "".to_owned()
        },
    }
}

/// Whether a device name is that of this program's virtual device.
pub open spec fn is_own(name: Seq<char>) -> bool {
    has_infix(name, "KMFlow"@)
}

/// Whether an event device is used: a mouse, which moves and has a left button,
/// or a keyboard, which has the key A; but not this program's own device.
pub open spec fn is_used(types: Option<Seq<u8>>, keys: Option<Seq<u8>>, name: Seq<char>) -> bool {
    &&& {
        ||| bit_set(types, EV_REL) && bit_set(keys, BTN_LEFT)
        ||| bit_set(types, EV_KEY) && bit_set(keys, KEY_A)
    }
    &&& !is_own(name)
}

/// Whether an event device is used, by its maps of event types and keys and its
/// name.
pub fn uses_device(types: Option<&[u8]>, keys: Option<&[u8]>, name: &str) -> (r: bool)
    ensures
        r == is_used(map_view(types), map_view(keys), name@),
{
    let is_mouse = has_event_type(types, EV_REL) && has_key(keys, BTN_LEFT);
    let is_keyboard = has_event_type(types, EV_KEY) && has_key(keys, KEY_A);
    if !is_mouse && !is_keyboard {
        return false;
    }
    let chars = to_chars(name);
    !contains(chars.as_slice(), "KMFlow")
}

proof fn until_zero_stops(name: Seq<u8>, n: nat)
    requires
        forall|i: int| 0 <= i < name.len() ==> name[i] != 0,
    ensures
        until_zero(name + Seq::new(n, |i: int| 0u8)) == name,
    decreases name.len(),
{
    let zeros = Seq::new(n, |i: int| 0u8);
    let all = name + zeros;
    if name.len() == 0 {
        assert(all == zeros);
        if n > 0 {
            assert(all[0] == 0);
        }
    } else {
        until_zero_stops(name.skip(1), n);
        assert(all.skip(1) == name.skip(1) + zeros);
        assert(seq![all[0]] + name.skip(1) == name);
    }
}

/// The virtual device that replays events is never read: whatever else is known
/// of it, the name in its 80 bytes keeps it out. So no event that is replayed is
/// captured again.
pub proof fn own_device_is_never_used(
    types: Option<Seq<u8>>,
    keys: Option<Seq<u8>>,
    axes: Option<Seq<u8>>,
)
    ensures
        utf8_text(until_zero(encode_utf8(device_name_text()) + Seq::new(60, |i: int| 0u8)))
            == device_name_text(),
        !is_used(types, keys, device_name_text()),
        !is_grabbed_keyboard(types, keys, axes, Some(encode_utf8(device_name_text()))),
{
    let name = device_name_text();
    reveal_strlit("KMFlow Virtual Input");
    reveal_strlit("KMFlow");
    is_ascii_chars_encode_utf8(name);
    until_zero_stops(encode_utf8(name), 60);
    utf8_text_reads_back(name);
    assert(name.subrange(0, 6) == "KMFlow"@);
    assert(0 + "KMFlow"@.len() == 6);
    assert(has_infix(name, "KMFlow"@));
}

/// Whether an event device is a keyboard to grab beside an X11 display: it has
/// the key A and does not move, and is not this program's own device.
pub open spec fn is_grabbed_keyboard(
    types: Option<Seq<u8>>,
    keys: Option<Seq<u8>>,
    axes: Option<Seq<u8>>,
    name: Option<Seq<u8>>,
) -> bool {
    &&& bit_set(types, EV_KEY)
    &&& bit_set(keys, KEY_A)
    &&& !bit_set(axes, REL_X)
    &&& name matches Some(n) ==> !is_own(utf8_text(n))
}

/// Whether an event device is a keyboard to grab beside an X11 display, by its
/// maps of event types, keys and relative axes and its name.
pub fn grabs_keyboard(
    types: Option<&[u8]>,
    keys: Option<&[u8]>,
    axes: Option<&[u8]>,
    name: Option<&[u8]>,
) -> (r: bool)
    ensures
        r == is_grabbed_keyboard(map_view(types), map_view(keys), map_view(axes), map_view(name)),
{
    if !has_event_type(types, EV_KEY) || !has_key(keys, KEY_A) || has_event_type(axes, REL_X) {
        return false;
    }
    match name {
        Some(n) => {
            let text = from_utf8_lossy(n);
            let chars = to_chars(text.as_str());
            !contains(chars.as_slice(), "KMFlow")
        },
        None => true,
    }
}

/// What is to be done with the grab of the pointer.
#[derive(Debug, Clone, Copy, PartialEq, Eq, Structural)]
pub enum GrabAction {
    Grab,
    Ungrab,
    Keep,
}

/// What is to be done where the pointer is grabbed or not, and should be or not.
pub open spec fn grab_action(grabbed: bool, should_grab: bool) -> GrabAction {
    if should_grab == grabbed {
        GrabAction::Keep
    } else if should_grab {
        GrabAction::Grab
    } else {
        GrabAction::Ungrab
    }
}

/// Whether the pointer is grabbed after an action was performed, or failed and
/// changed nothing.
pub open spec fn grabbed_after(grabbed: bool, action: GrabAction, success: bool) -> bool {
    match (action, success) {
        (GrabAction::Grab, true) => true,
        (GrabAction::Ungrab, true) => false,
        _ => grabbed,
    }
}

/// What the capturing side does next.
#[derive(Debug, Clone, Copy, PartialEq, Eq, Structural)]
pub enum CaptureStep {
    /// See whether the daemon stops and whether the grab should change.
    Poll,
    /// Grab the pointer or let it go.
    Change(GrabAction),
    /// Wait for the next event.
    Capture,
    /// Hand an event on.
    Send(InputEvent),
    /// Stop capturing.
    End,
}

/// What follows a look at the daemon: whether it stops, and whether the pointer
/// should be grabbed if that has changed.
pub open spec fn step_after_poll(
    grabbed: bool,
    shutdown: bool,
    changed: Option<bool>,
) -> CaptureStep {
    if shutdown {
        CaptureStep::End
    } else {
        match changed {
            Some(should_grab) => if should_grab == grabbed {
                CaptureStep::Capture
            } else {
                CaptureStep::Change(grab_action(grabbed, should_grab))
            },
            None => CaptureStep::Capture,
        }
    }
}

/// What follows the wait for an event: the event is handed on, and without one
/// capturing ends.
pub open spec fn step_after_capture(event: Option<InputEvent>) -> CaptureStep {
    match event {
        Some(e) => CaptureStep::Send(e),
        None => CaptureStep::End,
    }
}

/// What follows the handing on of an event: capturing ends when nobody takes it.
pub open spec fn step_after_send(taken: bool) -> CaptureStep {
    if taken {
        CaptureStep::Poll
    } else {
        CaptureStep::End
    }
}

/// Whether the pointer is grabbed, as the capturing side knows it.
pub struct GrabSwitch {
    grabbed: bool,
}

impl GrabSwitch {
    /// Whether the pointer is grabbed.
    pub closed spec fn is_grabbed(&self) -> bool {
        self.grabbed
    }

    pub fn new() -> (r: Self)
        ensures
            !r.is_grabbed(),
    {
        GrabSwitch { grabbed: false }
    }

    /// What is to be done now that the pointer should be grabbed or not.
    pub fn wanted(&self, should_grab: bool) -> (r: GrabAction)
        ensures
            r == grab_action(self.is_grabbed(), should_grab),
    {
        if should_grab && !self.grabbed {
            GrabAction::Grab
        } else if !should_grab && self.grabbed {
            GrabAction::Ungrab
        } else {
            GrabAction::Keep
        }
    }

    /// What follows a look at the daemon.
    pub fn after_poll(&self, shutdown: bool, changed: Option<bool>) -> (r: CaptureStep)
        ensures
            r == step_after_poll(self.is_grabbed(), shutdown, changed),
    {
        if shutdown {
            return CaptureStep::End;
        }
        match changed {
            Some(should_grab) => match self.wanted(should_grab) {
                GrabAction::Keep => CaptureStep::Capture,
                action => CaptureStep::Change(action),
            },
            None => CaptureStep::Capture,
        }
    }

    /// An action was performed, or failed and changed nothing. Either way the next
    /// event is waited for.
    pub fn performed(&mut self, action: GrabAction, success: bool) -> (r: CaptureStep)
        ensures
            final(self).is_grabbed() == grabbed_after(old(self).is_grabbed(), action, success),
            r == CaptureStep::Capture,
    {
        if success {
            match action {
                GrabAction::Grab => {
                    self.grabbed = true;
                },
                GrabAction::Ungrab => {
                    self.grabbed = false;
                },
                GrabAction::Keep => {},
            }
        }
        CaptureStep::Capture
    }
}

/// What follows the wait for an event, which is none if the wait failed.
pub fn after_capture(event: Option<InputEvent>) -> (r: CaptureStep)
    ensures
        r == step_after_capture(event),
{
    match event {
        Some(e) => CaptureStep::Send(e),
        None => CaptureStep::End,
    }
}

/// What follows the handing on of an event.
pub fn after_send(taken: bool) -> (r: CaptureStep)
    ensures
        r == step_after_send(taken),
{
    if taken {
        CaptureStep::Poll
    } else {
        CaptureStep::End
    }
}

/// What the capturing side meets in a round: whether the daemon stops, whether
/// the pointer should be grabbed if that has changed, whether grabbing it or
/// letting it go works, the event that comes, and whether it is taken.
pub struct Round {
    pub shutdown: bool,
    pub changed: Option<bool>,
    pub success: bool,
    pub event: Option<InputEvent>,
    pub taken: bool,
}

/// What the capturing side has done: whether the pointer is grabbed, the actions
/// that it tried, those that worked, the events that it handed on, and whether it
/// has stopped.
pub struct History {
    pub grabbed: bool,
    pub tried: Seq<GrabAction>,
    pub worked: Seq<GrabAction>,
    pub sent: Seq<InputEvent>,
    pub over: bool,
}

impl History {
    /// The history after the grab was changed, if the step says so.
    pub open spec fn changed(self, step: CaptureStep, success: bool) -> History {
        match step {
            CaptureStep::Change(action) => History {
                grabbed: grabbed_after(self.grabbed, action, success),
                tried: self.tried.push(action),
                worked: if success {
                    self.worked.push(action)
                } else {
                    self.worked
                },
                ..self
            },
            CaptureStep::End => History { over: true, ..self },
            _ => self,
        }
    }

    /// The history after another round.
    pub open spec fn after(self, r: Round) -> History {
        let polled = self.changed(
            step_after_poll(self.grabbed, r.shutdown, r.changed),
            r.success,
        );
        if self.over {
            self
        } else if polled.over {
            polled
        } else {
            match step_after_capture(r.event) {
                CaptureStep::Send(e) => History {
                    sent: polled.sent.push(e),
                    over: step_after_send(r.taken) is End,
                    ..polled
                },
                _ => History { over: true, ..polled },
            }
        }
    }
}

/// The history of a run of rounds.
pub open spec fn history(rounds: Seq<Round>) -> History
    decreases rounds.len(),
{
    if rounds.len() == 0 {
        History { grabbed: false, tried: seq![], worked: seq![], sent: seq![], over: false }
    } else {
        history(rounds.drop_last()).after(rounds.last())
    }
}

/// The grabs and ungrabs that work alternate, beginning with a grab; the pointer
/// is grabbed where the last of them was a grab.
pub proof fn grabs_and_ungrabs_alternate(rounds: Seq<Round>)
    ensures
        forall|i: int|
            0 <= i < history(rounds).worked.len() ==> #[trigger] history(rounds).worked[i] == (if i
                % 2 == 0 {
                GrabAction::Grab
            } else {
                GrabAction::Ungrab
            }),
        history(rounds).grabbed == (history(rounds).worked.len() % 2 == 1),
    decreases rounds.len(),
{
    if rounds.len() > 0 {
        grabs_and_ungrabs_alternate(rounds.drop_last());
    }
}

/// A round tries a grab only where a changed wish says so and no grab is in
/// force, an ungrab only where a changed wish says so and a grab is in force, and
/// no more than one of them.
pub proof fn grabs_follow_the_wish(rounds: Seq<Round>, r: Round)
    ensures
        ({
            let before = history(rounds);
            let after = before.after(r);
            ||| after.tried == before.tried
            ||| after.tried == before.tried.push(GrabAction::Grab) && r.changed == Some(true)
                && !before.grabbed
            ||| after.tried == before.tried.push(GrabAction::Ungrab) && r.changed == Some(false)
                && before.grabbed
        }),
{
}

/// Whether a round lets capturing go on: the daemon does not stop, an event comes
/// and is taken. Whether the grab could be changed does not matter.
pub open spec fn goes_on(r: Round) -> bool {
    !r.shutdown && r.event is Some && r.taken
}

/// While every round goes on, capturing does, and every event is handed on once,
/// in its order.
pub proof fn events_are_handed_on_in_order(rounds: Seq<Round>)
    requires
        forall|i: int| 0 <= i < rounds.len() ==> goes_on(#[trigger] rounds[i]),
    ensures
        !history(rounds).over,
        history(rounds).sent == rounds.map_values(|r: Round| r.event->0),
    decreases rounds.len(),
{
    if rounds.len() > 0 {
        assert(goes_on(rounds[rounds.len() - 1]));
        let init = rounds.drop_last();
        assert forall|i: int| 0 <= i < init.len() implies goes_on(#[trigger] init[i]) by {
            assert(init[i] == rounds[i]);
        }
        events_are_handed_on_in_order(init);
    }
    assert(history(rounds).sent == rounds.map_values(|r: Round| r.event->0));
}

/// Capturing ends with the first round that does not go on: nothing that comes
/// after it counts, and its own event is handed on only if the daemon was not
/// stopping.
pub proof fn capturing_ends_once(rounds: Seq<Round>, last: int)
    requires
        0 <= last < rounds.len(),
        forall|i: int| 0 <= i < last ==> goes_on(#[trigger] rounds[i]),
        !goes_on(rounds[last]),
    ensures
        history(rounds).over,
        history(rounds) == history(rounds.take(last + 1)),
        history(rounds).sent == rounds.take(last).map_values(|r: Round| r.event->0) + (if
            !rounds[last].shutdown && rounds[last].event is Some {
            seq![rounds[last].event->0]
        } else {
            seq![]
        }),
    decreases rounds.len(),
{
    if last == rounds.len() - 1 {
        let init = rounds.drop_last();
        assert forall|i: int| 0 <= i < init.len() implies goes_on(#[trigger] init[i]) by {
            assert(init[i] == rounds[i]);
        }
        events_are_handed_on_in_order(init);
        assert(init == rounds.take(last));
        assert(rounds.take(last + 1) == rounds);
    } else {
        let init = rounds.drop_last();
        assert forall|i: int| 0 <= i < last implies goes_on(#[trigger] init[i]) by {
            assert(init[i] == rounds[i]);
        }
        capturing_ends_once(init, last);
        assert(init.take(last + 1) == rounds.take(last + 1));
        assert(init.take(last) == rounds.take(last));
    }
}

/// A bit of a map is a binary digit of a byte: eight to a byte, the lowest first. A
/// map has no bits beyond its end.
pub proof fn bits_are_binary_digits(b: Seq<u8>, n: u16)
    ensures
        n / 8 < b.len() ==> (bit_set(Some(b), n) <==> (b[n as int / 8] >> (n % 8)) % 2 == 1),
        n / 8 >= b.len() ==> !bit_set(Some(b), n),
        !bit_set(None, n),
{
    if n / 8 < b.len() {
        let byte = b[n as int / 8];
        let k = (n % 8) as u8;
        assert(byte & (1u8 << k) != 0 <==> (byte >> k) % 2 == 1) by (bit_vector)
            requires
                k < 8,
        ;
    }
}

/// A map with only the lowest bit of byte `i` set has bit `8 i`, and one with only
/// the highest has bit `8 i + 7`.
pub proof fn the_lowest_bit_comes_first(b: Seq<u8>, i: u8)
    requires
        i < b.len(),
    ensures
        b[i as int] == 1 ==> bit_set(Some(b), (8 * i) as u16),
        b[i as int] == 128 ==> bit_set(Some(b), (8 * i + 7) as u16),
        b[i as int] == 128 ==> !bit_set(Some(b), (8 * i) as u16),
        b[i as int] == 1 ==> !bit_set(Some(b), (8 * i + 7) as u16),
{
    assert(1u8 & (1u8 << 0u8) != 0) by (bit_vector);
    assert(128u8 & (1u8 << 7u8) != 0) by (bit_vector);
    assert(128u8 & (1u8 << 0u8) == 0) by (bit_vector);
    assert(1u8 & (1u8 << 7u8) == 0) by (bit_vector);
    let lo = (8 * i) as u16;
    let hi = (8 * i + 7) as u16;
    assert(lo / 8 == i && lo % 8 == 0);
    assert(hi / 8 == i && hi % 8 == 7);
}

/// The name of a device ends at the first zero, or with the buffer.
pub proof fn names_end_at_zero(a: Seq<u8>, b: Seq<u8>)
    requires
        !a.contains(0),
    ensures
        until_zero(a) == a,
        until_zero(a.push(0) + b) == a,
    decreases a.len(),
{
    let s = a.push(0) + b;
    if a.len() > 0 {
        let t = a.skip(1);
        assert(a.contains(a[0]));
        assert(!t.contains(0)) by {
            if t.contains(0) {
                let i = choose|i: int| 0 <= i < t.len() && t[i] == 0;
                assert(a[i + 1] == 0);
            }
        }
        names_end_at_zero(t, b);
        assert(s.skip(1) == t.push(0) + b);
        assert(seq![a[0]] + t == a);
    } else {
        assert(until_zero(s) == a);
    }
}

/// Mice and keyboards are used, whatever else they can do, unless they bear the
/// name of this program: mice have relative axes (2) and a left button (272),
/// keyboards have keys (1) and among them A (30). Nothing else is used.
pub proof fn mice_and_keyboards_are_used(
    types: Option<Seq<u8>>,
    keys: Option<Seq<u8>>,
    name: Seq<char>,
    a: Seq<char>,
    b: Seq<char>,
)
    ensures
        is_used(types, keys, name) <==> !has_infix(name, "KMFlow"@) && ((bit_set(types, 2)
            && bit_set(keys, 272)) || (bit_set(types, 1) && bit_set(keys, 30))),
        !is_used(types, keys, a + "KMFlow"@ + b),
{
    crate::text::runs_occur_in_texts(a, "KMFlow"@, b, name);
}

/// Keyboards that are grabbed have the key A and no horizontal axis, and are not
/// this program's own; one whose name cannot be read is another's.
pub proof fn plain_keyboards_are_grabbed(
    types: Option<Seq<u8>>,
    keys: Option<Seq<u8>>,
    axes: Option<Seq<u8>>,
    name: Seq<u8>,
)
    ensures
        is_grabbed_keyboard(types, keys, axes, None) <==> bit_set(types, 1) && bit_set(keys, 30)
            && !bit_set(axes, 0),
        is_grabbed_keyboard(types, keys, axes, Some(name)) <==> is_grabbed_keyboard(
            types,
            keys,
            axes,
            None,
        ) && !has_infix(utf8_text(name), "KMFlow"@),
        is_grabbed_keyboard(types, keys, axes, Some(name)) ==> is_used(
            types,
            keys,
            utf8_text(name),
        ),
        KEY_A == 30,
{
}

/// An action that works leads to what was wished for; one that fails changes
/// nothing, and there is none where the wish is met already.
pub proof fn actions_lead_to_the_wish(grabbed: bool, wish: bool)
    ensures
        grabbed_after(grabbed, grab_action(grabbed, wish), true) == wish,
        grabbed_after(grabbed, grab_action(grabbed, wish), false) == grabbed,
        grab_action(grabbed, wish) is Keep <==> grabbed == wish,
        grabbed_after(grabbed, GrabAction::Grab, true),
        !grabbed_after(grabbed, GrabAction::Ungrab, true),
        grabbed_after(grabbed, GrabAction::Keep, wish) == grabbed,
{
}

/// A look at the daemon: stopping comes before all else; a wish that is not met is
/// acted on, and otherwise the next event is waited for.
pub proof fn looks_at_the_daemon(grabbed: bool, shutdown: bool, changed: Option<bool>)
    ensures
        shutdown ==> step_after_poll(grabbed, shutdown, changed) is End,
        !shutdown && changed is None ==> step_after_poll(grabbed, shutdown, changed) is Capture,
        !shutdown && changed == Some(grabbed) ==> step_after_poll(
            grabbed,
            shutdown,
            changed,
        ) is Capture,
        !shutdown && changed == Some(!grabbed) ==> match step_after_poll(
            grabbed,
            shutdown,
            changed,
        ) {
            CaptureStep::Change(action) => grabbed_after(grabbed, action, true) == !grabbed,
            _ => false,
        },
{
}

/// An event is handed on as it is, and capturing goes on exactly where it is taken.
pub proof fn events_are_handed_on(event: InputEvent, taken: bool)
    ensures
        step_after_capture(Some(event)) == CaptureStep::Send(event),
        step_after_capture(None) is End,
        taken ==> step_after_send(taken) is Poll,
        !taken ==> step_after_send(taken) is End,
{
}

/// While capturing goes on, a changed wish is met at once if the grab can be
/// changed; and the grab stays as it is if it cannot, or if nothing was wished.
pub proof fn wishes_are_met(rounds: Seq<Round>, r: Round)
    requires
        !history(rounds).over,
        !r.shutdown,
    ensures
        ({
            let before = history(rounds);
            let after = history(rounds.push(r));
            &&& r.changed is Some && r.success ==> after.grabbed == r.changed->0
            &&& r.changed is None || !r.success ==> after.grabbed == before.grabbed
            &&& r.changed == Some(!before.grabbed) ==> after.tried.len() == before.tried.len() + 1
            &&& r.changed != Some(!before.grabbed) ==> after.tried == before.tried
            &&& r.event matches Some(e) ==> after.sent == before.sent.push(e)
            &&& r.event is None ==> after.sent == before.sent
            &&& after.over == (r.event is None || !r.taken)
        }),
{
    assert(rounds.push(r).drop_last() == rounds);
}

} // verus!
