//! A session with a peer: who holds the focus, and what every event does to it.
//!
//! The program around this module waits for the next event of a session,
//! hands it to the [`DaemonState`] and carries out the [`Plan`] it gets back.
use crate::edge::{fits_i32, signed, to_signed, EdgeDetector, EdgeHit};
use crate::proto::{
    clamped, ButtonState, ControlCommand, Delta, Edge, InputEvent, KeyState, MouseButton,
    ScreenInfo,
};
use crate::state::{stepped, ConnectionState};
use std::collections::HashSet;
use vstd::prelude::*;
use vstd::std_specs::hash::group_hash_axioms;

verus! {

broadcast use group_hash_axioms;

/// Scan codes of the emergency hotkey: left Ctrl, left Alt and Escape.
pub const EMERGENCY_HOTKEY_CTRL: u32 = 29;

pub const EMERGENCY_HOTKEY_ALT: u32 = 56;

pub const EMERGENCY_HOTKEY_ESC: u32 = 1;

/// The most events that one datagram carries.
pub const EVENT_BATCH_LIMIT: usize = 64;

/// The mouse buttons that are held down.
#[derive(Debug, Clone, Copy, PartialEq, Eq, Structural)]
pub struct HeldButtons {
    left: bool,
    right: bool,
    middle: bool,
    back: bool,
    forward: bool,
}

impl View for HeldButtons {
    type V = Set<MouseButton>;

    closed spec fn view(&self) -> Set<MouseButton> {
        Set::new(|b: MouseButton| self.holds(b))
    }
}

impl HeldButtons {
    spec fn holds(self, b: MouseButton) -> bool {
        match b {
            MouseButton::Left => self.left,
            MouseButton::Right => self.right,
            MouseButton::Middle => self.middle,
            MouseButton::Back => self.back,
            MouseButton::Forward => self.forward,
        }
    }

    pub fn new() -> (r: Self)
        ensures
            r@ == Set::<MouseButton>::empty(),
    {
        HeldButtons { left: false, right: false, middle: false, back: false, forward: false }
    }

    fn set(&mut self, button: MouseButton, held: bool)
        ensures
            held ==> final(self)@ == old(self)@.insert(button),
            !held ==> final(self)@ == old(self)@.remove(button),
    {
        match button {
            MouseButton::Left => self.left = held,
            MouseButton::Right => self.right = held,
            MouseButton::Middle => self.middle = held,
            MouseButton::Back => self.back = held,
            MouseButton::Forward => self.forward = held,
        }
    }

    pub fn insert(&mut self, button: MouseButton)
        ensures
            final(self)@ == old(self)@.insert(button),
    {
        self.set(button, true);
    }

    pub fn remove(&mut self, button: MouseButton)
        ensures
            final(self)@ == old(self)@.remove(button),
    {
        self.set(button, false);
    }

    pub fn contains(&self, button: MouseButton) -> (r: bool)
        ensures
            r == self@.contains(button),
    {
        match button {
            MouseButton::Left => self.left,
            MouseButton::Right => self.right,
            MouseButton::Middle => self.middle,
            MouseButton::Back => self.back,
            MouseButton::Forward => self.forward,
        }
    }
}

/// What a daemon knows about itself and its peer.
pub struct DaemonState {
    pub connection_state: ConnectionState,
    pub pressed_keys: HashSet<u32>,
    pub pressed_buttons: HeldButtons,
    pub local_screen: ScreenInfo,
    pub remote_screen: Option<ScreenInfo>,
    pub seq_counter: u32,
    pub focus_is_remote: bool,
    pub cursor_x: i32,
    pub cursor_y: i32,
}

/// The mathematical content of a [`DaemonState`].
#[verifier::ext_equal]
pub struct Model {
    pub connection: ConnectionState,
    pub keys: Set<u32>,
    pub buttons: Set<MouseButton>,
    pub local_screen: ScreenInfo,
    pub remote_screen: Option<ScreenInfo>,
    pub seq: u32,
    pub remote_focus: bool,
    pub x: i32,
    pub y: i32,
}

impl View for DaemonState {
    type V = Model;

    open spec fn view(&self) -> Model {
        Model {
            connection: self.connection_state,
            keys: self.pressed_keys@,
            buttons: self.pressed_buttons@,
            local_screen: self.local_screen,
            remote_screen: self.remote_screen,
            seq: self.seq_counter,
            remote_focus: self.focus_is_remote,
            x: self.cursor_x,
            y: self.cursor_y,
        }
    }
}

/// The middle of a screen side, rounded towards zero.
pub open spec fn middle(size: u32) -> int {
    if signed(size) >= 0 {
        signed(size) / 2
    } else {
        -((-signed(size)) / 2)
    }
}

/// The middle of a screen side, rounded towards zero.
fn middle_of(size: u32) -> (r: i32)
    ensures
        r == middle(size),
{
    let s = to_signed(size);
    if s >= 0 {
        s / 2
    } else {
        let m: i64 = (-(s as i64)) / 2;
        (-m) as i32
    }
}

/// Whether a pointer can be on the screen at all: it has points, and they can
/// be counted with 32-bit signed numbers.
pub open spec fn usable(screen: ScreenInfo) -> bool {
    1 <= screen.width <= i32::MAX && 1 <= screen.height <= i32::MAX
}

impl Model {
    /// Whether the cursor lies on the local screen.
    pub open spec fn cursor_on_screen(self) -> bool {
        0 <= self.x < signed(self.local_screen.width) && 0 <= self.y < signed(
            self.local_screen.height,
        )
    }

    /// The keys and buttons held after an event.
    pub open spec fn after(self, e: InputEvent) -> Model {
        match e {
            InputEvent::Key { scancode, state: KeyState::Pressed } => Model {
                keys: self.keys.insert(scancode),
                ..self
            },
            InputEvent::Key { scancode, state: KeyState::Released } => Model {
                keys: self.keys.remove(scancode),
                ..self
            },
            InputEvent::MouseButton { button, state: ButtonState::Pressed } => Model {
                buttons: self.buttons.insert(button),
                ..self
            },
            InputEvent::MouseButton { button, state: ButtonState::Released } => Model {
                buttons: self.buttons.remove(button),
                ..self
            },
            _ => self,
        }
    }

    /// The keys and buttons held after a run of events.
    pub open spec fn after_all(self, events: Seq<InputEvent>) -> Model
        decreases events.len(),
    {
        if events.len() == 0 {
            self
        } else {
            self.after_all(events.drop_last()).after(events.last())
        }
    }

    /// Whether Ctrl, Alt and Esc are all held.
    pub open spec fn emergency(self) -> bool {
        self.keys.contains(EMERGENCY_HOTKEY_CTRL) && self.keys.contains(EMERGENCY_HOTKEY_ALT)
            && self.keys.contains(EMERGENCY_HOTKEY_ESC)
    }

    /// The number of the next frame: one more than the last, from the largest
    /// back to zero.
    pub open spec fn next_seq(self) -> u32 {
        if self.seq == u32::MAX {
            0
        } else {
            (self.seq + 1) as u32
        }
    }

    /// Whether an event releases something that is held.
    pub open spec fn is_release(self, e: InputEvent) -> bool {
        match e {
            InputEvent::Key { scancode, state } => state is Released && self.keys.contains(scancode),
            InputEvent::MouseButton { button, state } => state is Released && self.buttons.contains(
                button,
            ),
            _ => false,
        }
    }

    /// Whether a run of events releases everything held, each key and button
    /// once, the keys first. The order among the keys is not fixed.
    pub open spec fn flushed_by(self, events: Seq<InputEvent>) -> bool {
        &&& events.no_duplicates()
        &&& forall|e: InputEvent| #[trigger] events.contains(e) <==> self.is_release(e)
        &&& forall|i: int, j: int|
            0 <= i < j < events.len() && (#[trigger] events[i]) is MouseButton ==> (
            #[trigger] events[j]) is MouseButton
    }

    /// Whether nothing is held.
    pub open spec fn holds_nothing(self) -> bool {
        self.keys == Set::<u32>::empty() && self.buttons == Set::<MouseButton>::empty()
    }
}

impl DaemonState {
    /// The state of a daemon that has just started: disconnected, nothing held,
    /// the cursor in the middle of the screen.
    pub fn new(screen: ScreenInfo) -> (r: Self)
        ensures
            r@ == (Model {
                connection: ConnectionState::Disconnected,
                keys: Set::empty(),
                buttons: Set::empty(),
                local_screen: screen,
                remote_screen: None,
                seq: 0,
                remote_focus: false,
                x: middle(screen.width) as i32,
                y: middle(screen.height) as i32,
            }),
            usable(screen) ==> r@.cursor_on_screen(),
    {
        DaemonState {
            connection_state: ConnectionState::Disconnected,
            pressed_keys: HashSet::new(),
            pressed_buttons: HeldButtons::new(),
            local_screen: screen,
            remote_screen: None,
            seq_counter: 0,
            focus_is_remote: false,
            cursor_x: middle_of(screen.width),
            cursor_y: middle_of(screen.height),
        }
    }

    /// Whether the emergency hotkey, Ctrl+Alt+Esc, is held down.
    pub fn check_emergency_hotkey(&self) -> (r: bool)
        ensures
            r == self@.emergency(),
    {
        self.pressed_keys.contains(&EMERGENCY_HOTKEY_CTRL) && self.pressed_keys.contains(
            &EMERGENCY_HOTKEY_ALT,
        ) && self.pressed_keys.contains(&EMERGENCY_HOTKEY_ESC)
    }

    /// Takes the next sequence number.
    pub fn next_seq(&mut self) -> (r: u32)
        ensures
            r == old(self)@.next_seq(),
            final(self)@ == (Model { seq: r, ..old(self)@ }),
    {
        self.seq_counter = self.seq_counter.wrapping_add(1);
        self.seq_counter
    }

    /// Remembers which keys and buttons are held.
    pub fn track_key_state(&mut self, event: &InputEvent)
        ensures
            final(self)@ == old(self)@.after(*event),
    {
        match *event {
            InputEvent::Key { scancode, state: KeyState::Pressed } => {
                self.pressed_keys.insert(scancode);
            },
            InputEvent::Key { scancode, state: KeyState::Released } => {
                self.pressed_keys.remove(&scancode);
            },
            InputEvent::MouseButton { button, state: ButtonState::Pressed } => {
                self.pressed_buttons.insert(button);
            },
            InputEvent::MouseButton { button, state: ButtonState::Released } => {
                self.pressed_buttons.remove(button);
            },
            _ => {},
        }
    }
}

/// A button's place in the order in which buttons are released.
spec fn rank(b: MouseButton) -> int {
    match b {
        MouseButton::Left => 0,
        MouseButton::Right => 1,
        MouseButton::Middle => 2,
        MouseButton::Back => 3,
        MouseButton::Forward => 4,
    }
}

fn button_at(i: usize) -> (r: MouseButton)
    requires
        i < 5,
    ensures
        rank(r) == i,
{
    if i == 0 {
        MouseButton::Left
    } else if i == 1 {
        MouseButton::Right
    } else if i == 2 {
        MouseButton::Middle
    } else if i == 3 {
        MouseButton::Back
    } else {
        MouseButton::Forward
    }
}

/// The event that releases a key.
pub open spec fn key_release(scancode: u32) -> InputEvent {
    InputEvent::Key { scancode, state: KeyState::Released }
}

/// The event that releases a button.
pub open spec fn button_release(button: MouseButton) -> InputEvent {
    InputEvent::MouseButton { button, state: ButtonState::Released }
}

impl DaemonState {
    /// Events that release everything that is held.
    pub fn flush_pressed_keys(&self) -> (r: Vec<InputEvent>)
        ensures
            self@.flushed_by(r@),
            self@.after_all(r@).holds_nothing(),
    {
        let mut r: Vec<InputEvent> = Vec::new();
        for k in it: self.pressed_keys.iter()
            invariant
                it.seq().unref().to_set() == self.pressed_keys@,
                it.seq().no_duplicates(),
                r@.len() == it.index(),
                forall|i: int| 0 <= i < it.index() ==> r@[i] == key_release(*it.seq()[i]),
        {
            r.push(InputEvent::Key { scancode: *k, state: KeyState::Released });
        }
        let ghost keys = r@;
        proof {
            let walk = vstd::std_specs::iter::IteratorSpec::remaining(
                &vstd::std_specs::hash::spec_hash_keys_iter(&self.pressed_keys),
            );
            assert forall|k: u32| self.pressed_keys@.contains(k) implies #[trigger] keys.contains(
                key_release(k),
            ) by {
                assert(walk.unref().to_set().contains(k));
                assert(walk.unref().contains(k));
                let i = choose|i: int| 0 <= i < walk.unref().len() && walk.unref()[i] == k;
                assert(keys[i] == key_release(k));
            }
            assert forall|i: int| 0 <= i < keys.len() implies #[trigger] keys[i] is Key
                && self@.is_release(keys[i]) by {
                assert(walk.unref()[i] == *walk[i]);
                assert(walk.unref().contains(*walk[i]));
                assert(walk.unref().to_set().contains(*walk[i]));
            }
            assert(keys.no_duplicates());
        }
        let n = r.len();
        let mut b: usize = 0;
        while b < 5
            invariant
                b <= 5,
                n == keys.len(),
                n <= r@.len(),
                keys.no_duplicates(),
                forall|i: int| 0 <= i < n ==> r@[i] == keys[i],
                forall|i: int| 0 <= i < n ==> #[trigger] keys[i] is Key && self@.is_release(keys[i]),
                forall|k: u32| self.pressed_keys@.contains(k) ==> #[trigger] keys.contains(
                    key_release(k),
                ),
                forall|i: int|
                    n <= i < r@.len() ==> (#[trigger] r@[i]) is MouseButton && self@.is_release(r@[i])
                        && rank(r@[i]->MouseButton_button) < b,
                forall|i: int, j: int|
                    n <= i < j < r@.len() ==> rank((#[trigger] r@[i])->MouseButton_button) < rank(
                        (#[trigger] r@[j])->MouseButton_button,
                    ),
                forall|m: MouseButton|
                    rank(m) < b && self.pressed_buttons@.contains(m) ==> #[trigger] r@.contains(
                        button_release(m),
                    ),
            decreases 5 - b,
        {
            let m = button_at(b);
            let ghost before = r@;
            if self.pressed_buttons.contains(m) {
                r.push(InputEvent::MouseButton { button: m, state: ButtonState::Released });
                assert(r@[before.len() as int] == button_release(m));
            }
            assert forall|o: MouseButton|
                rank(o) < b + 1 && self.pressed_buttons@.contains(o) implies #[trigger] r@.contains(
                button_release(o),
            ) by {
                if rank(o) < b {
                    assert(before.contains(button_release(o)));
                    let i = choose|i: int| 0 <= i < before.len() && before[i] == button_release(o);
                    assert(r@[i] == button_release(o));
                } else {
                    assert(o == m);
                }
            }
            b += 1;
        }
        proof {
            assert forall|i: int, j: int| 0 <= i < j < r@.len() implies #[trigger] r@[i]
                != #[trigger] r@[j] && (r@[i] is MouseButton ==> r@[j] is MouseButton) by {
                if i < n {
                    assert(keys[i] is Key);
                    if j < n {
                        assert(keys[i] != keys[j]);
                    }
                }
            }
            assert(r@.no_duplicates());
            assert forall|e: InputEvent| #[trigger] r@.contains(e) <==> self@.is_release(e) by {
                if r@.contains(e) {
                    let i = choose|i: int| 0 <= i < r@.len() && r@[i] == e;
                    if i < n {
                        assert(keys[i] == e);
                    }
                }
                if self@.is_release(e) {
                    match e {
                        InputEvent::Key { scancode, state } => {
                            assert(e == key_release(scancode));
                            assert(keys.contains(e));
                            let i = choose|i: int| 0 <= i < keys.len() && keys[i] == e;
                            assert(r@[i] == e);
                        },
                        InputEvent::MouseButton { button, state } => {
                            assert(e == button_release(button));
                            assert(rank(button) < 5);
                        },
                        _ => {},
                    }
                }
            }
            flush_leaves_nothing(self@, r@);
        }
        r
    }
}

/// A run of events for the peer, with its number.
#[derive(Debug, Clone)]
pub struct Batch {
    pub seq: u32,
    pub events: Vec<InputEvent>,
}

/// What the program has to do after an event, in this order: tell the capture
/// to grab or let go of the devices, send a frame, without which the session
/// cannot go on, send a frame that releases what is held, send a control message,
/// replay events on this machine, gather more events for a batch that begins with
/// these, or end the session.
pub struct Plan {
    pub grab: Option<bool>,
    pub frame: Option<Batch>,
    pub flush: Option<Batch>,
    pub control: Option<ControlCommand>,
    pub emit: Vec<InputEvent>,
    pub batch: Option<Vec<InputEvent>>,
    pub stop: bool,
}

impl Plan {
    /// Whether nothing is sent to the peer and nothing is replayed.
    pub open spec fn silent(self) -> bool {
        self.frame is None && self.flush is None && self.control is None && self.emit@.len() == 0
    }

    /// Whether there is nothing at all to do.
    pub open spec fn idle(self) -> bool {
        self.silent() && self.grab is None && self.batch is None && !self.stop
    }

    /// Whether the plan passes the focus to the peer.
    pub open spec fn hands_over(self) -> bool {
        &&& self.frame is None
        &&& self.flush is None
        &&& self.control matches Some(ControlCommand::SwitchFocus { to_peer })
        &&& to_peer@ == "remote"@
        &&& self.emit@.len() == 0
        &&& self.batch is None
        &&& !self.stop
    }

    /// Whether the plan takes the focus back from the peer, where nothing of what
    /// is held in `m` stays held; the releases have the given number.
    pub open spec fn takes_back(self, m: Model, s: Session, seq: u32) -> bool {
        &&& self.grab == s.grab_signal(false)
        &&& self.flush matches Some(f)
        &&& f.seq == seq
        &&& m.flushed_by(f.events@)
        &&& self.control matches Some(ControlCommand::ReleaseFocus)
        &&& self.emit@.len() == 0
        &&& self.batch is None
        &&& !self.stop
    }

    fn nothing() -> (r: Plan)
        ensures
            r.idle(),
    {
        Plan {
            grab: None,
            frame: None,
            flush: None,
            control: None,
            emit: Vec::new(),
            batch: None,
            stop: false,
        }
    }

    fn handing_over(grab: Option<bool>) -> (r: Plan)
        ensures
            r.hands_over(),
            r.grab == grab,
    {
        let mut plan = Plan::nothing();
        plan.grab = grab;
        plan.control = Some(ControlCommand::SwitchFocus { to_peer: "remote".to_owned() });
        plan
    }
}

/// What stays the same during a session: where the peer is, and whether this
/// machine only receives because it captures nothing.
#[derive(Debug, Clone, Copy)]
pub struct Session {
    pub detector: EdgeDetector,
    pub receive_only: bool,
}

/// A coordinate after a displacement, before it is kept on the screen.
pub open spec fn shifted(at: i32, d: Delta) -> int {
    at + clamped(d.whole(), i32::MIN as int, i32::MAX as int)
}

/// A coordinate after a displacement, kept on the screen.
pub open spec fn moved(at: i32, d: Delta, size: u32) -> i32 {
    clamped(shifted(at, d), 0, signed(size) - 1) as i32
}

/// Where a run of events leads the cursor, and whether it reached the edge.
pub struct Walk {
    pub x: i32,
    pub y: i32,
    pub hit: bool,
}

impl Session {
    /// Where a run of events leads the cursor: every motion moves it, and the
    /// first one that reaches the peer's edge ends the walk.
    pub open spec fn walk(self, x: i32, y: i32, events: Seq<InputEvent>) -> Walk
        decreases events.len(),
    {
        if events.len() == 0 {
            Walk { x, y, hit: false }
        } else {
            match events[0] {
                InputEvent::MouseMove { dx, dy } => {
                    let nx = moved(x, dx, self.detector.screen().width);
                    let ny = moved(y, dy, self.detector.screen().height);
                    if self.detector.triggers(nx, ny) {
                        Walk { x: nx, y: ny, hit: true }
                    } else {
                        self.walk(nx, ny, events.drop_first())
                    }
                },
                _ => self.walk(x, y, events.drop_first()),
            }
        }
    }

    /// Whether every motion of a walk can be followed: there is a screen to keep
    /// the cursor on, and the sums fit in 32 bits.
    pub open spec fn walk_fits(self, x: i32, y: i32, events: Seq<InputEvent>) -> bool
        decreases events.len(),
    {
        events.len() > 0 ==> match events[0] {
            InputEvent::MouseMove { dx, dy } => {
                let nx = moved(x, dx, self.detector.screen().width);
                let ny = moved(y, dy, self.detector.screen().height);
                &&& self.wf()
                &&& fits_i32(shifted(x, dx))
                &&& fits_i32(shifted(y, dy))
                &&& self.detector.triggers(nx, ny) || self.walk_fits(nx, ny, events.drop_first())
            },
            _ => self.walk_fits(x, y, events.drop_first()),
        }
    }

    /// Whether the session can follow the cursor.
    pub open spec fn wf(self) -> bool {
        usable(self.detector.screen()) && self.detector.zone_fits()
    }

    /// The signal to the capture, where there is one.
    pub open spec fn grab_signal(self, grab: bool) -> Option<bool> {
        if self.receive_only {
            None
        } else {
            Some(grab)
        }
    }
}

impl Model {
    /// The model with the focus at the peer and the cursor in the middle.
    pub open spec fn handed_over(self, s: Session) -> Model {
        Model {
            remote_focus: true,
            x: middle(s.detector.screen().width) as i32,
            y: middle(s.detector.screen().height) as i32,
            ..self
        }
    }

    /// The model after events moved the cursor, and perhaps passed the focus.
    pub open spec fn walked(self, s: Session, events: Seq<InputEvent>) -> Model {
        let w = s.walk(self.x, self.y, events);
        if w.hit {
            self.handed_over(s)
        } else {
            Model { x: w.x, y: w.y, ..self }
        }
    }

    /// The model after an event that was captured on this machine.
    pub open spec fn captured(self, s: Session, e: InputEvent) -> Model {
        let m = self.after(e);
        if m.remote_focus && m.emergency() {
            m.freed()
        } else if m.remote_focus {
            m
        } else {
            m.walked(s, seq![e])
        }
    }

    /// The model after a batch was sent to the peer. If the emergency hotkey came
    /// up while the batch was gathered, the focus is taken back at once.
    pub open spec fn forwarded(self) -> Model {
        let m = Model { seq: self.next_seq(), ..self };
        if m.remote_focus && m.emergency() {
            m.freed()
        } else {
            m
        }
    }

    /// The model with the focus taken back, after the frame that releases what is
    /// held.
    pub open spec fn freed(self) -> Model {
        Model { remote_focus: false, seq: self.next_seq(), ..self }
    }

    /// The model after events that the peer sent.
    pub open spec fn received(self, s: Session, events: Seq<InputEvent>) -> Model {
        if self.remote_focus {
            self
        } else {
            self.walked(s, events)
        }
    }

    /// The model after a control message of the peer.
    pub open spec fn controlled(self, cmd: ControlCommand) -> Model {
        if cmd is SwitchFocus || cmd is ReleaseFocus {
            Model { remote_focus: false, ..self }
        } else {
            self
        }
    }

    /// The model after the end of a session.
    pub open spec fn finished(self) -> Model {
        Model {
            connection: stepped(self.connection, ConnectionState::Disconnected),
            keys: Set::empty(),
            buttons: Set::empty(),
            remote_screen: None,
            seq: if self.remote_focus && !self.holds_nothing() {
                self.next_seq()
            } else {
                self.seq
            },
            remote_focus: false,
            ..self
        }
    }
}

proof fn lemma_flush_empty(m: Model, events: Seq<InputEvent>)
    requires
        m.flushed_by(events),
    ensures
        events.len() == 0 <==> m.holds_nothing(),
{
    if events.len() == 0 {
        assert forall|k: u32| !m.keys.contains(k) by {
            assert(!events.contains(key_release(k)));
        }
        assert forall|b: MouseButton| !m.buttons.contains(b) by {
            assert(!events.contains(button_release(b)));
        }
        assert(m.keys == Set::<u32>::empty());
        assert(m.buttons == Set::<MouseButton>::empty());
    } else {
        assert(events.contains(events[0]));
    }
}

/// Adds a displacement to a coordinate and keeps it on the screen.
fn shift(at: i32, d: &Delta, size: u32) -> (r: i32)
    requires
        1 <= size <= i32::MAX,
        fits_i32(shifted(at, *d)),
    ensures
        r == moved(at, *d, size),
        0 <= r < size,
{
    let sum = at + d.to_i32();
    let last = to_signed(size) - 1;
    if sum < 0 {
        0
    } else if sum > last {
        last
    } else {
        sum
    }
}

impl Session {
    fn can_follow(&self) -> (r: bool)
        ensures
            r == self.wf(),
    {
        let screen = self.detector.screen_info();
        1 <= screen.width && screen.width <= 0x7fff_ffff && 1 <= screen.height && screen.height
            <= 0x7fff_ffff && self.detector.can_check()
    }

    /// Whether this machine can follow the motions of these events: there is a
    /// screen, and no coordinate runs out of range.
    pub fn motion_fits(&self, state: &DaemonState, events: &[InputEvent]) -> (r: bool)
        ensures
            r == self.walk_fits(state@.x, state@.y, events@),
    {
        let screen = self.detector.screen_info();
        let follows = self.can_follow();
        let mut x = state.cursor_x;
        let mut y = state.cursor_y;
        let n = events.len();
        let mut i: usize = 0;
        assert(events@.skip(0) == events@);
        while i < n
            invariant
                i <= n,
                n == events@.len(),
                follows == self.wf(),
                screen == self.detector.screen(),
                self.walk_fits(state@.x, state@.y, events@) == self.walk_fits(
                    x,
                    y,
                    events@.skip(i as int),
                ),
            decreases n - i,
        {
            assert(events@.skip(i as int).drop_first() == events@.skip(i + 1));
            if let InputEvent::MouseMove { dx, dy } = events[i] {
                if !follows || x.checked_add(dx.to_i32()).is_none() || y.checked_add(dy.to_i32()).is_none() {
                    return false;
                }
                x = shift(x, &dx, screen.width);
                y = shift(y, &dy, screen.height);
                if self.detector.check(x, y) != EdgeHit::Miss {
                    return true;
                }
            }
            i += 1;
        }
        true
    }
}

impl DaemonState {
    /// Moves the cursor by the motions of some events, up to the first that
    /// reaches the edge; says whether one did.
    fn walk(&mut self, session: &Session, events: &[InputEvent]) -> (hit: bool)
        requires
            session.walk_fits(old(self)@.x, old(self)@.y, events@),
        ensures
            ({
                let w = session.walk(old(self)@.x, old(self)@.y, events@);
                hit == w.hit && final(self)@ == (Model { x: w.x, y: w.y, ..old(self)@ })
            }),
    {
        let screen = session.detector.screen_info();
        let n = events.len();
        let mut i: usize = 0;
        assert(events@.skip(0) == events@);
        while i < n
            invariant
                i <= n,
                n == events@.len(),
                screen == session.detector.screen(),
                session.walk_fits(self@.x, self@.y, events@.skip(i as int)),
                session.walk(old(self)@.x, old(self)@.y, events@) == session.walk(
                    self@.x,
                    self@.y,
                    events@.skip(i as int),
                ),
                self@ == (Model { x: self@.x, y: self@.y, ..old(self)@ }),
            decreases n - i,
        {
            assert(events@.skip(i as int).drop_first() == events@.skip(i + 1));
            if let InputEvent::MouseMove { dx, dy } = events[i] {
                self.cursor_x = shift(self.cursor_x, &dx, screen.width);
                self.cursor_y = shift(self.cursor_y, &dy, screen.height);
                if session.detector.check(self.cursor_x, self.cursor_y) != EdgeHit::Miss {
                    return true;
                }
            }
            i += 1;
        }
        false
    }

    /// Passes the focus to the peer and puts the cursor in the middle, so that
    /// the next switch has to reach the edge again.
    fn hand_over(&mut self, session: &Session) -> (r: Plan)
        ensures
            final(self)@ == old(self)@.handed_over(*session),
            r.hands_over(),
            r.grab == session.grab_signal(true),
    {
        let screen = session.detector.screen_info();
        self.focus_is_remote = true;
        self.cursor_x = middle_of(screen.width);
        self.cursor_y = middle_of(screen.height);
        Plan::handing_over(
            if session.receive_only {
                None
            } else {
                Some(true)
            },
        )
    }

    /// Takes the focus back and releases at the peer what is held.
    fn take_back(&mut self, session: &Session) -> (r: Plan)
        requires
            old(self)@.emergency(),
        ensures
            final(self)@ == old(self)@.freed(),
            r.frame is None,
            r.takes_back(old(self)@, *session, old(self)@.next_seq()),
    {
        let releases = self.flush_pressed_keys();
        self.focus_is_remote = false;
        let seq = self.next_seq();
        let mut plan = Plan::nothing();
        if !session.receive_only {
            plan.grab = Some(false);
        }
        plan.flush = Some(Batch { seq, events: releases });
        plan.control = Some(ControlCommand::ReleaseFocus);
        plan
    }

    /// An event was captured on this machine.
    ///
    /// While the peer has the focus the event joins a batch for it, unless the
    /// emergency hotkey takes the focus back. While this machine has the focus
    /// the event moves the cursor, and at the edge the focus passes to the peer.
    pub fn on_captured(&mut self, session: &Session, event: InputEvent) -> (r: Plan)
        requires
            !old(self)@.remote_focus ==> session.walk_fits(
                old(self)@.x,
                old(self)@.y,
                seq![event],
            ),
        ensures
            final(self)@ == old(self)@.captured(*session, event),
            ({
                let m = old(self)@.after(event);
                if m.remote_focus && m.emergency() {
                    r.frame is None && r.takes_back(m, *session, m.next_seq())
                } else if m.remote_focus {
                    &&& r.silent()
                    &&& r.grab is None
                    &&& r.batch matches Some(b)
                    &&& b@ == seq![event]
                    &&& !r.stop
                } else if session.walk(m.x, m.y, seq![event]).hit {
                    r.hands_over() && r.grab == session.grab_signal(true)
                } else {
                    r.idle()
                }
            }),
            r.grab matches Some(g) ==> g == final(self)@.remote_focus,
            r.grab is None && !session.receive_only ==> final(self)@.remote_focus == old(
                self,
            )@.remote_focus,
    {
        self.track_key_state(&event);
        let ghost m = self@;
        if self.focus_is_remote && self.check_emergency_hotkey() {
            return self.take_back(session);
        }
        if self.focus_is_remote {
            let mut plan = Plan::nothing();
            let mut batch: Vec<InputEvent> = Vec::new();
            batch.push(event);
            assert(batch@ == seq![event]);
            plan.batch = Some(batch);
            return plan;
        }
        let one = [event];
        assert(one@ == seq![event]);
        if self.walk(session, one.as_slice()) {
            assert(m.handed_over(*session) == self@.handed_over(*session));
            self.hand_over(session)
        } else {
            Plan::nothing()
        }
    }

    /// Whether a batch of the given number of events takes another one that is
    /// waiting: not when it is full, nor when the emergency hotkey is held.
    pub fn drains(&self, len: usize) -> (r: bool)
        ensures
            r == (len < EVENT_BATCH_LIMIT && !self@.emergency()),
            forall|batch: Seq<InputEvent>, e: InputEvent|
                batch.len() == len ==> (#[trigger] gathered(self@, batch, seq![e])).2 == (if r {
                    1int
                } else {
                    0
                }),
    {
        proof {
            reveal_with_fuel(gathered, 2);
        }
        len < EVENT_BATCH_LIMIT && !self.check_emergency_hotkey()
    }

    /// Takes an event that was waiting into a batch. The one that completes the
    /// emergency hotkey is kept from the peer.
    pub fn drain(&mut self, batch: &mut Vec<InputEvent>, event: InputEvent)
        requires
            old(batch)@.len() < EVENT_BATCH_LIMIT,
        ensures
            final(self)@ == old(self)@.after(event),
            final(batch)@ == (if old(self)@.after(event).emergency() {
                old(batch)@
            } else {
                old(batch)@.push(event)
            }),
            final(batch)@.len() <= EVENT_BATCH_LIMIT,
            !old(self)@.emergency() ==> gathered(old(self)@, old(batch)@, seq![event]) == (
                final(self)@,
                final(batch)@,
                1int,
            ),
    {
        proof {
            reveal_with_fuel(gathered, 2);
        }
        self.track_key_state(&event);
        if !self.check_emergency_hotkey() {
            batch.push(event);
        }
    }

    /// Sends a batch to the peer: the event that [`Self::on_captured`] let
    /// through and those that [`Self::drain`] added to it.
    pub fn forward(&mut self, session: &Session, batch: Vec<InputEvent>) -> (r: Plan)
        ensures
            final(self)@ == old(self)@.forwarded(),
            r.frame matches Some(f) && f.seq == old(self)@.next_seq() && f.events == batch,
            ({
                let m = Model { seq: old(self)@.next_seq(), ..old(self)@ };
                if m.remote_focus && m.emergency() {
                    r.takes_back(m, *session, m.next_seq())
                } else {
                    &&& r.grab is None
                    &&& r.flush is None
                    &&& r.control is None
                    &&& r.emit@.len() == 0
                    &&& r.batch is None
                    &&& !r.stop
                }
            }),
            r.control is Some <==> final(self)@.remote_focus != old(self)@.remote_focus,
            r.flush matches Some(f) ==> f.seq == final(self)@.seq,
            r.flush is None ==> r.frame->0.seq == final(self)@.seq,
            r.grab matches Some(g) ==> g == final(self)@.remote_focus,
    {
        let seq = self.next_seq();
        let mut plan = if self.focus_is_remote && self.check_emergency_hotkey() {
            self.take_back(session)
        } else {
            Plan::nothing()
        };
        plan.frame = Some(Batch { seq, events: batch });
        plan
    }

    /// The peer sent events.
    ///
    /// They are replayed here while this machine has the focus, unless they move
    /// the cursor over the edge: then the focus goes back to the peer and none
    /// of them is replayed.
    pub fn on_datagram(&mut self, session: &Session, events: Vec<InputEvent>) -> (r: Plan)
        requires
            !old(self)@.remote_focus ==> session.walk_fits(old(self)@.x, old(self)@.y, events@),
        ensures
            final(self)@ == old(self)@.received(*session, events@),
            if old(self)@.remote_focus {
                r.idle()
            } else if session.walk(old(self)@.x, old(self)@.y, events@).hit {
                r.hands_over() && r.grab == session.grab_signal(true)
            } else {
                &&& r.emit@ == events@
                &&& r.grab is None
                &&& r.frame is None
                &&& r.flush is None
                &&& r.control is None
                &&& r.batch is None
                &&& !r.stop
            },
            !final(self)@.remote_focus ==> r.emit@ == events@,
            final(self)@.remote_focus ==> r.emit@.len() == 0,
            r.control is Some <==> final(self)@.remote_focus && !old(self)@.remote_focus,
            r.grab matches Some(g) ==> g == final(self)@.remote_focus,
            r.grab is None && !session.receive_only ==> final(self)@.remote_focus == old(
                self,
            )@.remote_focus,
    {
        if self.focus_is_remote {
            return Plan::nothing();
        }
        let ghost m = self@;
        if self.walk(session, events.as_slice()) {
            assert(m.handed_over(*session) == self@.handed_over(*session));
            self.hand_over(session)
        } else {
            let mut plan = Plan::nothing();
            plan.emit = events;
            plan
        }
    }

    /// The peer sent a control message.
    pub fn on_control(&mut self, session: &Session, cmd: ControlCommand) -> (r: Plan)
        ensures
            final(self)@ == old(self)@.controlled(cmd),
            match cmd {
                ControlCommand::SwitchFocus { .. } | ControlCommand::ReleaseFocus => {
                    &&& r.silent()
                    &&& r.grab == session.grab_signal(false)
                    &&& r.batch is None
                    &&& !r.stop
                },
                ControlCommand::PeerDisconnecting => {
                    r.silent() && r.grab is None && r.batch is None && r.stop
                },
                ControlCommand::Ping { timestamp_us } => {
                    &&& r.control matches Some(ControlCommand::Pong { echo_timestamp_us })
                    &&& echo_timestamp_us == timestamp_us
                    &&& r.grab is None
                    &&& r.frame is None
                    &&& r.flush is None
                    &&& r.emit@.len() == 0
                    &&& r.batch is None
                    &&& !r.stop
                },
                _ => r.idle(),
            },
            r.stop <==> cmd is PeerDisconnecting,
            r.control is Some <==> cmd is Ping,
            r.frame is None && r.flush is None && r.batch is None && r.emit@.len() == 0,
            r.grab matches Some(g) ==> g == final(self)@.remote_focus,
            r.grab is None && !session.receive_only ==> final(self)@ == old(self)@,
    {
        let mut plan = Plan::nothing();
        match cmd {
            ControlCommand::SwitchFocus { .. } | ControlCommand::ReleaseFocus => {
                self.focus_is_remote = false;
                if !session.receive_only {
                    plan.grab = Some(false);
                }
            },
            ControlCommand::PeerDisconnecting => {
                plan.stop = true;
            },
            ControlCommand::Ping { timestamp_us } => {
                plan.control = Some(ControlCommand::Pong { echo_timestamp_us: timestamp_us });
            },
            _ => {},
        }
        plan
    }

    /// Ends the session: forgets the peer and everything held. Where the peer
    /// has the focus, the batch releases there what is still held.
    pub fn finish(&mut self) -> (r: Option<Batch>)
        ensures
            final(self)@ == old(self)@.finished(),
            r is Some <==> old(self)@.remote_focus && !old(self)@.holds_nothing(),
            r matches Some(b) ==> b.seq == old(self)@.next_seq() && old(self)@.flushed_by(b.events@),
            r matches Some(b) ==> b.seq == final(self)@.seq && b.events@.len() > 0 && old(
                self,
            )@.after_all(b.events@).holds_nothing(),
    {
        let mut batch: Option<Batch> = None;
        if self.focus_is_remote {
            let releases = self.flush_pressed_keys();
            proof {
                lemma_flush_empty(self@, releases@);
            }
            if releases.len() > 0 {
                proof {
                    flush_leaves_nothing(old(self)@, releases@);
                }
                let seq = self.next_seq();
                batch = Some(Batch { seq, events: releases });
            }
        }
        let _ = self.connection_state.transition_to(ConnectionState::Disconnected);
        self.remote_screen = None;
        self.focus_is_remote = false;
        self.pressed_keys.clear();
        self.pressed_buttons = HeldButtons::new();
        batch
    }
}

/// The emergency hotkey always frees the focus: if the peer has it and the three
/// keys are held after a captured event, whether it was looked at by itself or
/// gathered for a batch, this machine has it again.
pub proof fn emergency_frees_focus(m: Model, s: Session, e: InputEvent)
    requires
        m.remote_focus,
        m.after(e).emergency(),
    ensures
        !m.captured(s, e).remote_focus,
        !m.after(e).forwarded().remote_focus,
{
}

/// Captured events never take the focus from the peer but by the hotkey, and
/// never give it to the peer but at the edge.
pub proof fn focus_moves_only_by_hotkey_or_edge(m: Model, s: Session, e: InputEvent)
    ensures
        m.remote_focus && !m.captured(s, e).remote_focus ==> m.after(e).emergency(),
        m.remote_focus && !m.forwarded().remote_focus ==> m.emergency(),
        !m.remote_focus ==> !m.forwarded().remote_focus,
        !m.remote_focus && m.captured(s, e).remote_focus ==> s.walk(m.x, m.y, seq![e]).hit,
{
}

/// When one machine passes the focus on, by captured or by received events at the
/// edge, the other has it once it has handled the message, whatever it was doing.
pub proof fn focus_passes_to_the_peer(
    here: Model,
    there: Model,
    s: Session,
    e: InputEvent,
    events: Seq<InputEvent>,
    message: ControlCommand,
)
    requires
        !here.remote_focus,
        message is SwitchFocus,
        here.captured(s, e).remote_focus || here.received(s, events).remote_focus,
    ensures
        !there.controlled(message).remote_focus,
        here.captured(s, e).remote_focus ==> s.walk(here.x, here.y, seq![e]).hit,
        here.received(s, events).remote_focus ==> s.walk(here.x, here.y, events).hit,
{
}

/// What comes of gathering a batch: the state after it, the batch, and how many
/// of the waiting events were taken. It ends when nothing waits, the batch is
/// full, or the emergency hotkey is held.
pub open spec fn gathered(
    m: Model,
    batch: Seq<InputEvent>,
    waiting: Seq<InputEvent>,
) -> (Model, Seq<InputEvent>, int)
    decreases waiting.len(),
{
    if waiting.len() == 0 || batch.len() >= EVENT_BATCH_LIMIT || m.emergency() {
        (m, batch, 0)
    } else {
        let next = m.after(waiting[0]);
        let (end, all, n) = gathered(
            next,
            if next.emergency() {
                batch
            } else {
                batch.push(waiting[0])
            },
            waiting.drop_first(),
        );
        (end, all, n + 1)
    }
}

/// While the peer has the focus, the batch that begins with a captured event and
/// takes in waiting ones holds every event that was taken, once and in its order,
/// but for the one that completes the emergency hotkey; and every one of them
/// counts for what is held. No more are taken than the batch has room for, and no
/// fewer as long as the hotkey is not held.
pub proof fn batches_lose_no_event(m: Model, batch: Seq<InputEvent>, waiting: Seq<InputEvent>)
    requires
        !m.emergency(),
        batch.len() <= EVENT_BATCH_LIMIT,
    ensures
        ({
            let (end, all, n) = gathered(m, batch, waiting);
            &&& 0 <= n <= waiting.len()
            &&& end == m.after_all(waiting.take(n))
            &&& all == batch + (if end.emergency() {
                waiting.take(n - 1)
            } else {
                waiting.take(n)
            })
            &&& end.emergency() ==> n > 0
            &&& all.len() <= EVENT_BATCH_LIMIT
            &&& !end.emergency() ==> n == waiting.len() || all.len() == EVENT_BATCH_LIMIT
        }),
    decreases waiting.len(),
{
    if waiting.len() == 0 || batch.len() >= EVENT_BATCH_LIMIT {
        assert(batch + waiting.take(0) == batch);
    } else {
        let e = waiting[0];
        let rest = waiting.drop_first();
        let next = m.after(e);
        if next.emergency() {
            assert(gathered(next, batch, rest) == (next, batch, 0int));
            assert(waiting.take(1).drop_last() == Seq::<InputEvent>::empty());
            assert(waiting.take(1).last() == e);
            assert(m.after_all(waiting.take(1).drop_last()) == m);
            assert(batch + waiting.take(0) == batch);
        } else {
            batches_lose_no_event(next, batch.push(e), rest);
            let (end, all, n) = gathered(next, batch.push(e), rest);
            lemma_after_first(m, e, rest.take(n));
            assert(seq![e] + rest.take(n) == waiting.take(n + 1));
            if end.emergency() {
                assert(batch.push(e) + rest.take(n - 1) == batch + waiting.take(n));
            } else {
                assert(batch.push(e) + rest.take(n) == batch + waiting.take(n + 1));
            }
        }
    }
}

/// While the peer has the focus, a captured event that does not complete the
/// emergency hotkey, and every event that is gathered behind it but the one that
/// does, is in the frame for the peer, once and in its order.
pub proof fn captured_events_reach_the_frame(
    m: Model,
    s: Session,
    e: InputEvent,
    waiting: Seq<InputEvent>,
)
    requires
        m.remote_focus,
        !m.after(e).emergency(),
    ensures
        ({
            let here = m.captured(s, e);
            let (end, frame, n) = gathered(here, seq![e], waiting);
            &&& here == m.after(e)
            &&& frame == seq![e] + (if end.emergency() {
                waiting.take(n - 1)
            } else {
                waiting.take(n)
            })
            &&& end == here.after_all(waiting.take(n))
            &&& !end.emergency() ==> n == waiting.len() || frame.len() == EVENT_BATCH_LIMIT
        }),
{
    batches_lose_no_event(m.after(e), seq![e], waiting);
}

proof fn lemma_after_first(m: Model, e: InputEvent, events: Seq<InputEvent>)
    ensures
        m.after_all(seq![e] + events) == m.after(e).after_all(events),
    decreases events.len(),
{
    let all = seq![e] + events;
    if events.len() == 0 {
        assert(all.drop_last() == Seq::<InputEvent>::empty());
        assert(m.after_all(all.drop_last()) == m);
    } else {
        lemma_after_first(m, e, events.drop_last());
        assert(all.drop_last() == seq![e] + events.drop_last());
    }
}

/// While the peer has the focus, what it sends changes nothing here.
pub proof fn events_are_ignored_without_focus(m: Model, s: Session, events: Seq<InputEvent>)
    requires
        m.remote_focus,
    ensures
        m.received(s, events) == m,
{
}

/// Every walk ends on the screen if it starts there.
proof fn lemma_walk_on_screen(s: Session, x: i32, y: i32, events: Seq<InputEvent>)
    requires
        usable(s.detector.screen()),
        0 <= x < signed(s.detector.screen().width),
        0 <= y < signed(s.detector.screen().height),
    ensures
        0 <= s.walk(x, y, events).x < signed(s.detector.screen().width),
        0 <= s.walk(x, y, events).y < signed(s.detector.screen().height),
    decreases events.len(),
{
    if events.len() > 0 {
        match events[0] {
            InputEvent::MouseMove { dx, dy } => {
                let nx = moved(x, dx, s.detector.screen().width);
                let ny = moved(y, dy, s.detector.screen().height);
                if !s.detector.triggers(nx, ny) {
                    lemma_walk_on_screen(s, nx, ny, events.drop_first());
                }
            },
            _ => {
                lemma_walk_on_screen(s, x, y, events.drop_first());
            },
        }
    }
}

/// The cursor never leaves the screen, whatever happens in a session.
pub proof fn cursor_stays_on_screen(
    m: Model,
    s: Session,
    e: InputEvent,
    events: Seq<InputEvent>,
    cmd: ControlCommand,
)
    requires
        s.detector.screen() == m.local_screen,
        usable(m.local_screen),
        m.cursor_on_screen(),
    ensures
        m.captured(s, e).cursor_on_screen(),
        m.forwarded().cursor_on_screen(),
        m.received(s, events).cursor_on_screen(),
        m.controlled(cmd).cursor_on_screen(),
        m.finished().cursor_on_screen(),
{
    lemma_walk_on_screen(s, m.x, m.y, seq![e]);
    lemma_walk_on_screen(s, m.x, m.y, events);
}

/// After the focus has passed to the peer the cursor is clear of the edge, so
/// the next switch has to reach it again. Only screens of one or two points
/// across have no such place, unless their dead zones cover the middle.
pub proof fn handover_leaves_the_edge(m: Model, s: Session)
    requires
        usable(s.detector.screen()),
    ensures
        ({
            let after = m.handed_over(s);
            let screen = s.detector.screen();
            s.detector.triggers(after.x, after.y) <==> !s.detector.corner_at(after.x, after.y) && (
            match s.detector.target() {
                Edge::Right => screen.width <= 2,
                Edge::Left => screen.width <= 1,
                Edge::Top => screen.height <= 1,
                Edge::Bottom => screen.height <= 2,
            })
        }),
{
}

/// Releasing what is held leaves nothing held: the peer that gets the flush of
/// a session has no key stuck.
pub proof fn flush_leaves_nothing(m: Model, events: Seq<InputEvent>)
    requires
        m.flushed_by(events),
    ensures
        m.after_all(events).holds_nothing(),
{
    assert forall|i: int| 0 <= i < events.len() implies m.is_release(#[trigger] events[i]) by {
        assert(events.contains(events[i]));
    }
    lemma_after_releases(m, events);
    let end = m.after_all(events);
    assert forall|k: u32| !end.keys.contains(k) by {
        if m.keys.contains(k) {
            assert(m.is_release(key_release(k)));
            assert(events.contains(key_release(k)));
        }
    }
    assert forall|b: MouseButton| !end.buttons.contains(b) by {
        if m.buttons.contains(b) {
            assert(m.is_release(button_release(b)));
            assert(events.contains(button_release(b)));
        }
    }
    assert(end.keys == Set::<u32>::empty());
    assert(end.buttons == Set::<MouseButton>::empty());
}

/// A run of releases takes away exactly what it names.
proof fn lemma_after_releases(m: Model, events: Seq<InputEvent>)
    requires
        forall|i: int| 0 <= i < events.len() ==> m.is_release(#[trigger] events[i]),
    ensures
        forall|k: u32|
            m.after_all(events).keys.contains(k) <==> m.keys.contains(k) && !events.contains(
                key_release(k),
            ),
        forall|b: MouseButton|
            m.after_all(events).buttons.contains(b) <==> m.buttons.contains(b)
                && !events.contains(button_release(b)),
    decreases events.len(),
{
    if events.len() > 0 {
        let init = events.drop_last();
        lemma_after_releases(m, init);
        let last = events.last();
        assert(events == init.push(last));
        assert(m.is_release(events[events.len() - 1]));
        assert forall|e: InputEvent| events.contains(e) <==> init.contains(e) || e == last by {
            if events.contains(e) {
                let i = choose|i: int| 0 <= i < events.len() && events[i] == e;
                if i < init.len() {
                    assert(init[i] == e);
                }
            }
            if init.contains(e) {
                let i = choose|i: int| 0 <= i < init.len() && init[i] == e;
                assert(events[i] == e);
            }
            if e == last {
                assert(events[events.len() - 1] == e);
            }
        }
    }
}

/// Walking composes: a run of events leads where its first part leads, if that
/// reaches the edge, and else where its second part leads from there. So every
/// motion counts until one reaches the edge, and a frame leads where its events
/// lead one by one.
pub proof fn walks_compose(
    s: Session,
    x: i32,
    y: i32,
    a: Seq<InputEvent>,
    b: Seq<InputEvent>,
)
    ensures
        ({
            let first = s.walk(x, y, a);
            s.walk(x, y, a + b) == (if first.hit {
                first
            } else {
                s.walk(first.x, first.y, b)
            })
        }),
    decreases a.len(),
{
    if a.len() == 0 {
        assert(a + b == b);
    } else {
        assert((a + b).drop_first() == a.drop_first() + b);
        match a[0] {
            InputEvent::MouseMove { dx, dy } => {
                let nx = moved(x, dx, s.detector.screen().width);
                let ny = moved(y, dy, s.detector.screen().height);
                walks_compose(s, nx, ny, a.drop_first(), b);
            },
            _ => {
                walks_compose(s, x, y, a.drop_first(), b);
            },
        }
    }
}

/// One motion leads to the point that lies its whole steps away, or to the border
/// where that point is off the screen, and reaches the edge if that point is where
/// the focus passes. Any other event leads nowhere.
pub proof fn one_motion_moves_by_its_steps(s: Session, x: i32, y: i32, e: InputEvent)
    requires
        usable(s.detector.screen()),
        e matches InputEvent::MouseMove { dx, dy } ==> fits_i32(dx.whole()) && fits_i32(dy.whole()),
    ensures
        ({
            let w = s.walk(x, y, seq![e]);
            let width = s.detector.screen().width;
            let height = s.detector.screen().height;
            match e {
                InputEvent::MouseMove { dx, dy } => {
                    &&& 0 <= x + dx.whole() < width ==> w.x == x + dx.whole()
                    &&& x + dx.whole() < 0 ==> w.x == 0
                    &&& x + dx.whole() >= width ==> w.x == width - 1
                    &&& 0 <= y + dy.whole() < height ==> w.y == y + dy.whole()
                    &&& y + dy.whole() < 0 ==> w.y == 0
                    &&& y + dy.whole() >= height ==> w.y == height - 1
                    &&& w.hit == s.detector.triggers(w.x, w.y)
                },
                _ => w.x == x && w.y == y && !w.hit,
            }
        }),
{
    reveal_with_fuel(Session::walk, 2);
}

/// A walk that reached the edge ended on a point where the focus passes; one that
/// did not took every motion.
pub proof fn a_hit_is_where_the_focus_passes(
    s: Session,
    x: i32,
    y: i32,
    events: Seq<InputEvent>,
)
    ensures
        s.walk(x, y, events).hit ==> s.detector.triggers(
            s.walk(x, y, events).x,
            s.walk(x, y, events).y,
        ),
        events.len() == 0 ==> !s.walk(x, y, events).hit && s.walk(x, y, events).x == x && s.walk(
            x,
            y,
            events,
        ).y == y,
    decreases events.len(),
{
    if events.len() > 0 {
        match events[0] {
            InputEvent::MouseMove { dx, dy } => {
                let nx = moved(x, dx, s.detector.screen().width);
                let ny = moved(y, dy, s.detector.screen().height);
                a_hit_is_where_the_focus_passes(s, nx, ny, events.drop_first());
            },
            _ => {
                a_hit_is_where_the_focus_passes(s, x, y, events.drop_first());
            },
        }
    }
}

/// A received frame does what its parts do one after the other, as long as the
/// focus stays here between them; and it passes the focus on if and only if its
/// motions reach the edge.
pub proof fn received_frames_can_be_split(
    m: Model,
    s: Session,
    a: Seq<InputEvent>,
    b: Seq<InputEvent>,
)
    requires
        !m.remote_focus,
    ensures
        m.received(s, a).remote_focus == s.walk(m.x, m.y, a).hit,
        m.received(s, a).remote_focus ==> m.received(s, a + b) == m.received(s, a),
        !m.received(s, a).remote_focus ==> m.received(s, a + b) == m.received(s, a).received(s, b),
        !m.received(s, a).remote_focus ==> m.received(s, a).x == s.walk(m.x, m.y, a).x && m.received(
            s,
            a,
        ).y == s.walk(m.x, m.y, a).y,
{
    walks_compose(s, m.x, m.y, a, b);
}

/// A motion that is captured here moves the cursor as one that is received does.
pub proof fn captured_motions_walk_too(m: Model, s: Session, e: InputEvent)
    requires
        !m.remote_focus,
        e is MouseMove,
    ensures
        m.captured(s, e) == m.received(s, seq![e]),
        m.captured(s, e).remote_focus == s.walk(m.x, m.y, seq![e]).hit,
{
}

/// Keys and buttons leave the cursor and the focus as they are while the focus is
/// here, whatever is held.
pub proof fn other_events_keep_the_cursor(m: Model, s: Session, e: InputEvent)
    requires
        !m.remote_focus,
        !(e is MouseMove),
    ensures
        m.captured(s, e).x == m.x,
        m.captured(s, e).y == m.y,
        !m.captured(s, e).remote_focus,
        m.captured(s, e).seq == m.seq,
        m.captured(s, e).keys == m.after(e).keys,
        m.captured(s, e).buttons == m.after(e).buttons,
{
    reveal_with_fuel(Session::walk, 2);
}

/// Captured events always count for what is held, and change nothing of the
/// screens and the connection; while the peer has the focus they do not move the
/// cursor here.
pub proof fn captured_events_keep_the_rest(m: Model, s: Session, e: InputEvent)
    ensures
        m.captured(s, e).keys == m.after(e).keys,
        m.captured(s, e).buttons == m.after(e).buttons,
        m.captured(s, e).local_screen == m.local_screen,
        m.captured(s, e).remote_screen == m.remote_screen,
        m.captured(s, e).connection == m.connection,
        m.remote_focus ==> m.captured(s, e).x == m.x && m.captured(s, e).y == m.y,
        !m.remote_focus ==> m.captured(s, e).seq == m.seq,
{
}

/// When the focus passes to the peer the cursor is put in the middle, to within
/// half a point.
pub proof fn handover_centres_the_cursor(m: Model, s: Session)
    requires
        usable(s.detector.screen()),
    ensures
        m.handed_over(s).remote_focus,
        s.detector.screen().width - 1 <= 2 * m.handed_over(s).x <= s.detector.screen().width,
        s.detector.screen().height - 1 <= 2 * m.handed_over(s).y <= s.detector.screen().height,
        m.handed_over(s).keys == m.keys,
        m.handed_over(s).buttons == m.buttons,
        m.handed_over(s).seq == m.seq,
        m.handed_over(s).connection == m.connection,
        m.handed_over(s).local_screen == m.local_screen,
        m.handed_over(s).remote_screen == m.remote_screen,
{
}

/// The event of a key that goes down.
pub open spec fn key_press(scancode: u32) -> InputEvent {
    InputEvent::Key { scancode, state: KeyState::Pressed }
}

/// The event of a button that goes down.
pub open spec fn button_press(button: MouseButton) -> InputEvent {
    InputEvent::MouseButton { button, state: ButtonState::Pressed }
}

/// What is held: a key or button that was pressed, until it is released; no event
/// touches another key or button, nor anything else.
pub proof fn held_keys_follow_the_events(m: Model, e: InputEvent, k: u32, b: MouseButton)
    ensures
        m.after(e).keys.contains(k) <==> (if e == key_press(k) {
            true
        } else if e == key_release(k) {
            false
        } else {
            m.keys.contains(k)
        }),
        m.after(e).buttons.contains(b) <==> (if e == button_press(b) {
            true
        } else if e == button_release(b) {
            false
        } else {
            m.buttons.contains(b)
        }),
        m.after(e).seq == m.seq,
        m.after(e).remote_focus == m.remote_focus,
        m.after(e).x == m.x,
        m.after(e).y == m.y,
        m.after(e).connection == m.connection,
        m.after(e).local_screen == m.local_screen,
        m.after(e).remote_screen == m.remote_screen,
{
}

/// A run of events leaves held what its parts leave held one after the other.
pub proof fn runs_of_events_compose(m: Model, a: Seq<InputEvent>, b: Seq<InputEvent>)
    ensures
        m.after_all(a + b) == m.after_all(a).after_all(b),
        m.after_all(seq![]) == m,
    decreases b.len(),
{
    if b.len() == 0 {
        assert(a + b == a);
    } else {
        runs_of_events_compose(m, a, b.drop_last());
        assert((a + b).drop_last() == a + b.drop_last());
    }
}

/// One event is a run.
pub proof fn one_event_is_a_run(m: Model, e: InputEvent)
    ensures
        m.after_all(seq![e]) == m.after(e),
{
    assert(seq![e].drop_last() == Seq::<InputEvent>::empty());
    assert(m.after_all(seq![e].drop_last()) == m);
}

/// The emergency hotkey is left Ctrl, left Alt and Escape, all three and nothing
/// else.
pub proof fn the_hotkey_is_ctrl_alt_esc(m: Model)
    ensures
        m.emergency() <==> m.keys.contains(29) && m.keys.contains(56) && m.keys.contains(1),
{
}

/// Frames are numbered one after the other, and after `2^32` from the start.
pub proof fn frames_are_numbered_in_turn(m: Model)
    ensures
        m.next_seq() == (m.seq + 1) % 0x1_0000_0000,
{
}

/// A flush releases only what is held, each once.
pub proof fn a_flush_releases_what_is_held(m: Model, events: Seq<InputEvent>, i: int)
    requires
        m.flushed_by(events),
        0 <= i < events.len(),
    ensures
        (exists|k: u32| m.keys.contains(k) && events[i] == key_release(k)) || (exists|
            b: MouseButton,
        | m.buttons.contains(b) && events[i] == button_release(b)),
        forall|j: int| 0 <= j < events.len() && j != i ==> events[j] != events[i],
{
    assert(events.contains(events[i]));
    match events[i] {
        InputEvent::Key { scancode, state } => {
            assert(events[i] == key_release(scancode));
        },
        InputEvent::MouseButton { button, state } => {
            assert(events[i] == button_release(button));
        },
        _ => {},
    }
}

/// Nothing is held where no key and no button is.
pub proof fn nothing_held(m: Model, k: u32, b: MouseButton)
    requires
        m.holds_nothing(),
    ensures
        !m.keys.contains(k),
        !m.buttons.contains(b),
{
}

/// The messages that give the focus to this machine are those that pass or
/// release it; no other message changes anything.
pub proof fn messages_that_give_the_focus(m: Model, cmd: ControlCommand)
    ensures
        cmd is SwitchFocus || cmd is ReleaseFocus ==> !m.controlled(cmd).remote_focus,
        !(cmd is SwitchFocus) && !(cmd is ReleaseFocus) ==> m.controlled(cmd) == m,
        m.controlled(cmd).keys == m.keys,
        m.controlled(cmd).buttons == m.buttons,
        m.controlled(cmd).seq == m.seq,
        m.controlled(cmd).x == m.x,
        m.controlled(cmd).y == m.y,
        m.controlled(cmd).connection == m.connection,
        m.controlled(cmd).local_screen == m.local_screen,
        m.controlled(cmd).remote_screen == m.remote_screen,
{
}

/// A batch for the peer takes one number, and another one if the hotkey makes a
/// flush follow it; apart from the focus nothing else changes.
pub proof fn batches_take_a_number(m: Model)
    ensures
        ({
            let f = m.forwarded();
            &&& m.remote_focus && m.emergency() ==> f.seq == (m.seq + 2) % 0x1_0000_0000
                && !f.remote_focus
            &&& !(m.remote_focus && m.emergency()) ==> f.seq == (m.seq + 1) % 0x1_0000_0000
                && f.remote_focus == m.remote_focus
            &&& f.keys == m.keys
            &&& f.buttons == m.buttons
            &&& f.x == m.x
            &&& f.y == m.y
            &&& f.connection == m.connection
            &&& f.local_screen == m.local_screen
            &&& f.remote_screen == m.remote_screen
        }),
{
}

/// A session leaves nothing behind: no peer, no focus there, nothing held, and the
/// connection closed wherever it can be. The cursor and the screen stay.
pub proof fn a_session_ends_clean(m: Model)
    ensures
        ({
            let end = m.finished();
            &&& end.holds_nothing()
            &&& end.remote_screen is None
            &&& !end.remote_focus
            &&& m.connection is Connected || m.connection is Active || m.connection is Reconnecting
                || m.connection is Disconnected ==> end.connection is Disconnected
            &&& end.x == m.x
            &&& end.y == m.y
            &&& end.local_screen == m.local_screen
            &&& end.seq == m.seq || end.seq == (m.seq + 1) % 0x1_0000_0000
            &&& end.seq != m.seq ==> m.remote_focus
            &&& m.remote_focus && !m.holds_nothing() ==> end.seq != m.seq
        }),
{
}

/// A machine that only receives has no capture to signal to; any other one is
/// signalled to grab or to let go.
pub proof fn only_captures_are_signalled(s: Session, grab: bool)
    ensures
        s.receive_only ==> s.grab_signal(grab) is None,
        !s.receive_only ==> s.grab_signal(grab) == Some(grab),
{
}

/// Screens that can hold a cursor have points on both sides, no more than can be
/// counted with a sign.
pub proof fn usable_screens(screen: ScreenInfo)
    ensures
        usable(screen) <==> 0 < screen.width < 0x8000_0000 && 0 < screen.height < 0x8000_0000,
{
}

/// What a plan that passes the focus, takes it back or does nothing holds.
pub proof fn plans_do_what_they_say(p: Plan, m: Model, s: Session, seq: u32)
    ensures
        p.idle() ==> p.grab is None && p.frame is None && p.flush is None && p.control is None
            && p.emit@.len() == 0 && p.batch is None && !p.stop,
        p.silent() ==> p.frame is None && p.flush is None && p.control is None && p.emit@.len()
            == 0,
        p.hands_over() ==> p.control is Some && p.control->0 is SwitchFocus && p.frame is None
            && p.flush is None && p.emit@.len() == 0 && p.batch is None && !p.stop,
        p.takes_back(m, s, seq) ==> p.control is Some && p.control->0 is ReleaseFocus && p.flush
            is Some && p.flush->0.seq == seq && m.flushed_by(p.flush->0.events@) && p.emit@.len()
            == 0 && p.batch is None && !p.stop && p.grab == s.grab_signal(false),
{
}

/// A received frame that reaches the edge hands the focus over; one that does not
/// moves the cursor and changes nothing else.
pub proof fn received_frames_move_the_cursor_alone(m: Model, s: Session, events: Seq<InputEvent>)
    requires
        !m.remote_focus,
    ensures
        m.received(s, events).keys == m.keys,
        m.received(s, events).buttons == m.buttons,
        m.received(s, events).seq == m.seq,
        m.received(s, events).connection == m.connection,
        m.received(s, events).local_screen == m.local_screen,
        m.received(s, events).remote_screen == m.remote_screen,
        s.walk(m.x, m.y, events).hit ==> m.received(s, events) == m.handed_over(s),
{
}

/// While the peer has the focus a captured event counts for what is held, and only
/// the hotkey does more: it takes the focus back and a number for the frame that
/// releases everything.
pub proof fn captured_events_without_focus(m: Model, s: Session, e: InputEvent)
    requires
        m.remote_focus,
    ensures
        !m.after(e).emergency() ==> m.captured(s, e) == m.after(e),
        m.after(e).emergency() ==> {
            let c = m.captured(s, e);
            &&& !c.remote_focus
            &&& c.seq == (m.seq + 1) % 0x1_0000_0000
            &&& c.keys == m.after(e).keys
            &&& c.buttons == m.after(e).buttons
            &&& c.x == m.x
            &&& c.y == m.y
        },
{
}

/// The cursor is on the screen exactly where its coordinates are those of a point
/// of it.
pub proof fn points_of_the_screen(m: Model)
    requires
        usable(m.local_screen),
    ensures
        m.cursor_on_screen() <==> 0 <= m.x && m.x < m.local_screen.width && 0 <= m.y && m.y
            < m.local_screen.height,
{
}

/// Half of a side is rounded towards zero.
pub proof fn middles_are_halves(size: u32)
    ensures
        size < 0x8000_0000 ==> 2 * middle(size) <= size <= 2 * middle(size) + 1,
        size >= 0x8000_0000 ==> 2 * middle(size) - 1 <= size - 0x1_0000_0000 <= 2 * middle(size),
{
}

/// A displacement moves by its whole steps, or by the most that 32 bits can tell in
/// its direction.
pub proof fn displacements_are_whole_steps(at: i32, d: Delta)
    ensures
        fits_i32(d.whole()) ==> shifted(at, d) == at + d.whole(),
        d.whole() > i32::MAX ==> shifted(at, d) == at + 0x7fff_ffff,
        d.whole() < i32::MIN ==> shifted(at, d) == at - 0x8000_0000,
        fits_i32(d.whole()) <==> -0x8000_0000 <= d.whole() <= 0x7fff_ffff,
{
}

/// Which motions can be followed: on a screen that can be checked, those whose sums
/// fit in 32 bits. Other events always can, and runs can if their parts can, one
/// after the other.
pub proof fn motions_that_can_be_followed(
    s: Session,
    x: i32,
    y: i32,
    a: Seq<InputEvent>,
    b: Seq<InputEvent>,
    e: InputEvent,
)
    ensures
        s.walk_fits(x, y, a + b) <==> s.walk_fits(x, y, a) && (s.walk(x, y, a).hit || s.walk_fits(
            s.walk(x, y, a).x,
            s.walk(x, y, a).y,
            b,
        )),
        match e {
            InputEvent::MouseMove { dx, dy } => s.walk_fits(x, y, seq![e]) <==> s.wf()
                && -0x8000_0000 <= shifted(x, dx) <= 0x7fff_ffff && -0x8000_0000 <= shifted(y, dy)
                <= 0x7fff_ffff,
            _ => s.walk_fits(x, y, seq![e]),
        },
        s.walk_fits(x, y, seq![]),
    decreases a.len(),
{
    reveal_with_fuel(Session::walk_fits, 2);
    if a.len() == 0 {
        assert(a + b == b);
    } else {
        assert((a + b).drop_first() == a.drop_first() + b);
        match a[0] {
            InputEvent::MouseMove { dx, dy } => {
                let nx = moved(x, dx, s.detector.screen().width);
                let ny = moved(y, dy, s.detector.screen().height);
                motions_that_can_be_followed(s, nx, ny, a.drop_first(), b, e);
            },
            _ => {
                motions_that_can_be_followed(s, x, y, a.drop_first(), b, e);
            },
        }
    }
}

/// A session can follow the cursor on every screen that has points and can be
/// counted.
pub proof fn sessions_that_can_follow(s: Session)
    ensures
        s.wf() <==> usable(s.detector.screen()) && s.detector.zone_fits(),
        EVENT_BATCH_LIMIT == 64,
        EMERGENCY_HOTKEY_CTRL == 29,
        EMERGENCY_HOTKEY_ALT == 56,
        EMERGENCY_HOTKEY_ESC == 1,
{
}

/// Releases are key and button events that go up, of something held.
pub proof fn releases_are_of_what_is_held(m: Model, k: u32, b: MouseButton)
    ensures
        m.is_release(key_release(k)) <==> m.keys.contains(k),
        m.is_release(button_release(b)) <==> m.buttons.contains(b),
        !m.is_release(key_press(k)),
        !m.is_release(button_press(b)),
        key_release(k) matches InputEvent::Key { scancode, state } && scancode == k
            && state is Released,
        button_release(b) matches InputEvent::MouseButton { button, state } && button == b
            && state is Released,
{
}

/// A flush releases every key and every button that is held, the keys first.
pub proof fn a_flush_misses_nothing(
    m: Model,
    events: Seq<InputEvent>,
    k: u32,
    b: MouseButton,
    i: int,
    j: int,
)
    requires
        m.flushed_by(events),
    ensures
        m.keys.contains(k) ==> events.contains(key_release(k)),
        m.buttons.contains(b) ==> events.contains(button_release(b)),
        0 <= i < j < events.len() && events[j] is Key ==> events[i] is Key,
{
    assert(m.keys.contains(k) ==> m.is_release(key_release(k)));
    assert(m.buttons.contains(b) ==> m.is_release(button_release(b)));
    if 0 <= i < j < events.len() && events[j] is Key {
        assert(events.contains(events[i]));
        assert(m.is_release(events[i]));
    }
}

/// A batch takes an event that waits exactly as long as it holds fewer than 64 and
/// the hotkey is not held, and loses none that it holds.
pub proof fn batches_are_gathered_step_by_step(
    m: Model,
    batch: Seq<InputEvent>,
    waiting: Seq<InputEvent>,
)
    ensures
        waiting.len() == 0 || batch.len() >= 64 || m.emergency() ==> gathered(m, batch, waiting)
            == (m, batch, 0int),
        waiting.len() > 0 && batch.len() < 64 && !m.emergency() ==> gathered(m, batch, waiting).2
            >= 1 && gathered(m, batch, waiting).1.len() >= batch.len(),
    decreases waiting.len(),
{
    if waiting.len() > 0 && batch.len() < 64 && !m.emergency() {
        let next = m.after(waiting[0]);
        let longer = if next.emergency() {
            batch
        } else {
            batch.push(waiting[0])
        };
        batches_are_gathered_step_by_step(next, longer, waiting.drop_first());
    }
}

/// A batch is gathered part by part: what waits later is looked at only after all
/// that waits before it was taken, and leads on from there.
pub proof fn batches_are_gathered_part_by_part(
    m: Model,
    batch: Seq<InputEvent>,
    a: Seq<InputEvent>,
    b: Seq<InputEvent>,
)
    ensures
        ({
            let (here, held, n) = gathered(m, batch, a);
            let (end, all, k) = gathered(here, held, b);
            gathered(m, batch, a + b) == (if n == a.len() {
                (end, all, n + k)
            } else {
                (here, held, n)
            })
        }),
    decreases a.len(),
{
    if a.len() == 0 {
        assert(a + b == b);
    } else if batch.len() < EVENT_BATCH_LIMIT && !m.emergency() {
        let next = m.after(a[0]);
        let longer = if next.emergency() {
            batch
        } else {
            batch.push(a[0])
        };
        batches_are_gathered_part_by_part(next, longer, a.drop_first(), b);
        assert((a + b).drop_first() == a.drop_first() + b);
    }
}

} // verus!
