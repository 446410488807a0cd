//! How often and how patiently a connection to a peer is tried.
use crate::session::{DaemonState, Model};
use crate::state::{stepped, ConnectionState};
use vstd::prelude::*;

verus! {

/// The wait after the first failure, in seconds.
pub const RECONNECT_BASE_DELAY: u64 = 1;

/// The longest wait, in seconds.
pub const RECONNECT_MAX_DELAY: u64 = 30;

/// How many times a connection is tried.
pub const RECONNECT_MAX_ATTEMPTS: u32 = 10;

/// The wait in seconds after the attempt with the given number has failed:
/// doubled each time, up to the longest wait.
pub open spec fn wait_after(attempt: int) -> int
    decreases attempt,
{
    if attempt <= 1 {
        RECONNECT_BASE_DELAY as int
    } else {
        let twice = wait_after(attempt - 1) * 2;
        if twice < RECONNECT_MAX_DELAY {
            twice
        } else {
            RECONNECT_MAX_DELAY as int
        }
    }
}

/// The attempts to reach one peer.
#[derive(Debug, Clone, Copy)]
pub struct Reconnect {
    attempt: u32,
    delay: u64,
}

impl Reconnect {
    /// The number of the attempt under way, from one on.
    pub closed spec fn attempt(self) -> int {
        self.attempt as int
    }

    pub closed spec fn wf(self) -> bool {
        &&& 1 <= self.attempt <= RECONNECT_MAX_ATTEMPTS
        &&& self.delay == wait_after(self.attempt as int)
        &&& 1 <= self.delay <= RECONNECT_MAX_DELAY
    }

    pub fn new() -> (r: Self)
        ensures
            r.wf(),
            r.attempt() == 1,
    {
        Reconnect { attempt: 1, delay: RECONNECT_BASE_DELAY }
    }

    /// The attempt under way has failed: how many seconds to wait before the
    /// next one, or `None` if it was the last.
    pub fn on_failure(&mut self) -> (r: Option<u64>)
        requires
            old(self).wf(),
        ensures
            final(self).wf(),
            r is None <==> old(self).attempt() == RECONNECT_MAX_ATTEMPTS,
            r is None ==> *final(self) == *old(self),
            r matches Some(wait) ==> {
                &&& wait == wait_after(old(self).attempt())
                &&& final(self).attempt() == old(self).attempt() + 1
                &&& 1 <= wait <= RECONNECT_MAX_DELAY
            },
    {
        if self.attempt == RECONNECT_MAX_ATTEMPTS {
            return None;
        }
        let wait = self.delay;
        let twice = wait * 2;
        self.delay = if twice < RECONNECT_MAX_DELAY { twice } else { RECONNECT_MAX_DELAY };
        self.attempt = self.attempt + 1;
        Some(wait)
    }
}

impl DaemonState {
    /// Whether a peer is worth connecting to: not while one is active.
    pub fn wants_connection(&self) -> (r: bool)
        ensures
            r == !(self@.connection is Active),
    {
        match self.connection_state {
            ConnectionState::Active => false,
            _ => true,
        }
    }

    /// A connection attempt has failed and another will follow.
    pub fn note_failed_attempt(&mut self)
        ensures
            final(self)@ == (Model {
                connection: stepped(old(self)@.connection, ConnectionState::Reconnecting),
                ..old(self)@
            }),
    {
        let _ = self.connection_state.transition_to(ConnectionState::Reconnecting);
    }
}

/// The waits never shrink, start at the base delay and stay within the longest.
pub proof fn waits_grow_up_to_the_longest(attempt: int)
    requires
        1 <= attempt,
    ensures
        RECONNECT_BASE_DELAY <= wait_after(attempt) <= RECONNECT_MAX_DELAY,
        wait_after(attempt) <= wait_after(attempt + 1),
    decreases attempt,
{
    if attempt > 1 {
        waits_grow_up_to_the_longest(attempt - 1);
    }
}

/// The waits: one second at first, twice as long each time, and half a minute from
/// the sixth failure on.
pub proof fn waits_double(attempt: int)
    ensures
        wait_after(1) == 1,
        wait_after(2) == 2,
        wait_after(3) == 4,
        wait_after(4) == 8,
        wait_after(5) == 16,
        attempt >= 6 ==> wait_after(attempt) == 30,
        attempt >= 1 && 2 * wait_after(attempt) < 30 ==> wait_after(attempt + 1) == 2 * wait_after(
            attempt,
        ),
    decreases attempt,
{
    reveal_with_fuel(wait_after, 7);
    if attempt > 6 {
        waits_double(attempt - 1);
    }
}

/// A peer is tried ten times.
pub proof fn peers_are_tried_ten_times()
    ensures
        RECONNECT_MAX_ATTEMPTS == 10,
        RECONNECT_BASE_DELAY == 1,
        RECONNECT_MAX_DELAY == 30,
{
}

} // verus!
