//! The life of a connection to a peer.
use vstd::prelude::*;
use vstd::string::*;

verus! {

#[derive(Debug, Clone, Copy, PartialEq, Eq, Structural)]
pub enum ConnectionState {
    Disconnected,
    Discovering,
    Pairing,
    Connected,
    Active,
    Suspended,
    Reconnecting,
}

/// A step that the life of a connection does not know.
#[derive(Debug, Clone, Copy, PartialEq, Eq, Structural)]
pub struct TransitionError {
    pub from: ConnectionState,
    pub to: ConnectionState,
}

/// The steps that a connection can take.
pub open spec fn allowed(from: ConnectionState, to: ConnectionState) -> bool {
    match from {
        ConnectionState::Disconnected => to is Discovering || to is Active,
        ConnectionState::Discovering => to is Pairing || to is Connected,
        ConnectionState::Pairing => to is Connected,
        ConnectionState::Connected => to is Active || to is Disconnected,
        ConnectionState::Active => to is Suspended || to is Disconnected || to is Reconnecting,
        ConnectionState::Suspended => to is Reconnecting,
        ConnectionState::Reconnecting => to is Active || to is Disconnected,
    }
}

/// Where a connection is after it was told to step to `to`.
pub open spec fn stepped(from: ConnectionState, to: ConnectionState) -> ConnectionState {
    if allowed(from, to) {
        to
    } else {
        from
    }
}

/// The name of a state in lower case.
pub open spec fn state_name(s: ConnectionState) -> Seq<char> {
    match s {
        ConnectionState::Disconnected => "disconnected"@,
        ConnectionState::Discovering => "discovering"@,
        ConnectionState::Pairing => "pairing"@,
        ConnectionState::Connected => "connected"@,
        ConnectionState::Active => "active"@,
        ConnectionState::Suspended => "suspended"@,
        ConnectionState::Reconnecting => "reconnecting"@,
    }
}

impl ConnectionState {
    pub fn can_transition_to(&self, next: ConnectionState) -> (r: bool)
        ensures
            r == allowed(*self, next),
    {
        match (*self, next) {
            (ConnectionState::Disconnected, ConnectionState::Discovering) => true,
            (ConnectionState::Disconnected, ConnectionState::Active) => true,
            (ConnectionState::Discovering, ConnectionState::Pairing) => true,
            (ConnectionState::Discovering, ConnectionState::Connected) => true,
            (ConnectionState::Pairing, ConnectionState::Connected) => true,
            (ConnectionState::Connected, ConnectionState::Active) => true,
            (ConnectionState::Connected, ConnectionState::Disconnected) => true,
            (ConnectionState::Active, ConnectionState::Suspended) => true,
            (ConnectionState::Active, ConnectionState::Disconnected) => true,
            (ConnectionState::Active, ConnectionState::Reconnecting) => true,
            (ConnectionState::Suspended, ConnectionState::Reconnecting) => true,
            (ConnectionState::Reconnecting, ConnectionState::Active) => true,
            (ConnectionState::Reconnecting, ConnectionState::Disconnected) => true,
            _ => false,
        }
    }

    /// Validates and performs the transition. An error leaves the state as it was.
    pub fn transition_to(&mut self, next: ConnectionState) -> (r: Result<(), TransitionError>)
        ensures
            *final(self) == stepped(*old(self), next),
            r is Ok <==> allowed(*old(self), next),
            r matches Err(e) ==> e == (TransitionError { from: *old(self), to: next }),
    {
        if self.can_transition_to(next) {
            *self = next;
            Ok(())
        } else {
            Err(TransitionError { from: *self, to: next })
        }
    }

    pub fn is_connected(&self) -> (r: bool)
        ensures
            r == (*self is Connected || *self is Active || *self is Suspended
                || *self is Reconnecting),
    {
        match self {
            ConnectionState::Connected => true,
            ConnectionState::Active => true,
            ConnectionState::Suspended => true,
            ConnectionState::Reconnecting => true,
            _ => false,
        }
    }

    /// The name of the state in lower case.
    pub fn to_string(&self) -> (r: String)
        ensures
            r@ == state_name(*self),
    {
        match self {
            ConnectionState::Disconnected => "disconnected".to_owned(),
            ConnectionState::Discovering => "discovering".to_owned(),
            ConnectionState::Pairing => "pairing".to_owned(),
            ConnectionState::Connected => "connected".to_owned(),
            ConnectionState::Active => "active".to_owned(),
            ConnectionState::Suspended => "suspended".to_owned(),
            ConnectionState::Reconnecting => "reconnecting".to_owned(),
        }
    }
}

impl TransitionError {
    /// What went wrong, for a log.
    pub fn message(&self) -> (r: String)
        ensures
            r@ == "invalid state transition: "@ + state_name(self.from) + " -> "@ + state_name(
                self.to,
            ),
    {
        let mut out = "invalid state transition: ".to_owned();
        out.append(self.from.to_string().as_str());
        out.append(" -> ");
        out.append(self.to.to_string().as_str());
        out
    }
}

/// A connection that dropped out of being connected passes through
/// `Disconnected`: no step leads from a connected state to a state before it.
pub proof fn connected_ends_only_in_disconnected(from: ConnectionState, to: ConnectionState)
    requires
        from is Connected || from is Active || from is Suspended || from is Reconnecting,
        allowed(from, to),
    ensures
        to is Disconnected || to is Connected || to is Active || to is Suspended
            || to is Reconnecting,
{
}

/// No step leads from a state to itself.
pub proof fn steps_leave(s: ConnectionState)
    ensures
        !allowed(s, s),
{
}

/// From where each state is entered.
pub proof fn states_are_entered_from(from: ConnectionState, to: ConnectionState)
    ensures
        to is Disconnected ==> (allowed(from, to) <==> from is Connected || from is Active || from
            is Reconnecting),
        to is Discovering ==> (allowed(from, to) <==> from is Disconnected),
        to is Pairing ==> (allowed(from, to) <==> from is Discovering),
        to is Connected ==> (allowed(from, to) <==> from is Discovering || from is Pairing),
        to is Active ==> (allowed(from, to) <==> from is Disconnected || from is Connected || from
            is Reconnecting),
        to is Suspended ==> (allowed(from, to) <==> from is Active),
        to is Reconnecting ==> (allowed(from, to) <==> from is Active || from is Suspended),
{
}

/// A step that is allowed is taken, any other leaves the state as it is.
pub proof fn steps_are_taken_or_refused(from: ConnectionState, to: ConnectionState)
    ensures
        allowed(from, to) ==> stepped(from, to) == to,
        !allowed(from, to) ==> stepped(from, to) == from,
{
}

/// No two states have the same name.
pub proof fn names_tell_states_apart(a: ConnectionState, b: ConnectionState)
    requires
        state_name(a) == state_name(b),
    ensures
        a == b,
{
    reveal_strlit("disconnected");
    reveal_strlit("discovering");
    reveal_strlit("pairing");
    reveal_strlit("connected");
    reveal_strlit("active");
    reveal_strlit("suspended");
    reveal_strlit("reconnecting");
    let (x, y) = (state_name(a), state_name(b));
    assert(x.len() == y.len());
    assert(x[0] == y[0]);
    assert(x[1] == y[1]);
    assert(x[2] == y[2]);
    assert(x[3] == y[3]);
}

} // verus!
