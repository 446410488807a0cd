//! How two machines agree to share their input.
//!
//! The initiator offers a [`ControlCommand::Handshake`], the acceptor answers
//! with a [`ControlCommand::HandshakeAck`]. Each names the edge where it expects
//! the other; a machine without a configured edge takes the opposite of the
//! peer's.
use crate::proto::{
    opposite, opposite_edge, ControlCommand, Edge, ScreenInfo, PROTOCOL_VERSION,
};
use crate::session::{DaemonState, Model};
use crate::state::{stepped, ConnectionState};
use crate::text::{append_decimal, decimal_of};
use vstd::prelude::*;
use vstd::string::*;

verus! {

/// A peer that shook hands: its name and screen, and the edge it is behind.
#[derive(Debug, Clone, PartialEq, Eq)]
pub struct Joined {
    pub hostname: String,
    pub screen: ScreenInfo,
    pub edge: Edge,
}

/// Why a handshake failed.
#[derive(Debug, Clone, Copy, PartialEq, Eq, Structural)]
pub enum HandshakeError {
    /// The peer speaks another version of the protocol.
    Version { remote: u32 },
    /// The initiator got something else than an acknowledgement.
    UnexpectedReply,
    /// The acceptor got something else than an offer.
    UnexpectedMessage,
}

impl HandshakeError {
    /// What went wrong, for a log.
    pub open spec fn text(self) -> Seq<char> {
        match self {
            HandshakeError::Version { remote } => "protocol version mismatch: local="@ + decimal_of(
                PROTOCOL_VERSION as int,
            ) + ", remote="@ + decimal_of(remote as int),
            HandshakeError::UnexpectedReply => "unexpected handshake reply"@,
            HandshakeError::UnexpectedMessage => "unexpected first control message"@,
        }
    }

    /// What went wrong, for a log.
    pub fn message(&self) -> (r: String)
        ensures
            r@ == self.text(),
    {
        match self {
            HandshakeError::Version { remote } => {
                let mut out = "protocol version mismatch: local=".to_owned();
                append_decimal(&mut out, PROTOCOL_VERSION as u64);
                out.append(", remote=");
                append_decimal(&mut out, *remote as u64);
                out
            },
            HandshakeError::UnexpectedReply => "unexpected handshake reply".to_owned(),
            HandshakeError::UnexpectedMessage => "unexpected first control message".to_owned(),
        }
    }
}

/// The edge behind which a machine finds its peer: the configured one, else the
/// opposite of the one the peer names, else the right one.
pub open spec fn agreed_edge(configured: Option<Edge>, named_by_peer: Option<Edge>) -> Edge {
    match configured {
        Some(e) => e,
        None => match named_by_peer {
            Some(p) => opposite(p),
            None => Edge::Right,
        },
    }
}

fn agree(configured: Option<Edge>, named_by_peer: Option<Edge>) -> (r: Edge)
    ensures
        r == agreed_edge(configured, named_by_peer),
{
    match configured {
        Some(e) => e,
        None => match named_by_peer {
            Some(p) => opposite_edge(p),
            None => Edge::Right,
        },
    }
}

/// The offer of an initiator.
pub open spec fn offered(
    screen: ScreenInfo,
    hostname: String,
    configured: Option<Edge>,
) -> ControlCommand {
    ControlCommand::Handshake {
        protocol_version: PROTOCOL_VERSION,
        hostname,
        screen_info: screen,
        edge: configured,
    }
}

/// What an acceptor makes of the first message: its answer, and the peer.
pub open spec fn answered(
    screen: ScreenInfo,
    hostname: String,
    configured: Option<Edge>,
    message: ControlCommand,
) -> Result<(ControlCommand, Joined), HandshakeError> {
    match message {
        ControlCommand::Handshake { protocol_version, hostname: peer, screen_info, edge } => {
            if protocol_version != PROTOCOL_VERSION {
                Err(HandshakeError::Version { remote: protocol_version })
            } else {
                let e = agreed_edge(configured, edge);
                Ok(
                    (
                        ControlCommand::HandshakeAck {
                            protocol_version: PROTOCOL_VERSION,
                            hostname,
                            screen_info: screen,
                            edge: Some(e),
                        },
                        Joined { hostname: peer, screen: screen_info, edge: e },
                    ),
                )
            }
        },
        _ => Err(HandshakeError::UnexpectedMessage),
    }
}

/// What an initiator makes of the reply to its offer.
pub open spec fn acknowledged(
    configured: Option<Edge>,
    reply: ControlCommand,
) -> Result<Joined, HandshakeError> {
    match reply {
        ControlCommand::HandshakeAck { protocol_version, hostname, screen_info, edge } => {
            if protocol_version != PROTOCOL_VERSION {
                Err(HandshakeError::Version { remote: protocol_version })
            } else {
                Ok(
                    Joined {
                        hostname,
                        screen: screen_info,
                        edge: agreed_edge(configured, edge),
                    },
                )
            }
        },
        _ => Err(HandshakeError::UnexpectedReply),
    }
}

/// The first message of an initiator.
pub fn offer(state: &DaemonState, hostname: String, configured: Option<Edge>) -> (r: ControlCommand)
    ensures
        r == offered(state@.local_screen, hostname, configured),
{
    ControlCommand::Handshake {
        protocol_version: PROTOCOL_VERSION,
        hostname,
        screen_info: state.local_screen,
        edge: configured,
    }
}

/// The acceptor reads the first message and answers it.
pub fn answer(
    state: &DaemonState,
    hostname: String,
    configured: Option<Edge>,
    message: ControlCommand,
) -> (r: Result<(ControlCommand, Joined), HandshakeError>)
    ensures
        r == answered(state@.local_screen, hostname, configured, message),
{
    match message {
        ControlCommand::Handshake { protocol_version, hostname: peer, screen_info, edge } => {
            if protocol_version != PROTOCOL_VERSION {
                return Err(HandshakeError::Version { remote: protocol_version });
            }
            let e = agree(configured, edge);
            let ack = ControlCommand::HandshakeAck {
                protocol_version: PROTOCOL_VERSION,
                hostname,
                screen_info: state.local_screen,
                edge: Some(e),
            };
            Ok((ack, Joined { hostname: peer, screen: screen_info, edge: e }))
        },
        _ => Err(HandshakeError::UnexpectedMessage),
    }
}

/// The initiator reads the reply to its offer.
pub fn read_ack(configured: Option<Edge>, reply: ControlCommand) -> (r: Result<
    Joined,
    HandshakeError,
>)
    ensures
        r == acknowledged(configured, reply),
{
    match reply {
        ControlCommand::HandshakeAck { protocol_version, hostname, screen_info, edge } => {
            if protocol_version != PROTOCOL_VERSION {
                return Err(HandshakeError::Version { remote: protocol_version });
            }
            Ok(Joined { hostname, screen: screen_info, edge: agree(configured, edge) })
        },
        _ => Err(HandshakeError::UnexpectedReply),
    }
}

impl DaemonState {
    /// The peer is there: its screen is known and the connection is active.
    pub fn activate(&mut self, joined: &Joined)
        ensures
            final(self)@ == (Model {
                remote_screen: Some(joined.screen),
                connection: stepped(old(self)@.connection, ConnectionState::Active),
                ..old(self)@
            }),
    {
        self.remote_screen = Some(joined.screen);
        let _ = self.connection_state.transition_to(ConnectionState::Active);
    }
}

/// An offer of this version is always answered, and the answer is always
/// understood: both sides join, each knowing the other's name and screen.
pub proof fn handshake_completes(
    screen_i: ScreenInfo,
    host_i: String,
    edge_i: Option<Edge>,
    screen_a: ScreenInfo,
    host_a: String,
    edge_a: Option<Edge>,
)
    ensures
        answered(screen_a, host_a, edge_a, offered(screen_i, host_i, edge_i)) matches Ok(
            (ack, peer_of_a),
        ) && acknowledged(edge_i, ack) matches Ok(peer_of_i) && {
            &&& peer_of_a.hostname == host_i
            &&& peer_of_a.screen == screen_i
            &&& peer_of_i.hostname == host_a
            &&& peer_of_i.screen == screen_a
        },
{
}

/// Unless both machines were configured, and not for opposite edges, they end up
/// facing each other: each finds the other behind the edge opposite to the
/// other's.
pub proof fn edges_face_each_other(
    screen_i: ScreenInfo,
    host_i: String,
    edge_i: Option<Edge>,
    screen_a: ScreenInfo,
    host_a: String,
    edge_a: Option<Edge>,
)
    requires
        edge_i is Some && edge_a is Some ==> edge_i->0 == opposite(edge_a->0),
    ensures
        answered(screen_a, host_a, edge_a, offered(screen_i, host_i, edge_i)) matches Ok(
            (ack, peer_of_a),
        ) && acknowledged(edge_i, ack) matches Ok(peer_of_i) && peer_of_i.edge == opposite(
            peer_of_a.edge,
        ),
{
}

/// A configured edge is never overruled by the peer.
pub proof fn configured_edge_wins(e: Edge, named_by_peer: Option<Edge>)
    ensures
        agreed_edge(Some(e), named_by_peer) == e,
{
}

/// An offer says who makes it, with which screen and for which edge, in version
/// one of the protocol.
pub proof fn offers_say_who_makes_them(screen: ScreenInfo, hostname: String, edge: Option<Edge>)
    ensures
        match offered(screen, hostname, edge) {
            ControlCommand::Handshake { protocol_version, hostname: h, screen_info, edge: e } => {
                protocol_version == 1 && h == hostname && screen_info == screen && e == edge
            },
            _ => false,
        },
{
}

/// Another version of the protocol is refused by both sides, and named; version
/// one is not.
pub proof fn other_versions_are_refused(
    screen: ScreenInfo,
    hostname: String,
    configured: Option<Edge>,
    version: u32,
    peer: String,
    peer_screen: ScreenInfo,
    peer_edge: Option<Edge>,
)
    ensures
        ({
            let first = ControlCommand::Handshake {
                protocol_version: version,
                hostname: peer,
                screen_info: peer_screen,
                edge: peer_edge,
            };
            let reply = ControlCommand::HandshakeAck {
                protocol_version: version,
                hostname: peer,
                screen_info: peer_screen,
                edge: peer_edge,
            };
            &&& version != 1 ==> answered(screen, hostname, configured, first) == Err::<
                (ControlCommand, Joined),
                HandshakeError,
            >(HandshakeError::Version { remote: version })
            &&& version != 1 ==> acknowledged(configured, reply) == Err::<Joined, HandshakeError>(
                HandshakeError::Version { remote: version },
            )
            &&& version == 1 ==> answered(screen, hostname, configured, first) is Ok
            &&& version == 1 ==> acknowledged(configured, reply) is Ok
        }),
{
}

/// Each side takes only the message that is due: an offer comes first, and an
/// acknowledgement answers it.
pub proof fn other_messages_are_refused(
    screen: ScreenInfo,
    hostname: String,
    configured: Option<Edge>,
    message: ControlCommand,
)
    ensures
        !(message is Handshake) ==> answered(screen, hostname, configured, message) == Err::<
            (ControlCommand, Joined),
            HandshakeError,
        >(HandshakeError::UnexpectedMessage),
        !(message is HandshakeAck) ==> acknowledged(configured, message) == Err::<
            Joined,
            HandshakeError,
        >(HandshakeError::UnexpectedReply),
{
}

/// The acceptor's answer names the edge that the acceptor goes by, its own name and
/// its own screen.
pub proof fn answers_name_the_edge(
    screen: ScreenInfo,
    hostname: String,
    configured: Option<Edge>,
    message: ControlCommand,
)
    ensures
        answered(screen, hostname, configured, message) matches Ok((ack, joined)) ==> (
        ack matches ControlCommand::HandshakeAck {
            protocol_version,
            hostname: h,
            screen_info,
            edge,
        } && protocol_version == 1 && h == hostname && screen_info == screen && edge == Some(
            joined.edge,
        )),
{
}

/// Without a configured edge a machine faces the one that the peer names; if the
/// peer names none, the peer is to the right.
pub proof fn edges_that_are_not_configured(p: Edge)
    ensures
        agreed_edge(None, None) == Edge::Right,
        agreed_edge(None, Some(Edge::Left)) == Edge::Right,
        agreed_edge(None, Some(Edge::Right)) == Edge::Left,
        agreed_edge(None, Some(Edge::Top)) == Edge::Bottom,
        agreed_edge(None, Some(Edge::Bottom)) == Edge::Top,
        agreed_edge(None, Some(agreed_edge(None, Some(p)))) == p,
{
}

/// What a failed handshake is called.
pub proof fn failed_handshakes_are_named(remote: u32)
    ensures
        (HandshakeError::Version { remote }).text()
            == "protocol version mismatch: local=1, remote="@ + decimal_of(remote as int),
        HandshakeError::UnexpectedReply.text() == "unexpected handshake reply"@,
        HandshakeError::UnexpectedMessage.text() == "unexpected first control message"@,
{
    reveal_strlit("protocol version mismatch: local=");
    reveal_strlit(", remote=");
    reveal_strlit("protocol version mismatch: local=1, remote=");
    assert(decimal_of(1) == seq!['1']);
    assert("protocol version mismatch: local="@ + decimal_of(1) + ", remote="@
        == "protocol version mismatch: local=1, remote="@);
}

} // verus!
