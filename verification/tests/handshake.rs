use kmflow::handshake::{answer, offer, read_ack, HandshakeError, Joined};
use kmflow::proto::{
    opposite_edge, ControlCommand, Double, Edge, ScreenInfo, ScreenPosition, PROTOCOL_VERSION,
};
use kmflow::reconnect::Reconnect;
use kmflow::session::DaemonState;
use kmflow::state::ConnectionState;

fn screen(width: u32) -> ScreenInfo {
    ScreenInfo {
        width,
        height: 600,
        scale_factor: Double { bits: 1.0f64.to_bits() },
        position: ScreenPosition { edge: Edge::Right, monitor_id: 0 },
    }
}

fn meet(a: Option<Edge>, b: Option<Edge>) -> (Joined, Joined) {
    let here = DaemonState::new(screen(800));
    let there = DaemonState::new(screen(1000));
    let hello = offer(&here, "a".to_string(), a);
    let (ack, at_b) = answer(&there, "b".to_string(), b, hello).unwrap();
    let at_a = read_ack(a, ack).unwrap();
    (at_a, at_b)
}

#[test]
fn machines_learn_each_others_names_and_screens() {
    let (at_a, at_b) = meet(None, None);
    assert_eq!(at_a.hostname, "b");
    assert_eq!(at_b.hostname, "a");
    assert_eq!(at_a.screen, screen(1000));
    assert_eq!(at_b.screen, screen(800));
}

#[test]
fn edges_face_each_other() {
    let edges = [Edge::Left, Edge::Right, Edge::Top, Edge::Bottom];
    for e in edges {
        let (at_a, at_b) = meet(Some(e), None);
        assert_eq!(at_a.edge, e);
        assert_eq!(at_b.edge, opposite_edge(e));
        let (at_a, at_b) = meet(None, Some(e));
        assert_eq!(at_b.edge, e);
        assert_eq!(at_a.edge, opposite_edge(e));
    }
    let (at_a, at_b) = meet(None, None);
    assert_eq!(at_b.edge, Edge::Right);
    assert_eq!(at_a.edge, Edge::Left);
    let (at_a, at_b) = meet(Some(Edge::Right), Some(Edge::Left));
    assert_eq!(at_a.edge, Edge::Right);
    assert_eq!(at_b.edge, Edge::Left);
}

#[test]
fn configured_edges_win() {
    let (at_a, at_b) = meet(Some(Edge::Top), Some(Edge::Top));
    assert_eq!(at_a.edge, Edge::Top);
    assert_eq!(at_b.edge, Edge::Top);
}

#[test]
fn the_offer_holds_what_is_configured() {
    let here = DaemonState::new(screen(800));
    assert_eq!(
        offer(&here, "a".to_string(), Some(Edge::Top)),
        ControlCommand::Handshake {
            protocol_version: PROTOCOL_VERSION,
            hostname: "a".to_string(),
            screen_info: screen(800),
            edge: Some(Edge::Top),
        }
    );
}

#[test]
fn other_versions_are_refused() {
    let state = DaemonState::new(screen(800));
    let hello = ControlCommand::Handshake {
        protocol_version: 2,
        hostname: "b".to_string(),
        screen_info: screen(1000),
        edge: None,
    };
    let err = answer(&state, "a".to_string(), None, hello).unwrap_err();
    assert_eq!(err, HandshakeError::Version { remote: 2 });
    assert_eq!(err.message(), "protocol version mismatch: local=1, remote=2");
    let ack = ControlCommand::HandshakeAck {
        protocol_version: 0,
        hostname: "b".to_string(),
        screen_info: screen(1000),
        edge: None,
    };
    assert_eq!(read_ack(None, ack).unwrap_err(), HandshakeError::Version { remote: 0 });
}

#[test]
fn other_messages_are_refused() {
    let state = DaemonState::new(screen(800));
    let err = answer(&state, "a".to_string(), None, ControlCommand::ReleaseFocus).unwrap_err();
    assert_eq!(err, HandshakeError::UnexpectedMessage);
    assert_eq!(err.message(), "unexpected first control message");
    let err = read_ack(None, offer(&state, "a".to_string(), None)).unwrap_err();
    assert_eq!(err, HandshakeError::UnexpectedReply);
    assert_eq!(err.message(), "unexpected handshake reply");
}

#[test]
fn a_handshake_makes_the_connection_active() {
    let mut state = DaemonState::new(screen(800));
    let (joined, _) = meet(None, None);
    state.activate(&joined);
    assert_eq!(state.connection_state, ConnectionState::Active);
    assert_eq!(state.remote_screen, Some(screen(1000)));
    assert!(!state.wants_connection());
    state.note_failed_attempt();
    assert_eq!(state.connection_state, ConnectionState::Reconnecting);
    assert!(state.wants_connection());
}

#[test]
fn attempts_to_connect_are_spaced_out() {
    let mut r = Reconnect::new();
    let mut waits = Vec::new();
    while let Some(wait) = r.on_failure() {
        waits.push(wait);
    }
    assert_eq!(waits, vec![1, 2, 4, 8, 16, 30, 30, 30, 30]);
    assert_eq!(r.on_failure(), None);
}

#[test]
fn failed_attempts_of_a_new_daemon_change_nothing() {
    let mut state = DaemonState::new(screen(800));
    assert!(state.wants_connection());
    state.note_failed_attempt();
    assert_eq!(state.connection_state, ConnectionState::Disconnected);
}
