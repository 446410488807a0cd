use kmflow::handshake::Joined;
use kmflow::ipc::{
    describe_screen, handle_ipc_request, ipc_line, joined_status, pair_reply, socket_path,
    IpcRequest, IpcResponse, IpcStep, PairOutcome, PeerStatus, PeerTable,
};
use kmflow::proto::{Double, Edge, ScreenInfo, ScreenPosition};
use kmflow::session::DaemonState;

fn screen() -> ScreenInfo {
    ScreenInfo {
        width: 1920,
        height: 1080,
        scale_factor: Double { bits: 1.5f64.to_bits() },
        position: ScreenPosition { edge: Edge::Right, monitor_id: 0 },
    }
}

fn peer(hostname: &str, addr: &str) -> PeerStatus {
    PeerStatus {
        hostname: hostname.to_string(),
        addr: addr.to_string(),
        state: "active".to_string(),
        rtt_ms: Double { bits: 0 },
        screen: String::new(),
    }
}

fn done(message: &str) -> IpcResponse {
    IpcResponse::Done { message: message.to_string() }
}

fn error(message: &str) -> IpcResponse {
    IpcResponse::Error { message: message.to_string() }
}

#[test]
fn the_socket_lies_in_the_runtime_directory() {
    assert_eq!(socket_path(Some("/run/user/1000")), "/run/user/1000/kmflow.sock");
    assert_eq!(socket_path(None), "/tmp/kmflow.sock");
}

#[test]
fn messages_end_with_a_line_break() {
    assert_eq!(ipc_line("\"Stop\"".to_string()), "\"Stop\"\n");
}

#[test]
fn joined_peers_are_described() {
    assert_eq!(describe_screen(&screen(), "1.5"), "1920x1080 @1.5x");
    let joined = Joined { hostname: "desk".to_string(), screen: screen(), edge: Edge::Left };
    let rtt = Double { bits: 2.5f64.to_bits() };
    assert_eq!(
        joined_status(&joined, "10.0.0.2:4242".to_string(), rtt, "1.5"),
        PeerStatus {
            hostname: "desk".to_string(),
            addr: "10.0.0.2:4242".to_string(),
            state: "active".to_string(),
            rtt_ms: rtt,
            screen: "1920x1080 @1.5x".to_string(),
        }
    );
}

#[test]
fn peers_are_kept_by_name() {
    let mut table = PeerTable::new();
    table.insert(peer("a", "1"));
    table.insert(peer("b", "2"));
    table.insert(peer("a", "3"));
    let mut list = table.list();
    list.sort_by(|x, y| x.hostname.cmp(&y.hostname));
    assert_eq!(list, vec![peer("a", "3"), peer("b", "2")]);
    table.clear();
    assert!(table.list().is_empty());
}

#[test]
fn requests_are_answered() {
    let state = DaemonState::new(screen());
    let mut table = PeerTable::new();
    table.insert(peer("a", "1"));
    match handle_ipc_request(IpcRequest::Status, &state, &table) {
        IpcStep::Reply(IpcResponse::Status { state, peers }) => {
            assert_eq!(state, "disconnected");
            assert_eq!(peers, vec![peer("a", "1")]);
        }
        _ => panic!("a status was expected"),
    }
    match handle_ipc_request(IpcRequest::Stop, &state, &table) {
        IpcStep::Stop(r) => assert_eq!(r, done("daemon stopping")),
        _ => panic!("a stop was expected"),
    }
    let layout = IpcRequest::Layout { peer: "desk".to_string(), edge: "left".to_string() };
    match handle_ipc_request(layout, &state, &table) {
        IpcStep::Reply(r) => assert_eq!(r, done("layout set: desk on left")),
        _ => panic!("a reply was expected"),
    }
    match handle_ipc_request(IpcRequest::SetupFirewall, &state, &table) {
        IpcStep::Reply(r) => assert_eq!(r, done("use `kmflow setup-firewall` directly")),
        _ => panic!("a reply was expected"),
    }
}

#[test]
fn pairing_fills_in_the_port() {
    let state = DaemonState::new(screen());
    let table = PeerTable::new();
    for (text, expected) in [
        ("192.168.1.100", "192.168.1.100:4242"),
        ("192.168.1.100:5000", "192.168.1.100:5000"),
        ("[fe80::1]:4242", "[fe80::1]:4242"),
        ("", ":4242"),
    ] {
        match handle_ipc_request(IpcRequest::Pair { addr: text.to_string() }, &state, &table) {
            IpcStep::Connect { addr, target } => {
                assert_eq!(addr, text);
                assert_eq!(target, expected);
            }
            _ => panic!("a connection was expected"),
        }
    }
}

#[test]
fn pair_requests_are_answered() {
    assert_eq!(
        pair_reply("x", PairOutcome::Sent("10.0.0.2:4242".to_string())),
        done("connecting to 10.0.0.2:4242...")
    );
    assert_eq!(pair_reply("x", PairOutcome::Closed), error("daemon channel closed"));
    assert_eq!(
        pair_reply("desk", PairOutcome::Invalid("invalid socket address syntax".to_string())),
        error("invalid address 'desk': invalid socket address syntax")
    );
}
