use kmflow::cli::{
    configured_edge, edge_from_flags, firewall_rules, host_name, layout_request, log_filter,
    node_name, show_reply, show_status, start_config, Line, NO_DIRECTION,
};
use kmflow::ipc::{IpcRequest, IpcResponse, PeerStatus};
use kmflow::proto::{Double, Edge, KmflowConfig, LayoutEntry};

fn out(s: &str) -> Line {
    Line::Out(s.to_string())
}

fn problem(s: &str) -> Line {
    Line::Problem(s.to_string())
}

#[test]
fn flags_name_a_side() {
    assert_eq!(edge_from_flags(true, false, false, false), Some(Edge::Right));
    assert_eq!(edge_from_flags(false, true, false, false), Some(Edge::Left));
    assert_eq!(edge_from_flags(false, false, true, false), Some(Edge::Top));
    assert_eq!(edge_from_flags(false, false, false, true), Some(Edge::Bottom));
    assert_eq!(edge_from_flags(false, false, false, false), None);
}

#[test]
fn the_command_line_overrides_the_configuration() {
    let mut config = KmflowConfig::default();
    config.hostname = Some("desk".to_string());
    config.layout.push(LayoutEntry { peer_hostname: "couch".to_string(), edge: Edge::Top });
    let scale = Some(Double { bits: 2.0f64.to_bits() });
    let kept = start_config(config.clone(), 5000, None, scale);
    assert_eq!(kept.port, 5000);
    assert_eq!(kept.scale_override, scale);
    assert_eq!(kept.layout, config.layout);
    assert_eq!(kept.hostname, config.hostname);
    assert_eq!(configured_edge(&kept), Some(Edge::Top));
    let named = start_config(config, 5000, Some(Edge::Left), None);
    assert_eq!(
        named.layout,
        vec![LayoutEntry { peer_hostname: String::new(), edge: Edge::Left }]
    );
    assert_eq!(named.scale_override, None);
    assert_eq!(configured_edge(&KmflowConfig::default()), None);
}

#[test]
fn machines_have_names() {
    assert_eq!(host_name("desk\n"), "desk");
    assert_eq!(node_name(Some("a"), Some("b")), "a");
    assert_eq!(node_name(None, Some("b")), "b");
    assert_eq!(node_name(None, None), "kmflow-node");
}

#[test]
fn verbosity_sets_the_filter() {
    assert_eq!(log_filter(false), "kmflow=info");
    assert_eq!(
        log_filter(true),
        "kmflow=debug,kmflow_daemon=debug,kmflow_net=debug,kmflow_input=debug"
    );
}

#[test]
fn layouts_name_a_peer_and_a_side() {
    let p = |s: &str| Some(s.to_string());
    let request = |peer: &str, edge: &str| {
        Some(IpcRequest::Layout { peer: peer.to_string(), edge: edge.to_string() })
    };
    assert_eq!(layout_request(p("a"), p("b"), None, None), request("a", "right"));
    assert_eq!(layout_request(None, p("b"), p("c"), None), request("b", "left"));
    assert_eq!(layout_request(None, None, p("c"), None), request("c", "top"));
    assert_eq!(layout_request(None, None, None, p("d")), request("d", "bottom"));
    assert_eq!(layout_request(None, None, None, None), None);
    assert_eq!(
        NO_DIRECTION,
        "specify at least one direction (--right, --left, --top, --bottom)"
    );
}

#[test]
fn replies_are_shown() {
    let done = IpcResponse::Done { message: "daemon stopping".to_string() };
    assert_eq!(show_reply(done), vec![out("daemon stopping")]);
    let error = IpcResponse::Error { message: "no".to_string() };
    assert_eq!(show_reply(error), vec![problem("Error: no")]);
    let status = IpcResponse::Status { state: "active".to_string(), peers: vec![] };
    assert_eq!(show_reply(status), vec![]);
}

#[test]
fn the_status_is_a_table() {
    let rtt = Double { bits: 1.75f64.to_bits() };
    let peers = vec![
        PeerStatus {
            hostname: "我的电脑".to_string(),
            addr: "192.168.1.5:4242".to_string(),
            state: "active".to_string(),
            rtt_ms: rtt,
            screen: "1920x1080 @1x".to_string(),
        },
        PeerStatus {
            hostname: "a-very-long-host-name".to_string(),
            addr: "[fe80::1]:4242".to_string(),
            state: "active".to_string(),
            rtt_ms: rtt,
            screen: "".to_string(),
        },
    ];
    let mut expected = vec![
        out("State: active"),
        Line::Out(format!(
            "{:<16} {:<18} {:<12} {:<8} SCREEN",
            "HOSTNAME", "ADDRESS", "STATE", "RTT"
        )),
    ];
    for (p, rtt) in peers.iter().zip([1u32, 250]) {
        expected.push(Line::Out(format!(
            "{:<16} {:<18} {:<12} {:<8} {}",
            p.hostname,
            p.addr,
            p.state,
            format!("{}ms", rtt),
            p.screen
        )));
    }
    let response = IpcResponse::Status { state: "active".to_string(), peers };
    assert_eq!(show_status(&response, &[1, 250]), expected);
}

#[test]
fn a_status_without_peers_says_so() {
    let response = IpcResponse::Status { state: "disconnected".to_string(), peers: vec![] };
    assert_eq!(
        show_status(&response, &[]),
        vec![out("State: disconnected"), out("No peers connected")]
    );
    let response = IpcResponse::Error { message: "gone".to_string() };
    assert_eq!(
        show_status(&response, &[]),
        vec![
            problem("Error: gone"),
            problem("Is the daemon running? Try: kmflow start")
        ]
    );
    let response = IpcResponse::Done { message: "fine".to_string() };
    assert_eq!(show_status(&response, &[]), vec![]);
}

#[test]
fn firewall_rules_name_the_port() {
    let expected = "# KMFlow firewall rules
# Run the appropriate command for your system:

# UFW (Ubuntu/Debian):
sudo ufw allow 4242/udp comment 'KMFlow QUIC'

# firewalld (Fedora/RHEL):
sudo firewall-cmd --permanent --add-port=4242/udp
sudo firewall-cmd --reload

# iptables:
sudo iptables -A INPUT -p udp --dport 4242 -j ACCEPT
";
    assert_eq!(firewall_rules(4242), expected);
}
