use kmflow::discovery::{
    build_announce, find_lan_info, is_172_private, parse_announce, parse_ipv4, IpAddress, Ipv4,
    LanInfo, PeerAddr, PeerRegistry, ANNOUNCE_INTERVAL_NS, DISCOVERY_PORT, MAGIC, PEER_TTL_NS,
};

#[test]
fn announce_roundtrip() {
    let pkt = build_announce("my-host", 4242, "sha256:abc123");
    let parsed = parse_announce(&pkt).unwrap();
    assert_eq!(parsed.0, "my-host");
    assert_eq!(parsed.1, 4242);
    assert_eq!(parsed.2, "sha256:abc123");
}

#[test]
fn announce_roundtrip_unicode_hostname() {
    let pkt = build_announce("我的电脑", 9999, "fp:xyz");
    let parsed = parse_announce(&pkt).unwrap();
    assert_eq!(parsed.0, "我的电脑");
    assert_eq!(parsed.1, 9999);
}

#[test]
fn parse_announce_too_short() {
    assert!(parse_announce(b"short").is_none());
}

#[test]
fn parse_announce_bad_magic() {
    let mut pkt = build_announce("host", 4242, "fp");
    pkt[0] = b'X'; // corrupt magic
    assert!(parse_announce(&pkt).is_none());
}

#[test]
fn parse_announce_empty_hostname() {
    // Build a packet with empty hostname
    let mut pkt = Vec::new();
    pkt.extend_from_slice(&MAGIC);
    pkt.extend_from_slice(&4242u16.to_be_bytes());
    pkt.push(2); // fingerprint len
    pkt.extend_from_slice(b"fp");
    // no hostname bytes
    assert!(parse_announce(&pkt).is_none());
}

#[test]
fn is_172_private_range() {
    assert!(is_172_private("172.16.0.1"));
    assert!(is_172_private("172.31.255.255"));
    assert!(!is_172_private("172.15.0.1"));
    assert!(!is_172_private("172.32.0.1"));
    assert!(!is_172_private("10.0.0.1"));
}

#[test]
fn announcements_have_their_layout() {
    assert_eq!(build_announce("h", 0x1234, "fp"), b"KMFLOW\x12\x34\x02fph".to_vec());
    assert_eq!(DISCOVERY_PORT, 4243);
    assert_eq!(ANNOUNCE_INTERVAL_NS, 3_000_000_000);
    assert_eq!(PEER_TTL_NS, 10_000_000_000);
}

#[test]
fn long_fingerprints_wrap_their_length() {
    let fp = "f".repeat(256);
    let pkt = build_announce("h", 1, &fp);
    assert_eq!(pkt[8], 0);
    let (host, _, fingerprint) = parse_announce(&pkt).unwrap();
    assert_eq!(fingerprint, "");
    assert_eq!(host, format!("{fp}h"));
    let fp = "f".repeat(255);
    let (host, port, fingerprint) = parse_announce(&build_announce("h", 1, &fp)).unwrap();
    assert_eq!((host.as_str(), port, fingerprint), ("h", 1, fp));
}

#[test]
fn broken_text_is_repaired() {
    let mut pkt = build_announce("host", 1, "fp");
    let last = pkt.len() - 1;
    pkt[last] = 0xff;
    assert_eq!(parse_announce(&pkt).unwrap().0, "hos\u{fffd}");
    pkt[8] = 200;
    assert_eq!(parse_announce(&pkt), None);
}

fn v4(a: u8, b: u8, c: u8, d: u8) -> Ipv4 {
    Ipv4 { a, b, c, d }
}

#[test]
fn addresses_have_four_plain_numbers() {
    for (s, expected) in [
        ("192.168.1.5", Some(v4(192, 168, 1, 5))),
        ("0.0.0.0", Some(v4(0, 0, 0, 0))),
        ("255.255.255.255", Some(v4(255, 255, 255, 255))),
        ("256.0.0.1", None),
        ("1.2.3", None),
        ("1.2.3.4.5", None),
        ("", None),
        ("01.2.3.4", None),
        ("1.2.3.04", None),
        ("+1.2.3.4", None),
        ("1..2.3", None),
        (" 1.2.3.4", None),
        ("a.b.c.d", None),
        ("1000.1.1.1", None),
        ("0.00.0.0", None),
    ] {
        let chars: Vec<char> = s.chars().collect();
        assert_eq!(parse_ipv4(&chars), expected);
    }
}

#[test]
fn the_first_private_interface_counts() {
    let listing = "1: lo    inet 127.0.0.1/8 scope host lo\\       valid_lft forever\n\
                   3: docker0    inet 172.17.0.1/16 brd 172.17.255.255 scope global docker0\n\
                   4: wan0    inet 8.8.8.8/24 brd 8.8.8.255 scope global wan0\n\
                   5: ppp0    inet 10.9.0.1/32 scope global ppp0 x y\n\
                   2: eth0    inet 192.168.66.99/24 brd 192.168.66.255 scope global eth0\n\
                   6: eth1    inet 10.0.0.5/8 brd 10.255.255.255 scope global eth1\n";
    assert_eq!(
        find_lan_info(listing),
        Some(LanInfo {
            local_addr: v4(192, 168, 66, 99),
            broadcast_addr: v4(192, 168, 66, 255)
        })
    );
    assert_eq!(find_lan_info(""), None);
    assert_eq!(find_lan_info("2: br-1: inet 10.0.0.5/8 brd 10.255.255.255 scope"), None);
    assert_eq!(
        find_lan_info("2: enp3s0 inet 172.20.0.5/16 brd 172.20.255.255 scope"),
        Some(LanInfo { local_addr: v4(172, 20, 0, 5), broadcast_addr: v4(172, 20, 255, 255) })
    );
}

#[test]
fn peers_are_reported_once_and_refreshed() {
    let mut registry = PeerRegistry::new();
    let ip = IpAddress::V4(v4(10, 0, 0, 2));
    let moved = IpAddress::V4(v4(10, 0, 0, 3));
    let pkt = build_announce("desk", 4242, "fp");
    assert_eq!(registry.on_packet("me", &pkt, ip, 5), Some(PeerAddr { ip, port: 4242 }));
    assert_eq!(registry.on_packet("me", &pkt, moved, 9), None);
    let peers = registry.get_peers();
    assert_eq!(peers.len(), 1);
    assert_eq!(peers[0].hostname, "desk");
    assert_eq!(peers[0].fingerprint, "fp");
    assert_eq!(peers[0].addr, PeerAddr { ip: moved, port: 4242 });
    assert_eq!(peers[0].last_seen, 9);
    let other = build_announce("desk", 4243, "fp");
    assert!(registry.on_packet("me", &other, ip, 9).is_some());
    assert_eq!(registry.get_peers().len(), 2);
}

#[test]
fn a_machine_does_not_discover_itself() {
    let mut registry = PeerRegistry::new();
    let ip = IpAddress::V6 { high: 1, low: 2 };
    assert_eq!(registry.on_packet("me", &build_announce("me", 4242, "fp"), ip, 5), None);
    assert_eq!(registry.on_packet("me", b"junk", ip, 5), None);
    assert!(registry.get_peers().is_empty());
}

#[test]
fn silent_peers_are_forgotten() {
    let mut registry = PeerRegistry::new();
    let ip = IpAddress::V4(v4(10, 0, 0, 2));
    registry.on_packet("me", &build_announce("a", 1, "fp"), ip, 0);
    registry.on_packet("me", &build_announce("b", 1, "fp"), ip, 1);
    registry.expire(PEER_TTL_NS - 1);
    assert_eq!(registry.get_peers().len(), 2);
    registry.expire(PEER_TTL_NS);
    let left = registry.get_peers();
    assert_eq!(left.len(), 1);
    assert_eq!(left[0].hostname, "b");
    assert!(registry.on_packet("me", &build_announce("a", 1, "fp"), ip, PEER_TTL_NS).is_some());
}
