//! Finding peers on the local network.
//!
//! Every machine broadcasts an announcement of itself every few seconds and
//! listens for those of others. A peer that falls silent is forgotten.
use crate::frame::append_bytes;
use crate::text::{
    after_prefix, before_char, decimal_of, decimal_reads_back, decimal_value,
    digits_are_the_number, first_parts_are_compared_whole, from_utf8_lossy, is_digit, lines,
    lines_of, numbers_have_no_leading_zero, parse_unsigned, parts_are_taken_one_by_one, parts_of,
    parts_stand_between_separators, prefixes_are_taken_away, same_text, split, starts_with,
    strip_prefix, texts_are_halved_at_a_character, to_chars, trailing_runs_are_taken_away,
    trim_end_char, unsigned_in, up_to_char, utf8_text, utf8_text_reads_back, views,
    without_trailing, words, words_of,
};
use vstd::prelude::*;
use vstd::slice::slice_subrange;
use vstd::string::*;
use vstd::utf8::encode_utf8;

verus! {

/// The port that announcements are sent to.
pub const DISCOVERY_PORT: u16 = 4243;

/// The time between two announcements, in nanoseconds.
pub const ANNOUNCE_INTERVAL_NS: u64 = 3_000_000_000;

/// How long a silent peer is remembered, in nanoseconds.
pub const PEER_TTL_NS: u64 = 10_000_000_000;

/// The bytes that every announcement begins with: `KMFLOW`.
pub const MAGIC: [u8; 6] = [0x4b, 0x4d, 0x46, 0x4c, 0x4f, 0x57];

/// An announcement: the magic bytes, the port with its higher byte first, the
/// length of the fingerprint as one byte, the fingerprint and the host name.
pub open spec fn announced(hostname: Seq<char>, port: u16, fingerprint: Seq<char>) -> Seq<u8> {
    MAGIC@ + seq![
        (port / 256) as u8,
        (port % 256) as u8,
        (encode_utf8(fingerprint).len() % 256) as u8,
    ] + encode_utf8(fingerprint) + encode_utf8(hostname)
}

/// The announcement of a machine.
pub fn build_announce(hostname: &str, port: u16, fingerprint: &str) -> (r: Vec<u8>)
    ensures
        r@ == announced(hostname@, port, fingerprint@),
{
    let fp = fingerprint.as_bytes();
    let magic = MAGIC;
    let mut pkt: Vec<u8> = Vec::new();
    append_bytes(&mut pkt, magic.as_slice());
    pkt.push((port / 256) as u8);
    pkt.push((port % 256) as u8);
    pkt.push((fp.len() % 256) as u8);
    append_bytes(&mut pkt, fp);
    append_bytes(&mut pkt, hostname.as_bytes());
    assert(pkt@ == announced(hostname@, port, fingerprint@));
    pkt
}

/// What an announcement says: host name, port and fingerprint. It says nothing
/// if it lacks the magic bytes, is shorter than it claims, or names no host.
pub open spec fn parsed_announce(data: Seq<u8>) -> Option<(Seq<char>, u16, Seq<char>)> {
    if data.len() < 9 || data.take(6) != MAGIC@ || data.len() < 9 + data[8] || data.len() == 9
        + data[8] {
        None
    } else {
        Some(
            (
                utf8_text(data.skip(9 + data[8])),
                (data[6] * 256 + data[7]) as u16,
                utf8_text(data.subrange(9, 9 + data[8])),
            ),
        )
    }
}

fn has_magic(data: &[u8]) -> (r: bool)
    requires
        data@.len() >= 6,
    ensures
        r == (data@.take(6) == MAGIC@),
{
    let magic = MAGIC;
    let mut i: usize = 0;
    while i < 6
        invariant
            i <= 6,
            data@.len() >= 6,
            magic@ == MAGIC@,
            forall|j: int| 0 <= j < i ==> data@[j] == MAGIC@[j],
        decreases 6 - i,
    {
        if data[i] != magic[i] {
            assert(data@.take(6)[i as int] != MAGIC@[i as int]);
            return false;
        }
        i += 1;
    }
    assert(data@.take(6) == MAGIC@);
    true
}

/// Reads an announcement.
pub fn parse_announce(data: &[u8]) -> (r: Option<(String, u16, String)>)
    ensures
        r is Some <==> parsed_announce(data@) is Some,
        r matches Some((hostname, port, fingerprint)) ==> parsed_announce(data@) == Some(
            (hostname@, port, fingerprint@),
        ),
        r matches Some((hostname, _, _)) ==> hostname@.len() > 0,
{
    if data.len() < 9 || !has_magic(data) {
        return None;
    }
    let port: u16 = data[6] as u16 * 256 + data[7] as u16;
    let fp_len = data[8] as usize;
    if data.len() < 9 + fp_len {
        return None;
    }
    let fp = slice_subrange(data, 9, 9 + fp_len);
    let host = slice_subrange(data, 9 + fp_len, data.len());
    assert(host@ == data@.skip(9 + data@[8]));
    let fingerprint = from_utf8_lossy(fp);
    let hostname = from_utf8_lossy(host);
    if hostname.as_str().is_empty() {
        return None;
    }
    Some((hostname, port, fingerprint))
}

/// An announcement is read back as it was made, if the fingerprint is at most
/// 255 bytes long (its length is one byte) and there is a host name.
pub proof fn announce_reads_back(hostname: Seq<char>, port: u16, fingerprint: Seq<char>)
    requires
        encode_utf8(fingerprint).len() <= 255,
        hostname.len() > 0,
    ensures
        parsed_announce(announced(hostname, port, fingerprint)) == Some(
            (hostname, port, fingerprint),
        ),
{
    let data = announced(hostname, port, fingerprint);
    let fp = encode_utf8(fingerprint);
    let host = encode_utf8(hostname);
    utf8_text_reads_back(hostname);
    utf8_text_reads_back(fingerprint);
    vstd::utf8::encode_utf8_first_scalar(hostname);
    assert(host.len() > 0);
    assert(data.take(6) == MAGIC@);
    assert(data[6] == (port / 256) as u8);
    assert(data[7] == (port % 256) as u8);
    assert(data[8] == fp.len());
    assert(data.subrange(9, 9 + data[8]) == fp);
    assert(data.skip(9 + data[8]) == host);
}

/// An IPv4 address.
#[derive(Debug, Clone, Copy, PartialEq, Eq, Structural)]
pub struct Ipv4 {
    pub a: u8,
    pub b: u8,
    pub c: u8,
    pub d: u8,
}

/// The number that a part of an IPv4 address spells: one to three digits, no
/// leading zero, at most 255.
pub open spec fn octet_in(s: Seq<char>) -> Option<u8> {
    if 1 <= s.len() <= 3 && (forall|i: int| 0 <= i < s.len() ==> is_digit(s[i])) && (s.len() > 1
        ==> s[0] != '0') && decimal_value(s) <= 255 {
        Some(decimal_value(s) as u8)
    } else {
        None
    }
}

/// The IPv4 address that `s` spells: four numbers with dots between them.
pub open spec fn ipv4_in(s: Seq<char>) -> Option<Ipv4> {
    let p = parts_of(s, '.');
    if p.len() == 4 && octet_in(p[0]) is Some && octet_in(p[1]) is Some && octet_in(p[2]) is Some
        && octet_in(p[3]) is Some {
        Some(
            Ipv4 {
                a: octet_in(p[0])->0,
                b: octet_in(p[1])->0,
                c: octet_in(p[2])->0,
                d: octet_in(p[3])->0,
            },
        )
    } else {
        None
    }
}

fn parse_octet(s: &[char]) -> (r: Option<u8>)
    ensures
        r == octet_in(s@),
{
    let n = s.len();
    if n < 1 || n > 3 {
        return None;
    }
    if s[0] == '+' || (n > 1 && s[0] == '0') {
        assert(!is_digit('+'));
        return None;
    }
    match parse_unsigned(s, 255) {
        Some(v) => Some(v as u8),
        None => None,
    }
}

/// Reads an IPv4 address in its usual notation.
pub fn parse_ipv4(s: &[char]) -> (r: Option<Ipv4>)
    ensures
        r == ipv4_in(s@),
{
    let p = split(s, '.');
    assert(p@.len() == parts_of(s@, '.').len());
    if p.len() != 4 {
        return None;
    }
    assert(forall|i: int| 0 <= i < 4 ==> views(p@)[i] == (#[trigger] p@[i])@);
    match (parse_octet(p[0]), parse_octet(p[1]), parse_octet(p[2]), parse_octet(p[3])) {
        (Some(a), Some(b), Some(c), Some(d)) => Some(Ipv4 { a, b, c, d }),
        _ => None,
    }
}

/// Whether the text begins like an address in `172.16.0.0/12`: `172.` and then a
/// number from 16 to 31.
pub open spec fn is_172_private_text(s: Seq<char>) -> bool {
    match after_prefix(s, "172."@) {
        Some(rest) => match unsigned_in(before_char(rest, '.'), 255) {
            Some(n) => 16 <= n <= 31,
            None => false,
        },
        None => false,
    }
}

fn is_172(s: &[char]) -> (r: bool)
    ensures
        r == is_172_private_text(s@),
{
    match strip_prefix(s, "172.") {
        Some(rest) => match parse_unsigned(up_to_char(rest, '.'), 255) {
            Some(n) => 16 <= n && n <= 31,
            None => false,
        },
        None => false,
    }
}

/// Whether an address is in the private range `172.16.0.0/12`.
pub fn is_172_private(addr: &str) -> (r: bool)
    ensures
        r == is_172_private_text(addr@),
{
    let chars = to_chars(addr);
    is_172(chars.as_slice())
}

/// Where a machine is on its local network.
#[derive(Debug, Clone, Copy, PartialEq, Eq, Structural)]
pub struct LanInfo {
    pub local_addr: Ipv4,
    pub broadcast_addr: Ipv4,
}

/// Whether a network interface is no physical one, by its name.
pub open spec fn is_virtual(iface: Seq<char>) -> bool {
    ||| iface == "lo"@
    ||| "docker"@.is_prefix_of(iface)
    ||| "br-"@.is_prefix_of(iface)
    ||| "veth"@.is_prefix_of(iface)
    ||| "virbr"@.is_prefix_of(iface)
}

/// Whether an address is a private one, by how it begins.
pub open spec fn is_private(addr: Seq<char>) -> bool {
    ||| "192.168."@.is_prefix_of(addr)
    ||| "10."@.is_prefix_of(addr)
    ||| is_172_private_text(addr)
}

/// The word after the first word `brd`.
pub open spec fn broadcast_word(w: Seq<Seq<char>>) -> Option<Seq<char>>
    decreases w.len(),
{
    if w.len() < 2 {
        None
    } else if w[0] == "brd"@ {
        Some(w[1])
    } else {
        broadcast_word(w.drop_first())
    }
}

/// What a line of the output of `ip -4 -o addr show` says of the local network,
/// such as `2: eth0    inet 192.168.66.99/24 brd 192.168.66.255 ...`.
pub open spec fn lan_in_line(line: Seq<char>) -> Option<LanInfo> {
    let w = words_of(line);
    let addr = before_char(w[3], '/');
    if w.len() < 6 || is_virtual(without_trailing(w[1], ':')) || !is_private(addr) {
        None
    } else {
        match (ipv4_in(addr), broadcast_word(w)) {
            (Some(local_addr), Some(brd)) => match ipv4_in(brd) {
                Some(broadcast_addr) => Some(LanInfo { local_addr, broadcast_addr }),
                None => None,
            },
            _ => None,
        }
    }
}

/// What the first line that says anything says.
pub open spec fn first_lan(ls: Seq<Seq<char>>) -> Option<LanInfo>
    decreases ls.len(),
{
    if ls.len() == 0 {
        None
    } else {
        match lan_in_line(ls[0]) {
            Some(info) => Some(info),
            None => first_lan(ls.drop_first()),
        }
    }
}

fn find_broadcast(w: &Vec<&[char]>) -> (r: Option<usize>)
    ensures
        r is Some <==> broadcast_word(views(w@)) is Some,
        r matches Some(i) ==> i < w@.len() && broadcast_word(views(w@)) == Some(w@[i as int]@),
{
    let n = w.len();
    if n == 0 {
        return None;
    }
    let ghost v = views(w@);
    let mut i: usize = 0;
    assert(v.skip(0) == v);
    while i < n - 1
        invariant
            i <= n - 1,
            n == w@.len(),
            v == views(w@),
            broadcast_word(v) == broadcast_word(v.skip(i as int)),
        decreases n - i,
    {
        assert(v[i as int] == w@[i as int]@);
        assert(v.skip(i as int)[0] == v[i as int]);
        assert(v.skip(i as int)[1] == v[i + 1]);
        assert(v.skip(i as int).drop_first() == v.skip(i + 1));
        if same_text(w[i], "brd") {
            assert(v[i + 1] == w@[i + 1]@);
            return Some(i + 1);
        }
        i += 1;
    }
    None
}

fn lan_line(line: &[char]) -> (r: Option<LanInfo>)
    ensures
        r == lan_in_line(line@),
{
    let w = words(line);
    let ghost v = words_of(line@);
    assert(views(w@) == v);
    assert(w@.len() == v.len());
    if w.len() < 6 {
        return None;
    }
    assert(v[1] == w@[1]@ && v[3] == w@[3]@);
    let iface = trim_end_char(w[1], ':');
    let addr = up_to_char(w[3], '/');
    if same_text(iface, "lo") || starts_with(iface, "docker") || starts_with(iface, "br-")
        || starts_with(iface, "veth") || starts_with(iface, "virbr") {
        return None;
    }
    if !(starts_with(addr, "192.168.") || starts_with(addr, "10.") || is_172(addr)) {
        return None;
    }
    match (parse_ipv4(addr), find_broadcast(&w)) {
        (Some(local_addr), Some(i)) => match parse_ipv4(w[i]) {
            Some(broadcast_addr) => Some(LanInfo { local_addr, broadcast_addr }),
            None => None,
        },
        _ => None,
    }
}

/// Finds the local network in the output of `ip -4 -o addr show`: the first
/// physical interface with a private address and a broadcast address.
pub fn find_lan_info(listing: &str) -> (r: Option<LanInfo>)
    ensures
        r == first_lan(lines_of(listing@)),
{
    let chars = to_chars(listing);
    let ls = lines(chars.as_slice());
    let ghost v = lines_of(listing@);
    let n = ls.len();
    let mut i: usize = 0;
    assert(v.skip(0) == v);
    while i < n
        invariant
            i <= n,
            n == ls@.len(),
            v == views(ls@),
            v == lines_of(listing@),
            first_lan(v) == first_lan(v.skip(i as int)),
        decreases n - i,
    {
        assert(v.skip(i as int)[0] == ls@[i as int]@);
        assert(v.skip(i as int).drop_first() == v.skip(i + 1));
        let found = lan_line(ls[i]);
        if found.is_some() {
            return found;
        }
        i += 1;
    }
    assert(v.skip(n as int).len() == 0);
    None
}

/// An address on the network.
#[derive(Debug, Clone, Copy, PartialEq, Eq, Structural)]
pub enum IpAddress {
    V4(Ipv4),
    V6 { high: u64, low: u64 },
}

/// Where a peer takes connections.
#[derive(Debug, Clone, Copy, PartialEq, Eq, Structural)]
pub struct PeerAddr {
    pub ip: IpAddress,
    pub port: u16,
}

/// A peer that announced itself. Times are in nanoseconds on the program's
/// clock.
#[derive(Debug, PartialEq, Eq)]
pub struct DiscoveredPeer {
    pub hostname: String,
    pub addr: PeerAddr,
    pub fingerprint: String,
    pub last_seen: u64,
}

impl Clone for DiscoveredPeer {
    fn clone(&self) -> (r: Self)
        ensures
            r == *self,
    {
        DiscoveredPeer {
            hostname: self.hostname.clone(),
            addr: self.addr,
            fingerprint: self.fingerprint.clone(),
            last_seen: self.last_seen,
        }
    }
}

/// What is remembered of a peer besides its name and port.
pub struct PeerRecord {
    pub ip: IpAddress,
    pub fingerprint: Seq<char>,
    pub last_seen: u64,
}

impl DiscoveredPeer {
    /// What tells peers apart: the host name and the port.
    pub open spec fn key(self) -> (Seq<char>, u16) {
        (self.hostname@, self.addr.port)
    }

    pub open spec fn record(self) -> PeerRecord {
        PeerRecord {
            ip: self.addr.ip,
            fingerprint: self.fingerprint@,
            last_seen: self.last_seen,
        }
    }
}

/// Whether no two peers have the same name and port.
pub open spec fn distinct_keys(peers: Seq<DiscoveredPeer>) -> bool {
    forall|i: int, j: int|
        0 <= i < j < peers.len() ==> (#[trigger] peers[i]).key() != (#[trigger] peers[j]).key()
}

/// Whether a list of peers holds exactly what a table does, each entry once.
pub open spec fn tabulates(
    peers: Seq<DiscoveredPeer>,
    table: Map<(Seq<char>, u16), PeerRecord>,
) -> bool {
    &&& distinct_keys(peers)
    &&& forall|i: int|
        0 <= i < peers.len() ==> table.contains_key((#[trigger] peers[i]).key())
            && table[peers[i].key()] == peers[i].record()
    &&& forall|k: (Seq<char>, u16)| #[trigger]
        table.contains_key(k) ==> exists|i: int|
            0 <= i < peers.len() && (#[trigger] peers[i]).key() == k
}

/// Two tables of the same list are the same table.
proof fn lemma_one_table(
    peers: Seq<DiscoveredPeer>,
    a: Map<(Seq<char>, u16), PeerRecord>,
    b: Map<(Seq<char>, u16), PeerRecord>,
)
    requires
        tabulates(peers, a),
        tabulates(peers, b),
    ensures
        a == b,
{
    assert forall|k: (Seq<char>, u16)| a.contains_key(k) == b.contains_key(k) by {
        if a.contains_key(k) {
            let i = choose|i: int| 0 <= i < peers.len() && (#[trigger] peers[i]).key() == k;
            assert(b.contains_key(peers[i].key()));
        }
        if b.contains_key(k) {
            let i = choose|i: int| 0 <= i < peers.len() && (#[trigger] peers[i]).key() == k;
            assert(a.contains_key(peers[i].key()));
        }
    }
    assert forall|k: (Seq<char>, u16)| a.contains_key(k) implies #[trigger] a[k] == b[k] by {
        let i = choose|i: int| 0 <= i < peers.len() && (#[trigger] peers[i]).key() == k;
        assert(a[peers[i].key()] == peers[i].record());
        assert(b[peers[i].key()] == peers[i].record());
    }
    assert(a == b);
}

/// The peers that were heard of lately.
pub struct PeerRegistry {
    peers: Vec<DiscoveredPeer>,
}

/// Whether a peer was heard of less than the time to live ago.
pub open spec fn is_fresh(record: PeerRecord, now: u64) -> bool {
    now - record.last_seen < PEER_TTL_NS
}

/// The table after an announcement, and the peer that was not known before.
pub open spec fn heard(
    table: Map<(Seq<char>, u16), PeerRecord>,
    own_name: Seq<char>,
    data: Seq<u8>,
    ip: IpAddress,
    now: u64,
) -> (Map<(Seq<char>, u16), PeerRecord>, Option<PeerAddr>) {
    match parsed_announce(data) {
        Some((hostname, port, fingerprint)) => {
            let key = (hostname, port);
            if hostname == own_name {
                (table, None)
            } else if table.contains_key(key) {
                (table.insert(key, PeerRecord { ip, last_seen: now, ..table[key] }), None)
            } else {
                (
                    table.insert(key, PeerRecord { ip, fingerprint, last_seen: now }),
                    Some(PeerAddr { ip, port }),
                )
            }
        },
        None => (table, None),
    }
}

impl PeerRegistry {
    /// The peers by name and port.
    pub closed spec fn table(&self) -> Map<(Seq<char>, u16), PeerRecord> {
        Map::new(
            |k: (Seq<char>, u16)|
                exists|i: int| 0 <= i < self.peers@.len() && (#[trigger] self.peers@[i]).key() == k,
            |k: (Seq<char>, u16)|
                self.peers@[choose|i: int|
                    0 <= i < self.peers@.len() && (#[trigger] self.peers@[i]).key() == k].record(),
        )
    }

    #[verifier::type_invariant]
    spec fn wf(&self) -> bool {
        distinct_keys(self.peers@)
    }

    proof fn lemma_tabulates(&self)
        requires
            distinct_keys(self.peers@),
        ensures
            tabulates(self.peers@, self.table()),
    {
        assert forall|i: int| 0 <= i < self.peers@.len() implies self.table().contains_key(
            (#[trigger] self.peers@[i]).key(),
        ) && self.table()[self.peers@[i].key()] == self.peers@[i].record() by {
            let key = self.peers@[i].key();
            let k = choose|k: int|
                0 <= k < self.peers@.len() && (#[trigger] self.peers@[k]).key() == key;
            if k < i {
                assert(self.peers@[k].key() != self.peers@[i].key());
            } else if i < k {
                assert(self.peers@[i].key() != self.peers@[k].key());
            }
        }
    }

    pub fn new() -> (r: Self)
        ensures
            r.table() == Map::<(Seq<char>, u16), PeerRecord>::empty(),
    {
        let r = PeerRegistry { peers: Vec::new() };
        assert(r.table() == Map::<(Seq<char>, u16), PeerRecord>::empty());
        r
    }

    /// A packet came from the given address: enters a new peer or refreshes a
    /// known one, and gives the address of a new one. The machine's own
    /// announcements and other packets change nothing.
    pub fn on_packet(&mut self, own_name: &str, data: &[u8], ip: IpAddress, now: u64) -> (r: Option<
        PeerAddr,
    >)
        ensures
            (final(self).table(), r) == heard(old(self).table(), own_name@, data@, ip, now),
    {
        proof {
            use_type_invariant(&*self);
            self.lemma_tabulates();
        }
        let ghost before = self.peers@;
        let ghost table = self.table();
        let (hostname, port, fingerprint) = match parse_announce(data) {
            Some(a) => a,
            None => {
                return None;
            },
        };
        let own = own_name.to_owned();
        if hostname == own {
            return None;
        }
        let ghost key = (hostname@, port);
        let n = self.peers.len();
        let mut i: usize = 0;
        while i < n
            invariant
                i <= n,
                n == self.peers@.len(),
                self.peers@ == before,
                key == (hostname@, port),
                forall|j: int| 0 <= j < i ==> (#[trigger] before[j]).key() != key,
            ensures
                i < n ==> before[i as int].key() == key,
            decreases n - i,
        {
            if self.peers[i].addr.port == port && self.peers[i].hostname == hostname {
                break;
            }
            i += 1;
        }
        let mut peers: Vec<DiscoveredPeer> = Vec::new();
        std::mem::swap(&mut peers, &mut self.peers);
        let addr = PeerAddr { ip, port };
        let fresh;
        if i < n {
            let entry = DiscoveredPeer {
                hostname,
                addr,
                fingerprint: peers[i].fingerprint.clone(),
                last_seen: now,
            };
            proof {
                assert(table.contains_key(before[i as int].key()));
                assert(entry.record() == (PeerRecord { ip, last_seen: now, ..table[key] }));
            }
            peers[i] = entry;
            fresh = None;
        } else {
            proof {
                if table.contains_key(key) {
                    let k = choose|k: int| 0 <= k < before.len() && (#[trigger] before[k]).key() == key;
                    assert(before[k].key() != key);
                }
            }
            peers.push(DiscoveredPeer { hostname, addr, fingerprint, last_seen: now });
            fresh = Some(addr);
        }
        let ghost after = heard(table, own_name@, data@, ip, now).0;
        assert(tabulates(peers@, after)) by {
            let entry = peers@[i as int];
            assert(entry.key() == key);
            assert(after == table.insert(key, entry.record()));
            assert forall|a: int, b: int| 0 <= a < b < peers@.len() implies (
            #[trigger] peers@[a]).key() != (#[trigger] peers@[b]).key() by {
                if a != i {
                    assert(peers@[a] == before[a]);
                }
                if b != i {
                    assert(peers@[b] == before[b]);
                }
                if a < before.len() && b < before.len() {
                    assert(before[a].key() != before[b].key());
                }
            }
            assert forall|a: int| 0 <= a < peers@.len() implies after.contains_key(
                (#[trigger] peers@[a]).key(),
            ) && after[peers@[a].key()] == peers@[a].record() by {
                if a != i {
                    assert(peers@[a] == before[a]);
                    assert(table[before[a].key()] == before[a].record());
                    if a < i {
                        assert(peers@[a].key() != peers@[i as int].key());
                    } else {
                        assert(peers@[i as int].key() != peers@[a].key());
                    }
                }
            }
            assert forall|k: (Seq<char>, u16)| #[trigger]
                after.contains_key(k) implies exists|a: int|
                0 <= a < peers@.len() && (#[trigger] peers@[a]).key() == k by {
                if k == key {
                    assert(peers@[i as int].key() == k);
                } else {
                    assert(table.contains_key(k));
                    let a = choose|a: int| 0 <= a < before.len() && (#[trigger] before[a]).key() == k;
                    assert(peers@[a] == before[a]);
                }
            }
        }
        self.peers = peers;
        proof {
            self.lemma_tabulates();
            lemma_one_table(self.peers@, self.table(), after);
        }
        fresh
    }

    /// Forgets the peers that have been silent for too long.
    pub fn expire(&mut self, now: u64)
        ensures
            forall|k: (Seq<char>, u16)| #[trigger]
                final(self).table().contains_key(k) <==> old(self).table().contains_key(k)
                    && is_fresh(old(self).table()[k], now),
            forall|k: (Seq<char>, u16)| #[trigger]
                final(self).table().contains_key(k) ==> final(self).table()[k]
                    == old(self).table()[k],
    {
        proof {
            use_type_invariant(&*self);
            self.lemma_tabulates();
        }
        let ghost before = self.peers@;
        let ghost table = self.table();
        let n = self.peers.len();
        let mut kept: Vec<DiscoveredPeer> = Vec::new();
        let mut i: usize = 0;
        while i < n
            invariant
                i <= n,
                n == self.peers@.len(),
                self.peers@ == before,
                distinct_keys(before),
                distinct_keys(kept@),
                forall|a: int|
                    0 <= a < kept@.len() ==> is_fresh((#[trigger] kept@[a]).record(), now) && exists|
                        b: int,
                    |
                        0 <= b < i && #[trigger] before[b] == kept@[a],
                forall|b: int|
                    0 <= b < i && is_fresh((#[trigger] before[b]).record(), now) ==> exists|a: int|
                        0 <= a < kept@.len() && #[trigger] kept@[a] == before[b],
            decreases n - i,
        {
            let ghost earlier = kept@;
            let p = self.peers[i].clone();
            let age = if now >= p.last_seen { now - p.last_seen } else { 0 };
            if age < PEER_TTL_NS {
                kept.push(p);
                assert(kept@[earlier.len() as int] == before[i as int]);
                assert forall|a: int, b: int| 0 <= a < b < kept@.len() implies (
                #[trigger] kept@[a]).key() != (#[trigger] kept@[b]).key() by {
                    assert(kept@[a] == earlier[a]);
                    let c = choose|c: int| 0 <= c < i && #[trigger] before[c] == earlier[a];
                    if b < earlier.len() {
                        assert(kept@[b] == earlier[b]);
                    } else {
                        assert(before[c].key() != before[i as int].key());
                    }
                }
            }
            assert forall|b: int|
                0 <= b < i + 1 && is_fresh((#[trigger] before[b]).record(), now) implies exists|a: int|
                0 <= a < kept@.len() && #[trigger] kept@[a] == before[b] by {
                if b < i {
                    let a = choose|a: int| 0 <= a < earlier.len() && #[trigger] earlier[a] == before[b];
                    assert(kept@[a] == before[b]);
                } else {
                    assert(kept@[earlier.len() as int] == before[b]);
                }
            }
            assert forall|a: int| 0 <= a < kept@.len() implies is_fresh(
                (#[trigger] kept@[a]).record(),
                now,
            ) && exists|b: int| 0 <= b < i + 1 && #[trigger] before[b] == kept@[a] by {
                if a < earlier.len() {
                    assert(kept@[a] == earlier[a]);
                    let b = choose|b: int| 0 <= b < i && #[trigger] before[b] == earlier[a];
                    assert(before[b] == kept@[a]);
                } else {
                    assert(before[i as int] == kept@[a]);
                }
            }
            i += 1;
        }
        self.peers = kept;
        proof {
            self.lemma_tabulates();
            let after = self.table();
            assert forall|k: (Seq<char>, u16)| #[trigger] after.contains_key(k) <==> table.contains_key(
                k,
            ) && is_fresh(table[k], now) by {
                if after.contains_key(k) {
                    let a = choose|a: int|
                        0 <= a < self.peers@.len() && (#[trigger] self.peers@[a]).key() == k;
                    let b = choose|b: int| 0 <= b < n && #[trigger] before[b] == self.peers@[a];
                    assert(table.contains_key(before[b].key()));
                }
                if table.contains_key(k) && is_fresh(table[k], now) {
                    let b = choose|b: int| 0 <= b < before.len() && (#[trigger] before[b]).key() == k;
                    assert(table[before[b].key()] == before[b].record());
                    let a = choose|a: int|
                        0 <= a < self.peers@.len() && #[trigger] self.peers@[a] == before[b];
                    assert(after.contains_key(self.peers@[a].key()));
                }
            }
            assert forall|k: (Seq<char>, u16)| #[trigger] after.contains_key(k) implies after[k]
                == table[k] by {
                let a = choose|a: int|
                    0 <= a < self.peers@.len() && (#[trigger] self.peers@[a]).key() == k;
                let b = choose|b: int| 0 <= b < n && #[trigger] before[b] == self.peers@[a];
                assert(table[before[b].key()] == before[b].record());
                assert(after[self.peers@[a].key()] == self.peers@[a].record());
            }
        }
    }

    /// A copy of every peer.
    pub fn get_peers(&self) -> (r: Vec<DiscoveredPeer>)
        ensures
            tabulates(r@, self.table()),
    {
        proof {
            use_type_invariant(self);
            self.lemma_tabulates();
        }
        let mut r: Vec<DiscoveredPeer> = Vec::new();
        let n = self.peers.len();
        let mut i: usize = 0;
        while i < n
            invariant
                i <= n,
                n == self.peers@.len(),
                r@ == self.peers@.take(i as int),
            decreases n - i,
        {
            r.push(self.peers[i].clone());
            assert(self.peers@.take(i + 1) == self.peers@.take(i as int).push(
                self.peers@[i as int],
            ));
            i += 1;
        }
        assert(self.peers@.take(n as int) == self.peers@);
        r
    }
}

/// A peer is reported as new once: hearing it again before it expires reports
/// nothing.
pub proof fn peers_are_reported_once(
    table: Map<(Seq<char>, u16), PeerRecord>,
    own_name: Seq<char>,
    data: Seq<u8>,
    ip: IpAddress,
    now: u64,
    ip2: IpAddress,
    later: u64,
)
    ensures
        heard(heard(table, own_name, data, ip, now).0, own_name, data, ip2, later).1 is None,
{
}

/// A machine never discovers itself.
pub proof fn own_announcements_are_ignored(
    table: Map<(Seq<char>, u16), PeerRecord>,
    own_name: Seq<char>,
    port: u16,
    fingerprint: Seq<char>,
    ip: IpAddress,
    now: u64,
)
    requires
        encode_utf8(fingerprint).len() <= 255,
    ensures
        heard(table, own_name, announced(own_name, port, fingerprint), ip, now) == (
            table,
            None::<PeerAddr>,
        ),
{
    if own_name.len() > 0 {
        announce_reads_back(own_name, port, fingerprint);
    } else {
        let data = announced(own_name, port, fingerprint);
        assert(encode_utf8(own_name).len() == 0);
        assert(data[8] == encode_utf8(fingerprint).len());
        assert(data.len() == 9 + data[8]);
    }
}

/// A peer's announcement makes it known under its own name, port and
/// fingerprint, unless it was known already.
pub proof fn announcements_are_heard(
    table: Map<(Seq<char>, u16), PeerRecord>,
    own_name: Seq<char>,
    hostname: Seq<char>,
    port: u16,
    fingerprint: Seq<char>,
    ip: IpAddress,
    now: u64,
)
    requires
        encode_utf8(fingerprint).len() <= 255,
        hostname.len() > 0,
        hostname != own_name,
        !table.contains_key((hostname, port)),
    ensures
        heard(table, own_name, announced(hostname, port, fingerprint), ip, now) == (
            table.insert((hostname, port), PeerRecord { ip, fingerprint, last_seen: now }),
            Some(PeerAddr { ip, port }),
        ),
{
    announce_reads_back(hostname, port, fingerprint);
}

/// An address in its usual notation.
pub open spec fn ipv4_text(ip: Ipv4) -> Seq<char> {
    decimal_of(ip.a as int) + seq!['.'] + decimal_of(ip.b as int) + seq!['.'] + decimal_of(
        ip.c as int,
    ) + seq!['.'] + decimal_of(ip.d as int)
}

proof fn lemma_octet(n: u8)
    ensures
        octet_in(decimal_of(n as int)) == Some(n),
        !decimal_of(n as int).contains('.'),
        !decimal_of(n as int).contains('/'),
        decimal_of(n as int).len() > 0,
        is_digit(decimal_of(n as int)[0]),
        unsigned_in(decimal_of(n as int), 255) == Some(n as int),
{
    let s = decimal_of(n as int);
    decimal_reads_back(n as int);
    numbers_have_no_leading_zero(n as int);
    numbers_have_no_leading_zero(n as int / 10);
    assert(is_digit(s[0]));
    if n >= 10 {
        assert(n < 100 ==> decimal_of(n as int / 10).len() == 1);
        if n >= 100 {
            numbers_have_no_leading_zero(n as int / 10 / 10);
            assert(decimal_of(n as int / 10).len() == 2);
        }
    }
    assert forall|i: int| 0 <= i < s.len() implies s[i] != '.' && s[i] != '/' && is_digit(s[i]) by {
        assert(is_digit(s[i]));
    }
}

proof fn lemma_octet_text(s: Seq<char>)
    requires
        octet_in(s) is Some,
    ensures
        s == decimal_of(octet_in(s)->0 as int),
{
    digits_are_the_number(s);
}

/// An address is read exactly from its usual notation: four numbers from 0 to 255,
/// without leading zeros, with dots between them.
pub proof fn addresses_have_one_notation(ip: Ipv4, s: Seq<char>)
    ensures
        ipv4_in(ipv4_text(ip)) == Some(ip),
        ipv4_in(s) == Some(ip) <==> s == ipv4_text(ip),
{
    let a = decimal_of(ip.a as int);
    let b = decimal_of(ip.b as int);
    let c = decimal_of(ip.c as int);
    let d = decimal_of(ip.d as int);
    lemma_octet(ip.a);
    lemma_octet(ip.b);
    lemma_octet(ip.c);
    lemma_octet(ip.d);
    let e = Seq::<char>::empty();
    parts_stand_between_separators(d, '.', e);
    parts_stand_between_separators(c, '.', d);
    parts_stand_between_separators(b, '.', c.push('.') + d);
    parts_stand_between_separators(a, '.', b.push('.') + (c.push('.') + d));
    assert(ipv4_text(ip) == a.push('.') + (b.push('.') + (c.push('.') + d)));
    assert(parts_of(ipv4_text(ip), '.') == seq![a, b, c, d]);
    if ipv4_in(s) == Some(ip) {
        let p = parts_of(s, '.');
        let rest = lemma_parts_of_address(s);
        assert(s == p[0].push('.') + (p[1].push('.') + rest));
        lemma_octet_text(p[0]);
        lemma_octet_text(p[1]);
        lemma_octet_text(p[2]);
        lemma_octet_text(p[3]);
        assert(rest == c.push('.') + d);
        assert(s == ipv4_text(ip));
    }
}

proof fn lemma_parts_of_address(s: Seq<char>) -> (rest: Seq<char>)
    requires
        parts_of(s, '.').len() == 4,
    ensures
        ({
            let p = parts_of(s, '.');
            &&& s == p[0].push('.') + (p[1].push('.') + rest)
            &&& rest == p[2].push('.') + p[3]
            &&& !p[0].contains('.')
            &&& !p[1].contains('.')
        }),
{
    let p = parts_of(s, '.');
    parts_are_taken_one_by_one(s, '.');
    let r1 = choose|rest: Seq<char>|
        s == p[0].push('.') + rest && #[trigger] parts_of(rest, '.') == p.drop_first();
    parts_are_taken_one_by_one(r1, '.');
    let p1 = parts_of(r1, '.');
    let r2 = choose|rest: Seq<char>|
        r1 == p1[0].push('.') + rest && #[trigger] parts_of(rest, '.') == p1.drop_first();
    parts_are_taken_one_by_one(r2, '.');
    let p2 = parts_of(r2, '.');
    let r3 = choose|rest: Seq<char>|
        r2 == p2[0].push('.') + rest && #[trigger] parts_of(rest, '.') == p2.drop_first();
    parts_are_taken_one_by_one(r3, '.');
    assert(p1[0] == p[1]);
    assert(p2[0] == p[2]);
    assert(parts_of(r3, '.')[0] == p[3]);
    assert(parts_of(r3, '.').len() == 1);
    r2
}

/// What an address of private networks is, by its numbers: `10.0.0.0/8`,
/// `192.168.0.0/16` and `172.16.0.0/12`. Every text that is an address is judged so.
pub proof fn private_addresses_are_ranges(s: Seq<char>)
    requires
        ipv4_in(s) is Some,
    ensures
        ({
            let ip = ipv4_in(s)->0;
            is_private(s) <==> ip.a == 10 || (ip.a == 192 && ip.b == 168) || (ip.a == 172 && 16
                <= ip.b <= 31)
        }),
        ({
            let ip = ipv4_in(s)->0;
            is_172_private_text(s) <==> ip.a == 172 && 16 <= ip.b <= 31
        }),
{
    let ip = ipv4_in(s)->0;
    let p = parts_of(s, '.');
    let rest = lemma_parts_of_address(s);
    let tail = p[1].push('.') + rest;
    lemma_octet_text(p[0]);
    lemma_octet_text(p[1]);
    lemma_octet(ip.a);
    lemma_octet(ip.b);
    lemma_octet(10);
    lemma_octet(172);
    lemma_octet(192);
    lemma_octet(168);
    reveal_strlit("10.");
    reveal_strlit("172.");
    reveal_strlit("192.168.");
    reveal_with_fuel(crate::text::decimal_of, 4);
    let ten = decimal_of(10);
    let other = decimal_of(172);
    let home = decimal_of(192);
    let lan = decimal_of(168);
    assert(ten == seq!['1', '0']);
    assert(other == seq!['1', '7', '2']);
    assert(home == seq!['1', '9', '2']);
    assert(lan == seq!['1', '6', '8']);
    assert("10."@ == ten.push('.'));
    assert("172."@ == other.push('.'));
    assert("192.168."@ == home.push('.') + lan.push('.'));
    first_parts_are_compared_whole(p[0], ten, '.', tail);
    first_parts_are_compared_whole(p[0], other, '.', tail);
    first_parts_are_compared_whole(p[0], home, '.', tail);
    first_parts_are_compared_whole(p[1], lan, '.', rest);
    let long = home.push('.') + lan.push('.');
    if long.is_prefix_of(s) {
        assert(s.take(long.len() as int) == long);
        assert(s.take(4) == long.take(4));
        assert(long.take(4) == home.push('.'));
        assert(home.push('.').is_prefix_of(s));
        assert(p[0] == home);
        assert(s.subrange(4, 8) == long.subrange(4, 8));
        assert(tail.take(4) == s.subrange(4, 8));
        assert(long.subrange(4, 8) == lan.push('.'));
        assert(lan.push('.').is_prefix_of(tail));
    }
    if p[0] == home && p[1] == lan {
        assert(s.take(long.len() as int) == long);
        assert(long.is_prefix_of(s));
    }
    prefixes_are_taken_away("172."@, tail, s);
    if p[0] == other {
        assert(s == "172."@ + tail);
        texts_are_halved_at_a_character(p[1], '.', rest);
    }
}

/// An address in its usual notation is judged by its numbers.
pub proof fn private_ranges(ip: Ipv4)
    ensures
        is_private(ipv4_text(ip)) <==> ip.a == 10 || (ip.a == 192 && ip.b == 168) || (ip.a == 172
            && 16 <= ip.b <= 31),
{
    addresses_have_one_notation(ip, ipv4_text(ip));
    private_addresses_are_ranges(ipv4_text(ip));
}

/// Of a text that begins with `172.` the number up to the next dot decides; no
/// other text counts.
pub proof fn the_second_number_decides(n: int, rest: Seq<char>, s: Seq<char>)
    requires
        n >= 0,
    ensures
        is_172_private_text("172."@ + decimal_of(n) + seq!['.'] + rest) <==> 16 <= n <= 31,
        is_172_private_text("172."@ + decimal_of(n)) <==> 16 <= n <= 31,
        !"172."@.is_prefix_of(s) ==> !is_172_private_text(s),
{
    let d = decimal_of(n);
    decimal_reads_back(n);
    assert(!d.contains('.')) by {
        assert forall|i: int| 0 <= i < d.len() implies d[i] != '.' by {
            assert(is_digit(d[i]));
        }
    }
    assert(is_digit(d[0]));
    texts_are_halved_at_a_character(d, '.', rest);
    let t = d.push('.') + rest;
    prefixes_are_taken_away("172."@, t, s);
    prefixes_are_taken_away("172."@, d, s);
    assert("172."@ + d + seq!['.'] + rest == "172."@ + t);
    assert(crate::text::digits_part(d) == d);
    if n <= 255 {
        assert(unsigned_in(d, 255) == Some(n));
    }
}

/// Interfaces that are no physical ones, by the beginning of their name: those of
/// containers and virtual machines, and the loopback.
pub proof fn virtual_interfaces(t: Seq<char>)
    ensures
        is_virtual("lo"@),
        is_virtual("docker"@ + t),
        is_virtual("br-"@ + t),
        is_virtual("veth"@ + t),
        is_virtual("virbr"@ + t),
{
    prefixes_are_taken_away("docker"@, t, t);
    prefixes_are_taken_away("br-"@, t, t);
    prefixes_are_taken_away("veth"@, t, t);
    prefixes_are_taken_away("virbr"@, t, t);
    assert("docker"@.is_prefix_of("docker"@ + t));
    assert("br-"@.is_prefix_of("br-"@ + t));
    assert("veth"@.is_prefix_of("veth"@ + t));
    assert("virbr"@.is_prefix_of("virbr"@ + t));
}

/// Interfaces that are physical ones: any whose name begins with none of `b`, `d`,
/// `l` and `v`, such as wired and wireless ones; those that only begin like the
/// loopback; and those with `br` but no dash.
pub proof fn physical_interfaces(iface: Seq<char>)
    requires
        iface.len() > 0,
    ensures
        iface[0] != 'b' && iface[0] != 'd' && iface[0] != 'l' && iface[0] != 'v' ==> !is_virtual(
            iface,
        ),
        iface[0] == 'l' && iface.len() > 2 ==> !is_virtual(iface),
        iface[0] == 'b' && (iface.len() < 3 || iface[2] != '-') ==> !is_virtual(iface),
        iface[0] == 'd' && (iface.len() < 6 || iface[1] != 'o' || iface[5] != 'r') ==> !is_virtual(
            iface,
        ),
        iface[0] == 'v' && (iface.len() < 4 || (iface[1] != 'e' && iface[1] != 'i')) ==> !is_virtual(
            iface,
        ),
        iface[0] == 'v' && iface.len() < 5 && iface.len() > 1 && iface[1] == 'i' ==> !is_virtual(
            iface,
        ),
{
    reveal_strlit("lo");
    reveal_strlit("docker");
    reveal_strlit("br-");
    reveal_strlit("veth");
    reveal_strlit("virbr");
    assert("lo"@[0] == 'l' && "lo"@.len() == 2);
    if "docker"@.is_prefix_of(iface) {
        assert(iface.take(6)[0] == 'd' && iface.take(6)[1] == 'o' && iface.take(6)[5] == 'r');
    }
    if "br-"@.is_prefix_of(iface) {
        assert(iface.take(3)[0] == 'b' && iface.take(3)[2] == '-');
    }
    if "veth"@.is_prefix_of(iface) {
        assert(iface.take(4)[0] == 'v' && iface.take(4)[1] == 'e');
    }
    if "virbr"@.is_prefix_of(iface) {
        assert(iface.take(5)[0] == 'v' && iface.take(5)[1] == 'i');
    }
}

/// The broadcast address is the word after the first `brd`.
pub proof fn the_word_after_brd(a: Seq<Seq<char>>, w: Seq<char>, b: Seq<Seq<char>>)
    requires
        !a.contains("brd"@),
    ensures
        broadcast_word(a + seq!["brd"@, w] + b) == Some(w),
        broadcast_word(a) is None,
        broadcast_word(a.push("brd"@)) is None,
    decreases a.len(),
{
    let s = a + seq!["brd"@, w] + b;
    let t = a.push("brd"@);
    if a.len() == 0 {
        assert(s[0] == "brd"@ && s[1] == w);
    } else {
        let u = a.drop_first();
        assert(a.contains(a[0]));
        assert(!u.contains("brd"@)) by {
            if u.contains("brd"@) {
                let i = choose|i: int| 0 <= i < u.len() && u[i] == "brd"@;
                assert(a[i + 1] == "brd"@);
            }
        }
        the_word_after_brd(u, w, b);
        assert(s.drop_first() == u + seq!["brd"@, w] + b);
        assert(t.drop_first() == u.push("brd"@));
        assert(s[0] == a[0] && t[0] == a[0]);
    }
}

/// A line is read back: number, interface, family, address with its prefix length,
/// `brd`, broadcast address and whatever follows. It says where the machine is if
/// and only if the interface is a physical one and the address a private one.
pub proof fn lines_of_the_listing_are_read(
    line: Seq<char>,
    number: Seq<char>,
    iface: Seq<char>,
    colons: nat,
    family: Seq<char>,
    ip: Ipv4,
    length: Seq<char>,
    brd: Ipv4,
    more: Seq<Seq<char>>,
)
    requires
        words_of(line) == seq![
            number,
            iface + Seq::new(colons, |i: int| ':'),
            family,
            ipv4_text(ip) + seq!['/'] + length,
            "brd"@,
            ipv4_text(brd),
        ] + more,
        iface.len() > 0 ==> iface.last() != ':',
        number != "brd"@,
        iface + Seq::new(colons, |i: int| ':') != "brd"@,
        family != "brd"@,
    ensures
        lan_in_line(line) == (if !is_virtual(iface) && (ip.a == 10 || (ip.a == 192 && ip.b == 168)
            || (ip.a == 172 && 16 <= ip.b <= 31)) {
            Some(LanInfo { local_addr: ip, broadcast_addr: brd })
        } else {
            None
        }),
{
    let w = words_of(line);
    let t = ipv4_text(ip);
    let named = iface + Seq::new(colons, |i: int| ':');
    let addr = t + seq!['/'] + length;
    trailing_runs_are_taken_away(iface, ':', colons);
    lemma_octet(ip.a);
    lemma_octet(ip.b);
    lemma_octet(ip.c);
    lemma_octet(ip.d);
    assert(!t.contains('/')) by {
        if t.contains('/') {
            let a = decimal_of(ip.a as int);
            let b = decimal_of(ip.b as int);
            let c = decimal_of(ip.c as int);
            let d = decimal_of(ip.d as int);
            let i = choose|i: int| 0 <= i < t.len() && t[i] == '/';
            let n1 = a.len() as int;
            let n2 = n1 + 1 + b.len();
            let n3 = n2 + 1 + c.len();
            if i < n1 {
                assert(a[i] == '/');
            } else if n1 < i < n2 {
                assert(b[i - n1 - 1] == '/');
            } else if n2 < i < n3 {
                assert(c[i - n2 - 1] == '/');
            } else if n3 < i {
                assert(d[i - n3 - 1] == '/');
            }
        }
    }
    texts_are_halved_at_a_character(t, '/', length);
    assert(addr == t.push('/') + length);
    assert(before_char(w[3], '/') == t);
    addresses_have_one_notation(ip, t);
    addresses_have_one_notation(brd, t);
    private_ranges(ip);
    reveal_strlit("brd");
    assert(is_digit(addr[0]));
    assert(addr != "brd"@) by {
        assert("brd"@[0] == 'b');
    }
    let head = seq![number, named, family, addr];
    assert(!head.contains("brd"@)) by {
        if head.contains("brd"@) {
            let i = choose|i: int| 0 <= i < head.len() && head[i] == "brd"@;
            assert(i == 0 || i == 1 || i == 2 || i == 3);
        }
    }
    the_word_after_brd(head, ipv4_text(brd), more);
    assert(w == head + seq!["brd"@, ipv4_text(brd)] + more);
}

/// What a line says is read from it: a line of fewer than six words, of a virtual
/// interface, without an address or without a broadcast address says nothing.
pub proof fn other_lines_say_nothing(line: Seq<char>)
    ensures
        ({
            let w = words_of(line);
            &&& w.len() < 6 ==> lan_in_line(line) is None
            &&& w.len() >= 6 && is_virtual(without_trailing(w[1], ':')) ==> lan_in_line(
                line,
            ) is None
            &&& w.len() >= 6 && ipv4_in(before_char(w[3], '/')) is None ==> lan_in_line(
                line,
            ) is None
            &&& !w.contains("brd"@) ==> lan_in_line(line) is None
            &&& lan_in_line(line) matches Some(info) ==> ipv4_in(before_char(w[3], '/')) == Some(
                info.local_addr,
            ) && (info.local_addr.a == 10 || (info.local_addr.a == 192 && info.local_addr.b == 168)
                || (info.local_addr.a == 172 && 16 <= info.local_addr.b <= 31)) && w.contains(
                ipv4_text(info.broadcast_addr),
            )
        }),
{
    let w = words_of(line);
    if !w.contains("brd"@) {
        the_word_after_brd(w, seq![], seq![]);
    }
    match lan_in_line(line) {
        Some(info) => {
            private_addresses_are_ranges(before_char(w[3], '/'));
            lemma_broadcast_is_a_word(w);
            addresses_have_one_notation(info.broadcast_addr, broadcast_word(w)->0);
        },
        None => {},
    }
}

proof fn lemma_broadcast_is_a_word(w: Seq<Seq<char>>)
    requires
        broadcast_word(w) is Some,
    ensures
        w.contains(broadcast_word(w)->0),
    decreases w.len(),
{
    if w[0] == "brd"@ {
        assert(w.contains(w[1]));
    } else {
        let u = w.drop_first();
        lemma_broadcast_is_a_word(u);
        let i = choose|i: int| 0 <= i < u.len() && u[i] == broadcast_word(w)->0;
        assert(w[i + 1] == broadcast_word(w)->0);
    }
}

/// The first line that says where the machine is counts.
pub proof fn the_first_network_counts(a: Seq<Seq<char>>, b: Seq<Seq<char>>, line: Seq<char>)
    ensures
        first_lan(seq![]) is None,
        first_lan(seq![line]) == lan_in_line(line),
        first_lan(a + b) == (if first_lan(a) is Some {
            first_lan(a)
        } else {
            first_lan(b)
        }),
    decreases a.len(),
{
    assert(seq![line].drop_first() == Seq::<Seq<char>>::empty());
    assert(first_lan(seq![line].drop_first()) is None);
    if a.len() == 0 {
        assert(a + b == b);
    } else {
        the_first_network_counts(a.drop_first(), b, line);
        assert((a + b).drop_first() == a.drop_first() + b);
    }
}

/// Where the parts of an announcement stand: `KMFLOW`, the port with its higher
/// byte first, the length of the fingerprint, the fingerprint and the host name.
pub proof fn announcements_have_a_layout(hostname: Seq<char>, port: u16, fingerprint: Seq<char>)
    ensures
        ({
            let data = announced(hostname, port, fingerprint);
            let n = encode_utf8(fingerprint).len();
            &&& data.take(6) == seq![0x4bu8, 0x4d, 0x46, 0x4c, 0x4f, 0x57]
            &&& 256 * data[6] + data[7] == port
            &&& data[8] == n % 256
            &&& data.subrange(9, 9 + n as int) == encode_utf8(fingerprint)
            &&& data.skip(9 + n as int) == encode_utf8(hostname)
        }),
{
    let data = announced(hostname, port, fingerprint);
    let n = encode_utf8(fingerprint).len();
    assert(data.take(6) == MAGIC@);
    assert(data.take(6) =~= seq![0x4bu8, 0x4d, 0x46, 0x4c, 0x4f, 0x57]);
    assert(data.subrange(9, 9 + n as int) == encode_utf8(fingerprint));
    assert(data.skip(9 + n as int) == encode_utf8(hostname));
}

/// What is no announcement: less than nine bytes, other bytes than the magic ones
/// at the start, a fingerprint that goes beyond the end, or no host name after it.
/// Anything else is one.
pub proof fn not_every_packet_is_an_announcement(data: Seq<u8>)
    ensures
        parsed_announce(data) is Some <==> data.len() > 9 && data[0] == 0x4b && data[1] == 0x4d
            && data[2] == 0x46 && data[3] == 0x4c && data[4] == 0x4f && data[5] == 0x57
            && data.len() > 9 + data[8],
        parsed_announce(data) matches Some((hostname, port, fingerprint)) ==> port == 256 * data[6]
            + data[7] && fingerprint == utf8_text(data.subrange(9, 9 + data[8])) && hostname
            == utf8_text(data.skip(9 + data[8])),
{
    let magic = seq![0x4bu8, 0x4d, 0x46, 0x4c, 0x4f, 0x57];
    assert(MAGIC@ =~= magic);
    if data.len() > 9 {
        if data.take(6) == magic {
            assert forall|i: int| 0 <= i < 6 implies data[i] == magic[i] by {
                assert(data.take(6)[i] == magic[i]);
            }
        }
        if data[0] == 0x4b && data[1] == 0x4d && data[2] == 0x46 && data[3] == 0x4c && data[4]
            == 0x4f && data[5] == 0x57 {
            assert(data.take(6) =~= magic);
        }
    }
}

/// A packet that is no announcement changes nothing. An announcement of a known
/// peer refreshes its address and time, keeps its fingerprint and reports nothing;
/// other peers are left alone by any packet.
pub proof fn known_peers_are_refreshed(
    table: Map<(Seq<char>, u16), PeerRecord>,
    own_name: Seq<char>,
    data: Seq<u8>,
    ip: IpAddress,
    now: u64,
    k: (Seq<char>, u16),
)
    ensures
        parsed_announce(data) is None ==> heard(table, own_name, data, ip, now) == (
            table,
            None::<PeerAddr>,
        ),
        parsed_announce(data) matches Some((hostname, port, fingerprint)) ==> {
            let (after, fresh) = heard(table, own_name, data, ip, now);
            &&& k != (hostname, port) ==> after.contains_key(k) == table.contains_key(k) && after[k]
                == table[k]
            &&& hostname != own_name ==> after.contains_key((hostname, port)) && after[(
                hostname,
                port,
            )].ip == ip && after[(hostname, port)].last_seen == now
            &&& hostname != own_name && table.contains_key((hostname, port)) ==> fresh is None
                && after[(hostname, port)].fingerprint == table[(hostname, port)].fingerprint
            &&& hostname != own_name && !table.contains_key((hostname, port)) ==> after[(
                hostname,
                port,
            )].fingerprint == fingerprint && fresh == Some(PeerAddr { ip, port })
        },
{
}

/// A peer is remembered for less than ten seconds of silence; one that was heard
/// just now is, and so is one whose time lies ahead.
pub proof fn silent_peers_are_forgotten(record: PeerRecord, now: u64, later: u64)
    ensures
        is_fresh(record, now) <==> record.last_seen + 10_000_000_000 > now,
        record.last_seen >= now ==> is_fresh(record, now),
        later >= now && is_fresh(record, later) ==> is_fresh(record, now),
{
}

/// The numbers of the discovery: port 4243, an announcement every three seconds,
/// and more than three of them before a silent peer is forgotten.
pub proof fn discovery_numbers()
    ensures
        DISCOVERY_PORT == 4243,
        ANNOUNCE_INTERVAL_NS == 3_000_000_000,
        PEER_TTL_NS == 10_000_000_000,
        3 * ANNOUNCE_INTERVAL_NS < PEER_TTL_NS,
{
}

/// A list of peers grows with its table: another peer makes one more entry, with
/// what the table holds of it. The empty list is that of the empty table.
pub proof fn lists_of_peers_grow_with_their_table(
    a: Seq<DiscoveredPeer>,
    table: Map<(Seq<char>, u16), PeerRecord>,
    p: DiscoveredPeer,
)
    requires
        tabulates(a, table),
        !table.contains_key((p.hostname@, p.addr.port)),
    ensures
        tabulates(
            a.push(p),
            table.insert(
                (p.hostname@, p.addr.port),
                PeerRecord {
                    ip: p.addr.ip,
                    fingerprint: p.fingerprint@,
                    last_seen: p.last_seen,
                },
            ),
        ),
        tabulates(seq![], Map::empty()),
{
    let b = a.push(p);
    let after = table.insert(p.key(), p.record());
    assert forall|i: int, j: int| 0 <= i < j < b.len() implies (#[trigger] b[i]).key() != (
    #[trigger] b[j]).key() by {
        assert(b[i] == a[i]);
        if j < a.len() {
            assert(a[i].key() != a[j].key());
        } else {
            assert(table.contains_key(a[i].key()));
        }
    }
    assert forall|i: int| 0 <= i < b.len() implies after.contains_key((#[trigger] b[i]).key())
        && after[b[i].key()] == b[i].record() by {
        if i < a.len() {
            assert(table.contains_key(a[i].key()));
        }
    }
    assert forall|k: (Seq<char>, u16)| #[trigger] after.contains_key(k) implies exists|i: int|
        0 <= i < b.len() && (#[trigger] b[i]).key() == k by {
        if k == p.key() {
            assert(b[a.len() as int].key() == k);
        } else {
            assert(table.contains_key(k));
            let j = choose|j: int| 0 <= j < a.len() && (#[trigger] a[j]).key() == k;
            assert(b[j].key() == k);
        }
    }
}

/// Two lists of one table hold the same peers, each once.
pub proof fn lists_of_peers_are_alike(
    a: Seq<DiscoveredPeer>,
    b: Seq<DiscoveredPeer>,
    table: Map<(Seq<char>, u16), PeerRecord>,
    i: int,
)
    requires
        tabulates(a, table),
        tabulates(b, table),
        0 <= i < a.len(),
    ensures
        exists|j: int|
            0 <= j < b.len() && (#[trigger] b[j]).hostname@ == a[i].hostname@ && b[j].addr
                == a[i].addr && b[j].fingerprint@ == a[i].fingerprint@ && b[j].last_seen
                == a[i].last_seen,
        forall|j: int|
            0 <= j < a.len() && j != i ==> (#[trigger] a[j]).hostname@ != a[i].hostname@
                || a[j].addr.port != a[i].addr.port,
{
    let k = a[i].key();
    assert(table.contains_key(k));
    let j = choose|j: int| 0 <= j < b.len() && (#[trigger] b[j]).key() == k;
    assert(table[b[j].key()] == b[j].record());
    assert(table[a[i].key()] == a[i].record());
    assert(b[j].record() == a[i].record());
    assert forall|j: int| 0 <= j < a.len() && j != i implies (#[trigger] a[j]).hostname@
        != a[i].hostname@ || a[j].addr.port != a[i].addr.port by {
        if j < i {
            assert(a[j].key() != a[i].key());
        } else {
            assert(a[i].key() != a[j].key());
        }
    }
}

} // verus!
