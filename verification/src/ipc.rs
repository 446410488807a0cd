//! What the command line asks of a running daemon, and what it answers.
use crate::handshake::Joined;
use crate::proto::{Double, ScreenInfo, DEFAULT_PORT};
use crate::session::DaemonState;
use crate::state::state_name;
use crate::text::{append_decimal, contains, decimal_of, has_infix, join_path, joined_path, to_chars};
use vstd::prelude::*;
use vstd::string::*;

verus! {

#[derive(Debug, Clone, PartialEq, Eq)]
pub enum IpcRequest {
    Status,
    Pair { addr: String },
    Layout { peer: String, edge: String },
    Stop,
    SetupFirewall,
}

#[derive(Debug, Clone, PartialEq, Eq)]
pub enum IpcResponse {
    Done { message: String },
    Error { message: String },
    Status { state: String, peers: Vec<PeerStatus> },
}

#[derive(Debug, PartialEq, Eq)]
pub struct PeerStatus {
    pub hostname: String,
    pub addr: String,
    pub state: String,
    pub rtt_ms: Double,
    pub screen: String,
}

impl Clone for PeerStatus {
    fn clone(&self) -> (r: Self)
        ensures
            r == *self,
    {
        PeerStatus {
            hostname: self.hostname.clone(),
            addr: self.addr.clone(),
            state: self.state.clone(),
            rtt_ms: self.rtt_ms,
            screen: self.screen.clone(),
        }
    }
}

/// The path of the daemon's socket in the runtime directory, which is `/tmp`
/// where the environment names none.
pub fn socket_path(runtime_dir: Option<&str>) -> (r: String)
    ensures
        r@ == joined_path(
            match runtime_dir {
                Some(d) => d@,
                None => "/tmp"@,
            },
            "kmflow.sock"@,
        ),
{
    match runtime_dir {
        Some(d) => join_path(d, "kmflow.sock"),
        None => join_path("/tmp", "kmflow.sock"),
    }
}

/// A message on the socket: its text and the line break that ends it.
pub fn ipc_line(json: String) -> (r: String)
    ensures
        r@ == json@.push('\n'),
{
    let mut line = json;
    line.push('\n');
    line
}

/// A screen in a status line: its size and its scale, such as `1920x1080 @2x`.
pub open spec fn screen_label(screen: ScreenInfo, scale: Seq<char>) -> Seq<char> {
    decimal_of(screen.width as int) + "x"@ + decimal_of(screen.height as int) + " @"@ + scale
        + "x"@
}

/// Describes a screen; `scale` is its scale factor as text.
pub fn describe_screen(screen: &ScreenInfo, scale: &str) -> (r: String)
    ensures
        r@ == screen_label(*screen, scale@),
{
    let mut out = String::new();
    append_decimal(&mut out, screen.width as u64);
    out.append("x");
    append_decimal(&mut out, screen.height as u64);
    out.append(" @");
    out.append(scale);
    out.append("x");
    assert(out@ == screen_label(*screen, scale@));
    out
}

/// The entry of a peer that has just joined.
pub fn joined_status(joined: &Joined, addr: String, rtt_ms: Double, scale: &str) -> (r: PeerStatus)
    ensures
        r.hostname == joined.hostname,
        r.addr == addr,
        r.state@ == "active"@,
        r.rtt_ms == rtt_ms,
        r.screen@ == screen_label(joined.screen, scale@),
{
    PeerStatus {
        hostname: joined.hostname.clone(),
        addr,
        state: "active".to_owned(),
        rtt_ms,
        screen: describe_screen(&joined.screen, scale),
    }
}

/// The peers of a daemon, by host name.
pub struct PeerTable {
    peers: Vec<PeerStatus>,
}

/// Whether no two entries have the same host name.
pub open spec fn distinct_names(peers: Seq<PeerStatus>) -> bool {
    forall|i: int, j: int|
        0 <= i < j < peers.len() ==> (#[trigger] peers[i]).hostname@ != (
        #[trigger] peers[j]).hostname@
}

/// Whether a list holds exactly the entries of a table, each once.
pub open spec fn lists(peers: Seq<PeerStatus>, table: Map<Seq<char>, PeerStatus>) -> bool {
    &&& distinct_names(peers)
    &&& forall|i: int|
        0 <= i < peers.len() ==> table.contains_key((#[trigger] peers[i]).hostname@)
            && table[peers[i].hostname@] == peers[i]
    &&& forall|name: Seq<char>| #[trigger]
        table.contains_key(name) ==> exists|i: int|
            0 <= i < peers.len() && (#[trigger] peers[i]).hostname@ == name
}

impl PeerTable {
    /// The entries by host name.
    pub closed spec fn table(&self) -> Map<Seq<char>, PeerStatus> {
        Map::new(
            |name: Seq<char>|
                exists|i: int|
                    0 <= i < self.peers@.len() && (#[trigger] self.peers@[i]).hostname@ == name,
            |name: Seq<char>|
                self.peers@[choose|i: int|
                    0 <= i < self.peers@.len() && (#[trigger] self.peers@[i]).hostname@ == name],
        )
    }

    #[verifier::type_invariant]
    spec fn wf(&self) -> bool {
        distinct_names(self.peers@)
    }

    proof fn lemma_lists(&self)
        requires
            distinct_names(self.peers@),
        ensures
            lists(self.peers@, self.table()),
    {
        assert forall|i: int| 0 <= i < self.peers@.len() implies self.table().contains_key(
            (#[trigger] self.peers@[i]).hostname@,
        ) && self.table()[self.peers@[i].hostname@] == self.peers@[i] by {
            let name = self.peers@[i].hostname@;
            let k = choose|k: int|
                0 <= k < self.peers@.len() && (#[trigger] self.peers@[k]).hostname@ == name;
            assert(self.peers@[i].hostname@ == self.peers@[k].hostname@);
            if k < i {
                assert(self.peers@[k].hostname@ != self.peers@[i].hostname@);
            } else if i < k {
                assert(self.peers@[i].hostname@ != self.peers@[k].hostname@);
            }
        }
    }

    pub fn new() -> (r: Self)
        ensures
            r.table() == Map::<Seq<char>, PeerStatus>::empty(),
    {
        let r = PeerTable { peers: Vec::new() };
        assert(r.table() == Map::<Seq<char>, PeerStatus>::empty());
        r
    }

    /// Enters a peer under its host name, in the place of an earlier entry.
    pub fn insert(&mut self, status: PeerStatus)
        ensures
            final(self).table() == old(self).table().insert(status.hostname@, status),
    {
        proof {
            use_type_invariant(&*self);
            self.lemma_lists();
        }
        let ghost before = self.peers@;
        let ghost before_table = self.table();
        let ghost name = status.hostname@;
        let n = self.peers.len();
        let mut i: usize = 0;
        while i < n
            invariant
                i <= n,
                n == self.peers@.len(),
                self.peers@ == before,
                name == status.hostname@,
                forall|j: int| 0 <= j < i ==> (#[trigger] before[j]).hostname@ != name,
            ensures
                i < n ==> before[i as int].hostname@ == name,
            decreases n - i,
        {
            if self.peers[i].hostname == status.hostname {
                break;
            }
            i += 1;
        }
        let ghost entry = status;
        let mut peers: Vec<PeerStatus> = Vec::new();
        std::mem::swap(&mut peers, &mut self.peers);
        if i < n {
            peers[i] = status;
        } else {
            peers.push(status);
        }
        assert(distinct_names(peers@)) by {
            assert forall|a: int, b: int| 0 <= a < b < peers@.len() implies (
            #[trigger] peers@[a]).hostname@ != (#[trigger] peers@[b]).hostname@ by {
                if a < before.len() && b < before.len() {
                    assert(before[a].hostname@ != before[b].hostname@);
                    if a == i {
                        assert(before[i as int].hostname@ == name);
                    }
                    if b == i {
                        assert(before[i as int].hostname@ == name);
                    }
                } else {
                    assert(before[a].hostname@ != name);
                }
            }
        }
        self.peers = peers;
        proof {
            self.lemma_lists();
            let after = self.table();
            assert forall|m: Seq<char>| after.contains_key(m) == before_table.insert(
                name,
                entry,
            ).contains_key(m) by {
                if after.contains_key(m) {
                    let k = choose|k: int|
                        0 <= k < self.peers@.len() && (#[trigger] self.peers@[k]).hostname@ == m;
                    if m != name {
                        assert(before[k] == self.peers@[k]);
                        assert(before_table.contains_key(before[k].hostname@));
                    }
                }
                if before_table.contains_key(m) && m != name {
                    let k = choose|k: int|
                        0 <= k < before.len() && (#[trigger] before[k]).hostname@ == m;
                    assert(self.peers@[k] == before[k]);
                }
                if m == name {
                    assert(self.peers@[i as int] == entry);
                }
            }
            assert forall|m: Seq<char>| after.contains_key(m) implies #[trigger] after[m]
                == before_table.insert(name, entry)[m] by {
                let k = choose|k: int|
                    0 <= k < self.peers@.len() && (#[trigger] self.peers@[k]).hostname@ == m;
                if m == name {
                    assert(self.peers@[i as int] == entry);
                    assert(after[self.peers@[i as int].hostname@] == self.peers@[i as int]);
                } else {
                    assert(before[k] == self.peers@[k]);
                    assert(before_table[before[k].hostname@] == before[k]);
                    assert(after[self.peers@[k].hostname@] == self.peers@[k]);
                }
            }
            assert(after == before_table.insert(name, entry));
        }
    }

    /// Forgets every peer.
    pub fn clear(&mut self)
        ensures
            final(self).table() == Map::<Seq<char>, PeerStatus>::empty(),
    {
        self.peers = Vec::new();
        assert(self.table() == Map::<Seq<char>, PeerStatus>::empty());
    }

    /// A copy of every entry.
    pub fn list(&self) -> (r: Vec<PeerStatus>)
        ensures
            lists(r@, self.table()),
    {
        proof {
            use_type_invariant(self);
            self.lemma_lists();
        }
        let mut r: Vec<PeerStatus> = Vec::new();
        let n = self.peers.len();
        let mut i: usize = 0;
        while i < n
            invariant
                i <= n,
                n == self.peers@.len(),
                r@ == self.peers@.take(i as int),
            decreases n - i,
        {
            r.push(self.peers[i].clone());
            assert(self.peers@.take(i + 1) == self.peers@.take(i as int).push(
                self.peers@[i as int],
            ));
            i += 1;
        }
        assert(self.peers@.take(n as int) == self.peers@);
        r
    }
}

/// What a request leads to.
pub enum IpcStep {
    /// The answer is ready.
    Reply(IpcResponse),
    /// The daemon stops; the answer is ready.
    Stop(IpcResponse),
    /// The daemon connects to the peer at `target`, an address or a host name;
    /// [`pair_reply`] gives the answer then.
    Connect { addr: String, target: String },
}

/// How the request to connect to a peer went.
pub enum PairOutcome {
    /// The daemon took the address, given here as text.
    Sent(String),
    /// The daemon takes no addresses any more.
    Closed,
    /// The text is no address, for the given reason.
    Invalid(String),
}

/// The address that a pair request means: the text itself if it names a port,
/// else the text with the default port.
pub open spec fn pair_target(addr: Seq<char>) -> Seq<char> {
    if has_infix(addr, ":"@) {
        addr
    } else {
        addr + ":"@ + decimal_of(DEFAULT_PORT as int)
    }
}

/// Reads a request of the command line.
pub fn handle_ipc_request(req: IpcRequest, state: &DaemonState, peers: &PeerTable) -> (r: IpcStep)
    ensures
        match req {
            IpcRequest::Status => {
                &&& r matches IpcStep::Reply(IpcResponse::Status { state: s, peers: p })
                &&& s@ == state_name(state@.connection)
                &&& lists(p@, peers.table())
            },
            IpcRequest::Stop => {
                &&& r matches IpcStep::Stop(IpcResponse::Done { message })
                &&& message@ == "daemon stopping"@
            },
            IpcRequest::Pair { addr } => {
                &&& r matches IpcStep::Connect { addr: a, target }
                &&& a == addr
                &&& target@ == pair_target(addr@)
            },
            IpcRequest::Layout { peer, edge } => {
                &&& r matches IpcStep::Reply(IpcResponse::Done { message })
                &&& message@ == "layout set: "@ + peer@ + " on "@ + edge@
            },
            IpcRequest::SetupFirewall => {
                &&& r matches IpcStep::Reply(IpcResponse::Done { message })
                &&& message@ == "use `kmflow setup-firewall` directly"@
            },
        },
        r is Stop <==> req is Stop,
        r is Connect <==> req is Pair,
{
    match req {
        IpcRequest::Status => IpcStep::Reply(
            IpcResponse::Status { state: state.connection_state.to_string(), peers: peers.list() },
        ),
        IpcRequest::Stop => IpcStep::Stop(
            IpcResponse::Done { message: "daemon stopping".to_owned() },
        ),
        IpcRequest::Pair { addr } => {
            let mut target = addr.clone();
            let chars = to_chars(addr.as_str());
            if !contains(chars.as_slice(), ":") {
                target.append(":");
                append_decimal(&mut target, DEFAULT_PORT as u64);
            }
            IpcStep::Connect { addr, target }
        },
        IpcRequest::Layout { peer, edge } => {
            let mut message = "layout set: ".to_owned();
            message.append(peer.as_str());
            message.append(" on ");
            message.append(edge.as_str());
            IpcStep::Reply(IpcResponse::Done { message })
        },
        IpcRequest::SetupFirewall => IpcStep::Reply(
            IpcResponse::Done { message: "use `kmflow setup-firewall` directly".to_owned() },
        ),
    }
}

/// The answer to a pair request.
pub fn pair_reply(addr: &str, outcome: PairOutcome) -> (r: IpcResponse)
    ensures
        match outcome {
            PairOutcome::Sent(peer) => {
                &&& r matches IpcResponse::Done { message }
                &&& message@ == "connecting to "@ + peer@ + "..."@
            },
            PairOutcome::Closed => {
                &&& r matches IpcResponse::Error { message }
                &&& message@ == "daemon channel closed"@
            },
            PairOutcome::Invalid(reason) => {
                &&& r matches IpcResponse::Error { message }
                &&& message@ == "invalid address '"@ + addr@ + "': "@ + reason@
            },
        },
        r is Done <==> outcome is Sent,
        r is Error <==> !(outcome is Sent),
{
    match outcome {
        PairOutcome::Sent(peer) => {
            let mut message = "connecting to ".to_owned();
            message.append(peer.as_str());
            message.append("...");
            IpcResponse::Done { message }
        },
        PairOutcome::Closed => IpcResponse::Error { message: "daemon channel closed".to_owned() },
        PairOutcome::Invalid(reason) => {
            let mut message = "invalid address '".to_owned();
            message.append(addr);
            message.append("': ");
            message.append(reason.as_str());
            IpcResponse::Error { message }
        },
    }
}

/// The size of a screen is read back from its label, and its scale follows between
/// `@` and `x`.
pub proof fn labels_read_back(screen: ScreenInfo, scale: Seq<char>)
    ensures
        ({
            let label = screen_label(screen, scale);
            let size = crate::text::before_char(label, ' ');
            &&& crate::screen::size_in(size) == Some((screen.width, screen.height))
            &&& label == size + seq![' ', '@'] + scale + seq!['x']
        }),
{
    let label = screen_label(screen, scale);
    let w = decimal_of(screen.width as int);
    let h = decimal_of(screen.height as int);
    let size = w + seq!['x'] + h;
    reveal_strlit("x");
    reveal_strlit(" @");
    assert("x"@ == seq!['x']);
    assert(" @"@ == seq![' ', '@']);
    crate::text::decimal_reads_back(screen.width as int);
    crate::text::decimal_reads_back(screen.height as int);
    assert(!size.contains(' ')) by {
        if size.contains(' ') {
            let i = choose|i: int| 0 <= i < size.len() && size[i] == ' ';
            if i < w.len() {
                assert(crate::text::is_digit(w[i]));
            } else if i > w.len() {
                assert(crate::text::is_digit(h[i - w.len() - 1]));
            }
        }
    }
    let rest = seq!['@'] + scale + seq!['x'];
    assert(label == size.push(' ') + rest);
    crate::text::texts_are_halved_at_a_character(size, ' ', rest);
    crate::screen::sizes_read_back(screen.width, screen.height);
    assert(label == size + seq![' ', '@'] + scale + seq!['x']);
}

/// A pair request always leads to an address with a port: the one that it names,
/// else 4242.
pub proof fn pair_targets_have_a_port(addr: Seq<char>)
    ensures
        addr.contains(':') ==> pair_target(addr) == addr,
        !addr.contains(':') ==> pair_target(addr) == addr + ":4242"@,
        pair_target(addr).contains(':'),
        pair_target(pair_target(addr)) == pair_target(addr),
{
    reveal_strlit(":");
    reveal_strlit(":4242");
    reveal_with_fuel(crate::text::decimal_of, 5);
    assert(":"@ == seq![':']);
    assert(decimal_of(4242) == seq!['4', '2', '4', '2']);
    assert(":4242"@ == ":"@ + decimal_of(4242));
    lemma_colon(addr);
    assert(addr + ":"@ + decimal_of(4242) == addr + ":4242"@);
    let long = addr + ":4242"@;
    assert(long[addr.len() as int] == ':');
    lemma_colon(long);
}

proof fn lemma_colon(s: Seq<char>)
    ensures
        has_infix(s, ":"@) <==> s.contains(':'),
{
    reveal_strlit(":");
    if s.contains(':') {
        let i = choose|i: int| 0 <= i < s.len() && s[i] == ':';
        assert(s.subrange(i, i + ":"@.len()) == ":"@);
    }
    if has_infix(s, ":"@) {
        let i = choose|i: int|
            0 <= i <= s.len() - ":"@.len() && #[trigger] s.subrange(i, i + ":"@.len()) == ":"@;
        assert(s.subrange(i, i + 1)[0] == ':');
        assert(s[i] == ':');
    }
}

/// Two lists of one table hold the same entries, and as many as there are names.
pub proof fn lists_of_a_table_are_alike(
    a: Seq<PeerStatus>,
    b: Seq<PeerStatus>,
    table: Map<Seq<char>, PeerStatus>,
    i: int,
)
    requires
        lists(a, table),
        lists(b, table),
        0 <= i < a.len(),
    ensures
        b.contains(a[i]),
        forall|j: int| 0 <= j < a.len() && j != i ==> (#[trigger] a[j]).hostname@ != a[i].hostname@,
{
    let name = a[i].hostname@;
    assert(table.contains_key(name));
    let k = choose|k: int| 0 <= k < b.len() && (#[trigger] b[k]).hostname@ == name;
    assert(b[k] == table[name]);
    assert forall|j: int| 0 <= j < a.len() && j != i implies (#[trigger] a[j]).hostname@
        != a[i].hostname@ by {
        if j < i {
            assert(a[j].hostname@ != a[i].hostname@);
        } else {
            assert(a[i].hostname@ != a[j].hostname@);
        }
    }
}

/// Every peer of a table is listed.
pub proof fn every_peer_is_listed(
    a: Seq<PeerStatus>,
    table: Map<Seq<char>, PeerStatus>,
    name: Seq<char>,
)
    requires
        lists(a, table),
        table.contains_key(name),
    ensures
        a.contains(table[name]),
{
    let k = choose|k: int| 0 <= k < a.len() && (#[trigger] a[k]).hostname@ == name;
    assert(a[k] == table[name]);
}

/// A list grows with its table: another peer makes one more entry. The empty list is
/// that of the empty table.
pub proof fn lists_grow_with_their_table(
    a: Seq<PeerStatus>,
    table: Map<Seq<char>, PeerStatus>,
    p: PeerStatus,
)
    requires
        lists(a, table),
        !table.contains_key(p.hostname@),
    ensures
        lists(a.push(p), table.insert(p.hostname@, p)),
        lists(seq![], Map::empty()),
{
    let b = a.push(p);
    let after = table.insert(p.hostname@, p);
    assert forall|i: int, j: int| 0 <= i < j < b.len() implies (#[trigger] b[i]).hostname@ != (
    #[trigger] b[j]).hostname@ by {
        assert(b[i] == a[i]);
        if j < a.len() {
            assert(a[i].hostname@ != a[j].hostname@);
        } else {
            assert(table.contains_key(a[i].hostname@));
        }
    }
    assert forall|i: int| 0 <= i < b.len() implies after.contains_key((#[trigger] b[i]).hostname@)
        && after[b[i].hostname@] == b[i] by {
        if i < a.len() {
            assert(table.contains_key(a[i].hostname@));
        }
    }
    assert forall|name: Seq<char>| #[trigger] after.contains_key(name) implies exists|i: int|
        0 <= i < b.len() && (#[trigger] b[i]).hostname@ == name by {
        if name == p.hostname@ {
            assert(b[a.len() as int].hostname@ == name);
        } else {
            assert(table.contains_key(name));
            let k = choose|k: int| 0 <= k < a.len() && (#[trigger] a[k]).hostname@ == name;
            assert(b[k].hostname@ == name);
        }
    }
}

} // verus!
