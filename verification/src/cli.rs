//! The command line: what its flags mean and what it shows.
use crate::ipc::{IpcRequest, IpcResponse, PeerStatus};
use crate::proto::{Double, Edge, KmflowConfig, LayoutEntry};
use crate::text::{
    append_decimal, decimal_of, from_chars, has_infix, runs_occur_in_texts, to_chars, trim, trimmed,
};
use vstd::prelude::*;
use vstd::string::*;

verus! {

/// The side that the flags of `start` name; the first of right, left, top and
/// bottom if several are given.
pub open spec fn named_edge(right: bool, left: bool, top: bool, bottom: bool) -> Option<Edge> {
    if right {
        Some(Edge::Right)
    } else if left {
        Some(Edge::Left)
    } else if top {
        Some(Edge::Top)
    } else if bottom {
        Some(Edge::Bottom)
    } else {
        None
    }
}

/// The side that the flags of `start` name.
pub fn edge_from_flags(right: bool, left: bool, top: bool, bottom: bool) -> (r: Option<Edge>)
    ensures
        r == named_edge(right, left, top, bottom),
{
    if right {
        Some(Edge::Right)
    } else if left {
        Some(Edge::Left)
    } else if top {
        Some(Edge::Top)
    } else if bottom {
        Some(Edge::Bottom)
    } else {
        None
    }
}

/// The configuration that `start` runs with: the port and the scale are those of
/// the command line, and so is the layout if it names a side.
pub fn start_config(
    config: KmflowConfig,
    port: u16,
    edge: Option<Edge>,
    scale: Option<Double>,
) -> (r: KmflowConfig)
    ensures
        r.port == port,
        r.scale_override == scale,
        r.hostname == config.hostname,
        r.known_peers == config.known_peers,
        match edge {
            Some(e) => r.layout@.len() == 1 && r.layout@[0].edge == e
                && r.layout@[0].peer_hostname@.len() == 0,
            None => r.layout == config.layout,
        },
{
    let mut out = config;
    out.port = port;
    out.scale_override = scale;
    match edge {
        Some(e) => {
            let mut layout: Vec<LayoutEntry> = Vec::new();
            layout.push(LayoutEntry { peer_hostname: String::new(), edge: e });
            out.layout = layout;
        },
        None => {},
    }
    out
}

/// The side of the peer that a configuration names: that of the first entry of
/// its layout.
pub fn configured_edge(config: &KmflowConfig) -> (r: Option<Edge>)
    ensures
        r == (if config.layout@.len() > 0 {
            Some(config.layout@[0].edge)
        } else {
            None
        }),
{
    if config.layout.len() > 0 {
        Some(config.layout[0].edge)
    } else {
        None
    }
}

/// The name of this machine, from the file that holds it: the text without the
/// white space around it.
pub fn host_name(file: &str) -> (r: String)
    ensures
        r@ == trimmed(file@),
{
    let chars = to_chars(file);
    from_chars(trim(chars.as_slice()))
}

/// The name to announce: the configured one, or the name of this machine, or a
/// name that only says what the program is.
pub fn node_name(configured: Option<&str>, machine: Option<&str>) -> (r: String)
    ensures
        r@ == (match (configured, machine) {
            (Some(name), _) => name@,
            (None, Some(name)) => name@,
            (None, None) => "kmflow-node"@,
        }),
{
    match configured {
        Some(name) => name.to_owned(),
        None => match machine {
            Some(name) => name.to_owned(),
            None => "kmflow-node".to_owned(),
        },
    }
}

/// The events to log, where the environment does not say.
pub fn log_filter(verbose: bool) -> (r: &'static str)
    ensures
        r@ == (if verbose {
            "kmflow=debug,kmflow_daemon=debug,kmflow_net=debug,kmflow_input=debug"@
        } else {
            "kmflow=info"@
        }),
{
    if verbose {
        "kmflow=debug,kmflow_daemon=debug,kmflow_net=debug,kmflow_input=debug"
    } else {
        "kmflow=info"
    }
}

/// What `layout` says when it is given no side.
pub const NO_DIRECTION: &'static str =
    "specify at least one direction (--right, --left, --top, --bottom)";

/// The peer and the side that the options of `layout` name.
pub open spec fn named_layout(
    right: Option<String>,
    left: Option<String>,
    top: Option<String>,
    bottom: Option<String>,
) -> Option<(String, Seq<char>)> {
    match (right, left, top, bottom) {
        (Some(p), _, _, _) => Some((p, "right"@)),
        (None, Some(p), _, _) => Some((p, "left"@)),
        (None, None, Some(p), _) => Some((p, "top"@)),
        (None, None, None, Some(p)) => Some((p, "bottom"@)),
        (None, None, None, None) => None,
    }
}

/// What `layout` asks of the daemon; nothing if it is given no side.
pub fn layout_request(
    right: Option<String>,
    left: Option<String>,
    top: Option<String>,
    bottom: Option<String>,
) -> (r: Option<IpcRequest>)
    ensures
        match named_layout(right, left, top, bottom) {
            Some((p, side)) => r matches Some(IpcRequest::Layout { peer, edge }) && peer == p
                && edge@ == side,
            None => r is None,
        },
{
    let (peer, edge) = if let Some(p) = right {
        (p, "right")
    } else if let Some(p) = left {
        (p, "left")
    } else if let Some(p) = top {
        (p, "top")
    } else if let Some(p) = bottom {
        (p, "bottom")
    } else {
        return None;
    };
    Some(IpcRequest::Layout { peer, edge: edge.to_owned() })
}

/// A line to show, on the standard output or the error output.
#[derive(Debug, Clone, PartialEq, Eq)]
pub enum Line {
    Out(String),
    Problem(String),
}

/// A line as text, and whether it is an error.
pub open spec fn line_view(l: Line) -> (bool, Seq<char>) {
    match l {
        Line::Out(s) => (false, s@),
        Line::Problem(s) => (true, s@),
    }
}

/// Lines as texts.
pub open spec fn line_views(v: Seq<Line>) -> Seq<(bool, Seq<char>)> {
    v.map_values(|l: Line| line_view(l))
}

fn push_line(out: &mut Vec<Line>, line: Line)
    ensures
        final(out)@ == old(out)@.push(line),
        line_views(final(out)@) == line_views(old(out)@).push(line_view(line)),
{
    out.push(line);
    assert(line_views(out@) == line_views(old(out)@).push(line_view(line)));
}

fn error_line(message: &str) -> (r: Line)
    ensures
        line_view(r) == (true, "Error: "@ + message@),
{
    let mut s = "Error: ".to_owned();
    s.append(message);
    Line::Problem(s)
}

/// What `stop`, `pair` and `layout` show of an answer.
pub open spec fn reply_shown(response: IpcResponse) -> Seq<(bool, Seq<char>)> {
    match response {
        IpcResponse::Done { message } => seq![(false, message@)],
        IpcResponse::Error { message } => seq![(true, "Error: "@ + message@)],
        IpcResponse::Status { state, peers } => seq![],
    }
}

/// What `stop`, `pair` and `layout` show of an answer.
pub fn show_reply(response: IpcResponse) -> (r: Vec<Line>)
    ensures
        line_views(r@) == reply_shown(response),
{
    let mut out: Vec<Line> = Vec::new();
    match response {
        IpcResponse::Done { message } => {
            push_line(&mut out, Line::Out(message));
        },
        IpcResponse::Error { message } => {
            push_line(&mut out, error_line(message.as_str()));
        },
        IpcResponse::Status { state, peers } => {},
    }
    assert(line_views(out@) == reply_shown(response));
    out
}

/// A text filled up with spaces to a width.
pub open spec fn padded(s: Seq<char>, width: nat) -> Seq<char>
    decreases width - s.len(),
{
    if s.len() >= width {
        s
    } else {
        padded(s.push(' '), width)
    }
}

/// Four columns and what follows them.
pub open spec fn table_row(
    a: Seq<char>,
    b: Seq<char>,
    c: Seq<char>,
    d: Seq<char>,
    rest: Seq<char>,
) -> Seq<char> {
    padded(a, 16) + " "@ + padded(b, 18) + " "@ + padded(c, 12) + " "@ + padded(d, 8) + " "@ + rest
}

fn append_padded(out: &mut String, s: &str, width: usize)
    ensures
        final(out)@ == old(out)@ + padded(s@, width as nat),
{
    out.append(s);
    let ghost mut text = s@;
    let mut len = s.unicode_len();
    while len < width
        invariant
            len == text.len(),
            out@ == old(out)@ + text,
            padded(s@, width as nat) == padded(text, width as nat),
        decreases width - len,
    {
        out.push(' ');
        proof {
            assert(old(out)@ + text.push(' ') == (old(out)@ + text).push(' '));
            text = text.push(' ');
        }
        len += 1;
    }
}

fn make_row(a: &str, b: &str, c: &str, d: &str, rest: &str) -> (r: String)
    ensures
        r@ == table_row(a@, b@, c@, d@, rest@),
{
    let mut out = String::new();
    append_padded(&mut out, a, 16);
    out.append(" ");
    append_padded(&mut out, b, 18);
    out.append(" ");
    append_padded(&mut out, c, 12);
    out.append(" ");
    append_padded(&mut out, d, 8);
    out.append(" ");
    out.append(rest);
    assert(out@ == table_row(a@, b@, c@, d@, rest@));
    out
}

/// The row of a peer; `rtt` is its round-trip time in whole milliseconds.
pub open spec fn peer_row(p: PeerStatus, rtt: u32) -> Seq<char> {
    table_row(p.hostname@, p.addr@, p.state@, decimal_of(rtt as int) + "ms"@, p.screen@)
}

/// The rows of peers.
pub open spec fn peer_rows(peers: Seq<PeerStatus>, rtts: Seq<u32>) -> Seq<(bool, Seq<char>)> {
    Seq::new(peers.len(), |i: int| (false, peer_row(peers[i], rtts[i])))
}

/// What `status` shows of an answer; `rtts` are the round-trip times of its
/// peers in whole milliseconds.
pub open spec fn status_shown(response: IpcResponse, rtts: Seq<u32>) -> Seq<(bool, Seq<char>)> {
    match response {
        IpcResponse::Status { state, peers } => {
            let head = seq![(false, "State: "@ + state@)];
            if peers@.len() == 0 {
                head.push((false, "No peers connected"@))
            } else {
                head.push(
                    (false, table_row("HOSTNAME"@, "ADDRESS"@, "STATE"@, "RTT"@, "SCREEN"@)),
                ) + peer_rows(peers@, rtts)
            }
        },
        IpcResponse::Error { message } => seq![
            (true, "Error: "@ + message@),
            (true, "Is the daemon running? Try: kmflow start"@),
        ],
        IpcResponse::Done { message } => seq![],
    }
}

/// What `status` shows of an answer; `rtts` are the round-trip times of its
/// peers in whole milliseconds.
pub fn show_status(response: &IpcResponse, rtts: &[u32]) -> (r: Vec<Line>)
    requires
        *response matches IpcResponse::Status { state, peers } ==> peers@.len() == rtts@.len(),
    ensures
        line_views(r@) == status_shown(*response, rtts@),
{
    let mut out: Vec<Line> = Vec::new();
    assert(line_views(out@) == Seq::<(bool, Seq<char>)>::empty());
    match response {
        IpcResponse::Status { state, peers } => {
            let mut s = "State: ".to_owned();
            s.append(state.as_str());
            push_line(&mut out, Line::Out(s));
            if peers.len() == 0 {
                push_line(&mut out, Line::Out("No peers connected".to_owned()));
                assert(line_views(out@) == status_shown(*response, rtts@));
                return out;
            }
            push_line(
                &mut out,
                Line::Out(make_row("HOSTNAME", "ADDRESS", "STATE", "RTT", "SCREEN")),
            );
            let ghost head = line_views(out@);
            let mut i: usize = 0;
            assert(head == head + peer_rows(peers@.take(0), rtts@));
            while i < peers.len()
                invariant
                    i <= peers@.len(),
                    peers@.len() == rtts@.len(),
                    line_views(out@) == head + peer_rows(peers@.take(i as int), rtts@),
                decreases peers@.len() - i,
            {
                let p = &peers[i];
                let mut rtt = String::new();
                append_decimal(&mut rtt, rtts[i] as u64);
                rtt.append("ms");
                assert(rtt@ == decimal_of(rtts@[i as int] as int) + "ms"@);
                let row = make_row(
                    p.hostname.as_str(),
                    p.addr.as_str(),
                    p.state.as_str(),
                    rtt.as_str(),
                    p.screen.as_str(),
                );
                push_line(&mut out, Line::Out(row));
                assert(peer_rows(peers@.take(i + 1), rtts@) == peer_rows(
                    peers@.take(i as int),
                    rtts@,
                ).push((false, row@)));
                i += 1;
            }
            assert(peers@.take(i as int) == peers@);
            assert(line_views(out@) == status_shown(*response, rtts@));
        },
        IpcResponse::Error { message } => {
            push_line(&mut out, error_line(message.as_str()));
            push_line(&mut out, Line::Problem("Is the daemon running? Try: kmflow start".to_owned()));
            assert(line_views(out@) == status_shown(*response, rtts@));
        },
        IpcResponse::Done { message } => {
            assert(line_views(out@) == status_shown(*response, rtts@));
        },
    }
    out
}

/// The rules that let the program through a firewall, for three of them.
pub open spec fn firewall_text(port: u16) -> Seq<char> {
    let p = decimal_of(port as int);
    "# KMFlow firewall rules\n# Run the appropriate command for your system:\n\n# UFW (Ubuntu/Debian):\nsudo ufw allow "@
        + p
        + "/udp comment 'KMFlow QUIC'\n\n# firewalld (Fedora/RHEL):\nsudo firewall-cmd --permanent --add-port="@
        + p
        + "/udp\nsudo firewall-cmd --reload\n\n# iptables:\nsudo iptables -A INPUT -p udp --dport "@
        + p + " -j ACCEPT\n"@
}

/// The rules that let the program through a firewall.
pub fn firewall_rules(port: u16) -> (r: String)
    ensures
        r@ == firewall_text(port),
{
    let mut out =
        "# KMFlow firewall rules\n# Run the appropriate command for your system:\n\n# UFW (Ubuntu/Debian):\nsudo ufw allow ".to_owned();
    append_decimal(&mut out, port as u64);
    out.append(
        "/udp comment 'KMFlow QUIC'\n\n# firewalld (Fedora/RHEL):\nsudo firewall-cmd --permanent --add-port=",
    );
    append_decimal(&mut out, port as u64);
    out.append(
        "/udp\nsudo firewall-cmd --reload\n\n# iptables:\nsudo iptables -A INPUT -p udp --dport ",
    );
    append_decimal(&mut out, port as u64);
    out.append(" -j ACCEPT\n");
    assert(out@ == firewall_text(port));
    out
}

/// The first of the flags right, left, top and bottom that is given names the side.
pub proof fn the_first_side_counts(left: bool, top: bool, bottom: bool)
    ensures
        named_edge(true, left, top, bottom) == Some(Edge::Right),
        named_edge(false, true, top, bottom) == Some(Edge::Left),
        named_edge(false, false, true, bottom) == Some(Edge::Top),
        named_edge(false, false, false, true) == Some(Edge::Bottom),
        named_edge(false, false, false, false) is None,
{
}

/// `layout` names the side that `start` would, in words, and the peer that was given
/// for it.
pub proof fn layouts_name_sides_as_flags_do(
    right: Option<String>,
    left: Option<String>,
    top: Option<String>,
    bottom: Option<String>,
)
    ensures
        match named_edge(right is Some, left is Some, top is Some, bottom is Some) {
            Some(Edge::Right) => named_layout(right, left, top, bottom) == Some(
                (right->0, "right"@),
            ),
            Some(Edge::Left) => named_layout(right, left, top, bottom) == Some((left->0, "left"@)),
            Some(Edge::Top) => named_layout(right, left, top, bottom) == Some((top->0, "top"@)),
            Some(Edge::Bottom) => named_layout(right, left, top, bottom) == Some(
                (bottom->0, "bottom"@),
            ),
            None => named_layout(right, left, top, bottom) is None,
        },
{
}

/// A text that is filled up is at least as wide as asked, begins with the text and
/// goes on with spaces; a longer one is left as it is.
pub proof fn padding_is_spaces(s: Seq<char>, width: nat)
    ensures
        padded(s, width).len() == (if s.len() >= width {
            s.len()
        } else {
            width
        }),
        padded(s, width).take(s.len() as int) == s,
        forall|i: int| s.len() <= i < padded(s, width).len() ==> padded(s, width)[i] == ' ',
    decreases width - s.len(),
{
    if s.len() < width {
        let t = s.push(' ');
        padding_is_spaces(t, width);
        let r = padded(s, width);
        assert(r.take(s.len() as int) =~= t.take(s.len() as int)) by {
            assert(r.take(t.len() as int) == t);
            assert forall|j: int| 0 <= j < s.len() implies r[j] == t[j] by {
                assert(r.take(t.len() as int)[j] == r[j]);
            }
        }
        assert(t.take(s.len() as int) == s);
        assert(r[s.len() as int] == r.take(t.len() as int)[s.len() as int]);
    } else {
        assert(s.take(s.len() as int) == s);
    }
}

/// The columns of a row begin at the places 0, 17, 36, 49 and 58, where each fits in
/// its column.
pub proof fn columns_have_their_places(
    a: Seq<char>,
    b: Seq<char>,
    c: Seq<char>,
    d: Seq<char>,
    rest: Seq<char>,
)
    requires
        a.len() <= 16,
        b.len() <= 18,
        c.len() <= 12,
        d.len() <= 8,
    ensures
        ({
            let row = table_row(a, b, c, d, rest);
            &&& row.len() == 58 + rest.len()
            &&& row.take(a.len() as int) == a
            &&& row.subrange(17, 17 + b.len() as int) == b
            &&& row.subrange(36, 36 + c.len() as int) == c
            &&& row.subrange(49, 49 + d.len() as int) == d
            &&& row.skip(58) == rest
            &&& forall|i: int|
                a.len() <= i < 17 || 17 + b.len() as int <= i < 36 || 36 + c.len() as int <= i < 49 || 49 + d.len() as int
                    <= i < 58 ==> row[i] == ' '
        }),
{
    let row = table_row(a, b, c, d, rest);
    reveal_strlit(" ");
    padding_is_spaces(a, 16);
    padding_is_spaces(b, 18);
    padding_is_spaces(c, 12);
    padding_is_spaces(d, 8);
    let pa = padded(a, 16);
    let pb = padded(b, 18);
    let pc = padded(c, 12);
    let pd = padded(d, 8);
    assert(row.take(16) == pa);
    assert(row.subrange(17, 35) == pb);
    assert(row.subrange(36, 48) == pc);
    assert(row.subrange(49, 57) == pd);
    assert(row[16] == ' ' && row[35] == ' ' && row[48] == ' ' && row[57] == ' ');
    assert(row.take(a.len() as int) == pa.take(a.len() as int));
    assert(row.subrange(17, 17 + b.len() as int) == pb.take(b.len() as int));
    assert(row.subrange(36, 36 + c.len() as int) == pc.take(c.len() as int));
    assert(row.subrange(49, 49 + d.len() as int) == pd.take(d.len() as int));
    assert(row.skip(58) == rest);
    assert forall|i: int|
        a.len() <= i < 17 || 17 + b.len() as int <= i < 36 || 36 + c.len() as int <= i < 49 || 49 + d.len() as int <= i
            < 58 implies row[i] == ' ' by {
        if i < 16 {
            assert(row.take(16)[i] == row[i]);
        } else if 17 <= i < 35 {
            assert(row.subrange(17, 35)[i - 17] == row[i]);
        } else if 36 <= i < 48 {
            assert(row.subrange(36, 48)[i - 36] == row[i]);
        } else if 49 <= i < 57 {
            assert(row.subrange(49, 57)[i - 49] == row[i]);
        }
    }
}

/// What is shown of a peer: host name, address, state, round-trip time and screen,
/// each in its column.
pub proof fn peers_are_shown_in_columns(p: PeerStatus, rtt: u32)
    requires
        p.hostname@.len() <= 16,
        p.addr@.len() <= 18,
        p.state@.len() <= 12,
        decimal_of(rtt as int).len() <= 6,
    ensures
        ({
            let row = peer_row(p, rtt);
            let digits = decimal_of(rtt as int);
            &&& row.take(p.hostname@.len() as int) == p.hostname@
            &&& row.subrange(17, 17 + p.addr@.len() as int) == p.addr@
            &&& row.subrange(36, 36 + p.state@.len() as int) == p.state@
            &&& row.subrange(49, 49 + digits.len() as int) == digits
            &&& row[49 + digits.len() as int] == 'm'
            &&& row[50 + digits.len() as int] == 's'
            &&& row.skip(58) == p.screen@
        }),
{
    reveal_strlit("ms");
    let digits = decimal_of(rtt as int);
    let time = digits + "ms"@;
    columns_have_their_places(p.hostname@, p.addr@, p.state@, time, p.screen@);
    let row = peer_row(p, rtt);
    let shown = row.subrange(49, 49 + time.len() as int);
    assert(shown == time);
    assert(row.subrange(49, 49 + digits.len() as int) == shown.take(digits.len() as int));
    assert(time.take(digits.len() as int) == digits);
    assert(row[49 + digits.len() as int] == shown[digits.len() as int]);
    assert(row[50 + digits.len() as int] == shown[digits.len() as int + 1]);
}

/// The status shows the state and every peer, one line for each and in their order,
/// or that there is none; all of it on the standard output.
pub proof fn every_peer_is_shown(state: String, peers: Vec<PeerStatus>, rtts: Seq<u32>, i: int)
    ensures
        ({
            let shown = status_shown(IpcResponse::Status { state, peers }, rtts);
            &&& shown[0] == (false, "State: "@ + state@)
            &&& peers@.len() == 0 ==> shown == seq![
                (false, "State: "@ + state@),
                (false, "No peers connected"@),
            ]
            &&& peers@.len() > 0 ==> shown.len() == peers@.len() + 2 && shown[1].0 == false
                && shown[1].1 == table_row(
                "HOSTNAME"@,
                "ADDRESS"@,
                "STATE"@,
                "RTT"@,
                "SCREEN"@,
            )
            &&& 0 <= i < peers@.len() ==> shown[i + 2] == (false, peer_row(peers@[i], rtts[i]))
        }),
{
}

/// An answer with a message is shown as it is, an error on the error output behind
/// `Error: `; the status adds a hint that the daemon may not run.
pub proof fn answers_are_shown(message: String, rtts: Seq<u32>)
    ensures
        reply_shown(IpcResponse::Done { message }) == seq![(false, message@)],
        reply_shown(IpcResponse::Error { message }) == seq![(true, "Error: "@ + message@)],
        status_shown(IpcResponse::Done { message }, rtts).len() == 0,
        status_shown(IpcResponse::Error { message }, rtts) == seq![
            (true, "Error: "@ + message@),
            (true, "Is the daemon running? Try: kmflow start"@),
        ],
        NO_DIRECTION@ == "specify at least one direction (--right, --left, --top, --bottom)"@,
{
}

/// Output lines and problems are told apart, and their texts kept.
pub proof fn lines_are_told_apart(s: String, v: Seq<Line>, i: int)
    ensures
        line_view(Line::Out(s)) == (false, s@),
        line_view(Line::Problem(s)) == (true, s@),
        line_views(v).len() == v.len(),
        0 <= i < v.len() ==> line_views(v)[i] == line_view(v[i]),
{
}

/// A text that ends with `u`, then `p`, then one that begins with `b`: the three
/// stand in it side by side.
proof fn lemma_side_by_side(
    before: Seq<char>,
    u: Seq<char>,
    p: Seq<char>,
    b: Seq<char>,
    after: Seq<char>,
    text: Seq<char>,
)
    requires
        text == before + u + p + b + after,
    ensures
        has_infix(text, u + p + b),
{
    runs_occur_in_texts(before, u + p + b, after, text);
    assert(before + (u + p + b) + after == text);
}

/// The rules let the same port through each of the three firewalls, for UDP.
pub proof fn rules_are_for_the_port(port: u16)
    ensures
        ({
            let p = decimal_of(port as int);
            let text = firewall_text(port);
            &&& has_infix(text, "sudo ufw allow "@ + p + "/udp"@)
            &&& has_infix(text, "--add-port="@ + p + "/udp"@)
            &&& has_infix(text, "-p udp --dport "@ + p + " -j ACCEPT\n"@)
        }),
{
    let p = decimal_of(port as int);
    let a =
        "# KMFlow firewall rules\n# Run the appropriate command for your system:\n\n# UFW (Ubuntu/Debian):\nsudo ufw allow "@;
    let b =
        "/udp comment 'KMFlow QUIC'\n\n# firewalld (Fedora/RHEL):\nsudo firewall-cmd --permanent --add-port="@;
    let c =
        "/udp\nsudo firewall-cmd --reload\n\n# iptables:\nsudo iptables -A INPUT -p udp --dport "@;
    let d = " -j ACCEPT\n"@;
    let u = "sudo ufw allow "@;
    let v = "--add-port="@;
    let w = "-p udp --dport "@;
    let x = "/udp"@;
    let a0 = a.take(a.len() - 15);
    let b0 = b.take(b.len() - 11);
    let c0 = c.take(c.len() - 15);
    let b1 = b.skip(4);
    let c1 = c.skip(4);
    assert(a == a0 + u) by {
        reveal_strlit(
            "# KMFlow firewall rules\n# Run the appropriate command for your system:\n\n# UFW (Ubuntu/Debian):\nsudo ufw allow ",
        );
        reveal_strlit("sudo ufw allow ");
    }
    assert(b == b0 + v && b == x + b1) by {
        reveal_strlit(
            "/udp comment 'KMFlow QUIC'\n\n# firewalld (Fedora/RHEL):\nsudo firewall-cmd --permanent --add-port=",
        );
        reveal_strlit("--add-port=");
        reveal_strlit("/udp");
        assert(b =~= b0 + v);
        assert(b =~= x + b1);
    }
    assert(c == c0 + w && c == x + c1) by {
        reveal_strlit(
            "/udp\nsudo firewall-cmd --reload\n\n# iptables:\nsudo iptables -A INPUT -p udp --dport ",
        );
        reveal_strlit("-p udp --dport ");
        reveal_strlit("/udp");
        assert(c =~= c0 + w);
        assert(c =~= x + c1);
    }
    let text = firewall_text(port);
    assert(text == a + p + b + p + c + p + d);
    assert(text == a0 + u + p + x + (b1 + p + c + p + d));
    lemma_side_by_side(a0, u, p, x, b1 + p + c + p + d, text);
    assert(text == (a + p + b0) + v + p + x + (c1 + p + d));
    lemma_side_by_side(a + p + b0, v, p, x, c1 + p + d, text);
    assert(text == (a + p + b + p + c0) + w + p + d + Seq::<char>::empty());
    lemma_side_by_side(a + p + b + p + c0, w, p, d, Seq::<char>::empty(), text);
}

} // verus!
