//! Who a peer is: certificates, their fingerprints, and which are trusted.
//!
//! A peer is trusted on first use: its fingerprint is written down beside its host
//! name when it is first met, and it is held to that fingerprint from then on.
use crate::proto::PeerIdentity;
use crate::text::{
    append_decimal, append_hex, contains, decimal_of, decimal_reads_back, has_infix, hex_char,
    hexadecimal_digits, is_digit, join_path, joined_path, last_line_is_lengthened, lines,
    lines_of, lines_split_at_a_break, one_line_is_a_line, runs_occur_in_texts, same_chars,
    to_chars, views,
};
use vstd::prelude::*;
use vstd::string::*;

verus! {

/// The SHA-256 digest of some bytes.
pub uninterp spec fn sha256_of(data: Seq<u8>) -> Seq<u8>;

/// `ring::digest::digest` with `SHA256` computes the digest of the bytes, which
/// depends on nothing else and has 32 bytes. It panics on more than `2^61 - 1`
/// bytes, the most that SHA-256 takes.
#[verifier::external_body]
fn sha256(data: &[u8]) -> (r: Vec<u8>)
    requires
        data@.len() < 0x2000_0000_0000_0000,
    ensures
        r@ == sha256_of(data@),
        r@.len() == 32,
{
    ring::digest::digest(&ring::digest::SHA256, data).as_ref().to_vec()
}

/// A digest in writing: two hexadecimal digits for each byte, in lower case,
/// with a colon between the bytes.
pub open spec fn hex_colons(bytes: Seq<u8>) -> Seq<char>
    decreases bytes.len(),
{
    if bytes.len() == 0 {
        seq![]
    } else {
        let init = hex_colons(bytes.drop_last());
        let sep = if bytes.len() > 1 {
            init.push(':')
        } else {
            init
        };
        sep.push(hex_char(bytes.last() as int / 16)).push(hex_char(bytes.last() as int % 16))
    }
}

/// Writes a digest as pairs of hexadecimal digits with colons between them.
pub fn format_digest(digest: &[u8]) -> (r: String)
    ensures
        r@ == hex_colons(digest@),
{
    let mut out = String::new();
    let n = digest.len();
    let mut i: usize = 0;
    while i < n
        invariant
            i <= n,
            n == digest@.len(),
            out@ == hex_colons(digest@.take(i as int)),
        decreases n - i,
    {
        if i > 0 {
            out.push(':');
        }
        append_hex(&mut out, digest[i]);
        assert(digest@.take(i + 1).drop_last() == digest@.take(i as int));
        i += 1;
    }
    assert(digest@.take(n as int) == digest@);
    out
}

/// The fingerprint of a certificate: its SHA-256 digest in writing.
pub open spec fn fingerprint_of(cert_der: Seq<u8>) -> Seq<char> {
    hex_colons(sha256_of(cert_der))
}

/// The fingerprint of a certificate.
pub fn compute_fingerprint(cert_der: &[u8]) -> (r: String)
    requires
        cert_der@.len() < 0x2000_0000_0000_0000,
    ensures
        r@ == fingerprint_of(cert_der@),
        r@.len() == 95,
{
    let digest = sha256(cert_der);
    proof {
        digest_text_length(digest@);
    }
    format_digest(digest.as_slice())
}

/// A written digest takes three characters for each byte, less one.
pub proof fn digest_text_length(bytes: Seq<u8>)
    ensures
        bytes.len() > 0 ==> hex_colons(bytes).len() == 3 * bytes.len() - 1,
    decreases bytes.len(),
{
    reveal_with_fuel(hex_colons, 2);
    if bytes.len() > 0 {
        digest_text_length(bytes.drop_last());
    }
}

proof fn lemma_hex_char_distinct(a: int, b: int)
    requires
        0 <= a < 16,
        0 <= b < 16,
        hex_char(a) == hex_char(b),
    ensures
        a == b,
{
    assert(hex_char(a) as u32 == hex_char(b) as u32);
}

/// Different digests are written differently.
pub proof fn digest_text_is_unique(a: Seq<u8>, b: Seq<u8>)
    requires
        hex_colons(a) == hex_colons(b),
    ensures
        a == b,
    decreases a.len(),
{
    digest_text_length(a);
    digest_text_length(b);
    if a.len() == 0 {
        if b.len() > 0 {
            assert(hex_colons(b).len() > 0);
        }
        assert(a == b);
    } else {
        if b.len() == 0 {
            assert(hex_colons(a).len() > 0);
        }
        let s = hex_colons(a);
        let n = s.len() as int;
        let (ah, al) = (a.last() as int / 16, a.last() as int % 16);
        let (bh, bl) = (b.last() as int / 16, b.last() as int % 16);
        assert(s[n - 1] == hex_char(al) && s[n - 1] == hex_char(bl));
        assert(s[n - 2] == hex_char(ah) && s[n - 2] == hex_char(bh));
        lemma_hex_char_distinct(al, bl);
        lemma_hex_char_distinct(ah, bh);
        assert(a.last() == b.last());
        let ia = hex_colons(a.drop_last());
        let ib = hex_colons(b.drop_last());
        assert(ia == s.take(ia.len() as int));
        assert(ib == s.take(ib.len() as int));
        digest_text_is_unique(a.drop_last(), b.drop_last());
        assert(a == a.drop_last().push(a.last()));
        assert(b == b.drop_last().push(b.last()));
    }
}

/// The fingerprint of a connected peer, by the first certificate it showed.
pub fn peer_fingerprint(first_cert: Option<&[u8]>) -> (r: String)
    requires
        first_cert matches Some(c) ==> c@.len() < 0x2000_0000_0000_0000,
    ensures
        r@ == match first_cert {
            Some(c) => fingerprint_of(c@),
            None => "unknown"@,
        },
{
    match first_cert {
        Some(c) => compute_fingerprint(c),
        None => "unknown".to_owned(),
    }
}

/// Whether `cert` is an X.509 certificate in DER form for the host `name` with
/// the subject `common_name`, signed by the very key that it certifies, which is
/// `key` in PKCS#8 form.
pub uninterp spec fn is_self_signed(
    name: Seq<char>,
    common_name: Seq<char>,
    cert: Seq<u8>,
    key: Seq<u8>,
) -> bool;

/// `rcgen::Error`, of which nothing is known but that it is one.
#[verifier::external_type_specification]
#[verifier::external_body]
pub struct ExRcgenError(rcgen::Error);

/// `rcgen::KeyPair::generate` makes a new random key pair, and
/// `rcgen::CertificateParams`, made by `new` for a host name and given a common
/// name with `DistinguishedName::push`, makes with `self_signed` a certificate
/// for it. Which key comes out is left to chance; that the two belong together,
/// and to the names, is not. When this fails is not stated.
#[verifier::external_body]
fn self_signed(name: &str, common_name: &str) -> (r: Result<(Vec<u8>, Vec<u8>), rcgen::Error>)
    ensures
        r matches Ok((cert, key)) ==> is_self_signed(name@, common_name@, cert@, key@),
{
    let key_pair = rcgen::KeyPair::generate()?;
    let mut params = rcgen::CertificateParams::new(vec![name.to_string()])?;
    params.distinguished_name.push(
        rcgen::DnType::CommonName,
        rcgen::DnValue::Utf8String(common_name.to_string()),
    );
    let cert = params.self_signed(&key_pair)?;
    Ok((cert.der().to_vec(), key_pair.serialize_der()))
}

/// Why no identity could be made.
#[derive(Debug, Clone, Copy, PartialEq, Eq, Structural)]
pub enum IdentityError {
    /// The key or the certificate could not be generated.
    Generation,
    /// The certificate is too long for a digest.
    Size,
}

/// A machine's certificate and key, both in DER form, and the fingerprint that
/// peers know it by.
#[derive(Debug, Clone, PartialEq, Eq)]
pub struct TlsIdentity {
    pub cert_der: Vec<u8>,
    pub key_der: Vec<u8>,
    pub fingerprint: String,
}

impl TlsIdentity {
    /// Whether the fingerprint is that of the certificate.
    pub open spec fn wf(self) -> bool {
        self.fingerprint@ == fingerprint_of(self.cert_der@)
    }

    /// The identity of a certificate and a key that were kept.
    pub fn from_parts(cert_der: Vec<u8>, key_der: Vec<u8>) -> (r: Self)
        requires
            cert_der@.len() < 0x2000_0000_0000_0000,
        ensures
            r.wf(),
            r.cert_der == cert_der,
            r.key_der == key_der,
    {
        let fingerprint = compute_fingerprint(cert_der.as_slice());
        TlsIdentity { cert_der, key_der, fingerprint }
    }

    /// A new identity, for the host `kmflow.local` and the subject `kmflow`.
    /// Whether one can be made is left to the source of random numbers.
    pub fn generate() -> (r: Result<Self, IdentityError>)
        ensures
            r matches Ok(id) ==> id.wf() && is_self_signed(
                "kmflow.local"@,
                "kmflow"@,
                id.cert_der@,
                id.key_der@,
            ),
            r matches Err(IdentityError::Size) ==> exists|cert: Seq<u8>, key: Seq<u8>|
                cert.len() >= 0x2000_0000_0000_0000 && #[trigger] is_self_signed(
                    "kmflow.local"@,
                    "kmflow"@,
                    cert,
                    key,
                ),
    {
        TlsIdentity::from_generated(self_signed("kmflow.local", "kmflow"))
    }

    /// The identity of a certificate and a key that were just made, if they could
    /// be made and the certificate is short enough for a digest.
    pub fn from_generated(made: Result<(Vec<u8>, Vec<u8>), rcgen::Error>) -> (r: Result<
        Self,
        IdentityError,
    >)
        ensures
            match made {
                Ok((cert, key)) => if cert@.len() < 0x2000_0000_0000_0000 {
                    r matches Ok(id) && id.wf() && id.cert_der == cert && id.key_der == key
                } else {
                    r matches Err(IdentityError::Size)
                },
                Err(_) => r matches Err(IdentityError::Generation),
            },
    {
        match made {
            Ok((cert, key)) => {
                if cert.len() as u64 >= 0x2000_0000_0000_0000 {
                    return Err(IdentityError::Size);
                }
                Ok(TlsIdentity::from_parts(cert, key))
            },
            Err(_) => Err(IdentityError::Generation),
        }
    }
}

/// The files of an identity in the configuration directory: certificate and key.
pub fn identity_paths(config_dir: &str) -> (r: (String, String))
    ensures
        r.0@ == joined_path(config_dir@, "cert.der"@),
        r.1@ == joined_path(config_dir@, "key.der"@),
{
    (join_path(config_dir, "cert.der"), join_path(config_dir, "key.der"))
}

/// Which peers are known, by a file that lists them.
pub struct TofuVerifier {
    known_peers_path: String,
}

/// The text of a new list of known peers.
pub open spec fn empty_list() -> Seq<char> {
    "# KMFlow known peers\n\n"@
}

/// The line of an entry that holds the fingerprint.
pub open spec fn fingerprint_line(fingerprint: Seq<char>) -> Seq<char> {
    "fingerprint = \""@ + fingerprint + "\""@
}

/// The line of an entry that holds the host name.
pub open spec fn hostname_line(hostname: Seq<char>) -> Seq<char> {
    "hostname = \""@ + hostname + "\""@
}

/// The entry of a peer in the list of known peers.
pub open spec fn entry(fingerprint: Seq<char>, hostname: Seq<char>, last_seen: u64) -> Seq<char> {
    "[[peers]]\nfingerprint = \""@ + fingerprint + "\"\nhostname = \""@ + hostname
        + "\"\nlast_seen = "@ + decimal_of(last_seen as int) + "\n\n"@
}

/// Whether a list of known peers, if there is one, names a fingerprint.
pub open spec fn knows(list: Option<Seq<char>>, fingerprint: Seq<char>) -> bool {
    match list {
        Some(text) => has_infix(text, fingerprint),
        None => false,
    }
}

/// The list of known peers after an entry was added to it.
pub open spec fn entered(
    list: Option<Seq<char>>,
    fingerprint: Seq<char>,
    hostname: Seq<char>,
    last_seen: u64,
) -> Seq<char> {
    (match list {
        Some(text) => text,
        None => empty_list(),
    }) + entry(fingerprint, hostname, last_seen)
}

/// The list of known peers after a peer was added to it.
pub open spec fn trusted(list: Option<Seq<char>>, identity: PeerIdentity) -> Seq<char> {
    entered(list, identity.fingerprint@, identity.hostname@, identity.last_seen)
}

/// A list of known peers as text, if there is one.
pub open spec fn list_view(list: Option<&str>) -> Option<Seq<char>> {
    match list {
        Some(text) => Some(text@),
        None => None,
    }
}

/// Whether a line holds the fingerprint of an entry and the next line its host
/// name.
pub open spec fn pair_at(
    lines: Seq<Seq<char>>,
    i: int,
    hostname: Seq<char>,
    fingerprint: Seq<char>,
) -> bool {
    &&& 0 <= i < lines.len() - 1
    &&& lines[i] == fingerprint_line(fingerprint)
    &&& lines[i + 1] == hostname_line(hostname)
}

/// Whether a list of known peers has an entry for a host with a fingerprint.
pub open spec fn pairs(
    list: Option<Seq<char>>,
    hostname: Seq<char>,
    fingerprint: Seq<char>,
) -> bool {
    match list {
        Some(text) => exists|i: int| #[trigger]
            pair_at(lines_of(text), i, hostname, fingerprint),
        None => false,
    }
}

/// Whether a list of known peers has an entry for a host.
pub open spec fn names_host(list: Option<Seq<char>>, hostname: Seq<char>) -> bool {
    match list {
        Some(text) => lines_of(text).contains(hostname_line(hostname)),
        None => false,
    }
}

/// What the list of known peers says of a peer.
#[derive(Debug, Clone, Copy, PartialEq, Eq, Structural)]
pub enum Trust {
    /// The host is listed with this fingerprint.
    Known,
    /// The host is not listed.
    First,
    /// The host is listed, but not with this fingerprint.
    Changed,
}

/// What the list of known peers says of a host that shows a fingerprint.
pub open spec fn judged(
    list: Option<Seq<char>>,
    hostname: Seq<char>,
    fingerprint: Seq<char>,
) -> Trust {
    if pairs(list, hostname, fingerprint) {
        Trust::Known
    } else if !names_host(list, hostname) {
        Trust::First
    } else {
        Trust::Changed
    }
}

/// A text with spaces for its line breaks, so that it fits in a line.
pub open spec fn in_one_line(s: Seq<char>) -> Seq<char> {
    s.map_values(|c: char| if c == '\n' { ' ' } else { c })
}

fn without_breaks(s: &str) -> (r: String)
    ensures
        r@ == in_one_line(s@),
{
    let chars = to_chars(s);
    let mut out = String::new();
    let n = chars.len();
    let mut i: usize = 0;
    while i < n
        invariant
            i <= n,
            n == chars@.len(),
            out@ == in_one_line(chars@.take(i as int)),
        decreases n - i,
    {
        out.push(if chars[i] == '\n' { ' ' } else { chars[i] });
        assert(in_one_line(chars@.take(i + 1)) == in_one_line(chars@.take(i as int)).push(
            if chars@[i as int] == '\n' {
                ' '
            } else {
                chars@[i as int]
            },
        ));
        i += 1;
    }
    assert(chars@.take(n as int) == chars@);
    out
}

/// What comes of meeting a peer.
#[derive(Debug, Clone, PartialEq, Eq)]
pub enum Meeting {
    /// The peer is who it was before: the session goes on.
    Known,
    /// The peer was not met before: the session goes on, and this is the list of
    /// known peers from now on.
    Entered(String),
    /// The peer shows another fingerprint than before: there is no session.
    Refused,
}

proof fn lemma_contains_pushed(s: Seq<Seq<char>>, x: Seq<char>, y: Seq<char>)
    ensures
        s.push(x).contains(y) <==> s.contains(y) || x == y,
{
    if s.contains(y) {
        let i = choose|i: int| 0 <= i < s.len() && s[i] == y;
        assert(s.push(x)[i] == y);
    }
    if x == y {
        assert(s.push(x)[s.len() as int] == y);
    }
    if s.push(x).contains(y) && x != y {
        let i = choose|i: int| 0 <= i <= s.len() && s.push(x)[i] == y;
        assert(s[i] == y);
    }
}

impl TofuVerifier {
    /// The path of the list of known peers.
    pub closed spec fn path(&self) -> Seq<char> {
        self.known_peers_path@
    }

    pub fn new(config_dir: &str) -> (r: Self)
        ensures
            r.path() == joined_path(config_dir@, "known_peers.toml"@),
    {
        TofuVerifier { known_peers_path: join_path(config_dir, "known_peers.toml") }
    }

    /// The path of the list of known peers.
    pub fn known_peers_path(&self) -> (r: &str)
        ensures
            r@ == self.path(),
    {
        self.known_peers_path.as_str()
    }

    /// Whether a fingerprint is in the list of known peers; `list` is the text
    /// of the list, or `None` where there is no file.
    pub fn is_known(&self, list: Option<&str>, fingerprint: &str) -> (r: bool)
        ensures
            r == knows(
                match list {
                    Some(text) => Some(text@),
                    None => None,
                },
                fingerprint@,
            ),
    {
        match list {
            Some(text) => {
                let chars = to_chars(text);
                contains(chars.as_slice(), fingerprint)
            },
            None => false,
        }
    }

    /// What the list of known peers says of a host that shows a fingerprint;
    /// `list` is the text of the list, or `None` where there is no file.
    pub fn judge(&self, list: Option<&str>, hostname: &str, fingerprint: &str) -> (r: Trust)
        ensures
            r == (if pairs(list_view(list), hostname@, fingerprint@) {
                Trust::Known
            } else if !names_host(list_view(list), hostname@) {
                Trust::First
            } else {
                Trust::Changed
            }),
    {
        let text = match list {
            Some(text) => to_chars(text),
            None => {
                return Trust::First;
            },
        };
        let mut line = "fingerprint = \"".to_owned();
        line.append(fingerprint);
        line.append("\"");
        let wanted = to_chars(line.as_str());
        let mut line = "hostname = \"".to_owned();
        line.append(hostname);
        line.append("\"");
        let host = to_chars(line.as_str());
        let ls = lines(text.as_slice());
        let ghost v = lines_of(text@);
        let n = ls.len();
        let mut named = false;
        let mut i: usize = 0;
        while i < n
            invariant
                i <= n,
                n == ls@.len(),
                v == views(ls@),
                v == lines_of(text@),
                wanted@ == fingerprint_line(fingerprint@),
                host@ == hostname_line(hostname@),
                list matches Some(t) && t@ == text@,
                named == v.take(i as int).contains(hostname_line(hostname@)),
                forall|j: int| j < i - 1 ==> !#[trigger] pair_at(v, j, hostname@, fingerprint@),
            decreases n - i,
        {
            assert(v[i as int] == ls@[i as int]@);
            assert(v.take(i + 1) == v.take(i as int).push(v[i as int]));
            proof {
                lemma_contains_pushed(v.take(i as int), v[i as int], host@);
            }
            if same_chars(ls[i], host.as_slice()) {
                if i > 0 && same_chars(ls[i - 1], wanted.as_slice()) {
                    assert(v[i - 1] == ls@[i - 1]@);
                    assert(pair_at(v, i - 1, hostname@, fingerprint@));
                    return Trust::Known;
                }
                assert(i > 0 ==> v[i - 1] == ls@[i - 1]@);
                named = true;
            }
            i += 1;
        }
        assert(v.take(n as int) == v);
        if named {
            Trust::Changed
        } else {
            Trust::First
        }
    }

    /// Meets a peer that has named its host and shown a fingerprint: trusts it on
    /// first use, and holds it to its fingerprint from then on. Line breaks in
    /// what the peer says count as spaces.
    pub fn meet(
        &self,
        list: Option<&str>,
        hostname: &str,
        fingerprint: &str,
        now_us: u64,
    ) -> (r: Meeting)
        ensures
            match judged(list_view(list), in_one_line(hostname@), in_one_line(fingerprint@)) {
                Trust::Known => r is Known,
                Trust::First => r matches Meeting::Entered(text) && text@ == entered(
                    list_view(list),
                    in_one_line(fingerprint@),
                    in_one_line(hostname@),
                    now_us,
                ),
                Trust::Changed => r is Refused,
            },
    {
        let identity = first_sight(hostname, fingerprint, now_us);
        match self.judge(list, identity.hostname.as_str(), identity.fingerprint.as_str()) {
            Trust::Known => Meeting::Known,
            Trust::First => {
                let text = match list {
                    Some(text) => Some(text.to_owned()),
                    None => None,
                };
                Meeting::Entered(self.trust_peer(text, &identity))
            },
            Trust::Changed => Meeting::Refused,
        }
    }

    /// The list of known peers with one more peer in it.
    pub fn trust_peer(&self, list: Option<String>, identity: &PeerIdentity) -> (r: String)
        ensures
            r@ == trusted(
                match list {
                    Some(text) => Some(text@),
                    None => None,
                },
                *identity,
            ),
    {
        let mut out = match list {
            Some(text) => text,
            None => "# KMFlow known peers\n\n".to_owned(),
        };
        let ghost before = out@;
        out.append("[[peers]]\nfingerprint = \"");
        out.append(identity.fingerprint.as_str());
        out.append("\"\nhostname = \"");
        out.append(identity.hostname.as_str());
        out.append("\"\nlast_seen = ");
        append_decimal(&mut out, identity.last_seen);
        out.append("\n\n");
        assert(out@ == before + entry(
            identity.fingerprint@,
            identity.hostname@,
            identity.last_seen,
        ));
        out
    }
}

/// The entry for a peer met for the first time.
pub fn first_sight(hostname: &str, fingerprint: &str, now_us: u64) -> (r: PeerIdentity)
    ensures
        r.fingerprint@ == in_one_line(fingerprint@),
        r.hostname@ == in_one_line(hostname@),
        r.last_seen == now_us,
{
    PeerIdentity {
        fingerprint: without_breaks(fingerprint),
        hostname: without_breaks(hostname),
        last_seen: now_us,
    }
}

/// Once a peer was written down its fingerprint is known, and every fingerprint
/// that was known before still is.
pub proof fn trusted_peers_are_known(
    list: Option<Seq<char>>,
    identity: PeerIdentity,
    earlier: Seq<char>,
)
    ensures
        knows(Some(trusted(list, identity)), identity.fingerprint@),
        knows(list, earlier) ==> knows(Some(trusted(list, identity)), earlier),
{
    let base = match list {
        Some(text) => text,
        None => empty_list(),
    };
    let text = trusted(list, identity);
    let fp = identity.fingerprint@;
    let at: int = base.len() as int + "[[peers]]\nfingerprint = \""@.len();
    assert(text.subrange(at, at + fp.len()) == fp);
    if knows(list, earlier) {
        let i = choose|i: int|
            0 <= i <= base.len() - earlier.len() && #[trigger] base.subrange(i, i + earlier.len())
                == earlier;
        assert(text.subrange(i, i + earlier.len()) == earlier);
    }
}

/// The list of known peers after a host that shows a fingerprint was met.
pub open spec fn list_after(
    list: Option<Seq<char>>,
    hostname: Seq<char>,
    fingerprint: Seq<char>,
    now_us: u64,
) -> Option<Seq<char>> {
    match judged(list, in_one_line(hostname), in_one_line(fingerprint)) {
        Trust::First => Some(
            entered(list, in_one_line(fingerprint), in_one_line(hostname), now_us),
        ),
        _ => list,
    }
}

/// Whether a list of known peers is none, or ends with a line break as every list
/// does that this program writes.
pub open spec fn is_whole(list: Option<Seq<char>>) -> bool {
    list matches Some(text) ==> text.len() > 0 && text.last() == '\n'
}

proof fn lemma_one_line(s: Seq<char>)
    ensures
        !in_one_line(s).contains('\n'),
{
}

/// The lines of different kinds, and of different values, are different.
proof fn lemma_lines_differ(a: Seq<char>, b: Seq<char>)
    ensures
        fingerprint_line(a) != hostname_line(b),
        fingerprint_line(a) == fingerprint_line(b) ==> a == b,
        hostname_line(a) == hostname_line(b) ==> a == b,
        fingerprint_line(a)[0] == 'f',
        hostname_line(a)[0] == 'h',
        fingerprint_line(a).len() > 0,
        hostname_line(a).len() > 0,
        fingerprint_line(a).last() == '"',
        hostname_line(a).last() == '"',
        !a.contains('\n') ==> !fingerprint_line(a).contains('\n'),
        !a.contains('\n') ==> !hostname_line(a).contains('\n'),
{
    reveal_strlit("fingerprint = \"");
    reveal_strlit("hostname = \"");
    reveal_strlit("\"");
    let f: int = "fingerprint = \""@.len() as int;
    let h: int = "hostname = \""@.len() as int;
    assert(fingerprint_line(a)[0] == 'f');
    assert(hostname_line(b)[0] == 'h');
    if fingerprint_line(a) == fingerprint_line(b) {
        assert(a == fingerprint_line(a).subrange(f, fingerprint_line(a).len() - 1));
        assert(b == fingerprint_line(b).subrange(f, fingerprint_line(b).len() - 1));
    }
    if hostname_line(a) == hostname_line(b) {
        assert(a == hostname_line(a).subrange(h, hostname_line(a).len() - 1));
        assert(b == hostname_line(b).subrange(h, hostname_line(b).len() - 1));
    }
    if !a.contains('\n') {
        assert forall|j: int| 0 <= j < fingerprint_line(a).len() implies fingerprint_line(a)[j]
            != '\n' by {
            if f <= j < f + a.len() {
                assert(a.contains(a[j - f]));
            }
        }
        assert forall|j: int| 0 <= j < hostname_line(a).len() implies hostname_line(a)[j]
            != '\n' by {
            if h <= j < h + a.len() {
                assert(a.contains(a[j - h]));
            }
        }
    }
}

proof fn lemma_decimal_has_no_break(n: u64)
    ensures
        !("last_seen = "@ + decimal_of(n as int)).contains('\n'),
        ("last_seen = "@ + decimal_of(n as int)).last() != '\r',
        ("last_seen = "@ + decimal_of(n as int)).len() > 0,
        ("last_seen = "@ + decimal_of(n as int))[0] == 'l',
{
    reveal_strlit("last_seen = ");
    decimal_reads_back(n as int);
    let d = decimal_of(n as int);
    let s = "last_seen = "@ + d;
    assert forall|j: int| 0 <= j < s.len() implies s[j] != '\n' by {
        if j >= 12 {
            assert(is_digit(d[j - 12]));
        }
    }
    assert(is_digit(d[d.len() - 1]));
}

/// The four lines that an entry adds behind its heading.
pub open spec fn entry_lines(fingerprint: Seq<char>, hostname: Seq<char>, last_seen: u64) -> Seq<
    Seq<char>,
> {
    seq![
        fingerprint_line(fingerprint),
        hostname_line(hostname),
        "last_seen = "@ + decimal_of(last_seen as int),
        seq![],
    ]
}

/// The lines of a list that an entry was added to: those of the list, but that
/// the heading of the entry may lengthen the last one, and those of the entry.
proof fn lemma_entered_lines(base: Seq<char>, f: Seq<char>, h: Seq<char>, n: u64)
    requires
        !f.contains('\n'),
        !h.contains('\n'),
    ensures
        lines_of(base + entry(f, h, n)) == lines_of((base + "[[peers]]"@).push('\n'))
            + entry_lines(f, h, n),
{
    reveal_strlit("[[peers]]\nfingerprint = \"");
    reveal_strlit("[[peers]]");
    reveal_strlit("fingerprint = \"");
    reveal_strlit("\"\nhostname = \"");
    reveal_strlit("hostname = \"");
    reveal_strlit("\"\nlast_seen = ");
    reveal_strlit("last_seen = ");
    reveal_strlit("\n\n");
    reveal_strlit("\"");
    let x = base + "[[peers]]"@;
    let fl = fingerprint_line(f);
    let hl = hostname_line(h);
    let dl = "last_seen = "@ + decimal_of(n as int);
    let blank = Seq::<char>::empty().push('\n');
    let after_h = dl.push('\n') + blank;
    let after_f = hl.push('\n') + after_h;
    let after_x = fl.push('\n') + after_f;
    assert("[[peers]]\nfingerprint = \""@ == "[[peers]]"@.push('\n') + "fingerprint = \""@);
    assert("\"\nhostname = \""@ == "\""@.push('\n') + "hostname = \""@);
    assert("\"\nlast_seen = "@ == "\""@.push('\n') + "last_seen = "@);
    assert(base + entry(f, h, n) == x.push('\n') + after_x);
    lemma_lines_differ(f, h);
    lemma_lines_differ(h, f);
    lemma_decimal_has_no_break(n);
    lines_split_at_a_break(x, after_x);
    lines_split_at_a_break(fl, after_f);
    lines_split_at_a_break(hl, after_h);
    lines_split_at_a_break(dl, blank);
    one_line_is_a_line(fl);
    one_line_is_a_line(hl);
    one_line_is_a_line(dl);
    one_line_is_a_line(Seq::<char>::empty());
    assert(lines_of(base + entry(f, h, n)) == lines_of(x.push('\n')) + entry_lines(f, h, n));
}

/// Where a fingerprint stands beside a host name in a list that an entry was
/// added to: in the lines before the entry, or in the entry itself.
proof fn lemma_pair_places(
    base: Seq<char>,
    f: Seq<char>,
    h: Seq<char>,
    n: u64,
    hostname: Seq<char>,
    fingerprint: Seq<char>,
    i: int,
)
    requires
        !f.contains('\n'),
        !h.contains('\n'),
        pair_at(lines_of(base + entry(f, h, n)), i, hostname, fingerprint),
    ensures
        pair_at(lines_of(base), i, hostname, fingerprint) || (hostname == h && fingerprint == f),
{
    lemma_entered_lines(base, f, h, n);
    lemma_lines_differ(fingerprint, hostname);
    lemma_lines_differ(hostname, fingerprint);
    lemma_lines_differ(f, hostname);
    lemma_lines_differ(h, fingerprint);
    lemma_lines_differ(fingerprint, f);
    lemma_lines_differ(hostname, h);
    lemma_decimal_has_no_break(n);
    reveal_strlit("[[peers]]");
    last_line_is_lengthened(base, "[[peers]]"@);
    let head = lines_of((base + "[[peers]]"@).push('\n'));
    let all = lines_of(base + entry(f, h, n));
    let k = head.len() as int;
    assert(all[k] == fingerprint_line(f));
    assert(all[k + 1] == hostname_line(h));
    assert(all[k + 2][0] == 'l');
    assert(all[k + 3].len() == 0);
    assert(all[k - 1] == head.last());
    assert(all[k - 1].last() == ']');
    if i + 1 < k - 1 {
        assert(all[i] == head.drop_last()[i]);
        assert(all[i + 1] == head.drop_last()[i + 1]);
        assert(lines_of(base)[i] == all[i]);
        assert(lines_of(base)[i + 1] == all[i + 1]);
    }
}

/// Where a host is named in a list that an entry was added to.
proof fn lemma_name_places(
    base: Seq<char>,
    f: Seq<char>,
    h: Seq<char>,
    n: u64,
    hostname: Seq<char>,
)
    requires
        !f.contains('\n'),
        !h.contains('\n'),
        lines_of(base + entry(f, h, n)).contains(hostname_line(hostname)),
    ensures
        lines_of(base).contains(hostname_line(hostname)) || hostname == h,
{
    let all = lines_of(base + entry(f, h, n));
    let i = choose|i: int| 0 <= i < all.len() && all[i] == hostname_line(hostname);
    lemma_entered_lines(base, f, h, n);
    lemma_lines_differ(f, hostname);
    lemma_lines_differ(hostname, h);
    lemma_decimal_has_no_break(n);
    reveal_strlit("[[peers]]");
    last_line_is_lengthened(base, "[[peers]]"@);
    let head = lines_of((base + "[[peers]]"@).push('\n'));
    let k = head.len() as int;
    assert(all[k] == fingerprint_line(f));
    assert(all[k + 1] == hostname_line(h));
    assert(all[k + 2][0] == 'l');
    assert(all[k + 3].len() == 0);
    assert(all[k - 1] == head.last());
    assert(all[k - 1].last() == ']');
    if i < k - 1 {
        assert(all[i] == head.drop_last()[i]);
        assert(lines_of(base)[i] == all[i]);
    }
}

proof fn lemma_empty_list_names_nobody(hostname: Seq<char>)
    ensures
        !lines_of(empty_list()).contains(hostname_line(hostname)),
{
    reveal_strlit("# KMFlow known peers\n\n");
    reveal_strlit("# KMFlow known peers");
    let title = "# KMFlow known peers"@;
    let blank = Seq::<char>::empty().push('\n');
    assert(empty_list() == title.push('\n') + blank);
    lines_split_at_a_break(title, blank);
    one_line_is_a_line(title);
    one_line_is_a_line(Seq::<char>::empty());
    assert(lines_of(empty_list()) == seq![title, Seq::<char>::empty()]);
    lemma_lines_differ(hostname, hostname);
}

/// A host that was trusted under a fingerprint is known by it, and any other
/// fingerprint that is not listed for that host is a change. Host names and
/// fingerprints are of one line.
pub proof fn trusted_hosts_keep_their_fingerprint(
    list: Option<Seq<char>>,
    identity: PeerIdentity,
    other: Seq<char>,
)
    requires
        !identity.hostname@.contains('\n'),
        !identity.fingerprint@.contains('\n'),
        other != identity.fingerprint@,
        !pairs(list, identity.hostname@, other),
    ensures
        judged(Some(trusted(list, identity)), identity.hostname@, identity.fingerprint@)
            == Trust::Known,
        judged(Some(trusted(list, identity)), identity.hostname@, other) == Trust::Changed,
{
    let (f, h, n) = (identity.fingerprint@, identity.hostname@, identity.last_seen);
    let base = match list {
        Some(text) => text,
        None => empty_list(),
    };
    let all = lines_of(trusted(list, identity));
    let head = lines_of((base + "[[peers]]"@).push('\n'));
    lemma_entered_lines(base, f, h, n);
    let k = head.len() as int;
    assert(all[k] == fingerprint_line(f));
    assert(all[k + 1] == hostname_line(h));
    assert(pair_at(all, k, h, f));
    assert(all.contains(hostname_line(h)));
    if pairs(Some(trusted(list, identity)), h, other) {
        let i = choose|i: int| #[trigger] pair_at(all, i, h, other);
        lemma_pair_places(base, f, h, n, h, other, i);
        assert(pair_at(lines_of(base), i, h, other));
        if list is None {
            lemma_empty_list_names_nobody(h);
            assert(lines_of(base)[i + 1] == hostname_line(h));
        }
    }
}

/// Trust on first use: when a peer is met for the first time it is entered in
/// the list, and from then on it is known by its fingerprint, and refused if it
/// shows another one.
pub proof fn fingerprints_are_verified_after_first_use(
    list: Option<Seq<char>>,
    hostname: Seq<char>,
    fingerprint: Seq<char>,
    other: Seq<char>,
    now_us: u64,
)
    requires
        judged(list, in_one_line(hostname), in_one_line(fingerprint)) is First,
        in_one_line(other) != in_one_line(fingerprint),
    ensures
        ({
            let after = list_after(list, hostname, fingerprint, now_us);
            &&& judged(after, in_one_line(hostname), in_one_line(fingerprint)) is Known
            &&& judged(after, in_one_line(hostname), in_one_line(other)) is Changed
        }),
{
    let (f, h, g) = (in_one_line(fingerprint), in_one_line(hostname), in_one_line(other));
    lemma_one_line(fingerprint);
    lemma_one_line(hostname);
    let base = match list {
        Some(text) => text,
        None => empty_list(),
    };
    let text = entered(list, f, h, now_us);
    let all = lines_of(text);
    let head = lines_of((base + "[[peers]]"@).push('\n'));
    lemma_entered_lines(base, f, h, now_us);
    let k = head.len() as int;
    assert(all[k] == fingerprint_line(f));
    assert(all[k + 1] == hostname_line(h));
    assert(pair_at(all, k, h, f));
    assert(all.contains(hostname_line(h)));
    if pairs(Some(text), h, g) {
        let i = choose|i: int| #[trigger] pair_at(all, i, h, g);
        lemma_pair_places(base, f, h, now_us, h, g, i);
        assert(lines_of(base)[i + 1] == hostname_line(h));
        assert(lines_of(base).contains(hostname_line(h)));
        if list is None {
            lemma_empty_list_names_nobody(h);
        }
    }
}

/// Meeting one host changes nothing for another: what the list says of it, for
/// whatever fingerprint, stays. Nor does meeting a host that is known or refused
/// change the list. Lists that this program writes stay whole.
pub proof fn other_hosts_are_left_alone(
    list: Option<Seq<char>>,
    hostname: Seq<char>,
    fingerprint: Seq<char>,
    now_us: u64,
    other_host: Seq<char>,
    shown: Seq<char>,
)
    requires
        is_whole(list),
        other_host != in_one_line(hostname),
    ensures
        ({
            let after = list_after(list, hostname, fingerprint, now_us);
            &&& judged(after, other_host, shown) == judged(list, other_host, shown)
            &&& is_whole(after)
            &&& !(judged(list, in_one_line(hostname), in_one_line(fingerprint)) is First) ==> after
                == list
        }),
{
    let (f, h) = (in_one_line(fingerprint), in_one_line(hostname));
    lemma_one_line(fingerprint);
    lemma_one_line(hostname);
    let base = match list {
        Some(text) => text,
        None => empty_list(),
    };
    let text = entered(list, f, h, now_us);
    let all = lines_of(text);
    reveal_strlit("\n\n");
    assert(text.last() == '\n');
    reveal_strlit("# KMFlow known peers\n\n");
    assert(base.last() == '\n');
    let stem = base.drop_last();
    assert(base == stem.push('\n'));
    reveal_strlit("[[peers]]");
    let heading = "[[peers]]"@.push('\n');
    assert((base + "[[peers]]"@).push('\n') == stem.push('\n') + heading);
    lines_split_at_a_break(stem, heading);
    one_line_is_a_line("[[peers]]"@);
    lemma_entered_lines(base, f, h, now_us);
    let old_lines = lines_of(base);
    assert(all == old_lines + seq!["[[peers]]"@] + entry_lines(f, h, now_us));
    assert forall|j: int| 0 <= j < old_lines.len() implies all[j] == old_lines[j] by {}
    if old_lines.contains(hostname_line(other_host)) {
        let j = choose|j: int|
            0 <= j < old_lines.len() && old_lines[j] == hostname_line(other_host);
        assert(all[j] == hostname_line(other_host));
    }
    if all.contains(hostname_line(other_host)) {
        lemma_name_places(base, f, h, now_us, other_host);
    }
    if exists|i: int| #[trigger] pair_at(old_lines, i, other_host, shown) {
        let i = choose|i: int| #[trigger] pair_at(old_lines, i, other_host, shown);
        assert(pair_at(all, i, other_host, shown));
    }
    if exists|i: int| #[trigger] pair_at(all, i, other_host, shown) {
        let i = choose|i: int| #[trigger] pair_at(all, i, other_host, shown);
        lemma_pair_places(base, f, h, now_us, other_host, shown, i);
    }
    if list is None {
        lemma_empty_list_names_nobody(other_host);
        if exists|i: int| #[trigger] pair_at(old_lines, i, other_host, shown) {
            let i = choose|i: int| #[trigger] pair_at(old_lines, i, other_host, shown);
            assert(old_lines[i + 1] == hostname_line(other_host));
        }
    }
}

/// A written digest is that of its parts with a colon between them.
pub proof fn digests_are_written_part_by_part(a: Seq<u8>, b: Seq<u8>)
    requires
        a.len() > 0,
        b.len() > 0,
    ensures
        hex_colons(a + b) == hex_colons(a) + seq![':'] + hex_colons(b),
    decreases b.len(),
{
    assert((a + b).drop_last() == a + b.drop_last());
    if b.len() == 1 {
        assert(a + b.drop_last() == a);
        assert(hex_colons(b.drop_last()) == Seq::<char>::empty());
    } else {
        digests_are_written_part_by_part(a, b.drop_last());
    }
    assert(hex_colons(a + b) == hex_colons(a) + seq![':'] + hex_colons(b));
}

/// One byte is written as two hexadecimal digits in lower case, the higher first.
pub proof fn bytes_are_written_with_two_digits(x: u8)
    ensures
        hex_colons(seq![x]) == seq![
            "0123456789abcdef"@[x as int / 16],
            "0123456789abcdef"@[x as int % 16],
        ],
        hex_colons(seq![]) == Seq::<char>::empty(),
{
    hexadecimal_digits(x as int / 16);
    hexadecimal_digits(x as int % 16);
    assert(seq![x].drop_last() == Seq::<u8>::empty());
    assert(hex_colons(seq![x].drop_last()) == Seq::<char>::empty());
    assert(hex_colons(seq![x]) =~= seq![hex_char(x as int / 16), hex_char(x as int % 16)]);
}

/// Each byte of a digest stands at its place: three characters for each before it.
pub proof fn digest_bytes_have_a_place(bytes: Seq<u8>, i: int)
    requires
        0 <= i < bytes.len(),
    ensures
        hex_colons(bytes).len() == 3 * bytes.len() - 1,
        hex_colons(bytes)[3 * i] == "0123456789abcdef"@[bytes[i] as int / 16],
        hex_colons(bytes)[3 * i + 1] == "0123456789abcdef"@[bytes[i] as int % 16],
        i + 1 < bytes.len() ==> hex_colons(bytes)[3 * i + 2] == ':',
    decreases bytes.len(),
{
    digest_text_length(bytes);
    let init = bytes.drop_last();
    digest_text_length(init);
    hexadecimal_digits(bytes[i] as int / 16);
    hexadecimal_digits(bytes[i] as int % 16);
    if i < bytes.len() - 1 {
        digest_bytes_have_a_place(init, i);
        assert(bytes[i] == init[i]);
    }
}

/// The fingerprint of a certificate shows its digest, byte by byte; certificates
/// have the same fingerprint exactly if they have the same digest.
pub proof fn fingerprints_show_the_digest(cert: Seq<u8>, other: Seq<u8>, i: int)
    ensures
        0 <= i < sha256_of(cert).len() ==> fingerprint_of(cert)[3 * i]
            == "0123456789abcdef"@[sha256_of(cert)[i] as int / 16] && fingerprint_of(cert)[3 * i
            + 1] == "0123456789abcdef"@[sha256_of(cert)[i] as int % 16],
        fingerprint_of(cert) == fingerprint_of(other) <==> sha256_of(cert) == sha256_of(other),
{
    if 0 <= i < sha256_of(cert).len() {
        digest_bytes_have_a_place(sha256_of(cert), i);
    }
    if fingerprint_of(cert) == fingerprint_of(other) {
        digest_text_is_unique(sha256_of(cert), sha256_of(other));
    }
}

/// What an entry of the list looks like: a heading and three values, each on a line
/// of its own, and an empty line.
pub proof fn entries_have_five_lines(f: Seq<char>, h: Seq<char>, n: u64)
    requires
        !f.contains('\n'),
        !h.contains('\n'),
    ensures
        lines_of(entry(f, h, n)) == seq![
            "[[peers]]"@,
            "fingerprint = \""@ + f + "\""@,
            "hostname = \""@ + h + "\""@,
            "last_seen = "@ + decimal_of(n as int),
            Seq::<char>::empty(),
        ],
        lines_of(empty_list()) == seq!["# KMFlow known peers"@, Seq::<char>::empty()],
{
    let e = Seq::<char>::empty();
    lemma_entered_lines(e, f, h, n);
    assert(e + entry(f, h, n) == entry(f, h, n));
    reveal_strlit("[[peers]]");
    assert((e + "[[peers]]"@).push('\n') == "[[peers]]"@.push('\n'));
    one_line_is_a_line("[[peers]]"@);
    assert(lines_of(entry(f, h, n)) =~= seq!["[[peers]]"@] + entry_lines(f, h, n));
    reveal_strlit("# KMFlow known peers\n\n");
    reveal_strlit("# KMFlow known peers");
    let title = "# KMFlow known peers"@;
    let blank = e.push('\n');
    assert(empty_list() == title.push('\n') + blank);
    lines_split_at_a_break(title, blank);
    one_line_is_a_line(title);
    one_line_is_a_line(e);
    assert(lines_of(empty_list()) =~= seq![title, e]);
}

/// A peer is entered behind what the list holds, which stays as it is; where there
/// is no list, behind the head of a new one.
pub proof fn lists_are_only_added_to(
    list: Option<Seq<char>>,
    f: Seq<char>,
    h: Seq<char>,
    n: u64,
    identity: PeerIdentity,
)
    ensures
        list matches Some(text) ==> entered(list, f, h, n) == text + entry(f, h, n),
        list is None ==> entered(list, f, h, n) == "# KMFlow known peers\n\n"@ + entry(f, h, n),
        trusted(list, identity) == entered(
            list,
            identity.fingerprint@,
            identity.hostname@,
            identity.last_seen,
        ),
{
}

/// What a list says of a host: it is known exactly where a line with the fingerprint
/// stands right before one with the host name, met for the first time exactly where
/// no line has the host name, and changed otherwise. Without a list every host is
/// met for the first time.
pub proof fn lists_are_read_by_line(text: Seq<char>, h: Seq<char>, f: Seq<char>)
    ensures
        ({
            let lines = lines_of(text);
            let fl = "fingerprint = \""@ + f + "\""@;
            let hl = "hostname = \""@ + h + "\""@;
            let beside = exists|i: int|
                0 <= i && i + 1 < lines.len() && #[trigger] lines[i] == fl && lines[i + 1] == hl;
            &&& judged(Some(text), h, f) is Known <==> beside
            &&& judged(Some(text), h, f) is First <==> !lines.contains(hl)
            &&& judged(Some(text), h, f) is Changed <==> !beside && lines.contains(hl)
            &&& judged(None, h, f) is First
        }),
{
    let lines = lines_of(text);
    let fl = "fingerprint = \""@ + f + "\""@;
    let hl = "hostname = \""@ + h + "\""@;
    if pairs(Some(text), h, f) {
        let i = choose|i: int| #[trigger] pair_at(lines, i, h, f);
        assert(lines[i] == fl && lines[i + 1] == hl);
        assert(lines.contains(hl));
    }
    if exists|i: int|
        0 <= i && i + 1 < lines.len() && #[trigger] lines[i] == fl && lines[i + 1] == hl {
        let i = choose|i: int|
            0 <= i && i + 1 < lines.len() && #[trigger] lines[i] == fl && lines[i + 1] == hl;
        assert(pair_at(lines, i, h, f));
    }
}

/// Meeting a host leaves the list alone unless it is met for the first time; a host
/// that is known stays known and one that is refused stays refused.
pub proof fn meetings_repeat(
    list: Option<Seq<char>>,
    hostname: Seq<char>,
    fingerprint: Seq<char>,
    now_us: u64,
)
    requires
        !(judged(list, in_one_line(hostname), in_one_line(fingerprint)) is First),
    ensures
        list_after(list, hostname, fingerprint, now_us) == list,
{
}

/// A text that is put in one line keeps its length and every character but line
/// breaks, which become spaces.
pub proof fn only_breaks_become_spaces(s: Seq<char>, i: int)
    ensures
        in_one_line(s).len() == s.len(),
        0 <= i < s.len() && s[i] != '\n' ==> in_one_line(s)[i] == s[i],
        0 <= i < s.len() && s[i] == '\n' ==> in_one_line(s)[i] == ' ',
        !s.contains('\n') ==> in_one_line(s) == s,
        in_one_line(in_one_line(s)) == in_one_line(s),
{
    let t = in_one_line(s);
    if !s.contains('\n') {
        assert forall|j: int| 0 <= j < s.len() implies t[j] == s[j] by {
            assert(s.contains(s[j]));
        }
        assert(t =~= s);
    }
    assert(in_one_line(t) =~= t);
}

/// A fingerprint is in a list exactly if it stands somewhere in it; without a list
/// none is.
pub proof fn fingerprints_are_looked_up(a: Seq<char>, f: Seq<char>, b: Seq<char>, s: Seq<char>)
    ensures
        knows(Some(a + f + b), f),
        !knows(None, f),
        knows(Some(s), f) ==> exists|x: Seq<char>, y: Seq<char>| s == #[trigger] (x + f + y),
{
    runs_occur_in_texts(a, f, b, s);
}

/// A list is whole exactly if it is none or ends with a line break.
pub proof fn whole_lists(text: Seq<char>)
    ensures
        is_whole(None),
        is_whole(Some(text.push('\n'))),
        is_whole(Some(text)) ==> text.len() > 0 && text == text.drop_last().push('\n'),
{
    if is_whole(Some(text)) {
        assert(text =~= text.drop_last().push('\n'));
    }
}

/// An identity is well formed exactly if its fingerprint is that of its certificate.
pub proof fn identities_bear_their_fingerprint(id: TlsIdentity)
    ensures
        id.wf() <==> id.fingerprint@ == hex_colons(sha256_of(id.cert_der@)),
{
}

} // verus!
