use kmflow::proto::PeerIdentity;
use kmflow::tls::{
    compute_fingerprint, first_sight, format_digest, identity_paths, peer_fingerprint,
    IdentityError, Meeting, TlsIdentity, TofuVerifier, Trust,
};

const EMPTY: &str = "e3:b0:c4:42:98:fc:1c:14:9a:fb:f4:c8:99:6f:b9:24:27:ae:41:e4:64:9b:93:4c:a4:95:99:1b:78:52:b8:55";
const ABC: &str = "ba:78:16:bf:8f:01:cf:ea:41:41:40:de:5d:ae:22:23:b0:03:61:a3:96:17:7a:9c:b4:10:ff:61:f2:00:15:ad";

#[test]
fn fingerprints_are_digests_in_writing() {
    assert_eq!(compute_fingerprint(b""), EMPTY);
    assert_eq!(compute_fingerprint(b"abc"), ABC);
    assert_eq!(EMPTY.len(), 95);
}

#[test]
fn digests_are_written_with_colons() {
    assert_eq!(format_digest(&[]), "");
    assert_eq!(format_digest(&[0x0a]), "0a");
    assert_eq!(format_digest(&[0x00, 0xff, 0x1b]), "00:ff:1b");
    assert_ne!(format_digest(&[0x01, 0x23]), format_digest(&[0x12, 0x03]));
}

#[test]
fn peers_without_a_certificate_are_unknown() {
    assert_eq!(peer_fingerprint(Some(b"abc")), ABC);
    assert_eq!(peer_fingerprint(None), "unknown");
}

#[test]
fn identities_are_made_and_kept() {
    let a = TlsIdentity::generate().unwrap();
    let b = TlsIdentity::generate().unwrap();
    assert_eq!(a.fingerprint, compute_fingerprint(&a.cert_der));
    assert_ne!(a.key_der, b.key_der);
    assert_ne!(a.fingerprint, b.fingerprint);
    let contains = |needle: &[u8]| a.cert_der.windows(needle.len()).any(|w| w == needle);
    assert!(contains(b"kmflow.local"));
    assert!(contains(b"kmflow"));
    let again = TlsIdentity::from_parts(a.cert_der.clone(), a.key_der.clone());
    assert_eq!(again, a);
    let made = Ok((a.cert_der.clone(), a.key_der.clone()));
    assert_eq!(TlsIdentity::from_generated(made), Ok(a));
    assert_eq!(
        TlsIdentity::from_generated(Err(rcgen::Error::RingUnspecified)),
        Err(IdentityError::Generation)
    );
}

#[test]
fn a_generated_key_fits_its_certificate() {
    let id = TlsIdentity::generate().unwrap();
    let key = rcgen::KeyPair::try_from(id.key_der.as_slice()).unwrap();
    let public = key.public_key_raw().to_vec();
    assert!(id.cert_der.windows(public.len()).any(|w| w == &public[..]));
}

#[test]
fn identities_lie_in_the_configuration() {
    assert_eq!(
        identity_paths("/home/u/.config/kmflow"),
        (
            "/home/u/.config/kmflow/cert.der".to_string(),
            "/home/u/.config/kmflow/key.der".to_string()
        )
    );
    assert_eq!(TofuVerifier::new(".kmflow").known_peers_path(), ".kmflow/known_peers.toml");
}

#[test]
fn peers_are_trusted_on_first_use() {
    let tofu = TofuVerifier::new("/etc/kmflow");
    assert!(!tofu.is_known(None, ABC));
    let first = first_sight("couch", ABC, 12345);
    assert_eq!(
        first,
        PeerIdentity {
            fingerprint: ABC.to_string(),
            hostname: "couch".to_string(),
            last_seen: 12345
        }
    );
    let list = tofu.trust_peer(None, &first);
    assert_eq!(
        list,
        format!(
            "# KMFlow known peers\n\n[[peers]]\nfingerprint = \"{ABC}\"\nhostname = \"couch\"\nlast_seen = 12345\n\n"
        )
    );
    assert!(tofu.is_known(Some(&list), ABC));
    assert!(!tofu.is_known(Some(&list), EMPTY));
    let second = PeerIdentity {
        fingerprint: EMPTY.to_string(),
        hostname: "desk".to_string(),
        last_seen: 7,
    };
    let list = tofu.trust_peer(Some(list), &second);
    assert!(tofu.is_known(Some(&list), ABC));
    assert!(tofu.is_known(Some(&list), EMPTY));
    assert!(list.ends_with("hostname = \"desk\"\nlast_seen = 7\n\n"));
}

#[test]
fn hosts_are_judged_by_their_entries() {
    let tofu = TofuVerifier::new("/etc/kmflow");
    assert_eq!(tofu.judge(None, "desk", ABC), Trust::First);
    let list = tofu.trust_peer(None, &first_sight("desk", ABC, 1));
    assert_eq!(tofu.judge(Some(&list), "desk", ABC), Trust::Known);
    assert_eq!(tofu.judge(Some(&list), "desk", EMPTY), Trust::Changed);
    assert_eq!(tofu.judge(Some(&list), "couch", ABC), Trust::First);
    assert_eq!(tofu.judge(Some(&list), "des", ABC), Trust::First);
    assert_eq!(tofu.judge(Some(&list), "desk", &ABC[1..]), Trust::Changed);
    let list = tofu.trust_peer(Some(list), &first_sight("desk", EMPTY, 2));
    assert_eq!(tofu.judge(Some(&list), "desk", ABC), Trust::Known);
    assert_eq!(tofu.judge(Some(&list), "desk", EMPTY), Trust::Known);
    let crlf = list.replace('\n', "\r\n");
    assert_eq!(tofu.judge(Some(&crlf), "desk", ABC), Trust::Known);
    assert_eq!(tofu.judge(Some(""), "desk", ABC), Trust::First);
}

#[test]
fn fingerprints_are_verified_after_the_first_meeting() {
    let tofu = TofuVerifier::new("/etc/kmflow");
    let list = match tofu.meet(None, "desk", ABC, 7) {
        Meeting::Entered(list) => list,
        other => panic!("{other:?}"),
    };
    assert_eq!(list, tofu.trust_peer(None, &first_sight("desk", ABC, 7)));
    assert_eq!(tofu.meet(Some(&list), "desk", ABC, 8), Meeting::Known);
    assert_eq!(tofu.meet(Some(&list), "desk", EMPTY, 8), Meeting::Refused);
    let longer = match tofu.meet(Some(&list), "couch", EMPTY, 9) {
        Meeting::Entered(list) => list,
        other => panic!("{other:?}"),
    };
    assert!(longer.starts_with(&list));
    assert_eq!(tofu.meet(Some(&longer), "desk", ABC, 10), Meeting::Known);
    assert_eq!(tofu.meet(Some(&longer), "desk", EMPTY, 10), Meeting::Refused);
    assert_eq!(tofu.meet(Some(&longer), "couch", ABC, 10), Meeting::Refused);
}

#[test]
fn line_breaks_in_names_make_no_entries() {
    let tofu = TofuVerifier::new("/etc/kmflow");
    let name = format!("x\"\nfingerprint = \"{EMPTY}\"\nhostname = \"desk");
    let list = match tofu.meet(None, &name, ABC, 7) {
        Meeting::Entered(list) => list,
        other => panic!("{other:?}"),
    };
    assert_eq!(tofu.judge(Some(&list), "desk", EMPTY), Trust::First);
    assert_eq!(tofu.meet(Some(&list), &name, ABC, 8), Meeting::Known);
    assert_eq!(tofu.meet(Some(&list), &name, EMPTY, 8), Meeting::Refused);
}
