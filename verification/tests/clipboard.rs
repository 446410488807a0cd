use kmflow::clipboard::{
    after_read, after_write, is_wayland_socket, needs_wayland_env, read_tools, runtime_dir,
    simple_hash, wayland_env, write_tools, ClipboardManager, ClipboardSync, RuntimeEntry, ToolStep,
};
use kmflow::input::Backend;
use kmflow::proto::{ClipboardContent, ClipboardPayload};
use std::collections::hash_map::DefaultHasher;
use std::hash::{Hash, Hasher};

#[test]
fn hash_deterministic() {
    let h1 = simple_hash("hello");
    let h2 = simple_hash("hello");
    assert_eq!(h1, h2);
}

#[test]
fn hash_different_content() {
    let h1 = simple_hash("hello");
    let h2 = simple_hash("world");
    assert_ne!(h1, h2);
}

#[test]
fn hash_empty_string() {
    // 空字符串也应该产生稳定 hash
    let h1 = simple_hash("");
    let h2 = simple_hash("");
    assert_eq!(h1, h2);
}

#[test]
fn hash_unicode() {
    let h1 = simple_hash("你好世界🌍");
    let h2 = simple_hash("你好世界🌍");
    assert_eq!(h1, h2);
    assert_ne!(h1, simple_hash("你好世界"));
}

#[test]
fn hashes_are_those_of_a_new_hasher() {
    for s in ["", "hello", "你好世界🌍"] {
        let mut hasher = DefaultHasher::new();
        s.hash(&mut hasher);
        assert_eq!(simple_hash(s), hasher.finish());
    }
}

fn sync() -> ClipboardSync {
    ClipboardManager::new(Backend::X11).start_sync("desk".to_string())
}

fn payload(text: &str) -> ClipboardPayload {
    ClipboardPayload {
        origin_peer_id: "desk".to_string(),
        content: ClipboardContent::Text(text.to_string()),
    }
}

#[test]
fn changes_are_sent_once() {
    let mut s = sync();
    assert_eq!(s.on_poll("hello".to_string()), Some(payload("hello")));
    assert_eq!(s.on_poll("hello".to_string()), None);
    assert_eq!(s.on_poll("world".to_string()), Some(payload("world")));
    assert_eq!(s.on_poll("".to_string()), None);
    assert_eq!(s.on_poll("world".to_string()), None);
    assert_eq!(s.on_poll("hello".to_string()), Some(payload("hello")));
}

#[test]
fn received_text_is_not_sent_back() {
    let mut s = sync();
    assert_eq!(s.on_incoming(payload("theirs")), Some("theirs".to_string()));
    assert_eq!(s.on_poll("theirs".to_string()), None);
    assert_eq!(s.on_poll("mine".to_string()), Some(payload("mine")));
}

#[test]
fn only_text_is_taken_over() {
    let mut s = sync();
    s.on_poll("mine".to_string());
    let image = ClipboardPayload {
        origin_peer_id: "p".to_string(),
        content: ClipboardContent::Image { mime: "image/png".to_string(), data: vec![1] },
    };
    let files = ClipboardPayload {
        origin_peer_id: "p".to_string(),
        content: ClipboardContent::FileUri(vec!["file:///a".to_string()]),
    };
    assert_eq!(s.on_incoming(image), None);
    assert_eq!(s.on_incoming(files), None);
    assert_eq!(s.on_poll("mine".to_string()), None);
}

#[test]
fn equal_hashes_count_as_no_change() {
    let mut s = sync();
    assert_eq!(s.on_poll_hashed("a".to_string(), 0), None);
    assert_eq!(s.on_poll_hashed("a".to_string(), 5), Some(payload("a")));
    assert_eq!(s.on_poll_hashed("b".to_string(), 5), None);
    assert_eq!(s.on_poll_hashed("".to_string(), 6), None);
}

#[test]
fn tools_are_tried_in_their_order() {
    let read: Vec<(String, Vec<String>)> =
        read_tools().into_iter().map(|t| (t.cmd, t.args)).collect();
    let tool = |cmd: &str, args: &[&str]| {
        (cmd.to_string(), args.iter().map(|a| a.to_string()).collect::<Vec<String>>())
    };
    assert_eq!(
        read,
        vec![
            tool("wl-paste", &["--no-newline"]),
            tool("xclip", &["-selection", "clipboard", "-o"]),
            tool("xsel", &["--clipboard", "--output"]),
        ]
    );
    let write: Vec<(String, Vec<String>)> =
        write_tools().into_iter().map(|t| (t.cmd, t.args)).collect();
    assert_eq!(
        write,
        vec![
            tool("wl-copy", &[]),
            tool("xclip", &["-selection", "clipboard", "-i"]),
            tool("xsel", &["--clipboard", "--input"]),
        ]
    );
    assert!(needs_wayland_env("wl-copy"));
    assert!(!needs_wayland_env("xclip"));
}

#[test]
fn reading_ends_with_the_first_success() {
    assert_eq!(after_read(0, None), ToolStep::Try(1));
    assert_eq!(after_read(1, None), ToolStep::Try(2));
    assert_eq!(after_read(2, None), ToolStep::Text(String::new()));
    assert_eq!(
        after_read(1, Some(b"caf\xc3\xa9 \xff".to_vec())),
        ToolStep::Text("café \u{fffd}".to_string())
    );
}

#[test]
fn writing_ends_with_the_first_success() {
    assert_eq!(after_write(0, false), ToolStep::Try(1));
    assert_eq!(after_write(2, false), ToolStep::Failed);
    assert_eq!(after_write(1, true), ToolStep::Written);
}

fn entry(name: &str, is_socket: bool) -> RuntimeEntry {
    RuntimeEntry { name: name.to_string(), is_socket }
}

fn vars(pairs: &[(&str, &str)]) -> Vec<(String, String)> {
    pairs.iter().map(|(k, v)| (k.to_string(), v.to_string())).collect()
}

#[test]
fn displays_are_found_by_their_sockets() {
    assert!(is_wayland_socket(&entry("wayland-1", true)));
    assert!(!is_wayland_socket(&entry("wayland-1", false)));
    assert!(!is_wayland_socket(&entry("wayland-1.lock", true)));
    assert!(!is_wayland_socket(&entry("wayland-renderD128", true)));
    assert!(!is_wayland_socket(&entry("bus", true)));
}

#[test]
fn missing_variables_are_filled_in() {
    let entries = vec![
        entry("bus", true),
        entry("wayland-0.lock", false),
        entry("wayland-1", true),
        entry("wayland-0", true),
    ];
    assert_eq!(
        wayland_env(None, 1000, true, None, &entries),
        vars(&[("XDG_RUNTIME_DIR", "/run/user/1000"), ("WAYLAND_DISPLAY", "wayland-1")])
    );
    assert_eq!(
        wayland_env(None, 1000, false, Some(""), &entries),
        vars(&[("WAYLAND_DISPLAY", "wayland-1")])
    );
    assert_eq!(wayland_env(Some("/x"), 0, true, Some("wayland-5"), &entries), vars(&[]));
    assert_eq!(wayland_env(Some("/x"), 0, true, None, &vec![]), vars(&[]));
    assert_eq!(runtime_dir(None, 42), "/run/user/42");
    assert_eq!(runtime_dir(Some("/x"), 42), "/x");
}
