//! Keeping the clipboards of two machines the same.
//!
//! The local clipboard is read every half second. Changed text is sent to the
//! peer, and text from the peer is written to the local clipboard without being
//! taken for a change and sent back.
use crate::input::Backend;
use crate::proto::{ClipboardContent, ClipboardPayload};
use crate::text::{
    append_decimal, contains, decimal_of, from_utf8_lossy, has_infix, starts_with, to_chars,
    utf8_text,
};
use std::collections::hash_map::DefaultHasher;
use std::hash::{Hash, Hasher};
use vstd::prelude::*;
use vstd::std_specs::hash::DefaultHasherAdditionalSpecFns;
use vstd::string::*;

verus! {

/// The time between two looks at the local clipboard, in milliseconds.
pub const POLL_INTERVAL_MS: u64 = 500;

/// What `str::hash` writes to a hasher for a text, write by write.
pub uninterp spec fn hash_writes(text: Seq<char>) -> Seq<Seq<u8>>;

/// `str::hash` feeds a text to the hasher: a run of writes that depends on the
/// text alone, after what the hasher was fed before.
#[verifier::external_body]
fn feed(s: &str, hasher: &mut DefaultHasher)
    ensures
        final(hasher)@ == old(hasher)@ + hash_writes(s@),
{
    s.hash(hasher);
}

/// The number that a new `DefaultHasher` gives for a text.
pub open spec fn text_hash(text: Seq<char>) -> u64 {
    DefaultHasher::spec_finish(hash_writes(text))
}

/// The number by which clipboard contents are compared.
pub fn simple_hash(s: &str) -> (r: u64)
    ensures
        r == text_hash(s@),
{
    let mut hasher = DefaultHasher::new();
    feed(s, &mut hasher);
    assert(hasher@ == hash_writes(s@));
    hasher.finish()
}

/// The clipboard of this machine.
#[derive(Debug, Clone, Copy)]
pub struct ClipboardManager {
    backend: Backend,
}

impl ClipboardManager {
    /// The kind of display that the clipboard belongs to.
    pub closed spec fn backend(&self) -> Backend {
        self.backend
    }

    pub fn new(backend: Backend) -> (r: Self)
        ensures
            r.backend() == backend,
    {
        ClipboardManager { backend }
    }

    /// Begins to keep the clipboard the same as that of the peer; nothing was
    /// sent or received yet.
    pub fn start_sync(&self, peer_id: String) -> (r: ClipboardSync)
        ensures
            r.peer_id() == peer_id@,
            r.last() == 0,
    {
        ClipboardSync { peer_id, last_hash: 0 }
    }
}

/// What was last sent or received, so that it is not sent again.
#[derive(Debug, Clone, PartialEq, Eq)]
pub struct ClipboardSync {
    peer_id: String,
    last_hash: u64,
}

/// Whether a text read from the clipboard is sent, given the hash of the last
/// one that was sent or received.
pub open spec fn is_news(last: u64, hash: u64, text: Seq<char>) -> bool {
    hash != last && text.len() > 0
}

impl ClipboardSync {
    /// The name under which this machine sends.
    pub closed spec fn peer_id(&self) -> Seq<char> {
        self.peer_id@
    }

    /// The hash of the last text that was sent or received.
    pub closed spec fn last(&self) -> u64 {
        self.last_hash
    }

    /// The local clipboard was read: the message to send, if the text is news.
    pub fn on_poll(&mut self, content: String) -> (r: Option<ClipboardPayload>)
        ensures
            final(self).peer_id() == old(self).peer_id(),
            r is Some <==> is_news(old(self).last(), text_hash(content@), content@),
            r is Some ==> final(self).last() == text_hash(content@),
            r is None ==> final(self).last() == old(self).last(),
            r matches Some(p) ==> {
                &&& p.origin_peer_id@ == old(self).peer_id()
                &&& p.content matches ClipboardContent::Text(t)
                &&& t@ == content@
            },
    {
        let hash = simple_hash(content.as_str());
        self.on_poll_hashed(content, hash)
    }

    /// The local clipboard was read, and its text has the given hash.
    pub fn on_poll_hashed(&mut self, content: String, hash: u64) -> (r: Option<ClipboardPayload>)
        ensures
            final(self).peer_id() == old(self).peer_id(),
            r is Some <==> is_news(old(self).last(), hash, content@),
            r is Some ==> final(self).last() == hash,
            r is None ==> final(self).last() == old(self).last(),
            r matches Some(p) ==> {
                &&& p.origin_peer_id@ == old(self).peer_id()
                &&& p.content matches ClipboardContent::Text(t)
                &&& t@ == content@
            },
    {
        if hash != self.last_hash && !content.as_str().is_empty() {
            self.last_hash = hash;
            Some(
                ClipboardPayload {
                    origin_peer_id: self.peer_id.clone(),
                    content: ClipboardContent::Text(content),
                },
            )
        } else {
            None
        }
    }

    /// The peer sent its clipboard: the text to write to the local one. Images
    /// and files are not taken over.
    pub fn on_incoming(&mut self, payload: ClipboardPayload) -> (r: Option<String>)
        ensures
            final(self).peer_id() == old(self).peer_id(),
            match payload.content {
                ClipboardContent::Text(t) => {
                    &&& r matches Some(text)
                    &&& text@ == t@
                    &&& final(self).last() == text_hash(t@)
                },
                _ => r is None && final(self).last() == old(self).last(),
            },
    {
        match payload.content {
            ClipboardContent::Text(text) => {
                // Remembered first, so that the next poll does not send it back.
                self.last_hash = simple_hash(text.as_str());
                Some(text)
            },
            ClipboardContent::Image { .. } => None,
            ClipboardContent::FileUri(_) => None,
        }
    }
}

/// Text from the peer is not sent back: reading it from the clipboard after it
/// was received is no news. Nor is text that was just sent.
pub proof fn no_echo(text: Seq<char>)
    ensures
        !is_news(text_hash(text), text_hash(text), text),
{
}

/// Text is sent whenever its hash is not that of the last one, and only an empty
/// clipboard is never sent.
pub proof fn changes_are_news(last: Seq<char>, text: Seq<char>)
    requires
        text_hash(text) != text_hash(last),
    ensures
        is_news(text_hash(last), text_hash(text), text) <==> text.len() > 0,
{
}

/// A program that reads or writes the clipboard, with its arguments.
#[derive(Debug, Clone, PartialEq, Eq)]
pub struct Tool {
    pub cmd: String,
    pub args: Vec<String>,
}

/// What a tool is, as text.
pub struct ToolText {
    pub cmd: Seq<char>,
    pub args: Seq<Seq<char>>,
}

impl Tool {
    pub open spec fn text(self) -> ToolText {
        ToolText { cmd: self.cmd@, args: self.args@.map_values(|a: String| a@) }
    }

    fn make(cmd: &str, args: &[&str]) -> (r: Tool)
        ensures
            r.text().cmd == cmd@,
            r.text().args == args@.map_values(|a: &str| a@),
    {
        let mut v: Vec<String> = Vec::new();
        let n = args.len();
        let mut i: usize = 0;
        while i < n
            invariant
                i <= n,
                n == args@.len(),
                v@.len() == i,
                forall|j: int| 0 <= j < i ==> (#[trigger] v@[j])@ == args@[j]@,
            decreases n - i,
        {
            v.push(args[i].to_owned());
            i += 1;
        }
        let r = Tool { cmd: cmd.to_owned(), args: v };
        assert(r.text().args == args@.map_values(|a: &str| a@));
        r
    }
}

/// The tools that read the clipboard, in the order in which they are tried.
pub open spec fn read_tool_texts() -> Seq<ToolText> {
    seq![
        ToolText { cmd: "wl-paste"@, args: seq!["--no-newline"@] },
        ToolText { cmd: "xclip"@, args: seq!["-selection"@, "clipboard"@, "-o"@] },
        ToolText { cmd: "xsel"@, args: seq!["--clipboard"@, "--output"@] },
    ]
}

/// The tools that write the clipboard, in the order in which they are tried.
pub open spec fn write_tool_texts() -> Seq<ToolText> {
    seq![
        ToolText { cmd: "wl-copy"@, args: seq![] },
        ToolText { cmd: "xclip"@, args: seq!["-selection"@, "clipboard"@, "-i"@] },
        ToolText { cmd: "xsel"@, args: seq!["--clipboard"@, "--input"@] },
    ]
}

/// The tools that read the clipboard.
pub fn read_tools() -> (r: Vec<Tool>)
    ensures
        r@.map_values(|t: Tool| t.text()) == read_tool_texts(),
{
    let mut r: Vec<Tool> = Vec::new();
    let a = Tool::make("wl-paste", &["--no-newline"]);
    let b = Tool::make("xclip", &["-selection", "clipboard", "-o"]);
    let c = Tool::make("xsel", &["--clipboard", "--output"]);
    assert(a.text().args == read_tool_texts()[0].args);
    assert(b.text().args == read_tool_texts()[1].args);
    assert(c.text().args == read_tool_texts()[2].args);
    r.push(a);
    r.push(b);
    r.push(c);
    assert(r@.map_values(|t: Tool| t.text()) == read_tool_texts());
    r
}

/// The tools that write the clipboard.
pub fn write_tools() -> (r: Vec<Tool>)
    ensures
        r@.map_values(|t: Tool| t.text()) == write_tool_texts(),
{
    let mut r: Vec<Tool> = Vec::new();
    let a = Tool::make("wl-copy", &[]);
    let b = Tool::make("xclip", &["-selection", "clipboard", "-i"]);
    let c = Tool::make("xsel", &["--clipboard", "--input"]);
    assert(a.text().args == write_tool_texts()[0].args);
    assert(b.text().args == write_tool_texts()[1].args);
    assert(c.text().args == write_tool_texts()[2].args);
    r.push(a);
    r.push(b);
    r.push(c);
    assert(r@.map_values(|t: Tool| t.text()) == write_tool_texts());
    r
}

/// Whether a tool needs to be told where the Wayland display is.
pub fn needs_wayland_env(cmd: &str) -> (r: bool)
    ensures
        r == "wl-"@.is_prefix_of(cmd@),
{
    let chars = to_chars(cmd);
    starts_with(chars.as_slice(), "wl-")
}

/// What to do after a tool was tried.
#[derive(Debug, Clone, PartialEq, Eq)]
pub enum ToolStep {
    /// Try the tool at this place in the list.
    Try(usize),
    /// Reading is over, with this text.
    Text(String),
    /// Writing has worked.
    Written,
    /// No tool could write.
    Failed,
}

/// The tool at place `index` of [`read_tools`] was tried; `stdout` is what it
/// printed if it succeeded. If none succeeds the clipboard counts as empty.
pub fn after_read(index: usize, stdout: Option<Vec<u8>>) -> (r: ToolStep)
    requires
        index < read_tool_texts().len(),
    ensures
        match stdout {
            Some(bytes) => r matches ToolStep::Text(t) && t@ == utf8_text(bytes@),
            None => if index + 1 < read_tool_texts().len() {
                r matches ToolStep::Try(next) && next == index + 1
            } else {
                r matches ToolStep::Text(t) && t@.len() == 0
            },
        },
{
    match stdout {
        Some(bytes) => ToolStep::Text(from_utf8_lossy(bytes.as_slice())),
        None => if index + 1 < 3 {
            ToolStep::Try(index + 1)
        } else {
            ToolStep::Text(String::new())
        },
    }
}

/// The tool at place `index` of [`write_tools`] was tried.
pub fn after_write(index: usize, success: bool) -> (r: ToolStep)
    requires
        index < write_tool_texts().len(),
    ensures
        if success {
            r is Written
        } else if index + 1 < write_tool_texts().len() {
            r matches ToolStep::Try(next) && next == index + 1
        } else {
            r is Failed
        },
{
    if success {
        ToolStep::Written
    } else if index + 1 < 3 {
        ToolStep::Try(index + 1)
    } else {
        ToolStep::Failed
    }
}

/// The runtime directory: the one the environment names, else that of the user.
pub open spec fn runtime_dir_text(var: Option<Seq<char>>, uid: u32) -> Seq<char> {
    match var {
        Some(dir) => dir,
        None => "/run/user/"@ + decimal_of(uid as int),
    }
}

/// The runtime directory: the one the environment names, else that of the user.
pub fn runtime_dir(var: Option<&str>, uid: u32) -> (r: String)
    ensures
        r@ == runtime_dir_text(
            match var {
                Some(d) => Some(d@),
                None => None,
            },
            uid,
        ),
{
    match var {
        Some(dir) => dir.to_owned(),
        None => {
            let mut out = "/run/user/".to_owned();
            append_decimal(&mut out, uid as u64);
            out
        },
    }
}

/// A file in the runtime directory.
#[derive(Debug, Clone, PartialEq, Eq)]
pub struct RuntimeEntry {
    pub name: String,
    pub is_socket: bool,
}

/// Whether a file is the socket of a Wayland display.
pub open spec fn is_display(e: RuntimeEntry) -> bool {
    &&& e.is_socket
    &&& "wayland-"@.is_prefix_of(e.name@)
    &&& !has_infix(e.name@, "lock"@)
    &&& !has_infix(e.name@, "renderD"@)
}

/// Whether a file is the socket of a Wayland display.
pub fn is_wayland_socket(e: &RuntimeEntry) -> (r: bool)
    ensures
        r == is_display(*e),
{
    let name = to_chars(e.name.as_str());
    let s = name.as_slice();
    e.is_socket && starts_with(s, "wayland-") && !contains(s, "lock") && !contains(s, "renderD")
}

/// The first Wayland display among some files.
pub open spec fn first_display(entries: Seq<RuntimeEntry>) -> Option<Seq<char>>
    decreases entries.len(),
{
    if entries.len() == 0 {
        None
    } else if is_display(entries[0]) {
        Some(entries[0].name@)
    } else {
        first_display(entries.drop_first())
    }
}

/// The environment variables that Wayland tools have to be given, as texts.
pub open spec fn wayland_vars(
    runtime_var: Option<Seq<char>>,
    uid: u32,
    runtime_dir_exists: bool,
    display_var: Option<Seq<char>>,
    entries: Seq<RuntimeEntry>,
) -> Seq<(Seq<char>, Seq<char>)> {
    let dir: Seq<(Seq<char>, Seq<char>)> = if runtime_var is None && runtime_dir_exists {
        seq![("XDG_RUNTIME_DIR"@, runtime_dir_text(runtime_var, uid))]
    } else {
        seq![]
    };
    let display: Seq<(Seq<char>, Seq<char>)> = if display_var is Some && display_var->0.len() > 0 {
        seq![]
    } else {
        match first_display(entries) {
            Some(name) => seq![("WAYLAND_DISPLAY"@, name)],
            None => seq![],
        }
    };
    dir + display
}

/// The environment variables that Wayland tools have to be given: those that are
/// missing from the environment and can be found.
///
/// `entries` are the files in the runtime directory, none if it cannot be read.
pub fn wayland_env(
    runtime_var: Option<&str>,
    uid: u32,
    runtime_dir_exists: bool,
    display_var: Option<&str>,
    entries: &Vec<RuntimeEntry>,
) -> (r: Vec<(String, String)>)
    ensures
        r@.map_values(|p: (String, String)| (p.0@, p.1@)) == wayland_vars(
            match runtime_var {
                Some(d) => Some(d@),
                None => None,
            },
            uid,
            runtime_dir_exists,
            match display_var {
                Some(d) => Some(d@),
                None => None,
            },
            entries@,
        ),
{
    let mut r: Vec<(String, String)> = Vec::new();
    let ghost texts = |p: (String, String)| (p.0@, p.1@);
    if runtime_var.is_none() && runtime_dir_exists {
        r.push(("XDG_RUNTIME_DIR".to_owned(), runtime_dir(runtime_var, uid)));
    }
    let ghost dir = r@.map_values(texts);
    let missing = match display_var {
        Some(v) => v.is_empty(),
        None => true,
    };
    if missing {
        let n = entries.len();
        let mut i: usize = 0;
        assert(entries@.skip(0) == entries@);
        while i < n
            invariant
                i <= n,
                n == entries@.len(),
                first_display(entries@) == first_display(entries@.skip(i as int)),
            ensures
                i < n ==> first_display(entries@) == Some(entries@[i as int].name@),
                i == n ==> first_display(entries@) is None,
            decreases n - i,
        {
            assert(entries@.skip(i as int).drop_first() == entries@.skip(i + 1));
            if is_wayland_socket(&entries[i]) {
                break;
            }
            i += 1;
        }
        if i < n {
            let ghost before = r@;
            r.push(("WAYLAND_DISPLAY".to_owned(), entries[i].name.clone()));
            assert(r@.map_values(texts) == dir.push(("WAYLAND_DISPLAY"@, entries@[i as int].name@)));
        }
    }
    assert(r@.map_values(texts) == wayland_vars(
        match runtime_var {
            Some(d) => Some(d@),
            None => None,
        },
        uid,
        runtime_dir_exists,
        match display_var {
            Some(d) => Some(d@),
            None => None,
        },
        entries@,
    ));
    r
}

/// Text is news if it is not the last one, by its hash, and not empty. Nothing else
/// decides.
pub proof fn news_is_new_and_not_empty(last: u64, hash: u64, text: Seq<char>)
    ensures
        text.len() == 0 ==> !is_news(last, hash, text),
        hash == last ==> !is_news(last, hash, text),
        hash != last && text.len() > 0 ==> is_news(last, hash, text),
{
}

/// The tools for reading and those for writing are three each, and come in the same
/// order: that of Wayland, then two of X11, told to use the clipboard.
pub proof fn tools_come_in_one_order(i: int)
    ensures
        read_tool_texts().len() == 3,
        write_tool_texts().len() == 3,
        read_tool_texts()[0].cmd == "wl-paste"@,
        read_tool_texts()[0].args == seq!["--no-newline"@],
        write_tool_texts()[0].cmd == "wl-copy"@,
        write_tool_texts()[0].args.len() == 0,
        read_tool_texts()[1].cmd == "xclip"@,
        read_tool_texts()[2].cmd == "xsel"@,
        1 <= i < 3 ==> read_tool_texts()[i].cmd == write_tool_texts()[i].cmd
            && read_tool_texts()[i].args.drop_last() == write_tool_texts()[i].args.drop_last(),
        read_tool_texts()[1].args == seq!["-selection"@, "clipboard"@, "-o"@],
        write_tool_texts()[1].args == seq!["-selection"@, "clipboard"@, "-i"@],
        read_tool_texts()[2].args == seq!["--clipboard"@, "--output"@],
        write_tool_texts()[2].args == seq!["--clipboard"@, "--input"@],
        POLL_INTERVAL_MS == 500,
{
    assert(read_tool_texts()[1].args.drop_last() =~= write_tool_texts()[1].args.drop_last());
    assert(read_tool_texts()[2].args.drop_last() =~= write_tool_texts()[2].args.drop_last());
}

/// The runtime directory of the environment counts as it is; else it is named after
/// the user.
pub proof fn runtime_directories(dir: Seq<char>, uid: u32)
    ensures
        runtime_dir_text(Some(dir), uid) == dir,
        match crate::text::after_prefix(runtime_dir_text(None, uid), "/run/user/"@) {
            Some(rest) => crate::text::unsigned_in(rest, u32::MAX as int) == Some(uid as int),
            None => false,
        },
{
    crate::text::prefixes_are_taken_away("/run/user/"@, decimal_of(uid as int), dir);
    crate::text::decimal_reads_back(uid as int);
}

/// A display is a socket whose name begins with `wayland-`, and is no lock file and
/// no render node.
pub proof fn displays_are_sockets(e: RuntimeEntry, t: Seq<char>, a: Seq<char>, b: Seq<char>)
    ensures
        !e.is_socket ==> !is_display(e),
        e.name@ == a + "lock"@ + b ==> !is_display(e),
        e.name@ == a + "renderD"@ + b ==> !is_display(e),
        !"wayland-"@.is_prefix_of(e.name@) ==> !is_display(e),
        e.is_socket && e.name@ == "wayland-"@ + t && !t.contains('k') && !t.contains('D')
            ==> is_display(e),
{
    crate::text::runs_occur_in_texts(a, "lock"@, b, e.name@);
    crate::text::runs_occur_in_texts(a, "renderD"@, b, e.name@);
    reveal_strlit("lock");
    reveal_strlit("renderD");
    reveal_strlit("wayland-");
    if e.is_socket && e.name@ == "wayland-"@ + t && !t.contains('k') && !t.contains('D') {
        let s = e.name@;
        crate::text::prefixes_are_taken_away("wayland-"@, t, s);
        assert forall|i: int| 0 <= i < s.len() implies s[i] != 'k' && s[i] != 'D' by {
            if i >= 8 {
                assert(s[i] == t[i - 8]);
                assert(t.contains(t[i - 8]));
            } else {
                assert(s[i] == "wayland-"@[i]);
            }
        }
        if has_infix(s, "lock"@) {
            let i = choose|i: int|
                0 <= i <= s.len() - "lock"@.len() && #[trigger] s.subrange(i, i + "lock"@.len())
                    == "lock"@;
            assert(s.subrange(i, i + 4)[3] == 'k');
            assert(s[i + 3] == 'k');
        }
        if has_infix(s, "renderD"@) {
            let i = choose|i: int|
                0 <= i <= s.len() - "renderD"@.len() && #[trigger] s.subrange(
                    i,
                    i + "renderD"@.len(),
                ) == "renderD"@;
            assert(s.subrange(i, i + 7)[6] == 'D');
            assert(s[i + 6] == 'D');
        }
    }
}

/// The first display among some files counts.
pub proof fn the_first_display_counts(
    a: Seq<RuntimeEntry>,
    b: Seq<RuntimeEntry>,
    e: RuntimeEntry,
)
    ensures
        first_display(seq![]) is None,
        is_display(e) ==> first_display(seq![e]) == Some(e.name@),
        !is_display(e) ==> first_display(seq![e]) is None,
        first_display(a + b) == (if first_display(a) is Some {
            first_display(a)
        } else {
            first_display(b)
        }),
    decreases a.len(),
{
    assert(seq![e].drop_first() == Seq::<RuntimeEntry>::empty());
    assert(first_display(seq![e].drop_first()) is None);
    if a.len() == 0 {
        assert(a + b == b);
    } else {
        the_first_display_counts(a.drop_first(), b, e);
        assert((a + b).drop_first() == a.drop_first() + b);
    }
}

/// No variable that is set is set anew: the runtime directory is given only where
/// the environment has none and it exists, the display only where the environment
/// has none, or an empty one, and one is found. Nothing else is given.
pub proof fn only_missing_variables_are_given(
    runtime_var: Option<Seq<char>>,
    uid: u32,
    exists_dir: bool,
    display_var: Option<Seq<char>>,
    entries: Seq<RuntimeEntry>,
    k: Seq<char>,
    v: Seq<char>,
)
    ensures
        wayland_vars(runtime_var, uid, exists_dir, display_var, entries).contains((k, v)) <==> {
            ||| k == "XDG_RUNTIME_DIR"@ && runtime_var is None && exists_dir && v == "/run/user/"@
                + decimal_of(uid as int)
            ||| k == "WAYLAND_DISPLAY"@ && (display_var is None || display_var->0.len() == 0)
                && first_display(entries) == Some(v)
        },
        wayland_vars(runtime_var, uid, exists_dir, display_var, entries).len() <= 2,
{
    let dir: Seq<(Seq<char>, Seq<char>)> = seq![
        ("XDG_RUNTIME_DIR"@, "/run/user/"@ + decimal_of(uid as int)),
    ];
    let vars = wayland_vars(runtime_var, uid, exists_dir, display_var, entries);
    if runtime_var is None && exists_dir {
        assert(vars[0] == dir[0]);
    }
    if (display_var is None || display_var->0.len() == 0) && first_display(entries) is Some {
        assert(vars[vars.len() - 1] == ("WAYLAND_DISPLAY"@, first_display(entries)->0));
    }
    if vars.contains((k, v)) {
        let i = choose|i: int| 0 <= i < vars.len() && vars[i] == (k, v);
        assert(i == 0 || i == 1);
    }
}

} // verus!
