//! How large the local screen is: reading what display tools and the kernel
//! report, and the order in which they are asked.
//!
//! Scale factors are fractions, which the program around this crate computes
//! with: here their texts are picked out and their numbers chosen from.
use crate::input::Backend;
use crate::proto::{Double, Edge, ScreenInfo, ScreenPosition, INFINITY_BITS, ONE_BITS};
use crate::text::{
    after_prefix, contains, decimal_of, decimal_reads_back, digits_count_from_zero, find_char,
    from_chars, halves, has_infix, is_digit, lines, lines_of, not_every_text_is_a_number,
    parse_unsigned, position, prefixes_are_taken_away, runs_occur_in_texts, split_once,
    strip_prefix, texts_are_halved_at_a_character, to_chars, trailing_runs_are_taken_away, trim,
    trim_end_char, trimmed, trimming_leaves_the_text, unsigned_in, views, without_trailing, words,
    words_of, words_stand_between_white_space,
};
use vstd::prelude::*;
use vstd::slice::slice_subrange;
use vstd::string::*;

verus! {

/// What follows an escape sequence, of which `s` is the part after the escape
/// character: it ends at the first `m`, or never.
pub open spec fn after_escape(s: Seq<char>) -> Seq<char> {
    if position(s, 'm') < s.len() {
        s.skip(position(s, 'm') + 1)
    } else {
        seq![]
    }
}

/// A text without the escape sequences that colour it.
pub open spec fn plain(s: Seq<char>) -> Seq<char>
    decreases s.len(),
{
    if s.len() == 0 {
        seq![]
    } else if s[0] == '\u{1b}' {
        let rest = after_escape(s.skip(1));
        if rest.len() < s.len() {
            plain(rest)
        } else {
            seq![]
        }
    } else {
        seq![s[0]] + plain(s.skip(1))
    }
}

/// A text without the escape sequences that colour it.
pub fn strip_escapes(s: &[char]) -> (r: Vec<char>)
    ensures
        r@ == plain(s@),
{
    let mut out: Vec<char> = Vec::new();
    let n = s.len();
    let mut i: usize = 0;
    assert(s@.skip(0) == s@);
    assert(out@ + plain(s@) == plain(s@));
    while i < n
        invariant
            i <= n,
            n == s@.len(),
            out@ + plain(s@.skip(i as int)) == plain(s@),
        decreases n - i,
    {
        let ghost rest = s@.skip(i as int);
        assert(rest.skip(1) == s@.skip(i + 1));
        if s[i] == '\u{1b}' {
            let tail = slice_subrange(s, i + 1, n);
            assert(tail@ == s@.skip(i + 1));
            let k = find_char(tail, 'm');
            if k == tail.len() {
                assert(plain(after_escape(tail@)) == Seq::<char>::empty());
                assert(plain(s@.skip(n as int)) == Seq::<char>::empty());
                i = n;
            } else {
                assert(tail@.skip(k + 1) == s@.skip(i + k + 2));
                i = i + k + 2;
            }
        } else {
            let ghost before = out@;
            out.push(s[i]);
            assert(before + (seq![rest[0]] + plain(rest.skip(1))) == out@ + plain(s@.skip(i + 1)));
            i += 1;
        }
    }
    assert(s@.skip(n as int).len() == 0);
    assert(out@ + plain(s@.skip(n as int)) == out@);
    out
}

/// A tool that lists the outputs of a compositor.
#[derive(Debug, Clone, Copy, PartialEq, Eq, Structural)]
pub enum Randr {
    /// `cosmic-randr`, which gives the scale in percent.
    Cosmic,
    /// `wlr-randr`, which gives the scale as a factor.
    Wlr,
}

/// The number that a text spells, zero if it spells none.
pub open spec fn number_or_zero(s: Seq<char>) -> u32 {
    match unsigned_in(s, u32::MAX as int) {
        Some(n) => n as u32,
        None => 0,
    }
}

fn parse_or_zero(s: &[char]) -> (r: u32)
    ensures
        r == number_or_zero(s@),
{
    match parse_unsigned(s, u32::MAX) {
        Some(n) => n,
        None => 0,
    }
}

/// The two numbers around an `x`, in a text such as `1920x1080`.
pub open spec fn size_in(s: Seq<char>) -> Option<(u32, u32)> {
    match halves(s, 'x') {
        Some((w, h)) => Some((number_or_zero(w), number_or_zero(h))),
        None => None,
    }
}

fn parse_size(s: &[char]) -> (r: Option<(u32, u32)>)
    ensures
        r == size_in(s@),
{
    match split_once(s, 'x') {
        Some((w, h)) => Some((parse_or_zero(w), parse_or_zero(h))),
        None => None,
    }
}

/// Whether a trimmed line names the current mode of an output.
pub open spec fn is_current(tool: Randr, t: Seq<char>) -> bool {
    match tool {
        Randr::Cosmic => has_infix(t, "(current)"@),
        Randr::Wlr => has_infix(t, "current"@) && position(t, 'x') < t.len(),
    }
}

/// The size in a line that names the current mode: its first word.
pub open spec fn mode_in(tool: Randr, line: Seq<char>) -> Option<(u32, u32)> {
    let t = trimmed(line);
    if is_current(tool, t) && words_of(t).len() > 0 {
        size_in(words_of(t)[0])
    } else {
        None
    }
}

/// The scale in a line that gives it, as a text.
pub open spec fn scale_in(tool: Randr, line: Seq<char>) -> Option<Seq<char>> {
    match after_prefix(trimmed(line), "Scale:"@) {
        Some(rest) => Some(
            match tool {
                Randr::Cosmic => without_trailing(trimmed(rest), '%'),
                Randr::Wlr => trimmed(rest),
            },
        ),
        None => None,
    }
}

/// The size in the last of the lines that names a current mode.
pub open spec fn last_mode(tool: Randr, lines: Seq<Seq<char>>) -> (u32, u32)
    decreases lines.len(),
{
    if lines.len() == 0 {
        (0, 0)
    } else {
        match mode_in(tool, lines.last()) {
            Some(m) => m,
            None => last_mode(tool, lines.drop_last()),
        }
    }
}

/// The scales in the lines, as texts in their order.
pub open spec fn all_scales(tool: Randr, lines: Seq<Seq<char>>) -> Seq<Seq<char>>
    decreases lines.len(),
{
    if lines.len() == 0 {
        seq![]
    } else {
        let before = all_scales(tool, lines.drop_last());
        match scale_in(tool, lines.last()) {
            Some(s) => before.push(s),
            None => before,
        }
    }
}

/// The texts that a list of strings holds.
pub open spec fn texts(v: Seq<String>) -> Seq<Seq<char>> {
    v.map_values(|s: String| s@)
}

/// What a listing of outputs says of the screen: its size in pixels, and every
/// scale that it gives, as a text.
#[derive(Debug, PartialEq, Eq)]
pub struct Listing {
    pub width: u32,
    pub height: u32,
    pub scales: Vec<String>,
}

/// Whether `r` is what the lines of a listing say. A size with a zero in it is
/// none.
pub open spec fn listing_of(tool: Randr, lines: Seq<Seq<char>>, r: Option<Listing>) -> bool {
    let (w, h) = last_mode(tool, lines);
    match r {
        Some(l) => w > 0 && h > 0 && l.width == w && l.height == h && texts(l.scales@)
            == all_scales(tool, lines),
        None => w == 0 || h == 0,
    }
}

fn line_mode(tool: Randr, line: &[char]) -> (r: Option<(u32, u32)>)
    ensures
        r == mode_in(tool, line@),
{
    let t = trim(line);
    let current = match tool {
        Randr::Cosmic => contains(t, "(current)"),
        Randr::Wlr => contains(t, "current") && find_char(t, 'x') < t.len(),
    };
    if current {
        let ws = words(t);
        if ws.len() > 0 {
            assert(words_of(t@)[0] == ws@[0]@);
            return parse_size(ws[0]);
        }
    }
    None
}

fn line_scale(tool: Randr, line: &[char]) -> (r: Option<String>)
    ensures
        r is Some <==> scale_in(tool, line@) is Some,
        r matches Some(s) ==> scale_in(tool, line@) == Some(s@),
{
    match strip_prefix(trim(line), "Scale:") {
        Some(rest) => {
            let s = trim(rest);
            let s = match tool {
                Randr::Cosmic => trim_end_char(s, '%'),
                Randr::Wlr => s,
            };
            Some(from_chars(s))
        },
        None => None,
    }
}

fn read_listing(tool: Randr, text: &[char]) -> (r: Option<Listing>)
    ensures
        listing_of(tool, lines_of(text@), r),
{
    let ls = lines(text);
    let ghost v = lines_of(text@);
    let mut size: (u32, u32) = (0, 0);
    let mut scales: Vec<String> = Vec::new();
    let n = ls.len();
    let mut i: usize = 0;
    assert(texts(scales@) == Seq::<Seq<char>>::empty());
    while i < n
        invariant
            i <= n,
            n == ls@.len(),
            v == views(ls@),
            size == last_mode(tool, v.take(i as int)),
            texts(scales@) == all_scales(tool, v.take(i as int)),
        decreases n - i,
    {
        let ghost before = scales@;
        assert(v.take(i + 1).drop_last() == v.take(i as int));
        assert(v.take(i + 1).last() == ls@[i as int]@);
        match line_scale(tool, ls[i]) {
            Some(s) => {
                scales.push(s);
                assert(texts(scales@) == texts(before).push(s@));
            },
            None => {},
        }
        match line_mode(tool, ls[i]) {
            Some(m) => {
                size = m;
            },
            None => {},
        }
        i += 1;
    }
    assert(v.take(n as int) == v);
    if size.0 > 0 && size.1 > 0 {
        Some(Listing { width: size.0, height: size.1, scales })
    } else {
        None
    }
}

/// Reads the output of `cosmic-randr list`, which may be coloured. Scales are in
/// percent, without the sign.
pub fn parse_cosmic_randr(output: &str) -> (r: Option<Listing>)
    ensures
        listing_of(Randr::Cosmic, lines_of(plain(output@)), r),
{
    let chars = to_chars(output);
    let clean = strip_escapes(chars.as_slice());
    read_listing(Randr::Cosmic, clean.as_slice())
}

/// Reads the output of `wlr-randr`.
pub fn parse_wlr_randr(output: &str) -> (r: Option<Listing>)
    ensures
        listing_of(Randr::Wlr, lines_of(output@), r),
{
    let chars = to_chars(output);
    read_listing(Randr::Wlr, chars.as_slice())
}

/// The number one.
pub open spec fn one() -> Double {
    Double { bits: ONE_BITS }
}

/// The last of the scales that is a number; one if none is.
pub open spec fn last_number(scales: Seq<Option<Double>>) -> Double
    decreases scales.len(),
{
    if scales.len() == 0 {
        one()
    } else {
        match scales.last() {
            Some(s) => s,
            None => last_number(scales.drop_last()),
        }
    }
}

/// The scale that counts among those of a listing, given the number that each
/// text spells, if it spells one: the last number, or one.
pub fn listed_scale(scales: &[Option<Double>]) -> (r: Double)
    ensures
        r == last_number(scales@),
{
    let mut scale = Double { bits: ONE_BITS };
    let n = scales.len();
    let mut i: usize = 0;
    while i < n
        invariant
            i <= n,
            n == scales@.len(),
            scale == last_number(scales@.take(i as int)),
        decreases n - i,
    {
        assert(scales@.take(i + 1).drop_last() == scales@.take(i as int));
        match scales[i] {
            Some(s) => {
                scale = s;
            },
            None => {},
        }
        i += 1;
    }
    assert(scales@.take(n as int) == scales@);
    scale
}

/// The first of the scales that is a number; one if none is.
pub open spec fn first_number(scales: Seq<Option<Double>>) -> Double
    decreases scales.len(),
{
    if scales.len() == 0 {
        one()
    } else {
        match scales[0] {
            Some(s) => s,
            None => first_number(scales.skip(1)),
        }
    }
}

fn pick_first(scales: &[Option<Double>]) -> (r: Double)
    ensures
        r == first_number(scales@),
{
    let n = scales.len();
    let mut i: usize = 0;
    assert(scales@.skip(0) == scales@);
    while i < n
        invariant
            i <= n,
            n == scales@.len(),
            first_number(scales@) == first_number(scales@.skip(i as int)),
        decreases n - i,
    {
        assert(scales@.skip(i as int).skip(1) == scales@.skip(i + 1));
        match scales[i] {
            Some(s) => {
                return s;
            },
            None => {},
        }
        i += 1;
    }
    assert(scales@.skip(n as int).len() == 0);
    Double { bits: ONE_BITS }
}

/// The scale of an X11 display: that of the environment variable `GDK_SCALE`, or
/// of `QT_SCALE_FACTOR`, or the first that the resources of the display give,
/// each where it is a number; else one.
pub fn x11_scale(gdk: Option<Double>, qt: Option<Double>, resources: &[Option<Double>]) -> (r:
    Double)
    ensures
        r == first_number(seq![gdk, qt] + resources@),
{
    proof {
        let all = seq![gdk, qt] + resources@;
        assert(all.skip(1).skip(1) == resources@);
        assert(all.skip(1)[0] == qt);
        reveal_with_fuel(first_number, 3);
    }
    match gdk {
        Some(s) => s,
        None => match qt {
            Some(s) => s,
            None => pick_first(resources),
        },
    }
}

/// The resolutions, in dots per inch, that lines of X11 resources give.
pub open spec fn dpi_in(lines: Seq<Seq<char>>) -> Seq<Seq<char>>
    decreases lines.len(),
{
    if lines.len() == 0 {
        seq![]
    } else {
        let before = dpi_in(lines.drop_last());
        match after_prefix(lines.last(), "Xft.dpi:"@) {
            Some(rest) => before.push(trimmed(rest)),
            None => before,
        }
    }
}

/// Picks the resolutions, in dots per inch, out of the output of `xrdb -query`,
/// as texts in their order.
pub fn dpi_texts(output: &str) -> (r: Vec<String>)
    ensures
        texts(r@) == dpi_in(lines_of(output@)),
{
    let chars = to_chars(output);
    let ls = lines(chars.as_slice());
    let ghost v = lines_of(output@);
    let mut out: Vec<String> = Vec::new();
    let n = ls.len();
    let mut i: usize = 0;
    assert(texts(out@) == Seq::<Seq<char>>::empty());
    while i < n
        invariant
            i <= n,
            n == ls@.len(),
            v == views(ls@),
            texts(out@) == dpi_in(v.take(i as int)),
        decreases n - i,
    {
        let ghost before = out@;
        assert(v.take(i + 1).drop_last() == v.take(i as int));
        assert(v.take(i + 1).last() == ls@[i as int]@);
        match strip_prefix(ls[i], "Xft.dpi:") {
            Some(rest) => {
                let s = from_chars(trim(rest));
                out.push(s);
                assert(texts(out@) == texts(before).push(s@));
            },
            None => {},
        }
        i += 1;
    }
    assert(v.take(n as int) == v);
    out
}

/// A letter without its case, for the letters from `A` to `Z`.
pub open spec fn lower(c: char) -> char {
    if 'A' <= c <= 'Z' {
        (c as u32 + 32) as char
    } else {
        c
    }
}

/// Whether two texts are the same but for the case of the letters from `A` to
/// `Z`.
pub open spec fn same_but_case(a: Seq<char>, b: Seq<char>) -> bool {
    a.len() == b.len() && forall|i: int| 0 <= i < a.len() ==> lower(#[trigger] a[i]) == lower(b[i])
}

/// The code of a letter without its case.
fn lower_code(c: char) -> (r: u32)
    ensures
        r == lower(c) as u32,
{
    let u = c as u32;
    if 65 <= u && u <= 90 {
        u + 32
    } else {
        u
    }
}

fn eq_ignoring_case(a: &[char], b: &[char]) -> (r: bool)
    ensures
        r == same_but_case(a@, b@),
{
    if a.len() != b.len() {
        return false;
    }
    let mut i: usize = 0;
    while i < a.len()
        invariant
            i <= a@.len(),
            a@.len() == b@.len(),
            forall|j: int| 0 <= j < i ==> lower(#[trigger] a@[j]) == lower(b@[j]),
        decreases a@.len() - i,
    {
        if lower_code(a[i]) != lower_code(b[i]) {
            assert(lower(a@[i as int]) != lower(b@[i as int]));
            return false;
        }
        i += 1;
    }
    true
}

/// What the kernel says of an output: its name, whether something is connected,
/// and its modes.
#[derive(Debug, PartialEq, Eq)]
pub struct DrmOutput {
    pub name: String,
    pub status: String,
    pub modes: String,
}

/// Whether an output can have a screen, by its name.
pub open spec fn names_output(name: Seq<char>) -> bool {
    has_infix(name, "HDMI"@) || has_infix(name, "DP"@) || has_infix(name, "eDP"@)
}

/// Whether an output can have a screen, by its name.
pub fn is_output(name: &str) -> (r: bool)
    ensures
        r == names_output(name@),
{
    let chars = to_chars(name);
    let s = chars.as_slice();
    contains(s, "HDMI") || contains(s, "DP") || contains(s, "eDP")
}

/// A screen of the given size and scale. Its place is filled in by the layout.
pub open spec fn screen_of(width: u32, height: u32, scale: Double) -> ScreenInfo {
    ScreenInfo {
        width,
        height,
        scale_factor: scale,
        position: ScreenPosition { edge: Edge::Right, monitor_id: 0 },
    }
}

/// A screen of the given size and scale.
pub fn screen_info(width: u32, height: u32, scale: Double) -> (r: ScreenInfo)
    ensures
        r == screen_of(width, height, scale),
{
    ScreenInfo {
        width,
        height,
        scale_factor: scale,
        position: ScreenPosition { edge: Edge::Right, monitor_id: 0 },
    }
}

/// The screen of an output: the first of its modes, if something is connected.
/// The kernel knows no scale.
pub open spec fn output_screen(o: DrmOutput) -> Option<ScreenInfo> {
    let modes = lines_of(o.modes@);
    if names_output(o.name@) && same_but_case(trimmed(o.status@), "connected"@) && modes.len() > 0 {
        match size_in(modes[0]) {
            Some((w, h)) => if w > 0 && h > 0 {
                Some(screen_of(w, h, one()))
            } else {
                None
            },
            None => None,
        }
    } else {
        None
    }
}

/// The screen of the first output that has one.
pub open spec fn first_screen(outputs: Seq<DrmOutput>) -> Option<ScreenInfo>
    decreases outputs.len(),
{
    if outputs.len() == 0 {
        None
    } else {
        match output_screen(outputs[0]) {
            Some(s) => Some(s),
            None => first_screen(outputs.skip(1)),
        }
    }
}

fn read_output(o: &DrmOutput) -> (r: Option<ScreenInfo>)
    ensures
        r == output_screen(*o),
{
    if !is_output(o.name.as_str()) {
        return None;
    }
    let status = to_chars(o.status.as_str());
    let connected = to_chars("connected");
    if !eq_ignoring_case(trim(status.as_slice()), connected.as_slice()) {
        return None;
    }
    let modes = to_chars(o.modes.as_str());
    let ls = lines(modes.as_slice());
    if ls.len() > 0 {
        assert(lines_of(o.modes@)[0] == ls@[0]@);
        match parse_size(ls[0]) {
            Some((w, h)) => {
                if w > 0 && h > 0 {
                    return Some(screen_info(w, h, Double { bits: ONE_BITS }));
                }
            },
            None => {},
        }
    }
    None
}

/// The screen of the first output, in the order in which the kernel lists them,
/// that has one.
pub fn detect_screen_from_drm(outputs: &[DrmOutput]) -> (r: Option<ScreenInfo>)
    ensures
        r == first_screen(outputs@),
{
    let n = outputs.len();
    let mut i: usize = 0;
    assert(outputs@.skip(0) == outputs@);
    while i < n
        invariant
            i <= n,
            n == outputs@.len(),
            first_screen(outputs@) == first_screen(outputs@.skip(i as int)),
        decreases n - i,
    {
        assert(outputs@.skip(i as int).skip(1) == outputs@.skip(i + 1));
        let found = read_output(&outputs[i]);
        if found.is_some() {
            return found;
        }
        i += 1;
    }
    assert(outputs@.skip(n as int).len() == 0);
    None
}

/// The screen to assume when nothing is known of it.
pub open spec fn assumed_screen() -> ScreenInfo {
    screen_of(1920, 1080, one())
}

/// Where to look for the size of the screen next.
#[derive(Debug, Clone, Copy, PartialEq, Eq, Structural)]
pub enum Probe {
    /// Run `cosmic-randr list`.
    Cosmic,
    /// Run `wlr-randr`.
    Wlr,
    /// Ask the X11 display.
    X11,
    /// Ask the kernel.
    Drm,
    /// The screen is known.
    Found(ScreenInfo),
}

/// What looking for the size of the screen led to.
#[derive(Debug, Clone, Copy, PartialEq, Eq, Structural)]
pub enum ProbeResult {
    /// The tool or the display is not there.
    Unavailable,
    /// It answered, but named no screen.
    Nothing,
    Screen(ScreenInfo),
}

/// Where to look after the compositor's tools.
pub open spec fn after_tools(backend: Backend) -> Probe {
    match backend {
        Backend::X11 => Probe::X11,
        Backend::Evdev => Probe::Drm,
    }
}

/// Where to look next. The compositor's tools come first, as they know the
/// scale; the first of them that answers is the only one that is asked.
pub open spec fn probe_after(backend: Backend, probe: Probe, result: ProbeResult) -> Probe {
    match (probe, result) {
        (Probe::Found(s), _) => Probe::Found(s),
        (_, ProbeResult::Screen(s)) => Probe::Found(s),
        (Probe::Cosmic, ProbeResult::Unavailable) => Probe::Wlr,
        (Probe::Cosmic, ProbeResult::Nothing) => after_tools(backend),
        (Probe::Wlr, _) => after_tools(backend),
        (Probe::X11, _) => Probe::Drm,
        (Probe::Drm, _) => Probe::Found(assumed_screen()),
    }
}

/// Where to look first.
pub fn first_probe() -> (r: Probe)
    ensures
        r == Probe::Cosmic,
{
    Probe::Cosmic
}

/// Where to look next.
pub fn next_probe(backend: Backend, probe: Probe, result: ProbeResult) -> (r: Probe)
    ensures
        r == probe_after(backend, probe, result),
{
    match probe {
        Probe::Found(s) => Probe::Found(s),
        _ => match result {
            ProbeResult::Screen(s) => Probe::Found(s),
            _ => match probe {
                Probe::Cosmic => match result {
                    ProbeResult::Unavailable => Probe::Wlr,
                    _ => match backend {
                        Backend::X11 => Probe::X11,
                        Backend::Evdev => Probe::Drm,
                    },
                },
                Probe::Wlr => match backend {
                    Backend::X11 => Probe::X11,
                    Backend::Evdev => Probe::Drm,
                },
                Probe::X11 => Probe::Drm,
                _ => Probe::Found(screen_info(1920, 1080, Double { bits: ONE_BITS })),
            },
        },
    }
}

/// Where a run of results leads.
pub open spec fn probed(backend: Backend, results: Seq<ProbeResult>) -> Probe
    decreases results.len(),
{
    if results.len() == 0 {
        Probe::Cosmic
    } else {
        probe_after(backend, probed(backend, results.drop_last()), results.last())
    }
}

/// Looking for the screen ends after four places at most, whatever is found.
pub proof fn probing_ends(backend: Backend, results: Seq<ProbeResult>)
    requires
        results.len() >= 4,
    ensures
        probed(backend, results) is Found,
    decreases results.len(),
{
    if results.len() == 4 {
        let a = results.drop_last();
        let b = a.drop_last();
        let c = b.drop_last();
        assert(c.drop_last().len() == 0);
        reveal_with_fuel(probed, 5);
    } else {
        probing_ends(backend, results.drop_last());
    }
}

/// Whether a number is larger than one. The bits of positive numbers are ordered
/// as the numbers are; what is not a number has larger bits than infinity, and so
/// do negative numbers.
pub open spec fn above_one(d: Double) -> bool {
    ONE_BITS < d.bits <= INFINITY_BITS
}

/// The screen with the scale that the user gave, if any. A screen whose scale was
/// not known is then `logical` in size, its size divided by the scale.
pub open spec fn with_scale(
    screen: ScreenInfo,
    scale: Option<Double>,
    logical: (u32, u32),
) -> ScreenInfo {
    match scale {
        Some(s) => if above_one(s) && screen.scale_factor == one() {
            ScreenInfo { width: logical.0, height: logical.1, scale_factor: s, ..screen }
        } else {
            ScreenInfo { scale_factor: s, ..screen }
        },
        None => screen,
    }
}

/// The screen with the scale that the user gave, if any.
pub fn override_scale(screen: ScreenInfo, scale: Option<Double>, logical: (u32, u32)) -> (r:
    ScreenInfo)
    ensures
        r == with_scale(screen, scale, logical),
{
    match scale {
        Some(s) => {
            let mut out = screen;
            if ONE_BITS < s.bits && s.bits <= INFINITY_BITS && screen.scale_factor.bits
                == ONE_BITS {
                out.width = logical.0;
                out.height = logical.1;
            }
            out.scale_factor = s;
            out
        },
        None => screen,
    }
}

/// Whatever the backend, `wlr-randr` is asked where `cosmic-randr` is not there,
/// and nothing else is asked before.
pub proof fn tools_are_asked_first(backend: Backend, s: ScreenInfo)
    ensures
        probed(backend, seq![]) == Probe::Cosmic,
        probed(backend, seq![ProbeResult::Unavailable]) == Probe::Wlr,
        probed(backend, seq![ProbeResult::Screen(s)]) == Probe::Found(s),
        probed(backend, seq![ProbeResult::Unavailable, ProbeResult::Screen(s)]) == Probe::Found(s),
{
    probes_go_on(backend, seq![], ProbeResult::Unavailable);
    probes_go_on(backend, seq![], ProbeResult::Screen(s));
    probes_go_on(backend, seq![ProbeResult::Unavailable], ProbeResult::Screen(s));
    assert(Seq::<ProbeResult>::empty().push(ProbeResult::Unavailable) == seq![
        ProbeResult::Unavailable,
    ]);
    assert(Seq::<ProbeResult>::empty().push(ProbeResult::Screen(s)) == seq![
        ProbeResult::Screen(s),
    ]);
    assert(seq![ProbeResult::Unavailable].push(ProbeResult::Screen(s)) == seq![
        ProbeResult::Unavailable,
        ProbeResult::Screen(s),
    ]);
}

/// The display and the kernel are asked only after a tool answered without naming
/// a screen, or after neither tool was there. The display is asked before the
/// kernel where the pointer is an X11 one, and not at all elsewhere.
pub proof fn tools_come_before_the_display_and_the_kernel(
    backend: Backend,
    results: Seq<ProbeResult>,
)
    requires
        probed(backend, results) is X11 || probed(backend, results) is Drm,
    ensures
        results.len() >= 1,
        results[0] is Nothing || (results[0] is Unavailable && results.len() >= 2 && !(
        results[1] is Screen)),
        probed(backend, results) is X11 ==> backend is X11 && results.len() == (
        if results[0] is Nothing {
            1int
        } else {
            2
        }),
        probed(backend, results) is Drm && backend is X11 ==> results.len() == (
        if results[0] is Nothing {
            2int
        } else {
            3
        }),
        probed(backend, results) is Drm && backend is Evdev ==> results.len() == (
        if results[0] is Nothing {
            1int
        } else {
            2
        }),
        forall|i: int| 0 <= i < results.len() ==> !(#[trigger] results[i] is Screen),
{
    lemma_probes(backend, results);
}

/// What each place that is asked says of the results so far.
proof fn lemma_probes(backend: Backend, results: Seq<ProbeResult>)
    ensures
        match probed(backend, results) {
            Probe::Cosmic => results.len() == 0,
            Probe::Wlr => results.len() == 1 && results[0] is Unavailable,
            Probe::X11 => backend is X11 && {
                ||| results.len() == 1 && results[0] is Nothing
                ||| results.len() == 2 && results[0] is Unavailable && !(results[1] is Screen)
            },
            Probe::Drm => {
                ||| backend is Evdev && results.len() == 1 && results[0] is Nothing
                ||| backend is Evdev && results.len() == 2 && results[0] is Unavailable && !(
                results[1] is Screen)
                ||| backend is X11 && results.len() == 2 && results[0] is Nothing && !(
                results[1] is Screen)
                ||| backend is X11 && results.len() == 3 && results[0] is Unavailable && !(
                results[1] is Screen) && !(results[2] is Screen)
            },
            Probe::Found(_) => results.len() >= 1,
        },
    decreases results.len(),
{
    if results.len() > 0 {
        lemma_probes(backend, results.drop_last());
    }
}

/// One more result leads one step further, where the screen is not known yet: to
/// the screen that it names, if it names one.
pub proof fn probes_go_on(backend: Backend, results: Seq<ProbeResult>, result: ProbeResult)
    ensures
        probed(backend, results.push(result)) == probe_after(
            backend,
            probed(backend, results),
            result,
        ),
        probed(backend, results) matches Probe::Found(s) ==> probed(backend, results.push(result))
            == Probe::Found(s),
        !(probed(backend, results) is Found) ==> (result matches ProbeResult::Screen(s) ==> probed(
            backend,
            results.push(result),
        ) == Probe::Found(s)),
{
    assert(results.push(result).drop_last() == results);
}

/// A tool that answered without naming a screen is not followed by the other tool;
/// the display is followed by the kernel, and where the kernel names no screen a
/// common one is assumed: 1920 by 1080, unscaled.
pub proof fn places_follow_each_other(backend: Backend, result: ProbeResult)
    requires
        !(result is Screen),
    ensures
        probe_after(Backend::X11, Probe::Cosmic, ProbeResult::Nothing) == Probe::X11,
        probe_after(Backend::Evdev, Probe::Cosmic, ProbeResult::Nothing) == Probe::Drm,
        probe_after(backend, Probe::Cosmic, ProbeResult::Unavailable) == Probe::Wlr,
        probe_after(Backend::X11, Probe::Wlr, result) == Probe::X11,
        probe_after(Backend::Evdev, Probe::Wlr, result) == Probe::Drm,
        probe_after(backend, Probe::X11, result) == Probe::Drm,
        match probe_after(backend, Probe::Drm, result) {
            Probe::Found(s) => s.width == 1920 && s.height == 1080 && s.scale_factor.bits
                == 0x3ff0_0000_0000_0000,
            _ => false,
        },
{
}

/// The screen that is found was named by one of the results, or is the assumed one;
/// where none of them names a screen it is the assumed one.
pub proof fn a_screen_is_named_or_assumed(backend: Backend, results: Seq<ProbeResult>)
    ensures
        match probed(backend, results) {
            Probe::Found(s) => (exists|i: int|
                0 <= i < results.len() && #[trigger] results[i] == ProbeResult::Screen(s)) || s
                == assumed_screen(),
            _ => true,
        },
        (forall|i: int| 0 <= i < results.len() ==> !(#[trigger] results[i] is Screen)) ==> match probed(
            backend,
            results,
        ) {
            Probe::Found(s) => s == assumed_screen(),
            _ => true,
        },
    decreases results.len(),
{
    if results.len() > 0 {
        let before = results.drop_last();
        a_screen_is_named_or_assumed(backend, before);
        assert forall|i: int| 0 <= i < before.len() implies before[i] == #[trigger] results[i] by {
        }
        if forall|i: int| 0 <= i < results.len() ==> !(#[trigger] results[i] is Screen) {
            assert forall|i: int| 0 <= i < before.len() implies !(#[trigger] before[i] is Screen) by {
                assert(before[i] == results[i]);
            }
        }
        match probed(backend, before) {
            Probe::Found(s) => {
                if exists|i: int| 0 <= i < before.len() && #[trigger] before[i]
                    == ProbeResult::Screen(s) {
                    let i = choose|i: int|
                        0 <= i < before.len() && #[trigger] before[i] == ProbeResult::Screen(s);
                    assert(results[i] == ProbeResult::Screen(s));
                }
            },
            _ => {
                assert(results[results.len() - 1] == results.last());
            },
        }
    }
}

/// A text is uncoloured by taking each escape sequence away, from the escape
/// character to the next `m`; the rest stays as it is, and what follows an escape
/// character with no `m` after it is gone.
pub proof fn escapes_are_taken_away(a: Seq<char>, b: Seq<char>, c: Seq<char>)
    requires
        !a.contains('\u{1b}'),
        !b.contains('m'),
    ensures
        plain(a) == a,
        plain(a + seq!['\u{1b}'] + b) == a,
        plain(a + seq!['\u{1b}'] + b + seq!['m'] + c) == a + plain(c),
    decreases a.len(),
{
    let open = a + seq!['\u{1b}'] + b;
    let closed = a + seq!['\u{1b}'] + b + seq!['m'] + c;
    if a.len() == 0 {
        assert(plain(a) == a);
        assert(open.skip(1) == b);
        assert(closed.skip(1) == b.push('m') + c);
        crate::text::the_first_one_is_found(b, 'm', c);
        assert(closed.skip(1).skip(b.len() as int + 1) == c);
        assert(after_escape(b) == Seq::<char>::empty());
        assert(plain(after_escape(b)) == Seq::<char>::empty());
        assert(a + plain(c) == plain(c));
    } else {
        let t = a.skip(1);
        assert(a.contains(a[0]));
        assert(!t.contains('\u{1b}')) by {
            if t.contains('\u{1b}') {
                let j = choose|j: int| 0 <= j < t.len() && t[j] == '\u{1b}';
                assert(a[j + 1] == '\u{1b}');
            }
        }
        escapes_are_taken_away(t, b, c);
        assert(open.skip(1) == t + seq!['\u{1b}'] + b);
        assert(closed.skip(1) == t + seq!['\u{1b}'] + b + seq!['m'] + c);
        assert(seq![a[0]] + t == a);
        assert(seq![a[0]] + (t + plain(c)) == a + plain(c));
    }
}

proof fn lemma_digits_are_no_x(n: int)
    requires
        n >= 0,
    ensures
        !decimal_of(n).contains('x'),
        !decimal_of(n).contains('\n'),
        forall|k: int| 0 <= k < decimal_of(n).len() ==> !crate::text::is_space(
            #[trigger] decimal_of(n)[k],
        ),
{
    decimal_reads_back(n);
    let d = decimal_of(n);
    assert forall|k: int| 0 <= k < d.len() implies d[k] != 'x' && d[k] != '\n'
        && !crate::text::is_space(#[trigger] d[k]) by {
        assert(is_digit(d[k]));
        digits_count_from_zero(d[k]);
    }
}

/// A size that is written as two numbers around an `x` is read back, whatever the
/// numbers.
pub proof fn sizes_read_back(w: u32, h: u32)
    ensures
        size_in(decimal_of(w as int) + seq!['x'] + decimal_of(h as int)) == Some((w, h)),
{
    let a = decimal_of(w as int);
    let b = decimal_of(h as int);
    decimal_reads_back(w as int);
    decimal_reads_back(h as int);
    lemma_digits_are_no_x(w as int);
    texts_are_halved_at_a_character(a, 'x', b);
    assert(a + seq!['x'] + b == a.push('x') + b);
    assert(unsigned_in(a, u32::MAX as int) == Some(w as int));
    assert(unsigned_in(b, u32::MAX as int) == Some(h as int));
}

/// A text without an `x` is no size; on either side of the first one, what is no
/// number of 32 bits counts as zero.
pub proof fn sizes_have_two_sides(a: Seq<char>, b: Seq<char>)
    requires
        !a.contains('x'),
    ensures
        size_in(a) is None,
        match size_in(a + seq!['x'] + b) {
            Some((w, h)) => {
                &&& w == (match unsigned_in(a, 0xffff_ffff) {
                    Some(n) => n,
                    None => 0,
                })
                &&& h == (match unsigned_in(b, 0xffff_ffff) {
                    Some(n) => n,
                    None => 0,
                })
            },
            None => false,
        },
{
    texts_are_halved_at_a_character(a, 'x', b);
    assert(a + seq!['x'] + b == a.push('x') + b);
    not_every_text_is_a_number(a, 0xffff_ffff, 0);
    not_every_text_is_a_number(b, 0xffff_ffff, 0);
}

/// A line that names a mode and calls it current gives its size: after `(current)`
/// for `cosmic-randr`, after `current` for `wlr-randr`, and around any white space.
pub proof fn current_modes_are_read(
    tool: Randr,
    a: Seq<char>,
    w: u32,
    h: u32,
    rest: Seq<char>,
    b: Seq<char>,
)
    requires
        forall|k: int| 0 <= k < a.len() ==> crate::text::is_space(#[trigger] a[k]),
        forall|k: int| 0 <= k < b.len() ==> crate::text::is_space(#[trigger] b[k]),
        rest.len() > 0,
        !crate::text::is_space(rest.last()),
        match tool {
            Randr::Cosmic => has_infix(rest, "(current)"@),
            Randr::Wlr => has_infix(rest, "current"@),
        },
    ensures
        mode_in(
            tool,
            a + (decimal_of(w as int) + seq!['x'] + decimal_of(h as int) + seq![' '] + rest) + b,
        ) == Some((w, h)),
{
    let size = decimal_of(w as int) + seq!['x'] + decimal_of(h as int);
    let t = size + seq![' '] + rest;
    decimal_reads_back(w as int);
    decimal_reads_back(h as int);
    lemma_digits_are_no_x(w as int);
    lemma_digits_are_no_x(h as int);
    assert forall|k: int| 0 <= k < size.len() implies !crate::text::is_space(
        #[trigger] size[k],
    ) by {
        if k < decimal_of(w as int).len() {
            assert(size[k] == decimal_of(w as int)[k]);
        } else if k > decimal_of(w as int).len() {
            assert(size[k] == decimal_of(h as int)[k - decimal_of(w as int).len() - 1]);
        }
    }
    assert(t[0] == size[0]);
    assert(t.last() == rest.last());
    trimming_leaves_the_text(a, t, b);
    sizes_read_back(w, h);
    words_stand_between_white_space(size, ' ', rest);
    assert(t == size.push(' ') + rest);
    assert(words_of(t)[0] == size);
    let word = match tool {
        Randr::Cosmic => "(current)"@,
        Randr::Wlr => "current"@,
    };
    let i = choose|i: int|
        0 <= i <= rest.len() - word.len() && #[trigger] rest.subrange(i, i + word.len()) == word;
    let n = size.len() as int + 1;
    assert(t.subrange(n + i, n + i + word.len()) == rest.subrange(i, i + word.len()));
    crate::text::position_is_first(t, 'x');
    assert(t[decimal_of(w as int).len() as int] == 'x');
    assert(position(t, 'x') < t.len());
}

/// A line that calls no mode current gives no size; nor does one whose first word
/// is none.
pub proof fn other_lines_have_no_mode(tool: Randr, line: Seq<char>)
    ensures
        !has_infix(trimmed(line), "current"@) ==> mode_in(Randr::Wlr, line) is None,
        !has_infix(trimmed(line), "(current)"@) ==> mode_in(Randr::Cosmic, line) is None,
        words_of(trimmed(line)).len() > 0 && !words_of(trimmed(line))[0].contains('x') ==> mode_in(
            tool,
            line,
        ) is None,
        words_of(trimmed(line)).len() == 0 ==> mode_in(tool, line) is None,
{
    if words_of(trimmed(line)).len() > 0 && !words_of(trimmed(line))[0].contains('x') {
        sizes_have_two_sides(words_of(trimmed(line))[0], seq![]);
    }
}

/// A line that begins with `Scale:` gives what follows, without white space around
/// it; `cosmic-randr` puts a percent sign behind it. No other line gives a scale.
pub proof fn scales_are_read(a: Seq<char>, b: Seq<char>, n: Seq<char>, c: Seq<char>)
    requires
        forall|k: int| 0 <= k < a.len() ==> crate::text::is_space(#[trigger] a[k]),
        forall|k: int| 0 <= k < b.len() ==> crate::text::is_space(#[trigger] b[k]),
        forall|k: int| 0 <= k < c.len() ==> crate::text::is_space(#[trigger] c[k]),
        n.len() > 0,
        !crate::text::is_space(n[0]) && !crate::text::is_space(n.last()),
        n.last() != '%',
    ensures
        scale_in(Randr::Wlr, a + ("Scale:"@ + b + n) + c) == Some(n),
        scale_in(Randr::Cosmic, a + ("Scale:"@ + b + n) + c) == Some(n),
        scale_in(Randr::Cosmic, a + ("Scale:"@ + b + n.push('%')) + c) == Some(n),
        scale_in(Randr::Wlr, a + ("Scale:"@ + b + n.push('%')) + c) == Some(n.push('%')),
{
    reveal_strlit("Scale:");
    let p = "Scale:"@;
    let m = n.push('%');
    let e = Seq::<char>::empty();
    assert(!crate::text::is_space('%') && !crate::text::is_space('S'));
    let t = p + b + n;
    let u = p + b + m;
    assert(t[0] == 'S' && u[0] == 'S');
    assert(t.last() == n.last() && u.last() == '%');
    trimming_leaves_the_text(a, t, c);
    trimming_leaves_the_text(a, u, c);
    assert(t == p + (b + n));
    assert(u == p + (b + m));
    prefixes_are_taken_away(p, b + n, t);
    prefixes_are_taken_away(p, b + m, u);
    trimming_leaves_the_text(b, n, e);
    trimming_leaves_the_text(b, m, e);
    assert(b + n + e == b + n);
    assert(b + m + e == b + m);
    trailing_runs_are_taken_away(n, '%', 0);
    trailing_runs_are_taken_away(n, '%', 1);
    assert(n + Seq::new(0, |i: int| '%') == n);
    assert(n + Seq::new(1, |i: int| '%') == m);
}

/// A line that does not begin with `Scale:` gives no scale.
pub proof fn other_lines_have_no_scale(tool: Randr, line: Seq<char>)
    ensures
        scale_in(tool, line) is Some <==> "Scale:"@.is_prefix_of(trimmed(line)),
{
}

/// The last line that names a current mode decides; lines after it that name none
/// do not matter, and without any there is no size.
pub proof fn the_last_mode_counts(tool: Randr, lines: Seq<Seq<char>>, line: Seq<char>)
    ensures
        last_mode(tool, seq![]) == (0u32, 0u32),
        mode_in(tool, line) matches Some(size) ==> last_mode(tool, lines.push(line)) == size,
        mode_in(tool, line) is None ==> last_mode(tool, lines.push(line)) == last_mode(tool, lines),
{
    assert(lines.push(line).drop_last() == lines);
}

/// Every scale of a listing is kept, in the order of the lines.
pub proof fn every_scale_is_kept(
    tool: Randr,
    a: Seq<Seq<char>>,
    b: Seq<Seq<char>>,
    line: Seq<char>,
)
    ensures
        all_scales(tool, a + b) == all_scales(tool, a) + all_scales(tool, b),
        all_scales(tool, seq![line]) == (match scale_in(tool, line) {
            Some(s) => seq![s],
            None => seq![],
        }),
    decreases b.len(),
{
    assert(seq![line].drop_last() == Seq::<Seq<char>>::empty());
    assert(all_scales(tool, seq![line].drop_last()) == Seq::<Seq<char>>::empty());
    if b.len() == 0 {
        assert(a + b == a);
    } else {
        every_scale_is_kept(tool, a, b.drop_last(), line);
        assert((a + b).drop_last() == a + b.drop_last());
    }
    assert(all_scales(tool, a + b) == all_scales(tool, a) + all_scales(tool, b));
}

/// A listing names a screen exactly if its size has no zero in it.
pub proof fn listings_without_a_size_name_no_screen(
    tool: Randr,
    lines: Seq<Seq<char>>,
    r: Option<Listing>,
)
    requires
        listing_of(tool, lines, r),
    ensures
        r is Some <==> last_mode(tool, lines).0 != 0 && last_mode(tool, lines).1 != 0,
        r matches Some(l) ==> (l.width, l.height) == last_mode(tool, lines) && l.scales@.len()
            == all_scales(tool, lines).len() && forall|i: int|
            0 <= i < l.scales@.len() ==> (#[trigger] l.scales@[i])@ == all_scales(tool, lines)[i],
{
    if r is Some {
        let l = r->0;
        assert(texts(l.scales@).len() == l.scales@.len());
        assert forall|i: int| 0 <= i < l.scales@.len() implies (#[trigger] l.scales@[i])@
            == all_scales(tool, lines)[i] by {
            assert(texts(l.scales@)[i] == l.scales@[i]@);
        }
    }
}

/// Of the scales of a listing the last number counts, of those of a display the
/// first; what is no number is passed over, and without a number the scale is one.
pub proof fn numbers_among_scales(scales: Seq<Option<Double>>, s: Double)
    ensures
        last_number(seq![]).bits == 0x3ff0_0000_0000_0000,
        first_number(seq![]).bits == 0x3ff0_0000_0000_0000,
        last_number(scales.push(Some(s))) == s,
        last_number(scales.push(None)) == last_number(scales),
        first_number(seq![Some(s)] + scales) == s,
        first_number(seq![None] + scales) == first_number(scales),
{
    assert(scales.push(Some(s)).drop_last() == scales);
    assert(scales.push(None).drop_last() == scales);
    assert((seq![Some(s)] + scales).skip(1) == scales);
    assert((seq![None] + scales).skip(1) == scales);
}

/// Every resolution among the resources is kept, in the order of the lines: what
/// follows `Xft.dpi:` at the start of a line, without white space around it.
pub proof fn every_resolution_is_kept(
    a: Seq<Seq<char>>,
    b: Seq<Seq<char>>,
    rest: Seq<char>,
    line: Seq<char>,
)
    ensures
        dpi_in(a + b) == dpi_in(a) + dpi_in(b),
        dpi_in(seq!["Xft.dpi:"@ + rest]) == seq![trimmed(rest)],
        !"Xft.dpi:"@.is_prefix_of(line) ==> dpi_in(seq![line]).len() == 0,
    decreases b.len(),
{
    let one = seq!["Xft.dpi:"@ + rest];
    prefixes_are_taken_away("Xft.dpi:"@, rest, line);
    assert(one.drop_last() == Seq::<Seq<char>>::empty());
    assert(dpi_in(one.drop_last()) == Seq::<Seq<char>>::empty());
    assert(seq![line].drop_last() == Seq::<Seq<char>>::empty());
    assert(dpi_in(one) == seq![trimmed(rest)]);
    if b.len() == 0 {
        assert(a + b == a);
    } else {
        every_resolution_is_kept(a, b.drop_last(), rest, line);
        assert((a + b).drop_last() == a + b.drop_last());
    }
    assert(dpi_in(a + b) == dpi_in(a) + dpi_in(b));
}

/// Letters count whatever their case: two characters that count the same are the
/// same, or one is a letter from `A` to `Z` and the other stands 32 places behind.
pub proof fn letters_count_whatever_their_case(c: char, d: char)
    ensures
        lower(c) == lower(d) <==> c == d || ('A' <= c <= 'Z' && d as u32 == c as u32 + 32) || ('A'
            <= d <= 'Z' && c as u32 == d as u32 + 32),
        lower('A') == 'a',
        lower('Z') == 'z',
{
    assert('A' <= c <= 'Z' ==> lower(c) as u32 == c as u32 + 32);
    assert('A' <= d <= 'Z' ==> lower(d) as u32 == d as u32 + 32);
    assert(lower('A') as u32 == 'a' as u32);
    assert(lower('Z') as u32 == 'z' as u32);
}

/// Texts that are the same but for case: as many characters, which count the same
/// one by one.
pub proof fn texts_are_compared_whatever_their_case(a: Seq<char>, b: Seq<char>, c: char, d: char)
    ensures
        same_but_case(a, a),
        same_but_case(a, b) <==> same_but_case(b, a),
        same_but_case(a, b) ==> a.len() == b.len(),
        same_but_case(a.push(c), b.push(d)) <==> same_but_case(a, b) && lower(c) == lower(d),
{
    let x = a.push(c);
    let y = b.push(d);
    if same_but_case(x, y) {
        assert forall|i: int| 0 <= i < a.len() implies lower(#[trigger] a[i]) == lower(b[i]) by {
            assert(lower(x[i]) == lower(y[i]));
        }
        assert(lower(x[a.len() as int]) == lower(y[a.len() as int]));
    }
    if same_but_case(a, b) {
        assert forall|i: int| 0 <= i < b.len() implies lower(#[trigger] b[i]) == lower(a[i]) by {
            assert(lower(a[i]) == lower(b[i]));
        }
    }
    if same_but_case(b, a) {
        assert forall|i: int| 0 <= i < a.len() implies lower(#[trigger] a[i]) == lower(b[i]) by {
            assert(lower(b[i]) == lower(a[i]));
        }
    }
}

/// Outputs with `HDMI` or `DP` anywhere in the name can have a screen, and no
/// others.
pub proof fn outputs_are_told_by_name(a: Seq<char>, b: Seq<char>, name: Seq<char>)
    ensures
        names_output(a + "HDMI"@ + b),
        names_output(a + "DP"@ + b),
        names_output(a + "eDP"@ + b),
        names_output(name) ==> has_infix(name, "HDMI"@) || has_infix(name, "DP"@),
{
    runs_occur_in_texts(a, "HDMI"@, b, name);
    runs_occur_in_texts(a, "DP"@, b, name);
    runs_occur_in_texts(a, "eDP"@, b, name);
    reveal_strlit("eDP");
    reveal_strlit("DP");
    if has_infix(name, "eDP"@) {
        let i = choose|i: int|
            0 <= i <= name.len() - "eDP"@.len() && #[trigger] name.subrange(
                i,
                i + "eDP"@.len(),
            ) == "eDP"@;
        let t = name.subrange(i, i + 3);
        assert(t[1] == 'D' && t[2] == 'P');
        assert(name.subrange(i + 1, i + 1 + "DP"@.len()) == "DP"@);
    }
}

/// A connected output has the screen of its first mode, unscaled; the other modes
/// do not matter.
pub proof fn connected_outputs_have_a_screen(o: DrmOutput, w: u32, h: u32, rest: Seq<char>)
    requires
        names_output(o.name@),
        same_but_case(trimmed(o.status@), "connected"@),
        o.modes@ == decimal_of(w as int) + seq!['x'] + decimal_of(h as int) + seq!['\n'] + rest,
    ensures
        match output_screen(o) {
            Some(s) => w > 0 && h > 0 && s.width == w && s.height == h && s.scale_factor.bits
                == 0x3ff0_0000_0000_0000,
            None => w == 0 || h == 0,
        },
{
    let size = decimal_of(w as int) + seq!['x'] + decimal_of(h as int);
    sizes_read_back(w, h);
    lemma_digits_are_no_x(w as int);
    lemma_digits_are_no_x(h as int);
    decimal_reads_back(h as int);
    assert(!size.contains('\n')) by {
        if size.contains('\n') {
            let k = choose|k: int| 0 <= k < size.len() && size[k] == '\n';
            if k < decimal_of(w as int).len() {
                assert(decimal_of(w as int)[k] == '\n');
            } else if k > decimal_of(w as int).len() {
                assert(decimal_of(h as int)[k - decimal_of(w as int).len() - 1] == '\n');
            }
        }
    }
    let last = decimal_of(h as int).last();
    assert(size.last() == last);
    assert(!crate::text::is_space(decimal_of(h as int)[decimal_of(h as int).len() - 1]));
    assert(crate::text::is_space('\r'));
    crate::text::one_line_is_a_line(size);
    crate::text::lines_split_at_a_break(size, rest);
    assert(o.modes@ == size.push('\n') + rest);
    assert(lines_of(o.modes@)[0] == size);
}

/// An output has no screen if its name is none of an output, if nothing is
/// connected, or if it has no modes.
pub proof fn other_outputs_have_no_screen(o: DrmOutput)
    ensures
        !names_output(o.name@) ==> output_screen(o) is None,
        !same_but_case(trimmed(o.status@), "connected"@) ==> output_screen(o) is None,
        o.modes@.len() == 0 ==> output_screen(o) is None,
        output_screen(o) matches Some(s) ==> s.width > 0 && s.height > 0,
{
}

/// The first output with a screen decides.
pub proof fn the_first_screen_counts(a: Seq<DrmOutput>, b: Seq<DrmOutput>, o: DrmOutput)
    ensures
        first_screen(seq![]) is None,
        first_screen(seq![o]) == output_screen(o),
        first_screen(a + b) == (if first_screen(a) is Some {
            first_screen(a)
        } else {
            first_screen(b)
        }),
    decreases a.len(),
{
    assert(seq![o].skip(1) == Seq::<DrmOutput>::empty());
    assert(first_screen(seq![o].skip(1)) is None);
    if a.len() == 0 {
        assert(a + b == b);
    } else {
        the_first_screen_counts(a.skip(1), b, o);
        assert((a + b).skip(1) == a.skip(1) + b);
    }
}

/// A screen is made of the size and scale that are given.
pub proof fn screens_are_as_given(width: u32, height: u32, scale: Double)
    ensures
        screen_of(width, height, scale).width == width,
        screen_of(width, height, scale).height == height,
        screen_of(width, height, scale).scale_factor == scale,
        screen_of(width, height, scale).position.edge is Right,
        screen_of(width, height, scale).position.monitor_id == 0,
        assumed_screen().width == 1920,
        assumed_screen().height == 1080,
        assumed_screen().scale_factor.bits == 0x3ff0_0000_0000_0000,
{
}

/// The scale that the user gave replaces the one that was found. The size changes
/// only where that was one and the new one is larger, and the place never does.
pub proof fn the_given_scale_counts(screen: ScreenInfo, s: Double, logical: (u32, u32))
    ensures
        with_scale(screen, None, logical) == screen,
        with_scale(screen, Some(s), logical).scale_factor == s,
        with_scale(screen, Some(s), logical).position == screen.position,
        s.bits > 0x3ff0_0000_0000_0000 && s.bits <= 0x7ff0_0000_0000_0000
            && screen.scale_factor.bits == 0x3ff0_0000_0000_0000 ==> (
        with_scale(screen, Some(s), logical).width,
        with_scale(screen, Some(s), logical).height,
        ) == logical,
        s.bits <= 0x3ff0_0000_0000_0000 || s.bits > 0x7ff0_0000_0000_0000
            || screen.scale_factor.bits != 0x3ff0_0000_0000_0000 ==> (
        with_scale(screen, Some(s), logical).width,
        with_scale(screen, Some(s), logical).height,
        ) == (screen.width, screen.height),
{
}

/// A listing with a size and the scales of the lines is what the lines say, and so
/// is none where there is no size.
pub proof fn listings_are_what_the_lines_say(
    tool: Randr,
    lines: Seq<Seq<char>>,
    l: Listing,
)
    requires
        (l.width, l.height) == last_mode(tool, lines),
        texts(l.scales@) == all_scales(tool, lines),
    ensures
        listing_of(tool, lines, Some(l)) <==> l.width != 0 && l.height != 0,
        listing_of(tool, lines, None) <==> l.width == 0 || l.height == 0,
{
}

} // verus!
