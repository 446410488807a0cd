//! Text as sequences of characters.
//!
//! The listings and files that KMFlow reads are taken apart here: lines, words,
//! prefixes, decimal numbers. Every function is stated over `Seq<char>`, the
//! view of a string.
use vstd::prelude::*;
use vstd::slice::slice_subrange;
use vstd::string::*;
use vstd::utf8::{decode_utf8, encode_utf8, valid_utf8};

verus! {

/// `String::push` appends the given character to the end of the string.
pub assume_specification[ String::push ](s: &mut String, c: char)
    ensures
        final(s)@ == old(s)@.push(c),
;

/// The characters of a string, one by one.
pub fn to_chars(s: &str) -> (r: Vec<char>)
    ensures
        r@ == s@,
{
    let mut r: Vec<char> = Vec::new();
    for c in it: s.chars()
        invariant
            it.seq() == s@,
            r@ == it.seq().take(it.index()),
    {
        r.push(c);
    }
    r
}

/// The string made of the given characters.
pub fn from_chars(chars: &[char]) -> (r: String)
    ensures
        r@ == chars@,
{
    let mut r = String::new();
    append_chars(&mut r, chars);
    r
}

/// Appends the given characters to a string.
pub fn append_chars(out: &mut String, chars: &[char])
    ensures
        final(out)@ == old(out)@ + chars@,
{
    let n = chars.len();
    let mut i: usize = 0;
    while i < n
        invariant
            i <= n,
            n == chars@.len(),
            out@ == old(out)@ + chars@.take(i as int),
        decreases n - i,
    {
        out.push(chars[i]);
        i += 1;
    }
}

/// Whether two runs of characters are the same.
pub fn same_chars(a: &[char], b: &[char]) -> (r: bool)
    ensures
        r == (a@ == b@),
{
    if a.len() != b.len() {
        return false;
    }
    let n = a.len();
    let mut i: usize = 0;
    while i < n
        invariant
            i <= n,
            n == a@.len(),
            n == b@.len(),
            a@.take(i as int) == b@.take(i as int),
        decreases n - i,
    {
        if a[i] != b[i] {
            assert(a@[i as int] != b@[i as int]);
            return false;
        }
        assert(a@.take(i + 1) == a@.take(i as int).push(a@[i as int]));
        assert(b@.take(i + 1) == b@.take(i as int).push(b@[i as int]));
        i += 1;
    }
    assert(a@.take(n as int) == a@);
    assert(b@.take(n as int) == b@);
    true
}

/// Whether a run of characters spells the given string.
pub fn same_text(a: &[char], b: &str) -> (r: bool)
    ensures
        r == (a@ == b@),
{
    let bc = to_chars(b);
    same_chars(a, bc.as_slice())
}

/// Whether a run of characters begins with the given string.
pub fn starts_with(s: &[char], p: &str) -> (r: bool)
    ensures
        r == p@.is_prefix_of(s@),
{
    let pc = to_chars(p);
    if pc.len() > s.len() {
        return false;
    }
    same_chars(slice_subrange(s, 0, pc.len()), pc.as_slice())
}

/// Whether `p` occurs in `s` as a run of consecutive characters.
pub open spec fn has_infix(s: Seq<char>, p: Seq<char>) -> bool {
    exists|i: int| 0 <= i <= s.len() - p.len() && #[trigger] s.subrange(i, i + p.len()) == p
}

/// Whether a run of characters contains the given string.
pub fn contains(s: &[char], p: &str) -> (r: bool)
    ensures
        r == has_infix(s@, p@),
{
    let pc = to_chars(p);
    if pc.len() > s.len() {
        return false;
    }
    let n = s.len();
    let m = pc.len();
    let mut i: usize = 0;
    while i < n - m
        invariant
            i <= n - m,
            m <= n,
            n == s@.len(),
            m == pc@.len(),
            pc@ == p@,
            forall|j: int| 0 <= j < i ==> #[trigger] s@.subrange(j, j + p@.len()) != p@,
        decreases n - m - i,
    {
        if same_chars(slice_subrange(s, i, i + m), pc.as_slice()) {
            assert(s@.subrange(i as int, i + p@.len()) == p@);
            return true;
        }
        i += 1;
    }
    let r = same_chars(slice_subrange(s, i, n), pc.as_slice());
    assert(r == (s@.subrange(i as int, i + p@.len()) == p@));
    r
}

/// The position of the first `c` in `s`, or the length of `s` if there is none.
pub open spec fn position(s: Seq<char>, c: char) -> int
    decreases s.len(),
{
    if s.len() == 0 || s[0] == c {
        0
    } else {
        1 + position(s.drop_first(), c)
    }
}

/// What the position of a character means: no earlier place holds it, and the
/// place itself does unless it is the end.
pub proof fn position_is_first(s: Seq<char>, c: char)
    ensures
        0 <= position(s, c) <= s.len(),
        forall|j: int| 0 <= j < position(s, c) ==> s[j] != c,
        position(s, c) < s.len() ==> s[position(s, c)] == c,
    decreases s.len(),
{
    if s.len() == 0 || s[0] == c {
    } else {
        let t = s.drop_first();
        position_is_first(t, c);
        assert forall|j: int| 0 <= j < position(s, c) implies s[j] != c by {
            if j > 0 {
                assert(t[j - 1] == s[j]);
            }
        }
        if position(s, c) < s.len() {
            assert(t[position(t, c)] == s[position(s, c)]);
        }
    }
}

/// A place that no earlier `c` precedes, and that holds `c` or is the end, is
/// the position of `c`.
proof fn lemma_position_unique(s: Seq<char>, c: char, i: int)
    requires
        0 <= i <= s.len(),
        forall|j: int| 0 <= j < i ==> s[j] != c,
        i < s.len() ==> s[i] == c,
    ensures
        position(s, c) == i,
{
    position_is_first(s, c);
    let p = position(s, c);
    if p < i {
        assert(s[p] == c);
    } else if i < p {
        assert(s[i] == c);
    }
}

/// Finds the first occurrence of a character; the length if there is none.
pub fn find_char(s: &[char], c: char) -> (r: usize)
    ensures
        r == position(s@, c),
        r <= s@.len(),
        forall|j: int| 0 <= j < r ==> s@[j] != c,
        r < s@.len() ==> s@[r as int] == c,
{
    let n = s.len();
    let mut i: usize = 0;
    while i < n
        invariant
            i <= n,
            n == s@.len(),
            forall|j: int| 0 <= j < i ==> s@[j] != c,
        decreases n - i,
    {
        if s[i] == c {
            proof {
                lemma_position_unique(s@, c, i as int);
            }
            return i;
        }
        i += 1;
    }
    proof {
        lemma_position_unique(s@, c, i as int);
    }
    i
}

/// The characters with the Unicode property `White_Space`.
pub open spec fn is_space(c: char) -> bool {
    let u = c as u32;
    ||| 0x09 <= u <= 0x0d
    ||| u == 0x20
    ||| u == 0x85
    ||| u == 0xa0
    ||| u == 0x1680
    ||| 0x2000 <= u <= 0x200a
    ||| u == 0x2028
    ||| u == 0x2029
    ||| u == 0x202f
    ||| u == 0x205f
    ||| u == 0x3000
}

/// Whether a character has the Unicode property `White_Space`.
pub fn is_whitespace(c: char) -> (r: bool)
    ensures
        r == is_space(c),
{
    let u = c as u32;
    (0x09 <= u && u <= 0x0d) || u == 0x20 || u == 0x85 || u == 0xa0 || u == 0x1680 || (0x2000 <= u
        && u <= 0x200a) || u == 0x2028 || u == 0x2029 || u == 0x202f || u == 0x205f || u == 0x3000
}

/// `s` without the white space at its start.
pub open spec fn trimmed_start(s: Seq<char>) -> Seq<char>
    decreases s.len(),
{
    if s.len() > 0 && is_space(s[0]) {
        trimmed_start(s.drop_first())
    } else {
        s
    }
}

/// `s` without the white space at its end.
pub open spec fn trimmed_end(s: Seq<char>) -> Seq<char>
    decreases s.len(),
{
    if s.len() > 0 && is_space(s.last()) {
        trimmed_end(s.drop_last())
    } else {
        s
    }
}

/// `s` without the white space at either end.
pub open spec fn trimmed(s: Seq<char>) -> Seq<char> {
    trimmed_end(trimmed_start(s))
}

/// Removes the white space at both ends.
pub fn trim<'a>(s: &'a [char]) -> (r: &'a [char])
    ensures
        r@ == trimmed(s@),
{
    let mut i: usize = 0;
    assert(s@.skip(0) == s@);
    while i < s.len() && is_whitespace(s[i])
        invariant
            i <= s@.len(),
            trimmed_start(s@) == trimmed_start(s@.skip(i as int)),
        decreases s@.len() - i,
    {
        assert(s@.skip(i as int).drop_first() == s@.skip(i + 1));
        i += 1;
    }
    let t = slice_subrange(s, i, s.len());
    assert(t@ == s@.skip(i as int));
    assert(trimmed_start(s@) == t@);
    let mut j: usize = t.len();
    assert(t@.take(j as int) == t@);
    while j > 0 && is_whitespace(t[j - 1])
        invariant
            j <= t@.len(),
            trimmed_end(t@) == trimmed_end(t@.take(j as int)),
        decreases j,
    {
        assert(t@.take(j as int).drop_last() == t@.take(j - 1));
        j -= 1;
    }
    let r = slice_subrange(t, 0, j);
    assert(r@ == t@.take(j as int));
    r
}

/// `s` without the run of `c` at its end.
pub open spec fn without_trailing(s: Seq<char>, c: char) -> Seq<char>
    decreases s.len(),
{
    if s.len() > 0 && s.last() == c {
        without_trailing(s.drop_last(), c)
    } else {
        s
    }
}

/// Removes every `c` at the end.
pub fn trim_end_char<'a>(s: &'a [char], c: char) -> (r: &'a [char])
    ensures
        r@ == without_trailing(s@, c),
{
    let mut j: usize = s.len();
    assert(s@.take(j as int) == s@);
    while j > 0 && s[j - 1] == c
        invariant
            j <= s@.len(),
            without_trailing(s@, c) == without_trailing(s@.take(j as int), c),
        decreases j,
    {
        assert(s@.take(j as int).drop_last() == s@.take(j - 1));
        j -= 1;
    }
    let r = slice_subrange(s, 0, j);
    assert(r@ == s@.take(j as int));
    r
}

/// `s` without a carriage return at its end.
pub open spec fn without_cr(s: Seq<char>) -> Seq<char> {
    if s.len() > 0 && s.last() == '\r' {
        s.drop_last()
    } else {
        s
    }
}

/// The lines of `s`: each ends at `"\n"` or `"\r\n"`, and the last one may
/// also end at the end of `s`.
pub open spec fn lines_of(s: Seq<char>) -> Seq<Seq<char>>
    decreases s.len(),
{
    if s.len() == 0 {
        seq![]
    } else {
        let n = position(s, '\n');
        if 0 <= n < s.len() {
            seq![without_cr(s.take(n))] + lines_of(s.skip(n + 1))
        } else {
            seq![s]
        }
    }
}

/// The runs of characters that a list of slices stands for.
pub open spec fn views(v: Seq<&[char]>) -> Seq<Seq<char>> {
    v.map_values(|x: &[char]| x@)
}

/// The lines of a text.
pub fn lines<'a>(s: &'a [char]) -> (r: Vec<&'a [char]>)
    ensures
        views(r@) == lines_of(s@),
{
    let mut r: Vec<&'a [char]> = Vec::new();
    let n = s.len();
    let mut i: usize = 0;
    assert(s@.skip(0) == s@);
    assert(views(r@) + lines_of(s@) == lines_of(s@));
    while i < n
        invariant
            i <= n,
            n == s@.len(),
            views(r@) + lines_of(s@.skip(i as int)) == lines_of(s@),
        decreases n - i,
    {
        let ghost before = r@;
        let rest = slice_subrange(s, i, n);
        assert(rest@ == s@.skip(i as int));
        let k = find_char(rest, '\n');
        if k == rest.len() {
            r.push(rest);
            assert(views(r@) == views(before).push(rest@));
            assert(lines_of(rest@) == seq![rest@]);
            assert(s@.skip(n as int).len() == 0);
            assert(lines_of(s@.skip(n as int)) == Seq::<Seq<char>>::empty());
            assert(views(r@) + lines_of(s@.skip(n as int)) == views(before) + seq![rest@]);
            i = n;
        } else {
            let line = slice_subrange(rest, 0, k);
            assert(line@ == rest@.take(k as int));
            let line = if k > 0 && line[k - 1] == '\r' {
                slice_subrange(line, 0, k - 1)
            } else {
                line
            };
            assert(line@ == without_cr(rest@.take(k as int)));
            r.push(line);
            assert(views(r@) == views(before).push(line@));
            assert(rest@.skip(k + 1) == s@.skip(i + k + 1));
            assert(lines_of(rest@) == seq![line@] + lines_of(s@.skip(i + k + 1)));
            assert(views(r@) + lines_of(s@.skip(i + k + 1)) == views(before) + (seq![line@]
                + lines_of(s@.skip(i + k + 1))));
            i = i + k + 1;
        }
    }
    assert(s@.skip(n as int).len() == 0);
    assert(views(r@) + lines_of(s@.skip(n as int)) == views(r@));
    r
}

/// The lines of a text are those up to a line break and those after it.
pub proof fn lines_split_at_a_break(a: Seq<char>, b: Seq<char>)
    ensures
        lines_of(a.push('\n') + b) == lines_of(a.push('\n')) + lines_of(b),
    decreases a.len(),
{
    let head = a.push('\n');
    let s = head + b;
    let n = position(a, '\n');
    position_is_first(a, '\n');
    lemma_position_unique(head, '\n', n);
    lemma_position_unique(s, '\n', n);
    assert(s.take(n) == head.take(n));
    if n == a.len() {
        assert(s.skip(n + 1) == b);
        assert(head.skip(n + 1) == Seq::<char>::empty());
        assert(lines_of(head.skip(n + 1)) == Seq::<Seq<char>>::empty());
    } else {
        let rest = a.skip(n + 1);
        lines_split_at_a_break(rest, b);
        assert(s.skip(n + 1) == rest.push('\n') + b);
        assert(head.skip(n + 1) == rest.push('\n'));
    }
    assert(lines_of(s) == lines_of(head) + lines_of(b));
}

/// A text without a line break in it, followed by one, is a line.
pub proof fn one_line_is_a_line(s: Seq<char>)
    requires
        !s.contains('\n'),
        s.len() > 0 ==> s.last() != '\r',
    ensures
        lines_of(s.push('\n')) == seq![s],
{
    let t = s.push('\n');
    assert forall|j: int| 0 <= j < s.len() implies t[j] != '\n' by {
        assert(s.contains(s[j]));
    }
    lemma_position_unique(t, '\n', s.len() as int);
    assert(t.take(s.len() as int) == s);
    assert(t.skip(s.len() as int + 1) == Seq::<char>::empty());
    assert(lines_of(t.skip(s.len() as int + 1)) == Seq::<Seq<char>>::empty());
}

/// What is put behind a text without a line break before it lengthens the last
/// line or begins a new one; the lines before that stay.
pub proof fn last_line_is_lengthened(a: Seq<char>, t: Seq<char>)
    requires
        t.len() > 0,
        !t.contains('\n'),
        t.last() != '\r',
    ensures
        ({
            let all = lines_of((a + t).push('\n'));
            &&& 1 <= all.len() <= lines_of(a).len() + 1
            &&& all.drop_last() == lines_of(a).take(all.len() - 1)
            &&& all.last().len() > 0
            &&& all.last().last() == t.last()
        }),
    decreases a.len(),
{
    let s = (a + t).push('\n');
    let n = position(a, '\n');
    position_is_first(a, '\n');
    if n == a.len() {
        assert(!(a + t).contains('\n')) by {
            assert forall|j: int| 0 <= j < (a + t).len() implies (a + t)[j] != '\n' by {
                if j >= a.len() {
                    assert(t.contains(t[j - a.len()]));
                }
            }
        }
        one_line_is_a_line(a + t);
        assert(lines_of(s).drop_last() == lines_of(a).take(0));
    } else {
        let rest = a.skip(n + 1);
        last_line_is_lengthened(rest, t);
        lemma_position_unique(s, '\n', n);
        assert(s.take(n) == a.take(n));
        assert(s.skip(n + 1) == (rest + t).push('\n'));
        let all = lines_of(s);
        let tail = lines_of((rest + t).push('\n'));
        assert(all == seq![without_cr(a.take(n))] + tail);
        assert(all.drop_last() == seq![without_cr(a.take(n))] + tail.drop_last());
        assert(all.drop_last() == lines_of(a).take(all.len() - 1));
    }
}

/// The parts of `s` between the characters `c`; one more than there are of `c`.
pub open spec fn parts_of(s: Seq<char>, c: char) -> Seq<Seq<char>>
    decreases s.len(),
{
    let n = position(s, c);
    if 0 <= n < s.len() {
        seq![s.take(n)] + parts_of(s.skip(n + 1), c)
    } else {
        seq![s]
    }
}

/// The parts of a text between the given characters.
pub fn split<'a>(s: &'a [char], c: char) -> (r: Vec<&'a [char]>)
    ensures
        views(r@) == parts_of(s@, c),
{
    let mut r: Vec<&'a [char]> = Vec::new();
    let n = s.len();
    let mut i: usize = 0;
    assert(s@.skip(0) == s@);
    assert(views(r@) + parts_of(s@, c) == parts_of(s@, c));
    loop
        invariant
            i <= n,
            n == s@.len(),
            views(r@) + parts_of(s@.skip(i as int), c) == parts_of(s@, c),
        decreases n - i,
    {
        let ghost before = r@;
        let rest = slice_subrange(s, i, n);
        assert(rest@ == s@.skip(i as int));
        let k = find_char(rest, c);
        if k == rest.len() {
            r.push(rest);
            assert(views(r@) == views(before).push(rest@));
            assert(views(r@) == views(before) + parts_of(rest@, c));
            return r;
        }
        let part = slice_subrange(rest, 0, k);
        assert(part@ == rest@.take(k as int));
        r.push(part);
        assert(views(r@) == views(before).push(part@));
        assert(rest@.skip(k + 1) == s@.skip(i + k + 1));
        assert(views(r@) + parts_of(s@.skip(i + k + 1), c) == views(before) + (seq![part@]
            + parts_of(s@.skip(i + k + 1), c)));
        i = i + k + 1;
    }
}

/// What precedes the first `c` in `s`; all of it if there is none.
pub open spec fn before_char(s: Seq<char>, c: char) -> Seq<char> {
    s.take(position(s, c))
}

/// What precedes the first `c`; all of it if there is none.
pub fn up_to_char<'a>(s: &'a [char], c: char) -> (r: &'a [char])
    ensures
        r@ == before_char(s@, c),
{
    let k = find_char(s, c);
    let r = slice_subrange(s, 0, k);
    assert(r@ == s@.take(k as int));
    r
}

/// What `s` holds on either side of its first `c`.
pub open spec fn halves(s: Seq<char>, c: char) -> Option<(Seq<char>, Seq<char>)> {
    let n = position(s, c);
    if 0 <= n < s.len() {
        Some((s.take(n), s.skip(n + 1)))
    } else {
        None
    }
}

/// Splits at the first `c`, if there is one.
pub fn split_once<'a>(s: &'a [char], c: char) -> (r: Option<(&'a [char], &'a [char])>)
    ensures
        r is Some <==> halves(s@, c) is Some,
        r matches Some((a, b)) ==> halves(s@, c) == Some((a@, b@)),
{
    let k = find_char(s, c);
    if k == s.len() {
        return None;
    }
    let a = slice_subrange(s, 0, k);
    let b = slice_subrange(s, k + 1, s.len());
    assert(a@ == s@.take(k as int));
    assert(b@ == s@.skip(k + 1));
    Some((a, b))
}

/// What follows the prefix `p` of `s`.
pub open spec fn after_prefix(s: Seq<char>, p: Seq<char>) -> Option<Seq<char>> {
    if p.is_prefix_of(s) {
        Some(s.skip(p.len() as int))
    } else {
        None
    }
}

/// What follows a prefix, if the text begins with it.
pub fn strip_prefix<'a>(s: &'a [char], p: &str) -> (r: Option<&'a [char]>)
    ensures
        r is Some <==> after_prefix(s@, p@) is Some,
        r matches Some(t) ==> after_prefix(s@, p@) == Some(t@),
{
    if starts_with(s, p) {
        let n = to_chars(p).len();
        let t = slice_subrange(s, n, s.len());
        assert(t@ == s@.skip(n as int));
        Some(t)
    } else {
        None
    }
}

/// The number of characters at the start of `s` before any white space.
pub open spec fn word_len(s: Seq<char>) -> int
    decreases s.len(),
{
    if s.len() == 0 || is_space(s[0]) {
        0
    } else {
        1 + word_len(s.drop_first())
    }
}

proof fn lemma_word_len(s: Seq<char>)
    ensures
        0 <= word_len(s) <= s.len(),
    decreases s.len(),
{
    if s.len() == 0 || is_space(s[0]) {
    } else {
        lemma_word_len(s.drop_first());
    }
}

/// The words of `s`: its maximal runs of characters other than white space.
pub open spec fn words_of(s: Seq<char>) -> Seq<Seq<char>>
    decreases s.len(),
{
    if s.len() == 0 {
        seq![]
    } else if is_space(s[0]) {
        words_of(s.drop_first())
    } else {
        let n = word_len(s);
        if 0 < n <= s.len() {
            seq![s.take(n)] + words_of(s.skip(n))
        } else {
            seq![s]
        }
    }
}

/// The words of a text.
pub fn words<'a>(s: &'a [char]) -> (r: Vec<&'a [char]>)
    ensures
        views(r@) == words_of(s@),
{
    let mut r: Vec<&'a [char]> = Vec::new();
    let n = s.len();
    let mut i: usize = 0;
    assert(s@.skip(0) == s@);
    assert(views(r@) + words_of(s@) == words_of(s@));
    while i < n
        invariant
            i <= n,
            n == s@.len(),
            views(r@) + words_of(s@.skip(i as int)) == words_of(s@),
        decreases n - i,
    {
        let ghost rest = s@.skip(i as int);
        if is_whitespace(s[i]) {
            assert(rest.drop_first() == s@.skip(i + 1));
            i += 1;
        } else {
            let ghost before = r@;
            let mut j: usize = i;
            while j < n && !is_whitespace(s[j])
                invariant
                    i <= j <= n,
                    n == s@.len(),
                    rest == s@.skip(i as int),
                    word_len(rest) == (j - i) + word_len(s@.skip(j as int)),
                decreases n - j,
            {
                assert(s@.skip(j as int).drop_first() == s@.skip(j + 1));
                j += 1;
            }
            assert(word_len(s@.skip(j as int)) == 0);
            assert(word_len(rest) == 1 + word_len(rest.drop_first()));
            proof {
                lemma_word_len(rest.drop_first());
            }
            let w = slice_subrange(s, i, j);
            assert(w@ == rest.take(j - i));
            assert(rest.skip(j - i) == s@.skip(j as int));
            r.push(w);
            assert(views(r@) == views(before).push(w@));
            assert(words_of(rest) == seq![w@] + words_of(s@.skip(j as int)));
            assert(views(r@) + words_of(s@.skip(j as int)) == views(before) + (seq![w@] + words_of(
                s@.skip(j as int),
            )));
            i = j;
        }
    }
    assert(s@.skip(n as int).len() == 0);
    assert(views(r@) + words_of(s@.skip(n as int)) == views(r@));
    r
}

/// The value of a character as a decimal digit.
pub open spec fn digit_value(c: char) -> int {
    c as u32 - 48
}

/// Whether a character is one of `0` to `9`.
pub open spec fn is_digit(c: char) -> bool {
    0 <= digit_value(c) <= 9
}

/// The number that a run of decimal digits stands for.
pub open spec fn decimal_value(s: Seq<char>) -> int
    decreases s.len(),
{
    if s.len() == 0 {
        0
    } else {
        decimal_value(s.drop_last()) * 10 + digit_value(s.last())
    }
}

/// The digits of a number literal: what follows an optional `+`.
pub open spec fn digits_part(s: Seq<char>) -> Seq<char> {
    if s.len() > 0 && s[0] == '+' {
        s.drop_first()
    } else {
        s
    }
}

/// The number that `s` spells, if it is an optional `+` and one or more decimal
/// digits, and no larger than `max`.
pub open spec fn unsigned_in(s: Seq<char>, max: int) -> Option<int> {
    let d = digits_part(s);
    if d.len() > 0 && (forall|i: int| 0 <= i < d.len() ==> is_digit(d[i])) && decimal_value(d)
        <= max {
        Some(decimal_value(d))
    } else {
        None
    }
}

/// A run of digits is never worth less than the run without its last digits.
proof fn lemma_decimal_value_grows(s: Seq<char>, k: int)
    requires
        0 <= k <= s.len(),
        forall|i: int| 0 <= i < s.len() ==> is_digit(s[i]),
    ensures
        0 <= decimal_value(s.take(k)) <= decimal_value(s),
    decreases s.len(),
{
    if k == s.len() {
        assert(s.take(k) == s);
        if s.len() > 0 {
            lemma_decimal_value_grows(s.drop_last(), s.len() - 1);
            assert(is_digit(s.last()));
        }
    } else {
        lemma_decimal_value_grows(s.drop_last(), k);
        assert(s.drop_last().take(k) == s.take(k));
        assert(is_digit(s.last()));
    }
}

/// Reads a decimal number no larger than `max`, as `u32::from_str` and its
/// narrower kin do: an optional `+`, then digits only.
pub fn parse_unsigned(s: &[char], max: u32) -> (r: Option<u32>)
    ensures
        r is Some <==> unsigned_in(s@, max as int) is Some,
        r matches Some(v) ==> unsigned_in(s@, max as int) == Some(v as int),
{
    let d = if s.len() > 0 && s[0] == '+' {
        slice_subrange(s, 1, s.len())
    } else {
        s
    };
    assert(d@ == digits_part(s@));
    let n = d.len();
    if n == 0 {
        return None;
    }
    let mut v: u64 = 0;
    let mut i: usize = 0;
    while i < n
        invariant
            i <= n,
            n == d@.len(),
            d@ == digits_part(s@),
            v <= max,
            v == decimal_value(d@.take(i as int)),
            forall|j: int| 0 <= j < i ==> is_digit(d@[j]),
        decreases n - i,
    {
        let c = d[i];
        let u = c as u32;
        if u < 48 || u > 57 {
            assert(!is_digit(d@[i as int]));
            return None;
        }
        let ghost next = d@.take(i + 1);
        assert(next.drop_last() == d@.take(i as int));
        assert(next.last() == d@[i as int]);
        let w: u64 = v * 10 + (u - 48) as u64;
        assert(digit_value(c) == u - 48);
        assert(w == decimal_value(next));
        if w > max as u64 {
            proof {
                if forall|j: int| 0 <= j < d@.len() ==> is_digit(d@[j]) {
                    lemma_decimal_value_grows(d@, i + 1);
                }
            }
            return None;
        }
        v = w;
        i += 1;
    }
    assert(d@.take(n as int) == d@);
    Some(v as u32)
}


/// The decimal digit for a number below ten.
pub open spec fn digit_char(d: int) -> char {
    (48 + d) as char
}

/// A number in decimal notation, without leading zeros.
pub open spec fn decimal_of(n: int) -> Seq<char>
    decreases n,
{
    if n < 10 {
        seq![digit_char(n)]
    } else {
        decimal_of(n / 10).push(digit_char(n % 10))
    }
}

/// Appends a number in decimal notation.
pub fn append_decimal(out: &mut String, n: u64)
    ensures
        final(out)@ == old(out)@ + decimal_of(n as int),
    decreases n,
{
    if n >= 10 {
        append_decimal(out, n / 10);
    }
    let c = (48 + (n % 10) as u8) as char;
    out.push(c);
    assert(decimal_of(n as int).last() == c);
    assert(out@ == old(out)@ + decimal_of(n as int));
}

/// Reading back a number in decimal notation gives the number.
pub proof fn decimal_reads_back(n: int)
    requires
        0 <= n,
    ensures
        decimal_value(decimal_of(n)) == n,
        decimal_of(n).len() > 0,
        forall|i: int| 0 <= i < decimal_of(n).len() ==> is_digit(#[trigger] decimal_of(n)[i]),
        forall|max: int| n <= max ==> #[trigger] unsigned_in(decimal_of(n), max) == Some(n),
    decreases n,
{
    let s = decimal_of(n);
    if n < 10 {
        assert(s.drop_last() == Seq::<char>::empty());
        assert(decimal_value(s.drop_last()) == 0);
    } else {
        decimal_reads_back(n / 10);
        assert(s.drop_last() == decimal_of(n / 10));
        assert forall|i: int| 0 <= i < s.len() implies is_digit(#[trigger] s[i]) by {
            if i < s.len() - 1 {
                assert(s[i] == decimal_of(n / 10)[i]);
            }
        }
    }
    assert(is_digit(s[0]));
    assert(digits_part(s) == s);
}

/// A hexadecimal digit in lower case.
pub open spec fn hex_char(d: int) -> char {
    if d < 10 {
        (48 + d) as char
    } else {
        (87 + d) as char
    }
}

/// Appends a byte as two hexadecimal digits in lower case.
pub fn append_hex(out: &mut String, b: u8)
    ensures
        final(out)@ == old(out)@.push(hex_char(b as int / 16)).push(hex_char(b as int % 16)),
{
    let hi = b / 16;
    let lo = b % 16;
    out.push(if hi < 10 { (48 + hi) as char } else { (87 + hi) as char });
    out.push(if lo < 10 { (48 + lo) as char } else { (87 + lo) as char });
}

/// The file name `name` in the directory `dir`, as paths are joined on Unix: an
/// absolute `name` stands alone, and one separator is put between the two.
pub open spec fn joined_path(dir: Seq<char>, name: Seq<char>) -> Seq<char> {
    if name.len() > 0 && name[0] == '/' {
        name
    } else if dir.len() > 0 && dir.last() != '/' {
        dir.push('/') + name
    } else {
        dir + name
    }
}

/// Joins a directory and a file name into a path.
pub fn join_path(dir: &str, name: &str) -> (r: String)
    ensures
        r@ == joined_path(dir@, name@),
{
    let d = to_chars(dir);
    let n = to_chars(name);
    if n.len() > 0 && n[0] == '/' {
        return from_chars(n.as_slice());
    }
    let mut r = from_chars(d.as_slice());
    if d.len() > 0 && d[d.len() - 1] != '/' {
        r.push('/');
    }
    append_chars(&mut r, n.as_slice());
    r
}

/// What `String::from_utf8_lossy` makes of bytes that are not UTF-8.
pub uninterp spec fn utf8_repaired(bytes: Seq<u8>) -> Seq<char>;

/// The text in a run of bytes: decoded where the bytes are UTF-8, otherwise
/// repaired with replacement characters.
pub open spec fn utf8_text(bytes: Seq<u8>) -> Seq<char> {
    if valid_utf8(bytes) {
        decode_utf8(bytes)
    } else {
        utf8_repaired(bytes)
    }
}

/// `String::from_utf8_lossy` decodes UTF-8, and puts the replacement character
/// in the place of what is not UTF-8, so only no bytes at all give no text.
#[verifier::external_body]
pub(crate) fn from_utf8_lossy(bytes: &[u8]) -> (r: String)
    ensures
        valid_utf8(bytes@) ==> r@ == decode_utf8(bytes@),
        !valid_utf8(bytes@) ==> r@ == utf8_repaired(bytes@),
        r@.len() == 0 <==> bytes@.len() == 0,
{
    String::from_utf8_lossy(bytes).into_owned()
}

/// A string survives the way into bytes and back.
pub proof fn utf8_text_reads_back(s: Seq<char>)
    ensures
        utf8_text(encode_utf8(s)) == s,
{
    vstd::utf8::encode_utf8_valid_utf8(s);
    vstd::utf8::encode_utf8_decode_utf8(s);
}

/// White space is what separates words in plain text: blanks and line breaks, no
/// letter, digit or mark.
pub proof fn blanks_are_white_space(c: char)
    ensures
        is_space(' ') && is_space('\t') && is_space('\n') && is_space('\r'),
        '!' <= c <= '~' ==> !is_space(c),
        is_space(c) && c as u32 >= 0x80 ==> c as u32 == 0x85 || c as u32 == 0xa0 || c as u32
            == 0x1680 || 0x2000 <= c as u32 <= 0x200a || 0x2028 <= c as u32 <= 0x2029 || c as u32
            == 0x202f || c as u32 == 0x205f || c as u32 == 0x3000,
{
}

proof fn lemma_trimmed_start(s: Seq<char>) -> (i: int)
    ensures
        0 <= i <= s.len(),
        trimmed_start(s) == s.skip(i),
        forall|j: int| 0 <= j < i ==> is_space(s[j]),
        i < s.len() ==> !is_space(s[i]),
    decreases s.len(),
{
    if s.len() > 0 && is_space(s[0]) {
        let t = s.drop_first();
        let k = lemma_trimmed_start(t);
        assert(t.skip(k) == s.skip(k + 1));
        assert forall|j: int| 0 <= j < k + 1 implies is_space(s[j]) by {
            if j > 0 {
                assert(s[j] == t[j - 1]);
            }
        }
        k + 1
    } else {
        assert(s.skip(0) == s);
        0
    }
}

proof fn lemma_trimmed_end(s: Seq<char>) -> (i: int)
    ensures
        0 <= i <= s.len(),
        trimmed_end(s) == s.take(i),
        forall|j: int| i <= j < s.len() ==> is_space(s[j]),
        i > 0 ==> !is_space(s[i - 1]),
    decreases s.len(),
{
    if s.len() > 0 && is_space(s.last()) {
        let t = s.drop_last();
        let k = lemma_trimmed_end(t);
        assert(t.take(k) == s.take(k));
        assert forall|j: int| k <= j < s.len() implies is_space(s[j]) by {
            if j < s.len() - 1 {
                assert(s[j] == t[j]);
            }
        }
        k
    } else {
        assert(s.take(s.len() as int) == s);
        s.len() as int
    }
}

/// Trimming takes away white space at the ends and nothing else.
pub proof fn trimming_takes_white_space(s: Seq<char>)
    ensures
        exists|i: int, j: int|
            0 <= i <= j <= s.len() && trimmed(s) == #[trigger] s.subrange(i, j) && (forall|k: int|
                0 <= k < i || j <= k < s.len() ==> is_space(#[trigger] s[k])),
        trimmed(s).len() > 0 ==> !is_space(trimmed(s)[0]) && !is_space(trimmed(s).last()),
{
    let i = lemma_trimmed_start(s);
    let t = trimmed_start(s);
    let n = lemma_trimmed_end(t);
    assert(t.take(n) == s.subrange(i, i + n));
    assert forall|k: int| 0 <= k < i || i + n <= k < s.len() implies is_space(#[trigger] s[k]) by {
        if k >= i + n {
            assert(s[k] == t[k - i]);
        }
    }
    if n > 0 {
        assert(trimmed(s)[0] == t[0]);
        assert(trimmed(s).last() == t[n - 1]);
    }
}

/// A text between white space is what trimming leaves, if it begins and ends with
/// something else or is empty.
pub proof fn trimming_leaves_the_text(a: Seq<char>, t: Seq<char>, b: Seq<char>)
    requires
        forall|k: int| 0 <= k < a.len() ==> is_space(#[trigger] a[k]),
        forall|k: int| 0 <= k < b.len() ==> is_space(#[trigger] b[k]),
        t.len() > 0 ==> !is_space(t[0]) && !is_space(t.last()),
    ensures
        trimmed(a + t + b) == t,
{
    let s = a + t + b;
    let i = lemma_trimmed_start(s);
    let u = trimmed_start(s);
    let n = lemma_trimmed_end(u);
    if t.len() > 0 {
        if i < a.len() {
            assert(s[i] == a[i]);
        }
        if i > a.len() {
            assert(s[a.len() as int] == t[0]);
        }
        assert(i == a.len());
        assert(u == t + b);
        if n < t.len() {
            assert(u[t.len() - 1] == t.last());
        }
        if n > t.len() {
            assert(u[n - 1] == b[n - 1 - t.len()]);
        }
        assert(u.take(n) == t);
    } else {
        assert forall|k: int| 0 <= k < s.len() implies is_space(#[trigger] s[k]) by {
            if k < a.len() {
                assert(s[k] == a[k]);
            } else {
                assert(s[k] == b[k - a.len()]);
            }
        }
        if n > 0 {
            assert(u[n - 1] == s[i + n - 1]);
        }
        assert(u.take(n) == t);
    }
}

/// A run of one character at the end is taken away whole, and nothing else is.
pub proof fn trailing_runs_are_taken_away(s: Seq<char>, c: char, n: nat)
    requires
        s.len() > 0 ==> s.last() != c,
    ensures
        without_trailing(s + Seq::new(n, |i: int| c), c) == s,
    decreases n,
{
    let t = s + Seq::new(n, |i: int| c);
    if n == 0 {
        assert(t == s);
    } else {
        let m = (n - 1) as nat;
        assert(t.drop_last() == s + Seq::new(m, |i: int| c));
        trailing_runs_are_taken_away(s, c, m);
    }
}

/// No line holds a line break.
pub proof fn lines_hold_no_break(s: Seq<char>, i: int)
    requires
        0 <= i < lines_of(s).len(),
    ensures
        !lines_of(s)[i].contains('\n'),
    decreases s.len(),
{
    let n = position(s, '\n');
    position_is_first(s, '\n');
    if n < s.len() {
        if i > 0 {
            lines_hold_no_break(s.skip(n + 1), i - 1);
        }
    }
}

/// A text without a line break is one line, unless it is empty; and a carriage
/// return before a line break belongs to the break.
pub proof fn lines_end_at_breaks(s: Seq<char>)
    requires
        !s.contains('\n'),
    ensures
        lines_of(s) == (if s.len() == 0 {
            seq![]
        } else {
            seq![s]
        }),
        lines_of(s.push('\r').push('\n')) == seq![s],
{
    position_is_first(s, '\n');
    if position(s, '\n') < s.len() {
        assert(s.contains(s[position(s, '\n')]));
    }
    let t = s.push('\r').push('\n');
    let n = s.len() as int + 1;
    assert forall|j: int| 0 <= j < n implies t[j] != '\n' by {
        if j < s.len() {
            assert(s.contains(s[j]));
        }
    }
    lemma_position_unique(t, '\n', n);
    assert(t.take(n) == s.push('\r'));
    assert(s.push('\r').drop_last() == s);
    assert(t.skip(n + 1) == Seq::<char>::empty());
    assert(lines_of(t.skip(n + 1)) == Seq::<Seq<char>>::empty());
}

/// Where a text without `c` ends at a `c`, that is the first one.
pub proof fn the_first_one_is_found(a: Seq<char>, c: char, b: Seq<char>)
    requires
        !a.contains(c),
    ensures
        position(a, c) == a.len(),
        position(a.push(c) + b, c) == a.len(),
{
    assert forall|j: int| 0 <= j < a.len() implies a[j] != c by {
        assert(a.contains(a[j]));
    }
    lemma_position_unique(a, c, a.len() as int);
    lemma_position_unique(a.push(c) + b, c, a.len() as int);
}

/// The parts of a text are what stands between the separators: a text without one
/// is one part, and what stands before the first one is the first part.
pub proof fn parts_stand_between_separators(a: Seq<char>, c: char, b: Seq<char>)
    requires
        !a.contains(c),
    ensures
        parts_of(a, c) == seq![a],
        parts_of(a.push(c) + b, c) == seq![a] + parts_of(b, c),
{
    the_first_one_is_found(a, c, b);
    let s = a.push(c) + b;
    assert(s.take(a.len() as int) == a);
    assert(s.skip(a.len() as int + 1) == b);
}

/// What precedes a character, and what stands on either side of it.
pub proof fn texts_are_halved_at_a_character(a: Seq<char>, c: char, b: Seq<char>)
    requires
        !a.contains(c),
    ensures
        before_char(a, c) == a,
        before_char(a.push(c) + b, c) == a,
        halves(a, c) is None,
        halves(a.push(c) + b, c) == Some((a, b)),
{
    the_first_one_is_found(a, c, b);
    let s = a.push(c) + b;
    assert(s.take(a.len() as int) == a);
    assert(s.skip(a.len() as int + 1) == b);
    assert(a.take(a.len() as int) == a);
}

/// A prefix can be taken away from a text exactly if the text begins with it.
pub proof fn prefixes_are_taken_away(p: Seq<char>, t: Seq<char>, s: Seq<char>)
    ensures
        after_prefix(p + t, p) == Some(t),
        after_prefix(s, p) matches Some(rest) ==> s == p + rest,
{
    assert((p + t).skip(p.len() as int) == t);
    assert(p.is_prefix_of(p + t));
    if p.is_prefix_of(s) {
        assert(s == p + s.skip(p.len() as int));
    }
}

/// A run of characters occurs in a text exactly if the text is something, the run
/// and something.
pub proof fn runs_occur_in_texts(a: Seq<char>, p: Seq<char>, b: Seq<char>, s: Seq<char>)
    ensures
        has_infix(a + p + b, p),
        has_infix(s, p) ==> exists|x: Seq<char>, y: Seq<char>| s == #[trigger] (x + p + y),
{
    let t = a + p + b;
    assert(t.subrange(a.len() as int, a.len() as int + p.len()) == p);
    if has_infix(s, p) {
        let i = choose|i: int|
            0 <= i <= s.len() - p.len() && #[trigger] s.subrange(i, i + p.len()) == p;
        assert(s == s.take(i) + p + s.skip(i + p.len()));
    }
}

/// Words are taken one by one: white space before a word does not matter, and a
/// word ends at white space or with the text.
pub proof fn words_stand_between_white_space(w: Seq<char>, c: char, b: Seq<char>)
    requires
        w.len() > 0,
        forall|k: int| 0 <= k < w.len() ==> !is_space(#[trigger] w[k]),
        is_space(c),
    ensures
        words_of(seq![]) == Seq::<Seq<char>>::empty(),
        words_of(seq![c] + b) == words_of(b),
        words_of(w) == seq![w],
        words_of(w.push(c) + b) == seq![w] + words_of(b),
{
    assert((seq![c] + b).drop_first() == b);
    assert(w.take(w.len() as int) == w);
    lemma_first_word(w, w);
    assert(w.skip(w.len() as int) == Seq::<char>::empty());
    assert(words_of(w.skip(w.len() as int)) == Seq::<Seq<char>>::empty());
    assert(words_of(w) == seq![w]);
    let s = w.push(c) + b;
    assert(s.take(w.len() as int) == w);
    lemma_first_word(w, s);
    let t = s.skip(w.len() as int);
    assert(t == seq![c] + b);
    assert(words_of(t) == words_of(b));
}

/// A text that begins with a word, up to white space or the end.
proof fn lemma_first_word(w: Seq<char>, s: Seq<char>)
    requires
        w.len() <= s.len(),
        s.take(w.len() as int) == w,
        forall|k: int| 0 <= k < w.len() ==> !is_space(#[trigger] w[k]),
        w.len() < s.len() ==> is_space(s[w.len() as int]),
    ensures
        word_len(s) == w.len(),
    decreases w.len(),
{
    if w.len() > 0 {
        assert(s[0] == w[0]);
        let u = w.drop_first();
        assert(s.drop_first().take(u.len() as int) == u);
        assert forall|k: int| 0 <= k < u.len() implies !is_space(#[trigger] u[k]) by {
            assert(u[k] == w[k + 1]);
        }
        lemma_first_word(u, s.drop_first());
    }
}

/// No word is empty, and none holds white space.
pub proof fn words_hold_no_white_space(s: Seq<char>, i: int)
    requires
        0 <= i < words_of(s).len(),
    ensures
        words_of(s)[i].len() > 0,
        forall|k: int| 0 <= k < words_of(s)[i].len() ==> !is_space(#[trigger] words_of(s)[i][k]),
    decreases s.len(),
{
    if is_space(s[0]) {
        words_hold_no_white_space(s.drop_first(), i);
    } else {
        lemma_word_len(s.drop_first());
        lemma_word_has_no_space(s);
        let n = word_len(s);
        if i == 0 {
            assert forall|k: int| 0 <= k < words_of(s)[i].len() implies !is_space(
                #[trigger] words_of(s)[i][k],
            ) by {
                assert(words_of(s)[0][k] == s[k]);
            }
        } else {
            words_hold_no_white_space(s.skip(n), i - 1);
            assert(words_of(s)[i] == words_of(s.skip(n))[i - 1]);
        }
    }
}

proof fn lemma_word_has_no_space(s: Seq<char>)
    ensures
        0 <= word_len(s) <= s.len(),
        forall|k: int| 0 <= k < word_len(s) ==> !is_space(#[trigger] s[k]),
    decreases s.len(),
{
    if s.len() > 0 && !is_space(s[0]) {
        lemma_word_has_no_space(s.drop_first());
        assert forall|k: int| 0 <= k < word_len(s) implies !is_space(#[trigger] s[k]) by {
            if k > 0 {
                assert(s[k] == s.drop_first()[k - 1]);
            }
        }
    }
}

/// The digits are the ten from `0`, in their order.
pub proof fn digits_count_from_zero(c: char)
    ensures
        is_digit(c) <==> '0' <= c <= '9',
        digit_value('0') == 0,
        digit_value('9') == 9,
        is_digit(c) ==> digit_char(digit_value(c)) == c,
        is_digit(c) && c != '9' ==> digit_value((c as u32 + 1) as char) == digit_value(c) + 1,
{
}

/// Digits count by their place: each further one makes those before it worth ten
/// times as much.
pub proof fn digits_count_by_place(s: Seq<char>, c: char)
    ensures
        decimal_value(s.push(c)) == 10 * decimal_value(s) + (c as u32 - 48),
        decimal_value(seq![]) == 0,
{
    assert(s.push(c).drop_last() == s);
}

proof fn lemma_leading_zero(s: Seq<char>)
    ensures
        decimal_value(seq!['0'] + s) == decimal_value(s),
    decreases s.len(),
{
    let t = seq!['0'] + s;
    if s.len() == 0 {
        assert(t.drop_last() == Seq::<char>::empty());
        assert(decimal_value(t.drop_last()) == 0);
        assert(t.last() == '0');
    } else {
        lemma_leading_zero(s.drop_last());
        assert(t.drop_last() == seq!['0'] + s.drop_last());
    }
}

/// A number may have a plus sign and leading zeros, which change nothing.
pub proof fn numbers_may_be_padded(s: Seq<char>, max: int)
    requires
        unsigned_in(s, max) is Some,
    ensures
        s[0] != '+' ==> unsigned_in(seq!['+'] + s, max) == unsigned_in(s, max),
        s[0] != '+' ==> unsigned_in(seq!['0'] + s, max) == unsigned_in(s, max),
        s[0] == '+' ==> unsigned_in(s.drop_first(), max) == unsigned_in(s, max),
{
    let d = digits_part(s);
    if s[0] != '+' {
        assert((seq!['+'] + s).drop_first() == s);
        let t = seq!['0'] + s;
        assert(digits_part(t) == t);
        lemma_leading_zero(s);
        assert forall|i: int| 0 <= i < t.len() implies is_digit(t[i]) by {
            if i > 0 {
                assert(t[i] == d[i - 1]);
            }
        }
    } else {
        assert(is_digit(d[0]));
        assert(digits_part(d) == d);
    }
}

/// What is no number: nothing, a sign alone, anything with a character that is no
/// digit but a plus sign in front, and what is too large.
pub proof fn not_every_text_is_a_number(s: Seq<char>, max: int, i: int)
    ensures
        unsigned_in(seq![], max) is None,
        unsigned_in(seq!['+'], max) is None,
        0 <= i < s.len() && !('0' <= s[i] <= '9') && (i > 0 || s[i] != '+') ==> unsigned_in(
            s,
            max,
        ) is None,
        unsigned_in(s, max) matches Some(n) ==> 0 <= n <= max,
{
    let d = digits_part(s);
    if 0 <= i < s.len() && !('0' <= s[i] <= '9') && (i > 0 || s[i] != '+') {
        digits_count_from_zero(s[i]);
        if s[0] == '+' {
            assert(d[i - 1] == s[i]);
            assert(!is_digit(d[i - 1]));
        } else {
            assert(d[i] == s[i]);
            assert(!is_digit(d[i]));
        }
    }
    if unsigned_in(s, max) is Some {
        lemma_decimal_value_grows(d, 0);
    }
}

/// The limit only refuses numbers above it.
pub proof fn limits_refuse_larger_numbers(s: Seq<char>, a: int, b: int)
    requires
        unsigned_in(s, a) is Some,
    ensures
        unsigned_in(s, a)->0 <= b ==> unsigned_in(s, b) == unsigned_in(s, a),
        unsigned_in(s, a)->0 > b ==> unsigned_in(s, b) is None,
{
}

/// A number is written without leading zeros.
pub proof fn numbers_have_no_leading_zero(n: int)
    requires
        n >= 0,
    ensures
        n > 0 ==> decimal_of(n)[0] != '0',
        n == 0 ==> decimal_of(n) == seq!['0'],
        n < 10 ==> decimal_of(n).len() == 1,
        n >= 10 ==> decimal_of(n).len() == decimal_of(n / 10).len() + 1,
    decreases n,
{
    if n >= 10 {
        numbers_have_no_leading_zero(n / 10);
    }
}

/// The hexadecimal digits, in their order.
pub proof fn hexadecimal_digits(d: int)
    requires
        0 <= d < 16,
    ensures
        hex_char(d) == "0123456789abcdef"@[d],
{
    reveal_strlit("0123456789abcdef");
}

/// An absolute name stands alone; any other one follows the directory after one
/// separator.
pub proof fn paths_are_joined_by_one_separator(dir: Seq<char>, name: Seq<char>)
    ensures
        joined_path(dir, seq!['/'] + name) == seq!['/'] + name,
        dir.len() > 0 && dir.last() != '/' && (name.len() == 0 || name[0] != '/') ==> joined_path(
            dir,
            name,
        ) == dir + seq!['/'] + name,
        name.len() == 0 || name[0] != '/' ==> joined_path(dir.push('/'), name) == dir.push('/')
            + name,
        name.len() == 0 || name[0] != '/' ==> joined_path(seq![], name) == name,
{
    assert(dir.push('/') + name == dir + seq!['/'] + name);
    assert(Seq::<char>::empty() + name == name);
}

/// A run of digits without a leading zero is the number that it stands for, in
/// decimal notation.
pub proof fn digits_are_the_number(s: Seq<char>)
    requires
        s.len() > 0,
        forall|i: int| 0 <= i < s.len() ==> is_digit(s[i]),
        s.len() > 1 ==> s[0] != '0',
    ensures
        decimal_of(decimal_value(s)) == s,
        decimal_value(s) >= 0,
    decreases s.len(),
{
    let t = s.drop_last();
    assert(is_digit(s.last()));
    digits_count_from_zero(s.last());
    if s.len() == 1 {
        assert(t == Seq::<char>::empty());
        assert(decimal_value(t) == 0);
        assert(decimal_of(decimal_value(s)) == s);
    } else {
        assert forall|i: int| 0 <= i < t.len() implies is_digit(t[i]) by {
            assert(t[i] == s[i]);
        }
        digits_are_the_number(t);
        lemma_decimal_value_grows(t, 1);
        let first = t.take(1);
        assert(first.drop_last() == Seq::<char>::empty());
        assert(decimal_value(first.drop_last()) == 0);
        assert(first.last() == s[0]);
        assert(is_digit(s[0]));
        digits_count_from_zero(s[0]);
        assert(digit_char(0) == '0');
        let n = decimal_value(t);
        let d = digit_value(s.last());
        assert(n >= 1);
        assert((n * 10 + d) / 10 == n && (n * 10 + d) % 10 == d);
        assert(decimal_of(decimal_value(s)) == t.push(s.last()));
        assert(t.push(s.last()) == s);
    }
}

/// The first part of a text, and the parts of what follows it.
pub proof fn parts_are_taken_one_by_one(s: Seq<char>, c: char)
    ensures
        parts_of(s, c).len() >= 1,
        !parts_of(s, c)[0].contains(c),
        parts_of(s, c).len() == 1 ==> s == parts_of(s, c)[0],
        parts_of(s, c).len() > 1 ==> exists|rest: Seq<char>|
            s == parts_of(s, c)[0].push(c) + rest && #[trigger] parts_of(rest, c) == parts_of(
                s,
                c,
            ).drop_first(),
{
    let n = position(s, c);
    position_is_first(s, c);
    if n < s.len() {
        let rest = s.skip(n + 1);
        lemma_some_part(rest, c);
        assert(parts_of(s, c) == seq![s.take(n)] + parts_of(rest, c));
        assert(parts_of(s, c).drop_first() == parts_of(rest, c));
        assert(s == s.take(n).push(c) + rest);
        assert(!s.take(n).contains(c));
    } else {
        assert(parts_of(s, c) == seq![s]);
        assert(!s.contains(c));
    }
}

proof fn lemma_some_part(s: Seq<char>, c: char)
    ensures
        parts_of(s, c).len() >= 1,
    decreases s.len(),
{
    let n = position(s, c);
    if 0 <= n < s.len() {
        lemma_some_part(s.skip(n + 1), c);
    }
}

/// Two texts that end at the same character, which neither holds, begin alike only
/// if they are the same.
pub proof fn first_parts_are_compared_whole(p: Seq<char>, q: Seq<char>, c: char, rest: Seq<char>)
    requires
        !p.contains(c),
        !q.contains(c),
    ensures
        q.push(c).is_prefix_of(p.push(c) + rest) <==> p == q,
{
    let s = p.push(c) + rest;
    let t = q.push(c);
    if t.is_prefix_of(s) {
        assert forall|j: int| 0 <= j < t.len() implies t[j] == s[j] by {
            assert(s.take(t.len() as int)[j] == s[j]);
        }
        if q.len() < p.len() {
            assert(t[q.len() as int] == s[q.len() as int]);
            assert(p[q.len() as int] == c);
        } else if p.len() < q.len() {
            assert(t[p.len() as int] == s[p.len() as int]);
            assert(q[p.len() as int] == c);
        } else {
            assert forall|j: int| 0 <= j < p.len() implies p[j] == q[j] by {
                assert(t[j] == s[j]);
            }
            assert(p == q);
        }
    }
    if p == q {
        assert(s.take(t.len() as int) == t);
    }
}

} // verus!
