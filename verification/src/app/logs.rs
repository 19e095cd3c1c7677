//! Reading and trimming an application's log files.
//!
//! Truncated at every start, so the panel shows what the app is saying now, and
//! read from the end — a log can be far larger than the few lines the interface
//! asks for. Escape sequences are stripped: the output lands in HTML and the
//! log is written by the customer's own process.

use vstd::prelude::*;
use vstd::utf8;

use crate::text;

verus! {

/// How much of a log is read at a time, from its end backwards, in bytes.
pub const LOG_TAIL_CHUNK: u64 = 8192;

/// A log larger than this is cut down when its app starts.
pub const LOG_ROTATE_MAX_BYTES: u64 = 50 * 1024 * 1024;

/// The lines a log that is cut down keeps.
pub const LOG_ROTATE_KEEP_LINES: usize = 5000;

// ---------------------------------------------------------------------------
// Escape sequences
// ---------------------------------------------------------------------------

/// Where a control sequence that has been opened ends: behind its final
/// character, which lies from `@` to `~`.
pub open spec fn csi_end(s: Seq<char>) -> int
    decreases s.len(),
{
    if s.len() == 0 {
        0
    } else if '\x40' <= s[0] <= '\x7e' {
        1
    } else {
        1 + csi_end(s.skip(1))
    }
}

/// Where an operating system command that has been opened ends: behind a BEL,
/// or behind a backslash that follows an escape.
pub open spec fn osc_end(s: Seq<char>, after_escape: bool) -> int
    decreases s.len(),
{
    if s.len() == 0 {
        0
    } else if s[0] == '\x07' || (after_escape && s[0] == '\\') {
        1
    } else {
        1 + osc_end(s.skip(1), s[0] == '\x1b')
    }
}

/// How many characters an escape sequence at the start of `s` takes.
pub open spec fn escape_len(s: Seq<char>) -> int {
    if s.len() < 2 {
        1
    } else if s[1] == '[' {
        2 + csi_end(s.skip(2))
    } else if s[1] == ']' {
        2 + osc_end(s.skip(2), false)
    } else {
        2
    }
}

/// `s` without its escape sequences.
pub open spec fn plain(s: Seq<char>) -> Seq<char>
    decreases s.len(),
{
    if s.len() == 0 {
        s
    } else if s[0] != '\x1b' {
        seq![s[0]] + plain(s.skip(1))
    } else if 0 < escape_len(s) <= s.len() {
        plain(s.skip(escape_len(s)))
    } else {
        Seq::empty()
    }
}

proof fn lemma_csi_end(s: Seq<char>)
    ensures
        0 <= csi_end(s) <= s.len(),
    decreases s.len(),
{
    if s.len() > 0 {
        lemma_csi_end(s.skip(1));
    }
}

proof fn lemma_osc_end(s: Seq<char>, after_escape: bool)
    ensures
        0 <= osc_end(s, after_escape) <= s.len(),
    decreases s.len(),
{
    if s.len() > 0 {
        lemma_osc_end(s.skip(1), s[0] == '\x1b');
    }
}

proof fn lemma_escape_len(s: Seq<char>)
    requires
        s.len() > 0,
    ensures
        0 < escape_len(s) <= s.len(),
{
    if s.len() >= 2 {
        lemma_csi_end(s.skip(2));
        lemma_osc_end(s.skip(2), false);
    }
}

fn csi_length(cs: &Vec<char>, from: usize) -> (r: usize)
    requires
        from <= cs@.len(),
    ensures
        r == csi_end(cs@.skip(from as int)),
        from + r <= cs@.len(),
{
    let len: usize = cs.len();
    let mut i: usize = from;
    assert(cs@.skip(from as int).skip(0) =~= cs@.skip(from as int));
    while i < len
        invariant
            from <= i <= len,
            len == cs@.len(),
            csi_end(cs@.skip(from as int)) == (i - from) + csi_end(cs@.skip(i as int)),
        decreases len - i,
    {
        let c: char = cs[i];
        assert(cs@.skip(i as int)[0] == c);
        assert(cs@.skip(i as int).skip(1) =~= cs@.skip(i + 1));
        if '\x40' <= c && c <= '\x7e' {
            return i + 1 - from;
        }
        i = i + 1;
    }
    i - from
}

fn osc_length(cs: &Vec<char>, from: usize) -> (r: usize)
    requires
        from <= cs@.len(),
    ensures
        r == osc_end(cs@.skip(from as int), false),
        from + r <= cs@.len(),
{
    let len: usize = cs.len();
    let mut i: usize = from;
    let mut after_escape = false;
    while i < len
        invariant
            from <= i <= len,
            len == cs@.len(),
            osc_end(cs@.skip(from as int), false) == (i - from) + osc_end(
                cs@.skip(i as int),
                after_escape,
            ),
        decreases len - i,
    {
        let c: char = cs[i];
        assert(cs@.skip(i as int)[0] == c);
        assert(cs@.skip(i as int).skip(1) =~= cs@.skip(i + 1));
        if c == '\x07' || (after_escape && c == '\\') {
            return i + 1 - from;
        }
        after_escape = c == '\x1b';
        i = i + 1;
    }
    i - from
}

/// Removes ANSI escape sequences (CSI, OSC and the shorter two-character forms)
/// from `s`, leaving the plain text.
pub fn strip_ansi(s: &str) -> (r: String)
    ensures
        r@ == plain(s@),
{
    let cs = text::chars(s);
    let len: usize = cs.len();
    let mut out = String::new();
    let mut i: usize = 0;
    assert(cs@.skip(0) =~= s@);
    assert(out@ + plain(s@) =~= plain(s@));
    while i < len
        invariant
            i <= len,
            len == cs@.len(),
            cs@ == s@,
            out@ + plain(s@.skip(i as int)) == plain(s@),
        decreases len - i,
    {
        let ghost rest = s@.skip(i as int);
        let ghost before = out@;
        assert(rest[0] == cs@[i as int]);
        if cs[i] != '\x1b' {
            out.push(cs[i]);
            proof {
                assert(rest.skip(1) =~= s@.skip(i + 1));
                assert(before + (seq![rest[0]] + plain(s@.skip(i + 1))) =~= out@ + plain(
                    s@.skip(i + 1),
                ));
            }
            i = i + 1;
        } else {
            let n: usize = if i + 1 == len {
                1
            } else if cs[i + 1] == '[' {
                assert(rest.skip(2) =~= s@.skip(i + 2));
                2 + csi_length(&cs, i + 2)
            } else if cs[i + 1] == ']' {
                assert(rest.skip(2) =~= s@.skip(i + 2));
                2 + osc_length(&cs, i + 2)
            } else {
                2
            };
            proof {
                if rest.len() >= 2 {
                    assert(rest[1] == cs@[i + 1]);
                }
                lemma_escape_len(rest);
                assert(n == escape_len(rest));
                assert(rest.skip(n as int) =~= s@.skip(i + n));
            }
            i = i + n;
        }
    }
    assert(s@.skip(len as int) =~= Seq::<char>::empty());
    assert(out@ + plain(s@.skip(len as int)) =~= out@);
    out
}

/// What is left of a text has no escape in it.
pub proof fn law_plain_text_has_no_escapes(s: Seq<char>)
    ensures
        !plain(s).contains('\x1b'),
    decreases s.len(),
{
    if s.len() > 0 {
        if s[0] != '\x1b' {
            law_plain_text_has_no_escapes(s.skip(1));
            let t = plain(s.skip(1));
            assert forall|i: int| 0 <= i < plain(s).len() implies plain(s)[i] != '\x1b' by {
                if i > 0 {
                    assert(plain(s)[i] == t[i - 1]);
                    assert(t.contains(t[i - 1]));
                }
            }
        } else {
            lemma_escape_len(s);
            law_plain_text_has_no_escapes(s.skip(escape_len(s)));
        }
    }
}

/// A text without escapes is left as it is.
pub proof fn law_text_without_escapes_is_kept(s: Seq<char>)
    requires
        !s.contains('\x1b'),
    ensures
        plain(s) == s,
    decreases s.len(),
{
    if s.len() > 0 {
        assert(s.contains(s[0]));
        let t = s.skip(1);
        assert forall|i: int| 0 <= i < t.len() implies t[i] != '\x1b' by {
            assert(t[i] == s[i + 1]);
            assert(s.contains(s[i + 1]));
        }
        law_text_without_escapes_is_kept(t);
        assert(seq![s[0]] + t =~= s);
    }
}

proof fn lemma_csi_ends_at(p: Seq<char>, f: char, t: Seq<char>)
    requires
        forall|i: int| 0 <= i < p.len() ==> !('@' <= #[trigger] p[i] <= '~'),
        '@' <= f <= '~',
    ensures
        csi_end(p.push(f) + t) == p.len() + 1,
    decreases p.len(),
{
    let s = p.push(f) + t;
    if p.len() == 0 {
        assert(s[0] == f);
    } else {
        let q = p.skip(1);
        assert(s[0] == p[0]);
        assert(s.skip(1) =~= q.push(f) + t);
        assert forall|i: int| 0 <= i < q.len() implies !('@' <= #[trigger] q[i] <= '~') by {
            assert(q[i] == p[i + 1]);
        }
        lemma_csi_ends_at(q, f, t);
    }
}

proof fn lemma_csi_runs_on(p: Seq<char>)
    requires
        forall|i: int| 0 <= i < p.len() ==> !('@' <= #[trigger] p[i] <= '~'),
    ensures
        csi_end(p) == p.len(),
    decreases p.len(),
{
    if p.len() > 0 {
        let q = p.skip(1);
        assert forall|i: int| 0 <= i < q.len() implies !('@' <= #[trigger] q[i] <= '~') by {
            assert(q[i] == p[i + 1]);
        }
        lemma_csi_runs_on(q);
    }
}

proof fn lemma_osc_ends_at(p: Seq<char>, t: Seq<char>, after_escape: bool)
    requires
        !p.contains('\x07'),
        !p.contains('\x1b'),
        after_escape && p.len() > 0 ==> p[0] != '\\',
    ensures
        osc_end(p.push('\x07') + t, after_escape) == p.len() + 1,
        p.len() > 0 || !after_escape ==> osc_end(
            p.push('\x1b').push('\\') + t,
            after_escape,
        ) == p.len() + 2,
        osc_end(p, after_escape) == p.len(),
    decreases p.len(),
{
    let bel = p.push('\x07') + t;
    let st = p.push('\x1b').push('\\') + t;
    if p.len() == 0 {
        assert(bel[0] == '\x07');
        assert(st[0] == '\x1b');
        assert(st.skip(1)[0] == '\\');
        reveal_with_fuel(osc_end, 2);
    } else {
        let q = p.skip(1);
        assert(bel[0] == p[0] && st[0] == p[0]);
        assert(p.contains(p[0]));
        assert(bel.skip(1) =~= q.push('\x07') + t);
        assert(st.skip(1) =~= q.push('\x1b').push('\\') + t);
        assert forall|i: int| 0 <= i < q.len() implies q[i] != '\x07' && q[i] != '\x1b' by {
            assert(p.contains(p[i + 1]));
        }
        lemma_osc_ends_at(q, t, false);
    }
}

/// A control sequence is taken out whole, up to its final character, whatever its
/// parameters are; what follows it is shown.
pub proof fn law_control_sequences_are_taken_out(p: Seq<char>, f: char, t: Seq<char>)
    requires
        forall|i: int| 0 <= i < p.len() ==> !('@' <= #[trigger] p[i] <= '~'),
        '@' <= f <= '~',
    ensures
        plain(seq!['\x1b', '['] + p.push(f) + t) == plain(t),
        plain(seq!['\x1b', '['] + p) == Seq::<char>::empty(),
{
    let s = seq!['\x1b', '['] + p.push(f) + t;
    assert(s[0] == '\x1b' && s[1] == '[');
    assert(s.skip(2) =~= p.push(f) + t);
    lemma_csi_ends_at(p, f, t);
    assert(s.skip(escape_len(s)) =~= t);
    let open = seq!['\x1b', '['] + p;
    assert(open[0] == '\x1b' && open[1] == '[');
    assert(open.skip(2) =~= p);
    lemma_csi_runs_on(p);
    assert(open.skip(escape_len(open)) =~= Seq::<char>::empty());
    assert(plain(Seq::empty()) =~= Seq::<char>::empty());
}

/// An operating system command is taken out whole, up to the BEL or the escape
/// and backslash that close it; what follows it is shown.
pub proof fn law_system_commands_are_taken_out(p: Seq<char>, t: Seq<char>)
    requires
        !p.contains('\x07'),
        !p.contains('\x1b'),
    ensures
        plain(seq!['\x1b', ']'] + p.push('\x07') + t) == plain(t),
        plain(seq!['\x1b', ']'] + p.push('\x1b').push('\\') + t) == plain(t),
        plain(seq!['\x1b', ']'] + p) == Seq::<char>::empty(),
{
    lemma_osc_ends_at(p, t, false);
    let bel = seq!['\x1b', ']'] + p.push('\x07') + t;
    assert(bel[0] == '\x1b' && bel[1] == ']');
    assert(bel.skip(2) =~= p.push('\x07') + t);
    assert(bel.skip(escape_len(bel)) =~= t);
    let st = seq!['\x1b', ']'] + p.push('\x1b').push('\\') + t;
    assert(st[0] == '\x1b' && st[1] == ']');
    assert(st.skip(2) =~= p.push('\x1b').push('\\') + t);
    assert(st.skip(escape_len(st)) =~= t);
    let open = seq!['\x1b', ']'] + p;
    assert(open[0] == '\x1b' && open[1] == ']');
    assert(open.skip(2) =~= p);
    assert(open.skip(escape_len(open)) =~= Seq::<char>::empty());
    assert(plain(Seq::empty()) =~= Seq::<char>::empty());
}

/// A shorter escape is two characters, one at the end of a text is one, and a
/// character that is no escape is shown.
pub proof fn law_other_escapes_are_two_characters(c: char, t: Seq<char>)
    ensures
        c != '[' && c != ']' ==> plain(seq!['\x1b', c] + t) == plain(t),
        plain(seq!['\x1b']) == Seq::<char>::empty(),
        c != '\x1b' ==> plain(seq![c] + t) == seq![c] + plain(t),
{
    let s = seq!['\x1b', c] + t;
    assert(s[0] == '\x1b' && s[1] == c);
    assert(s.skip(2) =~= t);
    let one = seq!['\x1b'];
    assert(one[0] == '\x1b');
    assert(one.skip(1) =~= Seq::<char>::empty());
    assert(plain(Seq::empty()) =~= Seq::<char>::empty());
    let shown = seq![c] + t;
    assert(shown[0] == c);
    assert(shown.skip(1) =~= t);
}

pub open spec fn all_plain(ls: Seq<Seq<char>>) -> Seq<Seq<char>> {
    Seq::new(ls.len(), |i: int| plain(ls[i]))
}

/// Removes the escape sequences of every line.
pub fn strip_all(ls: &Vec<String>) -> (r: Vec<String>)
    ensures
        text::views(r@) == all_plain(text::views(ls@)),
{
    let mut out: Vec<String> = Vec::new();
    let mut i: usize = 0;
    while i < ls.len()
        invariant
            i <= ls@.len(),
            out@.len() == i,
            forall|j: int| 0 <= j < i ==> (#[trigger] out@[j])@ == plain(ls@[j]@),
        decreases ls@.len() - i,
    {
        out.push(strip_ansi(&ls[i]));
        i = i + 1;
    }
    assert(text::views(out@) =~= all_plain(text::views(ls@)));
    out
}

// ---------------------------------------------------------------------------
// The end of a log
// ---------------------------------------------------------------------------

/// The text that these bytes hold, with what is not UTF-8 replaced.
pub uninterp spec fn lossy_text(bytes: Seq<u8>) -> Seq<char>;

/// The text that `bytes` hold, as `String::from_utf8_lossy` of the standard
/// library reads them: exactly where they are UTF-8, and with what is not UTF-8
/// replaced by the replacement character. How much is replaced at a time is not
/// stated, only that the text depends on the bytes alone.
#[verifier::external_body]
fn decode(bytes: &Vec<u8>) -> (r: String)
    ensures
        r@ == lossy_text(bytes@),
        utf8::valid_utf8(bytes@) ==> r@ == utf8::decode_utf8(bytes@),
{
    String::from_utf8_lossy(bytes).into_owned()
}

/// The last `n` of these lines.
pub open spec fn last_of(ls: Seq<Seq<char>>, n: int) -> Seq<Seq<char>> {
    if ls.len() <= n {
        ls
    } else {
        ls.skip(ls.len() - n)
    }
}

/// The last `n` lines of a text.
pub fn last_lines(content: &str, n: usize) -> (r: Vec<String>)
    ensures
        text::views(r@) == last_of(text::lines(content@), n as int),
{
    let ls = text::split_lines(content);
    let total: usize = ls.len();
    let start: usize = if total <= n {
        0
    } else {
        total - n
    };
    let mut out: Vec<String> = Vec::new();
    let mut i: usize = start;
    while i < total
        invariant
            start <= i <= total,
            total == ls@.len(),
            out@.len() == i - start,
            forall|j: int| 0 <= j < i - start ==> (#[trigger] out@[j])@ == ls@[start + j]@,
        decreases total - i,
    {
        out.push(ls[i].clone());
        i = i + 1;
    }
    assert(text::views(out@) =~= last_of(text::views(ls@), n as int));
    out
}

/// A part of a file.
#[derive(Debug, Clone, Copy, PartialEq, Eq, Structural)]
pub struct Chunk {
    pub offset: u64,
    pub len: u64,
}

/// The next part of a log to read, from its end backwards: what lies before
/// `cursor`, until there are more line feeds than lines wanted.
pub fn next_chunk(cursor: u64, newlines: usize, n: usize) -> (r: Option<Chunk>)
    ensures
        match r {
            None => n == 0 || cursor == 0 || newlines > n,
            Some(c) => n > 0 && newlines <= n && c.offset + c.len == cursor && c.len == (if cursor
                < LOG_TAIL_CHUNK {
                cursor
            } else {
                LOG_TAIL_CHUNK
            }) && c.len > 0,
        },
{
    if n == 0 || cursor == 0 || newlines > n {
        return None;
    }
    let len: u64 = if cursor < LOG_TAIL_CHUNK {
        cursor
    } else {
        LOG_TAIL_CHUNK
    };
    Some(Chunk { offset: cursor - len, len })
}

/// How many line feeds these bytes hold.
pub open spec fn feeds(bytes: Seq<u8>) -> nat
    decreases bytes.len(),
{
    if bytes.len() == 0 {
        0
    } else {
        feeds(bytes.drop_last()) + (if bytes.last() == 10 {
            1nat
        } else {
            0
        })
    }
}

/// How many line feeds these bytes hold.
pub fn count_newlines(bytes: &Vec<u8>) -> (r: usize)
    ensures
        r == feeds(bytes@),
{
    let mut n: usize = 0;
    let mut i: usize = 0;
    assert(bytes@.take(0) =~= Seq::<u8>::empty());
    while i < bytes.len()
        invariant
            i <= bytes@.len(),
            n == feeds(bytes@.take(i as int)),
            n <= i,
        decreases bytes@.len() - i,
    {
        assert(bytes@.take(i + 1).drop_last() =~= bytes@.take(i as int));
        if bytes[i] == 10 {
            n = n + 1;
        }
        i = i + 1;
    }
    assert(bytes@.take(i as int) =~= bytes@);
    n
}

/// How many bytes at the beginning continue a character that began before them.
pub open spec fn cut_off(bytes: Seq<u8>) -> int
    decreases bytes.len(),
{
    if bytes.len() == 0 || !utf8::is_continuation_byte(bytes[0]) {
        0
    } else {
        1 + cut_off(bytes.skip(1))
    }
}

/// What is read of a part of a log: all of it when the part is the `whole` log,
/// and otherwise what comes behind the character that its beginning cuts.
pub open spec fn legible(bytes: Seq<u8>, whole: bool) -> Seq<u8> {
    if whole {
        bytes
    } else {
        bytes.skip(cut_off(bytes))
    }
}

proof fn lemma_cut_off(bytes: Seq<u8>)
    ensures
        0 <= cut_off(bytes) <= bytes.len(),
        forall|i: int| 0 <= i < cut_off(bytes) ==> utf8::is_continuation_byte(#[trigger] bytes[i]),
        cut_off(bytes) < bytes.len() ==> !utf8::is_continuation_byte(bytes[cut_off(bytes)]),
    decreases bytes.len(),
{
    if bytes.len() > 0 && utf8::is_continuation_byte(bytes[0]) {
        let rest = bytes.skip(1);
        lemma_cut_off(rest);
        assert forall|i: int| 0 <= i < cut_off(bytes) implies utf8::is_continuation_byte(
            #[trigger] bytes[i],
        ) by {
            if i > 0 {
                assert(rest[i - 1] == bytes[i]);
            }
        }
    }
}

proof fn lemma_cut_off_is(bytes: Seq<u8>, k: int)
    requires
        0 <= k <= bytes.len(),
        forall|i: int| 0 <= i < k ==> utf8::is_continuation_byte(#[trigger] bytes[i]),
        k < bytes.len() ==> !utf8::is_continuation_byte(bytes[k]),
    ensures
        cut_off(bytes) == k,
{
    lemma_cut_off(bytes);
    if cut_off(bytes) < k {
        assert(utf8::is_continuation_byte(bytes[cut_off(bytes)]));
    }
}

fn without_cut_character(bytes: &Vec<u8>) -> (r: Vec<u8>)
    ensures
        r@ == legible(bytes@, false),
{
    let mut k: usize = 0;
    while k < bytes.len() && 0x80 <= bytes[k] && bytes[k] <= 0xbf
        invariant
            k <= bytes@.len(),
            forall|i: int| 0 <= i < k ==> utf8::is_continuation_byte(#[trigger] bytes@[i]),
        decreases bytes@.len() - k,
    {
        k = k + 1;
    }
    proof {
        lemma_cut_off_is(bytes@, k as int);
    }
    let mut out: Vec<u8> = Vec::new();
    let mut i: usize = k;
    while i < bytes.len()
        invariant
            k <= i <= bytes@.len(),
            out@ == bytes@.subrange(k as int, i as int),
        decreases bytes@.len() - i,
    {
        out.push(bytes[i]);
        i = i + 1;
    }
    assert(out@ =~= bytes@.skip(k as int));
    out
}

/// The last `n` lines of a log, from the bytes at its end that the chunks
/// brought; `whole` says whether these are all of it. A part can begin within a
/// character, of which nothing is shown.
pub fn read_tail(bytes: &Vec<u8>, whole: bool, n: usize) -> (r: Vec<String>)
    ensures
        text::views(r@) == last_of(text::lines(lossy_text(legible(bytes@, whole))), n as int),
        utf8::valid_utf8(legible(bytes@, whole)) ==> text::views(r@) == last_of(
            text::lines(utf8::decode_utf8(legible(bytes@, whole))),
            n as int,
        ),
{
    let content = if whole {
        decode(bytes)
    } else {
        decode(&without_cut_character(bytes))
    };
    last_lines(&content, n)
}

/// How many line feeds a text holds.
pub open spec fn text_feeds(s: Seq<char>) -> nat
    decreases s.len(),
{
    if s.len() == 0 {
        0
    } else {
        (if s[0] == '\n' {
            1nat
        } else {
            0
        }) + text_feeds(s.skip(1))
    }
}

proof fn lemma_feeds_after_first(s: Seq<char>)
    requires
        s.contains('\n'),
    ensures
        text_feeds(s) == 1 + text_feeds(s.skip(text::first_at(s, '\n') + 1)),
    decreases s.len(),
{
    text::lemma_first_at(s, '\n');
    if s[0] != '\n' {
        let t = s.skip(1);
        let i = text::first_at(s, '\n');
        assert(t[i - 1] == '\n');
        lemma_feeds_after_first(t);
        assert(t.skip(text::first_at(t, '\n') + 1) =~= s.skip(i + 1));
    }
}

proof fn lemma_no_feed_no_count(s: Seq<char>)
    requires
        !s.contains('\n'),
    ensures
        text_feeds(s) == 0,
    decreases s.len(),
{
    if s.len() > 0 {
        assert(s.contains(s[0]));
        assert forall|i: int| 0 <= i < s.skip(1).len() implies s.skip(1)[i] != '\n' by {
            assert(s.contains(s[i + 1]));
        }
        lemma_no_feed_no_count(s.skip(1));
    }
}

proof fn lemma_lines_at_least_feeds(s: Seq<char>)
    ensures
        text::lines(s).len() >= text_feeds(s),
    decreases s.len(),
{
    text::lemma_first_at(s, '\n');
    if s.contains('\n') {
        let i = text::first_at(s, '\n');
        lemma_feeds_after_first(s);
        lemma_lines_at_least_feeds(s.skip(i + 1));
    } else {
        lemma_no_feed_no_count(s);
    }
}

/// The lines behind a line feed are the same whatever comes before it.
proof fn lemma_lines_behind_feed(front: Seq<char>, tail: Seq<char>)
    requires
        front.len() > 0,
        front.last() == '\n',
    ensures
        text::lines(front + tail).len() >= text::lines(tail).len(),
        text::lines(front + tail).skip(
            text::lines(front + tail).len() - text::lines(tail).len(),
        ) == text::lines(tail),
    decreases front.len(),
{
    let s = front + tail;
    let i = text::first_at(front, '\n');
    text::lemma_first_at(front, '\n');
    assert(front.contains('\n')) by {
        assert(front[front.len() - 1] == '\n');
    }
    assert forall|j: int| 0 <= j < i implies s[j] != '\n' by {
        assert(s[j] == front[j]);
    }
    assert(s[i] == '\n');
    text::lemma_first_at_is(s, '\n', i);
    let rest = s.skip(i + 1);
    let front_rest = front.skip(i + 1);
    assert(rest =~= front_rest + tail);
    let head = text::without_cr(s.take(i));
    assert(text::lines(s) == seq![head] + text::lines(rest));
    if front_rest.len() > 0 {
        assert(front_rest.last() == '\n');
        lemma_lines_behind_feed(front_rest, tail);
        let k = text::lines(rest).len() - text::lines(tail).len();
        assert(text::lines(s).skip(k + 1) =~= text::lines(rest).skip(k));
    } else {
        assert(rest =~= tail);
        assert(text::lines(s).skip(1) =~= text::lines(tail));
    }
}

/// Reading can stop once there are more line feeds than lines wanted: the last
/// `n` lines of the part that was read are the last `n` lines of the whole log.
pub proof fn law_tail_needs_no_more(front: Seq<char>, tail: Seq<char>, n: int)
    requires
        0 < n < text_feeds(tail),
    ensures
        last_of(text::lines(front + tail), n) == last_of(text::lines(tail), n),
{
    if !tail.contains('\n') {
        lemma_no_feed_no_count(tail);
    }
    text::lemma_first_at(tail, '\n');
    let i = text::first_at(tail, '\n');
    let rest = tail.skip(i + 1);
    lemma_feeds_after_first(tail);
    lemma_lines_at_least_feeds(rest);
    let upto = tail.take(i + 1);
    assert(tail =~= upto + rest);
    assert(front + tail =~= (front + upto) + rest);
    lemma_lines_behind_feed(upto, rest);
    lemma_lines_behind_feed(front + upto, rest);
    let a = text::lines(front + tail);
    let b = text::lines(tail);
    let r = text::lines(rest);
    assert(a.skip(a.len() - n) =~= r.skip(r.len() - n)) by {
        assert(a.skip(a.len() - r.len()) == r);
        assert(a.skip(a.len() - n) =~= a.skip(a.len() - r.len()).skip(r.len() - n));
    }
    assert(b.skip(b.len() - n) =~= r.skip(r.len() - n)) by {
        assert(b.skip(b.len() - r.len()) == r);
        assert(b.skip(b.len() - n) =~= b.skip(b.len() - r.len()).skip(r.len() - n));
    }
}

/// The line feeds of the parts of a log are those of the log: they can be counted
/// part by part.
pub proof fn law_feeds_add_up(a: Seq<u8>, b: Seq<u8>)
    ensures
        feeds(a + b) == feeds(a) + feeds(b),
    decreases b.len(),
{
    if b.len() == 0 {
        assert(a + b =~= a);
    } else {
        assert((a + b).drop_last() =~= a + b.drop_last());
        law_feeds_add_up(a, b.drop_last());
    }
}

proof fn lemma_no_feeds(a: Seq<u8>)
    requires
        forall|i: int| 0 <= i < a.len() ==> a[i] != 10,
    ensures
        feeds(a) == 0,
    decreases a.len(),
{
    if a.len() > 0 {
        lemma_no_feeds(a.drop_last());
    }
}

/// The line feeds of a text are those of its bytes: no other character has the
/// byte of a line feed in it.
proof fn lemma_feeds_of_text(bytes: Seq<u8>)
    requires
        utf8::valid_utf8(bytes),
    ensures
        feeds(bytes) == text_feeds(utf8::decode_utf8(bytes)),
    decreases bytes.len(),
{
    if bytes.len() > 0 {
        let n = utf8::length_of_first_scalar(bytes);
        let first = bytes.take(n);
        let rest = utf8::pop_first_scalar(bytes);
        assert(bytes =~= first + rest);
        law_feeds_add_up(first, rest);
        lemma_feeds_of_text(rest);
        let c = utf8::decode_first_scalar(bytes);
        let s = utf8::decode_utf8(bytes);
        assert(s[0] == c as char);
        assert(s.skip(1) =~= utf8::decode_utf8(rest));
        if n == 1 {
            let b = bytes[0];
            assert(b <= 0x7f ==> (b & 0x7f) == b) by (bit_vector);
            assert(first.drop_last() =~= Seq::<u8>::empty());
            assert(feeds(first.drop_last()) == 0);
            assert(first.last() == b);
            assert(c == b);
        } else {
            lemma_no_feeds(first);
            let b = bytes[0];
            let d = bytes[1];
            let e = bytes[2];
            assert((((b & 0x1f) as u32) << 6) | ((d & 0x3f) as u32) <= 0x7ff) by (bit_vector);
            assert((((b & 0x0f) as u32) << 12) | (((d & 0x3f) as u32) << 6) | ((e & 0x3f) as u32)
                <= 0xffff) by (bit_vector);
            assert(0x80 <= c <= 0x10ffff);
        }
    }
}

proof fn lemma_legible_feeds(bytes: Seq<u8>)
    ensures
        feeds(legible(bytes, false)) == feeds(bytes),
{
    lemma_cut_off(bytes);
    let k = cut_off(bytes);
    let cut = bytes.take(k);
    assert(bytes =~= cut + bytes.skip(k));
    law_feeds_add_up(cut, bytes.skip(k));
    assert forall|i: int| 0 <= i < cut.len() implies cut[i] != 10 by {
        assert(utf8::is_continuation_byte(bytes[i]));
    }
    lemma_no_feeds(cut);
}

/// The last `n` lines of a log that is text are the last `n` lines of what was
/// read from its end, wherever that begins, once it is the whole log or holds
/// more than `n` line feeds.
pub proof fn law_tail_of_a_log_is_its_end(log: Seq<u8>, from: int, n: int)
    requires
        utf8::valid_utf8(log),
        0 <= from <= log.len(),
        0 <= n,
        n == 0 || from == 0 || n < feeds(log.skip(from)),
    ensures
        utf8::valid_utf8(legible(log.skip(from), from == 0)),
        last_of(text::lines(utf8::decode_utf8(legible(log.skip(from), from == 0))), n) == last_of(
            text::lines(utf8::decode_utf8(log)),
            n,
        ),
{
    let part = log.skip(from);
    if from == 0 {
        assert(part =~= log);
    } else {
        lemma_cut_off(part);
        let at = from + cut_off(part);
        if at < log.len() {
            assert(log[at] == part[cut_off(part)]);
            utf8::is_char_boundary_iff_not_is_continuation_byte(log, at);
        } else {
            utf8::is_char_boundary_start_end_of_seq(log);
        }
        let tail = log.subrange(at, log.len() as int);
        assert(tail =~= legible(part, false));
        utf8::valid_utf8_split(log, at);
        if n > 0 {
            utf8::decode_utf8_split(log, at);
            lemma_legible_feeds(part);
            lemma_feeds_of_text(tail);
            law_tail_needs_no_more(
                utf8::decode_utf8(log.subrange(0, at)),
                utf8::decode_utf8(tail),
                n,
            );
        } else {
            assert(last_of(text::lines(utf8::decode_utf8(tail)), 0) =~= last_of(
                text::lines(utf8::decode_utf8(log)),
                0,
            ));
        }
    }
}

/// Whether a log of this size is cut down.
pub fn needs_rotation(size: u64) -> (r: bool)
    ensures
        r == (size > LOG_ROTATE_MAX_BYTES),
{
    size > LOG_ROTATE_MAX_BYTES
}

/// The content of a log that was cut down to these lines.
pub fn rotated(lines: &Vec<String>) -> (r: String)
    ensures
        r@ == text::joined(text::views(lines@), "\n"@) + "\n"@,
{
    let mut out = text::join(lines, "\n");
    out.append("\n");
    out
}

proof fn lemma_joined_is_closed(ls: Seq<Seq<char>>)
    requires
        ls.len() > 0,
    ensures
        text::joined(ls, "\n"@) + "\n"@ == text::closed_lines(ls),
    decreases ls.len(),
{
    reveal_strlit("\n");
    let front = ls.drop_last();
    if ls.len() == 1 {
        assert(text::closed_lines(front) =~= Seq::<char>::empty());
        assert(ls[0] + "\n"@ =~= text::closed_lines(front) + ls.last().push('\n'));
    } else {
        lemma_joined_is_closed(front);
        assert(text::joined(ls, "\n"@) + "\n"@ =~= (text::joined(front, "\n"@) + "\n"@)
            + ls.last().push('\n'));
    }
}

/// A log that is text and not empty is cut down to its last lines, each closed
/// by a line feed.
pub proof fn law_rotation_keeps_the_end(log: Seq<u8>, from: int)
    requires
        utf8::valid_utf8(log),
        log.len() > 0,
        0 <= from <= log.len(),
        from == 0 || LOG_ROTATE_KEEP_LINES < feeds(log.skip(from)),
    ensures
        ({
            let kept = last_of(
                text::lines(utf8::decode_utf8(legible(log.skip(from), from == 0))),
                LOG_ROTATE_KEEP_LINES as int,
            );
            text::joined(kept, "\n"@) + "\n"@ == text::closed_lines(
                last_of(text::lines(utf8::decode_utf8(log)), LOG_ROTATE_KEEP_LINES as int),
            )
        }),
{
    law_tail_of_a_log_is_its_end(log, from, LOG_ROTATE_KEEP_LINES as int);
    let s = utf8::decode_utf8(log);
    assert(s.len() > 0);
    assert(text::lines(s).len() > 0);
    lemma_joined_is_closed(last_of(text::lines(s), LOG_ROTATE_KEEP_LINES as int));
}

/// The log file of an app.
pub open spec fn log_path(cwd: Seq<char>, name: Seq<char>, stderr: bool) -> Seq<char> {
    crate::path::under(
        crate::path::under(cwd, "logs"@),
        name + (if stderr {
            ".err.log"@
        } else {
            ".out.log"@
        }),
    )
}

/// The log file of an app: what it prints, or what it prints as errors.
pub fn log_file(cwd: &str, name: &str, stderr: bool) -> (r: String)
    ensures
        r@ == log_path(cwd@, name@, stderr),
{
    let logs = crate::path::join(cwd, "logs");
    let file = if stderr {
        text::cat(name, ".err.log")
    } else {
        text::cat(name, ".out.log")
    };
    crate::path::join(&logs, &file)
}

/// The last lines are those at the end, as many as were asked for, and all of them
/// where there are fewer.
pub proof fn law_last_lines_are_at_the_end(a: Seq<Seq<char>>, b: Seq<Seq<char>>, n: int)
    ensures
        last_of(a + b, b.len() as int) == b,
        n >= a.len() ==> last_of(a, n) == a,
{
    if a.len() == 0 {
        assert(a + b =~= b);
    } else {
        assert((a + b).skip(a.len() as int) =~= b);
    }
}

/// The log of what an app prints, and the log of its errors, lie in its directory.
pub proof fn law_logs_lie_in_the_apps_directory(cwd: Seq<char>, name: Seq<char>)
    requires
        cwd.len() > 0,
        cwd.last() != '/',
        name.len() > 0,
        name[0] != '/',
    ensures
        log_path(cwd, name, false) == cwd + "/logs/"@ + name + ".out.log"@,
        log_path(cwd, name, true) == cwd + "/logs/"@ + name + ".err.log"@,
{
    reveal_strlit("logs");
    reveal_strlit("/logs/");
    let l = crate::path::under(cwd, "logs"@);
    assert(l =~= cwd + seq!['/'] + "logs"@);
    assert(l.last() == 's');
    assert(log_path(cwd, name, false) =~= cwd + "/logs/"@ + name + ".out.log"@);
    assert(log_path(cwd, name, true) =~= cwd + "/logs/"@ + name + ".err.log"@);
}

} // verus!
