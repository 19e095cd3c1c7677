//! Text as sequences of characters: what the panel does with lines, words,
//! numbers and separators, each operation tied to a mathematical definition.

use vstd::prelude::*;

verus! {

/// `String::push` appends one character to the end of the string and leaves
/// the rest as it was.
pub assume_specification[ String::push ](s: &mut String, c: char)
    ensures
        final(s)@ == old(s)@.push(c),
;

/// How `{:?}` shows the text `s`: in double quotes, with the characters that
/// need it escaped.
pub uninterp spec fn debug_form(s: Seq<char>) -> Seq<char>;

/// `s` as `format!("{:?}")` of the standard library shows a `str`. Which
/// characters are escaped and how is the library's own affair and is not stated
/// here; only that the form depends on the text alone.
#[verifier::external_body]
pub(crate) fn quoted(s: &str) -> (r: String)
    ensures
        r@ == debug_form(s@),
{
    format!("{:?}", s)
}

// ---------------------------------------------------------------------------
// Definitions
// ---------------------------------------------------------------------------

/// The texts that a list of strings holds.
pub open spec fn views(v: Seq<String>) -> Seq<Seq<char>> {
    Seq::new(v.len(), |i: int| v[i]@)
}

/// The code points with the Unicode `White_Space` property.
pub open spec fn is_space(c: char) -> bool {
    let n = c as u32;
    ||| 0x09 <= n <= 0x0d
    ||| n == 0x20
    ||| n == 0x85
    ||| n == 0xa0
    ||| n == 0x1680
    ||| 0x2000 <= n <= 0x200a
    ||| n == 0x2028
    ||| n == 0x2029
    ||| n == 0x202f
    ||| n == 0x205f
    ||| n == 0x3000
}

/// Unicode control characters (category `Cc`).
pub open spec fn is_control(c: char) -> bool {
    let n = c as u32;
    n < 0x20 || 0x7f <= n <= 0x9f
}

pub open spec fn is_digit(c: char) -> bool {
    '0' <= c <= '9'
}

/// ASCII letters and digits.
pub open spec fn is_alnum(c: char) -> bool {
    ||| '0' <= c <= '9'
    ||| 'a' <= c <= 'z'
    ||| 'A' <= c <= 'Z'
}

/// `c` with an ASCII capital letter made small.
pub open spec fn lower_char(c: char) -> char {
    if 'A' <= c <= 'Z' {
        (c as u32 + 32) as char
    } else {
        c
    }
}

pub open spec fn lower(s: Seq<char>) -> Seq<char> {
    Seq::new(s.len(), |i: int| lower_char(s[i]))
}

/// `s` without the white space it starts with.
pub open spec fn trimmed_start(s: Seq<char>) -> Seq<char>
    decreases s.len(),
{
    if s.len() > 0 && is_space(s[0]) {
        trimmed_start(s.skip(1))
    } else {
        s
    }
}

/// `s` without the white space it ends with.
pub open spec fn trimmed_end(s: Seq<char>) -> Seq<char>
    decreases s.len(),
{
    if s.len() > 0 && is_space(s.last()) {
        trimmed_end(s.drop_last())
    } else {
        s
    }
}

/// `s` without the white space around it.
pub open spec fn trimmed(s: Seq<char>) -> Seq<char> {
    trimmed_end(trimmed_start(s))
}

/// Where `c` first occurs in `s`; the length of `s` when it does not.
pub open spec fn first_at(s: Seq<char>, c: char) -> int
    decreases s.len(),
{
    if s.len() == 0 || s[0] == c {
        0
    } else {
        1 + first_at(s.skip(1), c)
    }
}

/// Where `c` last occurs in `s`; -1 when it does not.
pub open spec fn last_at(s: Seq<char>, c: char) -> int
    decreases s.len(),
{
    if s.len() == 0 || s.last() == c {
        s.len() - 1
    } else {
        last_at(s.drop_last(), c)
    }
}

/// The two sides of the first `c` in `s`.
pub open spec fn cut(s: Seq<char>, c: char) -> Option<(Seq<char>, Seq<char>)> {
    let i = first_at(s, c);
    if i < s.len() {
        Some((s.take(i), s.skip(i + 1)))
    } else {
        None
    }
}

/// The two sides of the last `c` in `s`.
pub open spec fn cut_last(s: Seq<char>, c: char) -> Option<(Seq<char>, Seq<char>)> {
    let i = last_at(s, c);
    if i >= 0 {
        Some((s.take(i), s.skip(i + 1)))
    } else {
        None
    }
}

/// The pieces of `s` between the occurrences of `c`: one more than there are
/// occurrences.
pub open spec fn pieces(s: Seq<char>, c: char) -> Seq<Seq<char>>
    decreases s.len(),
{
    let i = first_at(s, c);
    if 0 <= i < s.len() {
        seq![s.take(i)] + pieces(s.skip(i + 1), c)
    } else {
        seq![s]
    }
}

/// A line without the carriage return of a `\r\n` ending.
pub open spec fn without_cr(line: Seq<char>) -> Seq<char> {
    if line.len() > 0 && line.last() == '\r' {
        line.drop_last()
    } else {
        line
    }
}

/// The lines of `s`. A line ends in `\n` or `\r\n`, neither of which belongs to
/// it; the last line may go without an ending.
pub open spec fn lines(s: Seq<char>) -> Seq<Seq<char>>
    decreases s.len(),
{
    let i = first_at(s, '\n');
    if s.len() == 0 {
        Seq::empty()
    } else if 0 <= i < s.len() {
        seq![without_cr(s.take(i))] + lines(s.skip(i + 1))
    } else {
        seq![s]
    }
}

/// Where the first white space of `s` stands; the length of `s` when there is
/// none.
pub open spec fn word_end(s: Seq<char>) -> int
    decreases s.len(),
{
    if s.len() == 0 || is_space(s[0]) {
        0
    } else {
        1 + word_end(s.skip(1))
    }
}

/// The words of `s`: its longest runs without white space.
pub open spec fn words(s: Seq<char>) -> Seq<Seq<char>>
    decreases s.len(),
{
    if s.len() == 0 {
        Seq::empty()
    } else if is_space(s[0]) {
        words(s.skip(1))
    } else {
        let i = word_end(s);
        if 0 < i <= s.len() {
            seq![s.take(i)] + words(s.skip(i))
        } else {
            Seq::empty()
        }
    }
}

/// Whether `p` occurs in `s`.
pub open spec fn occurs(s: Seq<char>, p: Seq<char>) -> bool {
    exists|i: int| #[trigger] occurs_at(s, p, i)
}

/// Whether `p` stands in `s` at `i`.
pub open spec fn occurs_at(s: Seq<char>, p: Seq<char>, i: int) -> bool {
    0 <= i && i + p.len() <= s.len() && s.subrange(i, i + p.len()) == p
}

/// `s` with every `p` in it, taken from the left without overlap, replaced by
/// `w`. An empty `p` is left alone.
pub open spec fn replaced(s: Seq<char>, p: Seq<char>, w: Seq<char>) -> Seq<char>
    decreases s.len(),
{
    if s.len() == 0 || p.len() == 0 {
        s
    } else if p.is_prefix_of(s) {
        w + replaced(s.skip(p.len() as int), p, w)
    } else {
        seq![s[0]] + replaced(s.skip(1), p, w)
    }
}

/// The value of `s` read as decimal digits.
pub open spec fn digits_value(s: Seq<char>) -> nat
    decreases s.len(),
{
    if s.len() == 0 {
        0
    } else {
        digits_value(s.drop_last()) * 10 + (s.last() as u32 - '0' as u32) as nat
    }
}

pub open spec fn all_digits(s: Seq<char>) -> bool {
    forall|i: int| 0 <= i < s.len() ==> is_digit(#[trigger] s[i])
}

/// The number that a text of digits alone writes, when it is no more than `max`.
pub open spec fn plain_number(s: Seq<char>, max: nat) -> Option<nat> {
    if s.len() > 0 && all_digits(s) && digits_value(s) <= max {
        Some(digits_value(s))
    } else {
        None
    }
}

/// The number that `s` writes in decimal digits, with or without a plus sign,
/// when it is no more than `max`.
pub open spec fn number(s: Seq<char>, max: nat) -> Option<nat> {
    if s.len() > 0 && s[0] == '+' {
        plain_number(s.skip(1), max)
    } else {
        plain_number(s, max)
    }
}

/// `n` in decimal digits.
pub open spec fn decimal(n: nat) -> Seq<char>
    decreases n,
{
    if n < 10 {
        seq![('0' as u32 + n) as char]
    } else {
        decimal(n / 10).push(('0' as u32 + n % 10) as char)
    }
}

/// `parts` one after the other, with `sep` between them.
pub open spec fn joined(parts: Seq<Seq<char>>, sep: Seq<char>) -> Seq<char>
    decreases parts.len(),
{
    if parts.len() == 0 {
        Seq::empty()
    } else if parts.len() == 1 {
        parts[0]
    } else {
        joined(parts.drop_last(), sep) + sep + parts.last()
    }
}

/// `ls` one after the other, each closed by a line feed.
pub open spec fn closed_lines(ls: Seq<Seq<char>>) -> Seq<char>
    decreases ls.len(),
{
    if ls.len() == 0 {
        Seq::empty()
    } else {
        closed_lines(ls.drop_last()) + ls.last().push('\n')
    }
}

/// How many bytes `s` takes in UTF-8.
pub open spec fn byte_len(s: Seq<char>) -> nat {
    vstd::utf8::encode_utf8(s).len()
}

// ---------------------------------------------------------------------------
// Characters
// ---------------------------------------------------------------------------

pub fn is_white(c: char) -> (r: bool)
    ensures
        r == is_space(c),
{
    let n: u32 = c as u32;
    (0x09 <= n && n <= 0x0d) || n == 0x20 || n == 0x85 || n == 0xa0 || n == 0x1680 || (0x2000 <= n
        && n <= 0x200a) || n == 0x2028 || n == 0x2029 || n == 0x202f || n == 0x205f || n == 0x3000
}

pub fn is_ctl(c: char) -> (r: bool)
    ensures
        r == is_control(c),
{
    let n: u32 = c as u32;
    n < 0x20 || (0x7f <= n && n <= 0x9f)
}

pub fn is_ascii_digit(c: char) -> (r: bool)
    ensures
        r == is_digit(c),
{
    '0' <= c && c <= '9'
}

pub fn is_ascii_alnum(c: char) -> (r: bool)
    ensures
        r == is_alnum(c),
{
    ('0' <= c && c <= '9') || ('a' <= c && c <= 'z') || ('A' <= c && c <= 'Z')
}

// ---------------------------------------------------------------------------
// Buffers
// ---------------------------------------------------------------------------

/// The characters of `s`.
pub fn chars(s: &str) -> (v: Vec<char>)
    ensures
        v@ == s@,
{
    let mut v: Vec<char> = Vec::new();
    for c in it: s.chars()
        invariant
            it.seq() == s@,
            v@ == s@.take(it.index() as int),
    {
        v.push(c);
    }
    assert(s@.take(s@.len() as int) == s@);
    v
}

/// The text from `from` up to `to`.
pub fn slice(cs: &Vec<char>, from: usize, to: usize) -> (r: String)
    requires
        from <= to <= cs@.len(),
    ensures
        r@ == cs@.subrange(from as int, to as int),
{
    let mut out = String::new();
    let mut i: usize = from;
    while i < to
        invariant
            from <= i <= to <= cs@.len(),
            out@ == cs@.subrange(from as int, i as int),
        decreases to - i,
    {
        out.push(cs[i]);
        assert(cs@.subrange(from as int, i + 1) == cs@.subrange(from as int, i as int).push(
            cs@[i as int],
        ));
        i = i + 1;
    }
    out
}

/// The text that `cs` holds.
pub fn string(cs: &Vec<char>) -> (r: String)
    ensures
        r@ == cs@,
{
    let n: usize = cs.len();
    assert(cs@.subrange(0, cs@.len() as int) == cs@);
    slice(cs, 0, n)
}

/// Whether two texts are the same.
pub fn same(a: &str, b: &str) -> (r: bool)
    ensures
        r == (a@ == b@),
{
    let x = chars(a);
    let y = chars(b);
    if x.len() != y.len() {
        return false;
    }
    let mut i: usize = 0;
    while i < x.len()
        invariant
            x@ == a@,
            y@ == b@,
            x@.len() == y@.len(),
            i <= x@.len(),
            forall|j: int| 0 <= j < i ==> x@[j] == y@[j],
        decreases x@.len() - i,
    {
        if x[i] != y[i] {
            return false;
        }
        i = i + 1;
    }
    assert(a@ =~= b@);
    true
}

/// Whether `s` is one of the texts in `list`.
pub fn is_in(list: &Vec<String>, s: &str) -> (r: bool)
    ensures
        r == views(list@).contains(s@),
{
    let mut i: usize = 0;
    while i < list.len()
        invariant
            i <= list@.len(),
            forall|j: int| 0 <= j < i ==> views(list@)[j] != s@,
        decreases list@.len() - i,
    {
        if same(&list[i], s) {
            assert(views(list@)[i as int] == s@);
            return true;
        }
        i = i + 1;
    }
    false
}

/// How many bytes `s` takes in UTF-8.
pub fn bytes(s: &str) -> (n: usize)
    ensures
        n == byte_len(s@),
{
    s.as_bytes().len()
}

// ---------------------------------------------------------------------------
// Facts about the definitions
// ---------------------------------------------------------------------------

/// What `first_at` finds: `c` stands there, and nowhere before.
pub proof fn lemma_first_at(s: Seq<char>, c: char)
    ensures
        0 <= first_at(s, c) <= s.len(),
        first_at(s, c) < s.len() ==> s[first_at(s, c)] == c,
        forall|j: int| 0 <= j < first_at(s, c) ==> s[j] != c,
        first_at(s, c) < s.len() <==> s.contains(c),
    decreases s.len(),
{
    if s.len() > 0 && s[0] != c {
        let t = s.skip(1);
        lemma_first_at(t, c);
        assert forall|j: int| 0 <= j < first_at(s, c) implies s[j] != c by {
            if j > 0 {
                assert(s[j] == t[j - 1]);
            }
        }
        if s.contains(c) {
            let j = choose|j: int| 0 <= j < s.len() && s[j] == c;
            assert(t[j - 1] == c);
        }
    }
}

/// `first_at` is the only place with `c` in it and no `c` before it.
pub proof fn lemma_first_at_is(s: Seq<char>, c: char, i: int)
    requires
        0 <= i <= s.len(),
        i < s.len() ==> s[i] == c,
        forall|j: int| 0 <= j < i ==> s[j] != c,
    ensures
        first_at(s, c) == i,
{
    lemma_first_at(s, c);
}

/// What `last_at` finds: `c` stands there, and nowhere after.
pub proof fn lemma_last_at(s: Seq<char>, c: char)
    ensures
        -1 <= last_at(s, c) < s.len(),
        last_at(s, c) >= 0 ==> s[last_at(s, c)] == c,
        forall|j: int| last_at(s, c) < j < s.len() ==> s[j] != c,
        last_at(s, c) >= 0 <==> s.contains(c),
    decreases s.len(),
{
    if s.len() > 0 && s.last() != c {
        let t = s.drop_last();
        lemma_last_at(t, c);
        assert forall|j: int| last_at(s, c) < j < s.len() implies s[j] != c by {
            if j < s.len() - 1 {
                assert(s[j] == t[j]);
            }
        }
        if s.contains(c) {
            let j = choose|j: int| 0 <= j < s.len() && s[j] == c;
            assert(t[j] == c);
        }
    } else if s.len() > 0 {
        assert(s[s.len() - 1] == c);
    }
}

proof fn lemma_word_end(s: Seq<char>)
    ensures
        0 <= word_end(s) <= s.len(),
        word_end(s) < s.len() ==> is_space(s[word_end(s)]),
        forall|j: int| 0 <= j < word_end(s) ==> !is_space(#[trigger] s[j]),
    decreases s.len(),
{
    if s.len() > 0 && !is_space(s[0]) {
        let t = s.skip(1);
        lemma_word_end(t);
        assert forall|j: int| 0 <= j < word_end(s) implies !is_space(#[trigger] s[j]) by {
            if j > 0 {
                assert(s[j] == t[j - 1]);
            }
        }
    }
}

proof fn lemma_word_end_is(s: Seq<char>, i: int)
    requires
        0 <= i <= s.len(),
        i < s.len() ==> is_space(s[i]),
        forall|j: int| 0 <= j < i ==> !is_space(#[trigger] s[j]),
    ensures
        word_end(s) == i,
{
    lemma_word_end(s);
}

proof fn lemma_trimmed_start_skip(s: Seq<char>, i: int)
    requires
        0 <= i <= s.len(),
        forall|j: int| 0 <= j < i ==> is_space(#[trigger] s[j]),
    ensures
        trimmed_start(s) == trimmed_start(s.skip(i)),
    decreases i,
{
    if i > 0 {
        assert forall|j: int| 0 <= j < i - 1 implies is_space(#[trigger] s.skip(1)[j]) by {
            assert(s.skip(1)[j] == s[j + 1]);
        }
        lemma_trimmed_start_skip(s.skip(1), i - 1);
        assert(s.skip(1).skip(i - 1) =~= s.skip(i));
        assert(is_space(s[0]));
    } else {
        assert(s.skip(0) =~= s);
    }
}

proof fn lemma_trimmed_end_take(s: Seq<char>, i: int)
    requires
        0 <= i <= s.len(),
        forall|j: int| i <= j < s.len() ==> is_space(#[trigger] s[j]),
    ensures
        trimmed_end(s) == trimmed_end(s.take(i)),
    decreases s.len() - i,
{
    if i < s.len() {
        assert(is_space(s[s.len() - 1]));
        assert forall|j: int| i <= j < s.drop_last().len() implies is_space(
            #[trigger] s.drop_last()[j],
        ) by {
            assert(s.drop_last()[j] == s[j]);
        }
        lemma_trimmed_end_take(s.drop_last(), i);
        assert(s.drop_last().take(i) =~= s.take(i));
    } else {
        assert(s.take(i) =~= s);
    }
}

// ---------------------------------------------------------------------------
// Searching and splitting
// ---------------------------------------------------------------------------

/// The place of the first `c` at or after `from`; the length when there is none.
pub fn find(cs: &Vec<char>, from: usize, c: char) -> (r: usize)
    requires
        from <= cs@.len(),
    ensures
        r == from + first_at(cs@.skip(from as int), c),
        from <= r <= cs@.len(),
{
    let mut i: usize = from;
    while i < cs.len() && cs[i] != c
        invariant
            from <= i <= cs@.len(),
            forall|j: int| from <= j < i ==> cs@[j] != c,
        decreases cs@.len() - i,
    {
        i = i + 1;
    }
    proof {
        let s = cs@.skip(from as int);
        assert forall|j: int| 0 <= j < i - from implies s[j] != c by {
            assert(s[j] == cs@[from + j]);
        }
        lemma_first_at_is(s, c, i - from);
    }
    i
}

/// Whether `c` occurs in `s`.
pub fn has_char(s: &str, c: char) -> (r: bool)
    ensures
        r == s@.contains(c),
{
    let cs = chars(s);
    let i: usize = find(&cs, 0, c);
    proof {
        assert(cs@.skip(0) =~= s@);
        lemma_first_at(s@, c);
    }
    i < cs.len()
}

/// The two sides of the first `c`, as `str::split_once`.
pub fn split_once(s: &str, c: char) -> (r: Option<(String, String)>)
    ensures
        r is Some <==> cut(s@, c) is Some,
        r matches Some(p) ==> cut(s@, c) == Some((p.0@, p.1@)),
{
    let cs = chars(s);
    let n: usize = cs.len();
    let i: usize = find(&cs, 0, c);
    assert(cs@.skip(0) =~= s@);
    if i < n {
        let a = slice(&cs, 0, i);
        let b = slice(&cs, i + 1, n);
        assert(a@ =~= s@.take(i as int));
        assert(b@ =~= s@.skip(i + 1));
        Some((a, b))
    } else {
        None
    }
}

/// The two sides of the last `c`, as `str::rsplit_once`.
pub fn rsplit_once(s: &str, c: char) -> (r: Option<(String, String)>)
    ensures
        r is Some <==> cut_last(s@, c) is Some,
        r matches Some(p) ==> cut_last(s@, c) == Some((p.0@, p.1@)),
{
    let cs = chars(s);
    let n: usize = cs.len();
    let mut i: usize = n;
    while i > 0 && cs[i - 1] != c
        invariant
            i <= n,
            n == cs@.len(),
            cs@ == s@,
            forall|j: int| i <= j < n ==> cs@[j] != c,
        decreases i,
    {
        i = i - 1;
    }
    proof {
        lemma_last_at(s@, c);
    }
    if i > 0 {
        let a = slice(&cs, 0, i - 1);
        let b = slice(&cs, i, n);
        assert(last_at(s@, c) == i - 1);
        assert(a@ =~= s@.take(i - 1));
        assert(b@ =~= s@.skip(i as int));
        Some((a, b))
    } else {
        None
    }
}

/// The pieces between the occurrences of `c`, as `str::split`.
pub fn split(s: &str, c: char) -> (r: Vec<String>)
    ensures
        views(r@) == pieces(s@, c),
{
    let cs = chars(s);
    let n: usize = cs.len();
    let mut out: Vec<String> = Vec::new();
    let mut from: usize = 0;
    let mut i: usize = find(&cs, 0, c);
    assert(cs@.skip(0) =~= s@);
    while i < n
        invariant
            from <= i <= n,
            n == cs@.len(),
            cs@ == s@,
            i == from + first_at(s@.skip(from as int), c),
            views(out@) + pieces(s@.skip(from as int), c) == pieces(s@, c),
        decreases n - from, n - i,
    {
        let part = slice(&cs, from, i);
        let ghost rest = s@.skip(from as int);
        let ghost before = views(out@);
        assert(part@ =~= rest.take(i - from));
        assert(rest.skip(i - from + 1) =~= s@.skip(i + 1));
        out.push(part);
        proof {
            assert(views(out@) =~= before + seq![part@]);
            assert(before + (seq![part@] + pieces(s@.skip(i + 1), c)) =~= views(out@) + pieces(
                s@.skip(i + 1),
                c,
            ));
        }
        from = i + 1;
        i = find(&cs, from, c);
    }
    let last = slice(&cs, from, n);
    let ghost before = views(out@);
    assert(last@ =~= s@.skip(from as int));
    out.push(last);
    assert(views(out@) =~= before + seq![last@]);
    out
}

/// The lines of `s`, as `str::lines`.
pub fn split_lines(s: &str) -> (r: Vec<String>)
    ensures
        views(r@) == lines(s@),
{
    let cs = chars(s);
    let n: usize = cs.len();
    let mut out: Vec<String> = Vec::new();
    let mut from: usize = 0;
    assert(cs@.skip(0) =~= s@);
    while from < n
        invariant
            from <= n,
            n == cs@.len(),
            cs@ == s@,
            views(out@) + lines(s@.skip(from as int)) == lines(s@),
        decreases n - from,
    {
        let i: usize = find(&cs, from, '\n');
        let ghost rest = s@.skip(from as int);
        let ghost before = views(out@);
        if i < n {
            let end: usize = if i > from && cs[i - 1] == '\r' {
                i - 1
            } else {
                i
            };
            let line = slice(&cs, from, end);
            proof {
                assert(line@ =~= without_cr(rest.take(i - from)));
                assert(rest.skip(i - from + 1) =~= s@.skip(i + 1));
            }
            out.push(line);
            proof {
                assert(views(out@) =~= before + seq![line@]);
                assert(before + (seq![line@] + lines(s@.skip(i + 1))) =~= views(out@) + lines(
                    s@.skip(i + 1),
                ));
            }
            from = i + 1;
        } else {
            let line = slice(&cs, from, n);
            assert(line@ =~= rest);
            out.push(line);
            proof {
                assert(views(out@) =~= before + seq![line@]);
                assert(lines(s@.skip(n as int)) =~= Seq::<Seq<char>>::empty());
                assert(views(out@) + lines(s@.skip(n as int)) =~= views(out@));
            }
            from = n;
        }
    }
    assert(views(out@) + lines(s@.skip(n as int)) =~= views(out@));
    out
}

/// The words of `s`, as `str::split_whitespace`.
pub fn split_words(s: &str) -> (r: Vec<String>)
    ensures
        views(r@) == words(s@),
{
    let cs = chars(s);
    let n: usize = cs.len();
    let mut out: Vec<String> = Vec::new();
    let mut from: usize = 0;
    assert(cs@.skip(0) =~= s@);
    while from < n
        invariant
            from <= n,
            n == cs@.len(),
            cs@ == s@,
            views(out@) + words(s@.skip(from as int)) == words(s@),
        decreases n - from,
    {
        let ghost rest = s@.skip(from as int);
        assert(rest[0] == cs@[from as int]);
        if is_white(cs[from]) {
            assert(rest.skip(1) =~= s@.skip(from + 1));
            from = from + 1;
        } else {
            let mut i: usize = from;
            while i < n && !is_white(cs[i])
                invariant
                    from <= i <= n,
                    n == cs@.len(),
                    forall|j: int| from <= j < i ==> !is_space(#[trigger] cs@[j]),
                decreases n - i,
            {
                i = i + 1;
            }
            proof {
                assert forall|j: int| 0 <= j < i - from implies !is_space(#[trigger] rest[j]) by {
                    assert(rest[j] == cs@[from + j]);
                }
                lemma_word_end_is(rest, i - from);
                assert(rest.skip(i - from) =~= s@.skip(i as int));
            }
            let word = slice(&cs, from, i);
            let ghost before = views(out@);
            assert(word@ =~= rest.take(i - from));
            out.push(word);
            proof {
                assert(views(out@) =~= before + seq![word@]);
                assert(before + (seq![word@] + words(s@.skip(i as int))) =~= views(out@) + words(
                    s@.skip(i as int),
                ));
            }
            from = i;
        }
    }
    assert(views(out@) + words(s@.skip(n as int)) =~= views(out@));
    out
}

/// `s` without the white space around it, as `str::trim`.
pub fn trim(s: &str) -> (r: String)
    ensures
        r@ == trimmed(s@),
{
    let cs = chars(s);
    let n: usize = cs.len();
    let mut a: usize = 0;
    while a < n && is_white(cs[a])
        invariant
            a <= n,
            n == cs@.len(),
            forall|j: int| 0 <= j < a ==> is_space(#[trigger] cs@[j]),
        decreases n - a,
    {
        a = a + 1;
    }
    proof {
        lemma_trimmed_start_skip(s@, a as int);
        assert(trimmed_start(s@) == s@.skip(a as int));
    }
    let mut b: usize = n;
    while b > a && is_white(cs[b - 1])
        invariant
            a <= b <= n,
            n == cs@.len(),
            forall|j: int| b <= j < n ==> is_space(#[trigger] cs@[j]),
        decreases b,
    {
        b = b - 1;
    }
    proof {
        let t = s@.skip(a as int);
        assert forall|j: int| b - a <= j < t.len() implies is_space(#[trigger] t[j]) by {
            assert(t[j] == cs@[a + j]);
        }
        lemma_trimmed_end_take(t, b - a);
        assert(t.take(b - a) =~= s@.subrange(a as int, b as int));
    }
    slice(&cs, a, b)
}

/// `s` without the white space at its start, as `str::trim_start`.
pub fn trim_start(s: &str) -> (r: String)
    ensures
        r@ == trimmed_start(s@),
{
    let cs = chars(s);
    let n: usize = cs.len();
    let mut a: usize = 0;
    while a < n && is_white(cs[a])
        invariant
            a <= n,
            n == cs@.len(),
            forall|j: int| 0 <= j < a ==> is_space(#[trigger] cs@[j]),
        decreases n - a,
    {
        a = a + 1;
    }
    proof {
        lemma_trimmed_start_skip(s@, a as int);
        assert(s@.skip(a as int) =~= s@.subrange(a as int, n as int));
    }
    slice(&cs, a, n)
}

/// `s` without the white space at its end, as `str::trim_end`.
pub fn trim_end(s: &str) -> (r: String)
    ensures
        r@ == trimmed_end(s@),
{
    let cs = chars(s);
    let n: usize = cs.len();
    let mut b: usize = n;
    while b > 0 && is_white(cs[b - 1])
        invariant
            b <= n,
            n == cs@.len(),
            forall|j: int| b <= j < n ==> is_space(#[trigger] cs@[j]),
        decreases b,
    {
        b = b - 1;
    }
    proof {
        lemma_trimmed_end_take(s@, b as int);
        assert(s@.take(b as int) =~= s@.subrange(0, b as int));
    }
    slice(&cs, 0, b)
}

/// Whether `p` stands in `cs` at `at`.
fn stands_at(cs: &Vec<char>, p: &Vec<char>, at: usize) -> (r: bool)
    requires
        at <= cs@.len(),
    ensures
        r == occurs_at(cs@, p@, at as int),
{
    let n: usize = cs.len();
    if p.len() > n - at {
        return false;
    }
    let mut i: usize = 0;
    while i < p.len()
        invariant
            n == cs@.len(),
            at + p@.len() <= n,
            i <= p@.len(),
            forall|j: int| 0 <= j < i ==> cs@[at + j] == p@[j],
        decreases p@.len() - i,
    {
        if cs[at + i] != p[i] {
            assert(cs@.subrange(at as int, at + p@.len())[i as int] != p@[i as int]);
            return false;
        }
        i = i + 1;
    }
    assert(cs@.subrange(at as int, at + p@.len()) =~= p@);
    true
}

/// Whether `p` occurs in `s`, as `str::contains`.
pub fn contains(s: &str, p: &str) -> (r: bool)
    ensures
        r == occurs(s@, p@),
{
    let cs = chars(s);
    let ps = chars(p);
    let n: usize = cs.len();
    let mut i: usize = 0;
    loop
        invariant
            n == cs@.len(),
            cs@ == s@,
            ps@ == p@,
            i <= n,
            forall|j: int| 0 <= j < i ==> !occurs_at(s@, p@, j),
        decreases n - i,
    {
        if stands_at(&cs, &ps, i) {
            assert(occurs_at(s@, p@, i as int));
            return true;
        }
        if i == n {
            assert forall|j: int| !(#[trigger] occurs_at(s@, p@, j)) by {}
            return false;
        }
        i = i + 1;
    }
}

/// Whether `s` begins with `p`, as `str::starts_with`.
pub fn starts_with(s: &str, p: &str) -> (r: bool)
    ensures
        r == p@.is_prefix_of(s@),
{
    let cs = chars(s);
    let ps = chars(p);
    stands_at(&cs, &ps, 0)
}

/// Whether `s` ends with `p`, as `str::ends_with`.
pub fn ends_with(s: &str, p: &str) -> (r: bool)
    ensures
        r == p@.is_suffix_of(s@),
{
    let cs = chars(s);
    let ps = chars(p);
    if ps.len() > cs.len() {
        false
    } else {
        let at: usize = cs.len() - ps.len();
        assert(s@.subrange(at as int, s@.len() as int) =~= s@.subrange(at as int, at + p@.len()));
        stands_at(&cs, &ps, at)
    }
}

/// What follows `p` in an `s` that begins with it, as `str::strip_prefix`.
pub fn strip_prefix(s: &str, p: &str) -> (r: Option<String>)
    ensures
        r is Some <==> p@.is_prefix_of(s@),
        r matches Some(t) ==> t@ == s@.skip(p@.len() as int),
{
    if starts_with(s, p) {
        let cs = chars(s);
        let ps = chars(p);
        let k: usize = ps.len();
        let n: usize = cs.len();
        let t = slice(&cs, k, n);
        assert(t@ =~= s@.skip(k as int));
        Some(t)
    } else {
        None
    }
}

/// What comes before `p` in an `s` that ends with it, as `str::strip_suffix`.
pub fn strip_suffix(s: &str, p: &str) -> (r: Option<String>)
    ensures
        r is Some <==> p@.is_suffix_of(s@),
        r matches Some(t) ==> t@ == s@.take(s@.len() - p@.len()),
{
    if ends_with(s, p) {
        let cs = chars(s);
        let ps = chars(p);
        let k: usize = cs.len() - ps.len();
        let t = slice(&cs, 0, k);
        assert(t@ =~= s@.take(k as int));
        Some(t)
    } else {
        None
    }
}

// ---------------------------------------------------------------------------
// Numbers
// ---------------------------------------------------------------------------

proof fn lemma_digits_value_grows(s: Seq<char>, i: int)
    requires
        0 <= i <= s.len(),
        forall|j: int| 0 <= j < s.len() ==> is_digit(#[trigger] s[j]),
    ensures
        digits_value(s.take(i)) <= digits_value(s),
    decreases s.len(),
{
    if i == s.len() {
        assert(s.take(i) =~= s);
    } else {
        let t = s.drop_last();
        assert forall|j: int| 0 <= j < t.len() implies is_digit(#[trigger] t[j]) by {
            assert(t[j] == s[j]);
        }
        lemma_digits_value_grows(t, i);
        assert(t.take(i) =~= s.take(i));
        assert(is_digit(s[s.len() - 1]));
    }
}

/// The number that `s` writes, as `str::parse::<u64>`.
pub fn parse_u64(s: &str) -> (r: Option<u64>)
    ensures
        r is Some <==> number(s@, u64::MAX as nat) is Some,
        r matches Some(n) ==> number(s@, u64::MAX as nat) == Some(n as nat),
{
    let cs = chars(s);
    let n: usize = cs.len();
    let from: usize = if n > 0 && cs[0] == '+' {
        1
    } else {
        0
    };
    let ghost d = s@.skip(from as int);
    assert(from == 0 ==> d =~= s@);
    if from == n {
        return None;
    }
    let mut value: u64 = 0;
    let mut i: usize = from;
    while i < n
        invariant
            from <= i <= n,
            n == cs@.len(),
            cs@ == s@,
            d == s@.skip(from as int),
            number(s@, u64::MAX as nat) == plain_number(d, u64::MAX as nat),
            forall|k: int| 0 <= k < i - from ==> is_digit(#[trigger] d[k]),
            value == digits_value(d.take(i - from)),
        decreases n - i,
    {
        let c: char = cs[i];
        assert(d[i - from] == c);
        if !is_ascii_digit(c) {
            return None;
        }
        let digit: u64 = (c as u32 - '0' as u32) as u64;
        proof {
            let next = d.take(i - from + 1);
            assert(next.drop_last() =~= d.take(i - from));
            assert(next.last() == c);
            assert(digits_value(next) == value * 10 + digit);
            if all_digits(d) {
                lemma_digits_value_grows(d, i - from + 1);
            }
        }
        if value > 1_844_674_407_370_955_161 || (value == 1_844_674_407_370_955_161 && digit > 5) {
            return None;
        }
        value = value * 10 + digit;
        i = i + 1;
    }
    assert(d.take(n - from) =~= d);
    Some(value)
}

/// The number that `s` writes, as `str::parse::<u32>`.
pub fn parse_u32(s: &str) -> (r: Option<u32>)
    ensures
        r is Some <==> number(s@, u32::MAX as nat) is Some,
        r matches Some(n) ==> number(s@, u32::MAX as nat) == Some(n as nat),
{
    match parse_u64(s) {
        Some(n) => {
            if n <= 4_294_967_295 {
                Some(n as u32)
            } else {
                None
            }
        },
        None => None,
    }
}

proof fn lemma_decimal_digit(n: nat)
    requires
        n < 10,
    ensures
        is_digit(('0' as u32 + n) as char),
        (('0' as u32 + n) as char) as u32 - '0' as u32 == n,
{
}

/// Writing a number and reading it back gives the number.
pub proof fn lemma_decimal_number(n: nat, max: nat)
    requires
        n <= max,
    ensures
        number(decimal(n), max) == Some(n),
        decimal(n).len() > 0,
        forall|i: int| 0 <= i < decimal(n).len() ==> is_digit(#[trigger] decimal(n)[i]),
{
    lemma_decimal_digits(n);
    assert(is_digit(decimal(n)[0]));
}

proof fn lemma_decimal_digits(n: nat)
    ensures
        decimal(n).len() > 0,
        forall|i: int| 0 <= i < decimal(n).len() ==> is_digit(#[trigger] decimal(n)[i]),
        digits_value(decimal(n)) == n,
    decreases n,
{
    if n < 10 {
        lemma_decimal_digit(n);
        let s = decimal(n);
        assert(s.drop_last() =~= Seq::<char>::empty());
        assert(digits_value(s.drop_last()) == 0);
    } else {
        lemma_decimal_digits(n / 10);
        lemma_decimal_digit(n % 10);
        let s = decimal(n);
        assert(s.drop_last() =~= decimal(n / 10));
    }
}

/// `n` in decimal digits.
pub fn show_u64(n: u64) -> (r: String)
    ensures
        r@ == decimal(n as nat),
    decreases n,
{
    let d: u8 = (n % 10) as u8;
    let c: char = (48u8 + d) as char;
    let mut out = if n < 10 {
        String::new()
    } else {
        show_u64(n / 10)
    };
    out.push(c);
    assert(n < 10 ==> out@ =~= decimal(n as nat));
    out
}

/// `n` in decimal digits.
pub fn show_u32(n: u32) -> (r: String)
    ensures
        r@ == decimal(n as nat),
{
    show_u64(n as u64)
}

/// `n` in decimal digits.
pub fn show_usize(n: usize) -> (r: String)
    ensures
        r@ == decimal(n as nat),
{
    show_u64(n as u64)
}

// ---------------------------------------------------------------------------
// Putting text together
// ---------------------------------------------------------------------------

/// `a` followed by `b`.
pub fn cat(a: &str, b: &str) -> (r: String)
    ensures
        r@ == a@ + b@,
{
    let mut out = a.to_string();
    out.append(b);
    out
}

/// `parts` with `sep` between them, as `[String]::join`.
pub fn join(parts: &Vec<String>, sep: &str) -> (r: String)
    ensures
        r@ == joined(views(parts@), sep@),
{
    let mut out = String::new();
    let mut i: usize = 0;
    while i < parts.len()
        invariant
            i <= parts@.len(),
            out@ == joined(views(parts@).take(i as int), sep@),
        decreases parts@.len() - i,
    {
        let ghost done = views(parts@).take(i as int);
        let ghost next = views(parts@).take(i + 1);
        assert(next.drop_last() =~= done);
        if i > 0 {
            out.append(sep);
        } else {
            assert(done =~= Seq::<Seq<char>>::empty());
            assert(out@ + parts@[0]@ =~= parts@[0]@);
        }
        out.append(&parts[i]);
        assert(next.last() == parts@[i as int]@);
        i = i + 1;
    }
    assert(views(parts@).take(i as int) =~= views(parts@));
    out
}

/// Every line of `ls` closed by a line feed.
pub fn close_lines(ls: &Vec<String>) -> (r: String)
    ensures
        r@ == closed_lines(views(ls@)),
{
    let mut out = String::new();
    let mut i: usize = 0;
    while i < ls.len()
        invariant
            i <= ls@.len(),
            out@ == closed_lines(views(ls@).take(i as int)),
        decreases ls@.len() - i,
    {
        let ghost next = views(ls@).take(i + 1);
        assert(next.drop_last() =~= views(ls@).take(i as int));
        let ghost before = out@;
        out.append(&ls[i]);
        out.push('\n');
        assert(out@ =~= before + ls@[i as int]@.push('\n'));
        i = i + 1;
    }
    assert(views(ls@).take(i as int) =~= views(ls@));
    out
}

/// `s` with every `p` replaced by `w`, as `str::replace`.
pub fn replace(s: &str, p: &str, w: &str) -> (r: String)
    requires
        p@.len() > 0,
    ensures
        r@ == replaced(s@, p@, w@),
{
    let cs = chars(s);
    let ps = chars(p);
    let n: usize = cs.len();
    let mut out = String::new();
    let mut i: usize = 0;
    assert(cs@.skip(0) =~= s@);
    assert(out@ + replaced(s@, p@, w@) =~= replaced(s@, p@, w@));
    while i < n
        invariant
            i <= n,
            n == cs@.len(),
            cs@ == s@,
            ps@ == p@,
            p@.len() > 0,
            out@ + replaced(s@.skip(i as int), p@, w@) == replaced(s@, p@, w@),
        decreases n - i,
    {
        let ghost rest = s@.skip(i as int);
        let ghost before = out@;
        if stands_at(&cs, &ps, i) {
            let k: usize = ps.len();
            out.append(w);
            proof {
                assert(rest.subrange(0, p@.len() as int) =~= p@);
                assert(rest.skip(k as int) =~= s@.skip(i + k));
                assert(before + (w@ + replaced(s@.skip(i + k), p@, w@)) =~= out@ + replaced(
                    s@.skip(i + k),
                    p@,
                    w@,
                ));
            }
            i = i + k;
        } else {
            out.push(cs[i]);
            proof {
                if p@.is_prefix_of(rest) {
                    assert(s@.subrange(i as int, i + p@.len()) =~= rest.subrange(
                        0,
                        p@.len() as int,
                    ));
                }
                assert(rest.skip(1) =~= s@.skip(i + 1));
                assert(before + (seq![rest[0]] + replaced(s@.skip(i + 1), p@, w@)) =~= out@
                    + replaced(s@.skip(i + 1), p@, w@));
            }
            i = i + 1;
        }
    }
    assert(s@.skip(n as int) =~= Seq::<char>::empty());
    assert(out@ + replaced(s@.skip(n as int), p@, w@) =~= out@);
    out
}

/// `s` with its ASCII capital letters made small, as `str::to_ascii_lowercase`.
pub fn to_lower(s: &str) -> (r: String)
    ensures
        r@ == lower(s@),
{
    let cs = chars(s);
    let mut out = String::new();
    let mut i: usize = 0;
    while i < cs.len()
        invariant
            i <= cs@.len(),
            cs@ == s@,
            out@ == lower(s@).take(i as int),
        decreases cs@.len() - i,
    {
        let c: char = cs[i];
        if 'A' <= c && c <= 'Z' {
            let low: u8 = (c as u32 + 32) as u8;
            out.push(low as char);
        } else {
            out.push(c);
        }
        assert(out@ =~= lower(s@).take(i + 1));
        i = i + 1;
    }
    assert(lower(s@).take(i as int) =~= lower(s@));
    out
}

// ---------------------------------------------------------------------------
// Lines written and read back
// ---------------------------------------------------------------------------

/// A line that survives being written out and read back: no line feed in it,
/// and no carriage return at its end that would be taken for part of the
/// line's ending.
pub open spec fn is_plain_line(l: Seq<char>) -> bool {
    !l.contains('\n') && (l.len() > 0 ==> l.last() != '\r')
}

proof fn lemma_closed_lines_front(ls: Seq<Seq<char>>)
    requires
        ls.len() > 0,
    ensures
        closed_lines(ls) == ls[0].push('\n') + closed_lines(ls.skip(1)),
    decreases ls.len(),
{
    let rest = ls.skip(1);
    if ls.len() == 1 {
        assert(ls.drop_last() =~= Seq::<Seq<char>>::empty());
        assert(rest =~= Seq::<Seq<char>>::empty());
        assert(closed_lines(ls) =~= ls[0].push('\n') + closed_lines(rest));
    } else {
        lemma_closed_lines_front(ls.drop_last());
        assert(ls.drop_last().skip(1) =~= rest.drop_last());
        assert(closed_lines(ls) =~= ls[0].push('\n') + closed_lines(rest));
    }
}

/// Lines written one after the other.
pub proof fn lemma_closed_lines_join(a: Seq<Seq<char>>, b: Seq<Seq<char>>)
    ensures
        closed_lines(a + b) == closed_lines(a) + closed_lines(b),
    decreases b.len(),
{
    if b.len() > 0 {
        lemma_closed_lines_join(a, b.drop_last());
        assert((a + b).drop_last() =~= a + b.drop_last());
        assert(closed_lines(a + b) =~= closed_lines(a) + closed_lines(b));
    } else {
        assert(a + b =~= a);
        assert(closed_lines(a + b) =~= closed_lines(a) + closed_lines(b));
    }
}

/// These lines, each without a carriage return at its end: what is read of them
/// once they were written, since it is taken for part of the line's ending.
pub open spec fn bare(ls: Seq<Seq<char>>) -> Seq<Seq<char>> {
    Seq::new(ls.len(), |i: int| without_cr(ls[i]))
}

/// Lines written with a line feed behind each are the first lines of the text,
/// whatever follows them, each without a carriage return at its end.
proof fn lemma_bare_lines_before(ls: Seq<Seq<char>>, rest: Seq<char>)
    requires
        forall|i: int| 0 <= i < ls.len() ==> !(#[trigger] ls[i]).contains('\n'),
    ensures
        lines(closed_lines(ls) + rest) == bare(ls) + lines(rest),
    decreases ls.len(),
{
    if ls.len() > 0 {
        let more = ls.skip(1);
        let s = closed_lines(ls) + rest;
        lemma_closed_lines_front(ls);
        let n = ls[0].len() as int;
        assert forall|j: int| 0 <= j < n implies s[j] != '\n' by {
            assert(s[j] == ls[0][j]);
            assert(ls[0].contains(ls[0][j]));
        }
        assert(s[n] == '\n');
        lemma_first_at_is(s, '\n', n);
        assert(s.take(n) =~= ls[0]);
        assert(s.skip(n + 1) =~= closed_lines(more) + rest);
        assert forall|i: int| 0 <= i < more.len() implies !(#[trigger] more[i]).contains('\n') by {
            assert(more[i] == ls[i + 1]);
        }
        lemma_bare_lines_before(more, rest);
        assert(seq![without_cr(ls[0])] + (bare(more) + lines(rest)) =~= bare(ls) + lines(rest));
    } else {
        assert(closed_lines(ls) + rest =~= rest);
        assert(bare(ls) + lines(rest) =~= lines(rest));
    }
}

/// Lines written with a line feed behind each are the first lines of the text,
/// whatever follows them.
pub proof fn lemma_lines_before(ls: Seq<Seq<char>>, rest: Seq<char>)
    requires
        forall|i: int| 0 <= i < ls.len() ==> is_plain_line(#[trigger] ls[i]),
    ensures
        lines(closed_lines(ls) + rest) == ls + lines(rest),
{
    assert forall|i: int| 0 <= i < ls.len() implies !(#[trigger] ls[i]).contains('\n') by {
        assert(is_plain_line(ls[i]));
    }
    lemma_bare_lines_before(ls, rest);
    assert(bare(ls) =~= ls) by {
        assert forall|i: int| 0 <= i < ls.len() implies without_cr(ls[i]) == #[trigger] ls[i] by {
            assert(is_plain_line(ls[i]));
        }
    }
}

/// Lines written with a line feed behind each are read back as they were, but
/// for a carriage return at the end of one.
pub proof fn lemma_closed_lines_are_bare(ls: Seq<Seq<char>>)
    requires
        forall|i: int| 0 <= i < ls.len() ==> !(#[trigger] ls[i]).contains('\n'),
    ensures
        lines(closed_lines(ls)) == bare(ls),
{
    let nothing = Seq::<char>::empty();
    lemma_bare_lines_before(ls, nothing);
    assert(closed_lines(ls) + nothing =~= closed_lines(ls));
    assert(lines(nothing) =~= Seq::<Seq<char>>::empty());
    assert(bare(ls) + lines(nothing) =~= bare(ls));
}

/// Lines written with a line feed behind each are read back as they were.
pub proof fn law_closed_lines_read_back(ls: Seq<Seq<char>>)
    requires
        forall|i: int| 0 <= i < ls.len() ==> is_plain_line(#[trigger] ls[i]),
    ensures
        lines(closed_lines(ls)) == ls,
{
    let nothing = Seq::<char>::empty();
    lemma_lines_before(ls, nothing);
    assert(closed_lines(ls) + nothing =~= closed_lines(ls));
    assert(lines(nothing) =~= Seq::<Seq<char>>::empty());
    assert(ls + lines(nothing) =~= ls);
}

/// No line holds a line feed.
pub proof fn lemma_lines_hold_no_feed(s: Seq<char>)
    ensures
        forall|i: int| 0 <= i < lines(s).len() ==> !(#[trigger] lines(s)[i]).contains('\n'),
    decreases s.len(),
{
    let i = first_at(s, '\n');
    lemma_first_at(s, '\n');
    if s.len() > 0 && i < s.len() {
        let rest = s.skip(i + 1);
        lemma_lines_hold_no_feed(rest);
        let head = without_cr(s.take(i));
        assert forall|j: int| 0 <= j < head.len() implies head[j] != '\n' by {
            assert(head[j] == s[j]);
        }
        assert forall|k: int| 0 <= k < lines(s).len() implies !(#[trigger] lines(s)[k]).contains(
            '\n',
        ) by {
            if k > 0 {
                assert(lines(s)[k] == lines(rest)[k - 1]);
            }
        }
    }
}

// ---------------------------------------------------------------------------
// What the operations are
// ---------------------------------------------------------------------------

proof fn lemma_first_behind(a: Seq<char>, c: char, b: Seq<char>)
    requires
        !a.contains(c),
    ensures
        first_at(a.push(c) + b, c) == a.len(),
        (a.push(c) + b).take(a.len() as int) == a,
        (a.push(c) + b).skip(a.len() as int + 1) == b,
{
    let s = a.push(c) + b;
    assert forall|j: int| 0 <= j < a.len() implies s[j] != c by {
        assert(s[j] == a[j]);
        assert(a.contains(a[j]));
    }
    assert(s[a.len() as int] == c);
    lemma_first_at_is(s, c, a.len() as int);
    assert(s.take(a.len() as int) =~= a);
    assert(s.skip(a.len() as int + 1) =~= b);
}

proof fn lemma_absent(s: Seq<char>, c: char)
    requires
        !s.contains(c),
    ensures
        first_at(s, c) == s.len(),
        last_at(s, c) == -1,
{
    lemma_first_at(s, c);
    lemma_last_at(s, c);
    if first_at(s, c) < s.len() {
        assert(s.contains(s[first_at(s, c)]));
    }
    if last_at(s, c) >= 0 {
        assert(s.contains(s[last_at(s, c)]));
    }
}

/// A text is cut at the first separator: what comes before it holds none, and
/// what comes behind it is free.
pub proof fn law_cut_is_at_the_first(a: Seq<char>, c: char, b: Seq<char>)
    requires
        !a.contains(c),
    ensures
        cut(a.push(c) + b, c) == Some((a, b)),
        cut(a, c) is None,
{
    lemma_first_behind(a, c, b);
    lemma_absent(a, c);
}

/// Cut at the last separator, it is the other way round.
pub proof fn law_cut_last_is_at_the_last(a: Seq<char>, c: char, b: Seq<char>)
    requires
        !b.contains(c),
    ensures
        cut_last(a.push(c) + b, c) == Some((a, b)),
        cut_last(b, c) is None,
{
    let s = a.push(c) + b;
    lemma_last_at(s, c);
    lemma_absent(b, c);
    let i = last_at(s, c);
    assert(s[a.len() as int] == c);
    assert(i == a.len()) by {
        if i > a.len() {
            assert(s[i] == b[i - a.len() - 1]);
            assert(b.contains(b[i - a.len() - 1]));
        }
    }
    assert(s.take(i) =~= a);
    assert(s.skip(i + 1) =~= b);
}

/// The pieces of a text are what lies between its separators.
pub proof fn law_pieces_lie_between(a: Seq<char>, c: char, b: Seq<char>)
    requires
        !a.contains(c),
    ensures
        pieces(a.push(c) + b, c) == seq![a] + pieces(b, c),
        pieces(a, c) == seq![a],
{
    lemma_first_behind(a, c, b);
    lemma_absent(a, c);
}

/// A line ends at its line feed, and a carriage return before that is not part
/// of it.
pub proof fn law_line_ends_at_its_feed(l: Seq<char>, rest: Seq<char>)
    requires
        !l.contains('\n'),
    ensures
        lines(l.push('\n') + rest) == seq![
            if l.len() > 0 && l.last() == '\r' {
                l.drop_last()
            } else {
                l
            },
        ] + lines(rest),
{
    lemma_first_behind(l, '\n', rest);
}

/// What comes behind the last line feed is a line too, unless it is empty.
pub proof fn law_last_line_needs_no_feed(l: Seq<char>)
    requires
        !l.contains('\n'),
    ensures
        lines(l) == (if l.len() > 0 {
            seq![l]
        } else {
            Seq::empty()
        }),
{
    lemma_absent(l, '\n');
}

/// The lines of a text that is put together at a line feed are those of its
/// parts.
pub proof fn law_lines_of_parts(a: Seq<char>, b: Seq<char>)
    requires
        a.len() > 0 ==> a.last() == '\n',
    ensures
        lines(a + b) == lines(a) + lines(b),
    decreases a.len(),
{
    if a.len() == 0 {
        assert(a + b =~= b);
        assert(lines(a) + lines(b) =~= lines(b));
    } else {
        let i = first_at(a, '\n');
        lemma_first_at(a, '\n');
        assert(a[a.len() - 1] == '\n');
        assert(i < a.len());
        let s = a + b;
        assert forall|j: int| 0 <= j < i implies s[j] != '\n' by {
            assert(s[j] == a[j]);
        }
        assert(s[i] == '\n');
        lemma_first_at_is(s, '\n', i);
        let rest = a.skip(i + 1);
        assert(s.take(i) =~= a.take(i));
        assert(s.skip(i + 1) =~= rest + b);
        if rest.len() > 0 {
            assert(rest.last() == a.last());
        }
        law_lines_of_parts(rest, b);
        assert(lines(s) =~= lines(a) + lines(b));
    }
}

/// A word ends at white space, and white space before a word is no part of it.
pub proof fn law_words_end_at_white_space(w: Seq<char>, rest: Seq<char>)
    requires
        w.len() > 0,
        forall|i: int| 0 <= i < w.len() ==> !is_space(#[trigger] w[i]),
        rest.len() > 0 ==> is_space(rest[0]),
    ensures
        words(w + rest) == seq![w] + words(rest),
{
    let s = w + rest;
    let n = w.len() as int;
    assert forall|j: int| 0 <= j < n implies !is_space(#[trigger] s[j]) by {
        assert(s[j] == w[j]);
    }
    assert(n < s.len() ==> is_space(s[n])) by {
        if n < s.len() {
            assert(s[n] == rest[0]);
        }
    }
    lemma_word_end_is(s, n);
    assert(s.take(n) =~= w);
    assert(s.skip(n) =~= rest);
    assert(!is_space(s[0]));
}

/// White space before the words of a text changes nothing, and no text has no
/// words.
pub proof fn law_words_skip_white_space(c: char, rest: Seq<char>)
    requires
        is_space(c),
    ensures
        words(seq![c] + rest) == words(rest),
        words(Seq::empty()) == Seq::<Seq<char>>::empty(),
{
    let s = seq![c] + rest;
    assert(s[0] == c);
    assert(s.skip(1) =~= rest);
}

/// In ASCII, white space is the blank and what lies from the tab to the carriage
/// return.
pub proof fn law_ascii_white_space(c: char)
    requires
        (c as u32) < 128,
    ensures
        is_space(c) <==> c == ' ' || c == '\t' || c == '\n' || c == '\x0b' || c == '\x0c' || c
            == '\r',
{
}

/// Trimming takes the white space around a text and nothing else.
pub proof fn law_trimming_takes_white_space(a: Seq<char>, t: Seq<char>, b: Seq<char>)
    requires
        forall|i: int| 0 <= i < a.len() ==> is_space(#[trigger] a[i]),
        forall|i: int| 0 <= i < b.len() ==> is_space(#[trigger] b[i]),
        t.len() > 0 ==> !is_space(t[0]) && !is_space(t.last()),
    ensures
        trimmed(a + t + b) == t,
    decreases a.len() + b.len(),
{
    let s = a + t + b;
    if a.len() > 0 {
        assert(s[0] == a[0]);
        assert(s.skip(1) =~= a.skip(1) + t + b);
        law_trimming_takes_white_space(a.skip(1), t, b);
    } else if t.len() == 0 && b.len() > 0 {
        assert(s[0] == b[0]);
        assert(s.skip(1) =~= a + t + b.skip(1));
        law_trimming_takes_white_space(a, t, b.skip(1));
    } else {
        assert(trimmed_start(s) == s) by {
            if t.len() > 0 {
                assert(s[0] == t[0]);
            }
        }
        lemma_end_is_trimmed(t, b);
        assert(s =~= t + b);
    }
}

proof fn lemma_end_is_trimmed(t: Seq<char>, b: Seq<char>)
    requires
        forall|i: int| 0 <= i < b.len() ==> is_space(#[trigger] b[i]),
        t.len() > 0 ==> !is_space(t.last()),
    ensures
        trimmed_end(t + b) == t,
    decreases b.len(),
{
    let s = t + b;
    if b.len() > 0 {
        assert(s.last() == b[b.len() - 1]);
        assert(s.drop_last() =~= t + b.drop_last());
        lemma_end_is_trimmed(t, b.drop_last());
    } else {
        assert(s =~= t);
    }
}

/// A number is read digit by digit: one more digit makes it ten times as large
/// and adds the digit.
pub proof fn law_digits_count_by_tens(s: Seq<char>, v: nat, most: nat, d: char, max: nat)
    requires
        s.len() > 0,
        s[0] != '+',
        number(s, most) == Some(v),
    ensures
        '0' <= d <= '9' ==> number(s.push(d), max) == (if 10 * v + (d as u32 - 48) <= max {
            Some((10 * v + (d as u32 - 48)) as nat)
        } else {
            None
        }),
        !('0' <= d <= '9') ==> number(s.push(d), max) is None,
{
    let t = s.push(d);
    assert(t.drop_last() =~= s);
    assert(t[0] == s[0]);
    if '0' <= d <= '9' {
        assert forall|i: int| 0 <= i < t.len() implies is_digit(#[trigger] t[i]) by {
            if i < s.len() {
                assert(is_digit(s[i]));
            }
        }
    } else {
        assert(!is_digit(t[t.len() - 1]));
    }
}

/// A single character is a number when it is a digit, a plus sign may come first,
/// and nothing is no number.
pub proof fn law_numbers_begin_with_a_digit(c: char, s: Seq<char>, max: nat)
    ensures
        max >= 9 ==> number(seq![c], max) == (if '0' <= c <= '9' {
            Some((c as u32 - 48) as nat)
        } else {
            None
        }),
        number(Seq::empty(), max) is None,
        number(seq!['+'] + s, max) == (if s.len() > 0 && s[0] == '+' {
            None
        } else {
            number(s, max)
        }),
{
    let one = seq![c];
    assert(one.drop_last() =~= Seq::<char>::empty());
    assert(digits_value(one.drop_last()) == 0);
    assert(one.last() == c);
    if '0' <= c <= '9' {
        assert(all_digits(one));
    } else {
        assert(!is_digit(one[0]));
    }
    if c == '+' {
        assert(one.skip(1) =~= Seq::<char>::empty());
    }
    let t = seq!['+'] + s;
    assert(t[0] == '+');
    assert(t.skip(1) =~= s);
    if s.len() > 0 && s[0] == '+' {
        assert(!is_digit(s[0]));
    }
}

/// A number that was written is the number that is read, and it is written
/// without leading zeros.
pub proof fn law_numbers_read_back(n: nat, max: nat)
    ensures
        number(decimal(n), max) == (if n <= max {
            Some(n)
        } else {
            None
        }),
        decimal(n).len() > 0,
        n > 0 ==> decimal(n)[0] != '0',
        forall|i: int| 0 <= i < decimal(n).len() ==> '0' <= #[trigger] decimal(n)[i] <= '9',
    decreases n,
{
    lemma_decimal_number(n, n);
    let s = decimal(n);
    assert(is_digit(s[0]));
    assert forall|i: int| 0 <= i < s.len() implies '0' <= #[trigger] s[i] <= '9' by {
        assert(is_digit(s[i]));
    }
    if n >= 10 {
        law_numbers_read_back(n / 10, max);
        assert(s[0] == decimal(n / 10)[0]);
    }
}

/// A text occurs in another where that is the text with something before and
/// something behind it.
pub proof fn law_occurring_is_standing_between(s: Seq<char>, p: Seq<char>)
    ensures
        occurs(s, p) <==> exists|a: Seq<char>, b: Seq<char>| s == #[trigger] (a + p + b),
{
    if occurs(s, p) {
        let i = choose|i: int| #[trigger] occurs_at(s, p, i);
        let a = s.take(i);
        let b = s.skip(i + p.len());
        assert(s =~= a + p + b) by {
            assert forall|j: int| 0 <= j < s.len() implies s[j] == (a + p + b)[j] by {
                if i <= j < i + p.len() {
                    assert(s.subrange(i, i + p.len())[j - i] == s[j]);
                }
            }
        }
    }
    if exists|a: Seq<char>, b: Seq<char>| s == #[trigger] (a + p + b) {
        let (a, b) = choose|a: Seq<char>, b: Seq<char>| s == #[trigger] (a + p + b);
        assert(s.subrange(a.len() as int, (a.len() + p.len()) as int) =~= p);
        assert(occurs_at(s, p, a.len() as int));
    }
}

/// Replacing puts one text in the place of the other, from the left, and leaves
/// what stands between.
pub proof fn law_replacing_leaves_the_rest(
    a: Seq<char>,
    p: Seq<char>,
    b: Seq<char>,
    w: Seq<char>,
)
    requires
        p.len() > 0,
        forall|i: int| 0 <= i < a.len() ==> !p.is_prefix_of(#[trigger] (a + p + b).skip(i)),
    ensures
        replaced(a + p + b, p, w) == a + w + replaced(b, p, w),
    decreases a.len(),
{
    let s = a + p + b;
    if a.len() == 0 {
        assert(s =~= p + b);
        assert(p.is_prefix_of(s));
        assert(s.skip(p.len() as int) =~= b);
        assert(a + w + replaced(b, p, w) =~= w + replaced(b, p, w));
    } else {
        let t = a.skip(1);
        assert(s.skip(0) =~= s);
        assert(!p.is_prefix_of(s.skip(0)));
        assert(s.skip(1) =~= t + p + b);
        assert forall|i: int| 0 <= i < t.len() implies !p.is_prefix_of(
            #[trigger] (t + p + b).skip(i),
        ) by {
            assert((t + p + b).skip(i) =~= s.skip(i + 1));
        }
        law_replacing_leaves_the_rest(t, p, b, w);
        assert(s[0] == a[0]);
        assert(seq![a[0]] + (t + w + replaced(b, p, w)) =~= a + w + replaced(b, p, w));
    }
}

/// A text in which the other does not occur is left as it is.
pub proof fn law_nothing_to_replace(s: Seq<char>, p: Seq<char>, w: Seq<char>)
    requires
        forall|i: int| 0 <= i < s.len() ==> !p.is_prefix_of(#[trigger] s.skip(i)),
    ensures
        replaced(s, p, w) == s,
    decreases s.len(),
{
    if s.len() > 0 && p.len() > 0 {
        let t = s.skip(1);
        assert(s.skip(0) =~= s);
        assert(!p.is_prefix_of(s.skip(0)));
        assert forall|i: int| 0 <= i < t.len() implies !p.is_prefix_of(#[trigger] t.skip(i)) by {
            assert(t.skip(i) =~= s.skip(i + 1));
        }
        law_nothing_to_replace(t, p, w);
        assert(seq![s[0]] + t =~= s);
    }
}

/// Joining puts the separator between the parts, and nowhere else.
pub proof fn law_joining_puts_the_separator_between(
    ps: Seq<Seq<char>>,
    last: Seq<char>,
    sep: Seq<char>,
)
    ensures
        joined(Seq::empty(), sep) == Seq::<char>::empty(),
        joined(ps.push(last), sep) == (if ps.len() == 0 {
            last
        } else {
            joined(ps, sep) + sep + last
        }),
{
    assert(ps.push(last).drop_last() =~= ps);
}

/// Lower case is another letter 32 places on, for the ASCII capitals, and the
/// same character otherwise.
pub proof fn law_lower_case_moves_capitals(s: Seq<char>, i: int)
    requires
        0 <= i < s.len(),
    ensures
        lower(s).len() == s.len(),
        65 <= s[i] as u32 <= 90 ==> lower(s)[i] as u32 == s[i] as u32 + 32,
        !(65 <= s[i] as u32 <= 90) ==> lower(s)[i] == s[i],
{
}

/// Lines joined by line feeds lack only the last one.
pub proof fn law_joined_lines_lack_the_last_feed(ls: Seq<Seq<char>>)
    requires
        ls.len() > 0,
    ensures
        joined(ls, "\n"@) + "\n"@ == closed_lines(ls),
    decreases ls.len(),
{
    reveal_strlit("\n");
    let front = ls.drop_last();
    if ls.len() == 1 {
        assert(closed_lines(front) =~= Seq::<char>::empty());
        assert(ls[0] + "\n"@ =~= closed_lines(front) + ls.last().push('\n'));
    } else {
        law_joined_lines_lack_the_last_feed(front);
        assert(joined(ls, "\n"@) + "\n"@ =~= (joined(front, "\n"@) + "\n"@)
            + ls.last().push('\n'));
    }
}


/// White space beyond ASCII is what Unicode calls so: seven single characters and
/// the run of typographic spaces.
pub proof fn law_white_space_beyond_ascii(c: char)
    requires
        (c as u32) >= 128,
    ensures
        is_space(c) <==> c as u32 == 0x85 || c as u32 == 0xa0 || c as u32 == 0x1680 || 0x2000
            <= c as u32 <= 0x200a || c as u32 == 0x2028 || c as u32 == 0x2029 || c as u32 == 0x202f
            || c as u32 == 0x205f || c as u32 == 0x3000,
{
}

} // verus!
