//! Talking to DirectAdmin over its internal socket: what is asked, and how the
//! answer is read.

use vstd::prelude::*;

use crate::command;
use crate::text;

verus! {

/// Where DirectAdmin's socket may be, first choice first.
pub const SOCKET_SHARED: &'static str = "/usr/local/directadmin/shared/internal.sock";

pub const SOCKET_INTERNAL: &'static str = "/usr/local/directadmin/da-internal.sock";

/// How long an exchange may take, in seconds.
pub const TIMEOUT_SECS: u64 = 5;

/// How much of an answer is kept as it came, in characters.
pub const EXCERPT: usize = 200;

/// The socket of DirectAdmin: the first that exists.
pub fn resolve_socket(shared: bool, internal: bool) -> (r: Option<&'static str>)
    ensures
        match r {
            Some(p) => (shared && p@ == SOCKET_SHARED@) || (!shared && internal && p@
                == SOCKET_INTERNAL@),
            None => !shared && !internal,
        },
{
    if shared {
        Some(SOCKET_SHARED)
    } else if internal {
        Some(SOCKET_INTERNAL)
    } else {
        None
    }
}

/// The cookie of the session: as it was handed over, as the browser sent it, or
/// made from the session's name.
pub fn resolve_cookie(cookiestring: Option<&str>, http_cookie: Option<&str>, session: Option<&str>) ->
    (r: String)
    ensures
        r@ == (match (cookiestring, http_cookie, session) {
            (Some(c), _, _) => c@,
            (None, Some(c), _) => c@,
            (None, None, Some(s)) => "session="@ + s@,
            (None, None, None) => Seq::empty(),
        }),
{
    if let Some(c) = cookiestring {
        return c.to_string();
    }
    if let Some(c) = http_cookie {
        return c.to_string();
    }
    match session {
        Some(s) => text::cat("session=", s),
        None => {
            let none = String::new();
            assert(none@ =~= Seq::<char>::empty());
            none
        },
    }
}

/// The request for a path.
pub fn request(path: &str, cookie: &str) -> (r: String)
    ensures
        r@ == "GET "@ + path@ + " HTTP/1.0\r\nHost: localhost\r\nCookie: "@ + cookie@
            + "\r\nConnection: close\r\n\r\n"@,
{
    let mut q = "GET ".to_string();
    q.append(path);
    q.append(" HTTP/1.0\r\nHost: localhost\r\nCookie: ");
    q.append(cookie);
    q.append("\r\nConnection: close\r\n\r\n");
    q
}

/// What stands behind the first occurrence of `p` in `s`.
pub open spec fn behind(s: Seq<char>, p: Seq<char>) -> Option<Seq<char>>
    decreases s.len(),
{
    if p.is_prefix_of(s) {
        Some(s.skip(p.len() as int))
    } else if s.len() == 0 {
        None
    } else {
        behind(s.skip(1), p)
    }
}

/// The body of an answer: what stands behind the empty line that ends its
/// headers, or all of it where there is none.
pub open spec fn body_of(response: Seq<char>) -> Seq<char> {
    match behind(response, "\r\n\r\n"@) {
        Some(b) => b,
        None => match behind(response, "\n\n"@) {
            Some(b) => b,
            None => response,
        },
    }
}

fn after_first(s: &str, p: &str) -> (r: Option<String>)
    ensures
        command::opt(r) == behind(s@, p@),
{
    let cs = text::chars(s);
    let mut i: usize = 0;
    assert(s@.skip(0) =~= s@);
    while i < cs.len()
        invariant
            cs@ == s@,
            i <= cs@.len(),
            behind(s@, p@) == behind(s@.skip(i as int), p@),
        decreases cs@.len() - i,
    {
        let rest = text::slice(&cs, i, cs.len());
        assert(rest@ =~= s@.skip(i as int));
        if let Some(b) = text::strip_prefix(&rest, p) {
            return Some(b);
        }
        assert(s@.skip(i as int).skip(1) =~= s@.skip(i + 1));
        i = i + 1;
    }
    let rest = text::slice(&cs, i, cs.len());
    assert(rest@ =~= s@.skip(i as int));
    text::strip_prefix(&rest, p)
}

/// An answer: its body, and the beginning of it all as it came.
pub struct DaAnswer {
    pub body: String,
    pub raw_excerpt: String,
}

/// Reads an answer.
pub fn da_get(response: &str) -> (r: DaAnswer)
    ensures
        r.body@ == body_of(response@),
        r.raw_excerpt@ == (if response@.len() <= EXCERPT {
            response@
        } else {
            response@.take(EXCERPT as int)
        }),
{
    let cs = text::chars(response);
    let n: usize = if cs.len() <= EXCERPT {
        cs.len()
    } else {
        EXCERPT
    };
    let raw_excerpt = text::slice(&cs, 0, n);
    assert(raw_excerpt@ =~= response@.take(n as int));
    assert(response@.take(response@.len() as int) =~= response@);
    let body = match after_first(response, "\r\n\r\n") {
        Some(b) => b,
        None => match after_first(response, "\n\n") {
            Some(b) => b,
            None => response.to_string(),
        },
    };
    DaAnswer { body, raw_excerpt }
}

// ---------------------------------------------------------------------------
// Lists
// ---------------------------------------------------------------------------

/// The value of a hexadecimal digit.
pub open spec fn hex_digit(b: u8) -> Option<nat> {
    if 48 <= b <= 57 {
        Some((b - 48) as nat)
    } else if 97 <= b <= 102 {
        Some((b - 87) as nat)
    } else if 65 <= b <= 70 {
        Some((b - 55) as nat)
    } else {
        None
    }
}

/// The byte that two characters behind a `%` stand for. A plus sign before a
/// digit is allowed, as for any number.
pub open spec fn escaped_byte(a: u8, b: u8) -> Option<nat> {
    match hex_digit(b) {
        Some(low) => match hex_digit(a) {
            Some(high) => Some(high * 16 + low),
            None => if a == 43 {
                Some(low)
            } else {
                None
            },
        },
        None => None,
    }
}

/// Bytes with their escapes resolved, each byte a character of its own. A `%`
/// that begins no escape although two bytes follow it is left out.
pub open spec fn decoded(b: Seq<u8>) -> Seq<char>
    decreases b.len(),
{
    if b.len() == 0 {
        Seq::empty()
    } else if b[0] == 37 && b.len() > 2 {
        match escaped_byte(b[1], b[2]) {
            Some(v) => seq![v as char] + decoded(b.skip(3)),
            None => decoded(b.skip(1)),
        }
    } else if b[0] == 43 {
        seq![' '] + decoded(b.skip(1))
    } else {
        seq![b[0] as char] + decoded(b.skip(1))
    }
}

fn digit(b: u8) -> (r: Option<u8>)
    ensures
        match r {
            Some(d) => hex_digit(b) == Some(d as nat) && d < 16,
            None => hex_digit(b) is None,
        },
{
    if 48 <= b && b <= 57 {
        Some(b - 48)
    } else if 97 <= b && b <= 102 {
        Some(b - 87)
    } else if 65 <= b && b <= 70 {
        Some(b - 55)
    } else {
        None
    }
}

fn escape(a: u8, b: u8) -> (r: Option<u8>)
    ensures
        match r {
            Some(v) => escaped_byte(a, b) == Some(v as nat),
            None => escaped_byte(a, b) is None,
        },
{
    match digit(b) {
        Some(low) => match digit(a) {
            Some(high) => Some(high * 16 + low),
            None => if a == 43 {
                Some(low)
            } else {
                None
            },
        },
        None => None,
    }
}

/// A value with its escapes resolved.
pub fn url_decode(s: &str) -> (r: String)
    ensures
        r@ == decoded(vstd::utf8::encode_utf8(s@)),
{
    let b = s.as_bytes();
    let ghost bs = b@;
    let mut out: Vec<char> = Vec::new();
    let mut i: usize = 0;
    assert(bs.skip(0) =~= bs);
    assert(out@ + decoded(bs.skip(0)) =~= decoded(bs));
    while i < b.len()
        invariant
            bs == b@,
            i <= b@.len(),
            out@ + decoded(bs.skip(i as int)) == decoded(bs),
        decreases b@.len() - i,
    {
        let ghost rest = bs.skip(i as int);
        let ghost had = out@;
        assert(rest[0] == bs[i as int]);
        assert(rest.skip(1) =~= bs.skip(i + 1));
        let c: u8 = b[i];
        if c == 37 && b.len() - i > 2 {
            assert(rest[1] == bs[i + 1] && rest[2] == bs[i + 2]);
            match escape(b[i + 1], b[i + 2]) {
                Some(v) => {
                    out.push(v as char);
                    assert(rest.skip(3) =~= bs.skip(i + 3));
                    assert(out@ + decoded(bs.skip(i + 3)) =~= had + (seq![v as char] + decoded(
                        bs.skip(i + 3),
                    )));
                    i = i + 3;
                },
                None => {
                    i = i + 1;
                },
            }
        } else if c == 43 {
            out.push(' ');
            assert(out@ + decoded(bs.skip(i + 1)) =~= had + (seq![' '] + decoded(bs.skip(i + 1))));
            i = i + 1;
        } else {
            out.push(c as char);
            assert(out@ + decoded(bs.skip(i + 1)) =~= had + (seq![c as char] + decoded(
                bs.skip(i + 1),
            )));
            i = i + 1;
        }
    }
    assert(decoded(bs.skip(i as int)) =~= Seq::<char>::empty());
    assert(out@ =~= decoded(bs));
    text::string(&out)
}

/// The value that a pair adds to a list, if it adds one.
pub open spec fn list_value(pair: Seq<char>) -> Option<Seq<char>> {
    match text::cut(pair, '=') {
        Some((k, v)) => if k == "list[]"@ {
            let d = decoded(vstd::utf8::encode_utf8(text::trimmed(v)));
            if d.len() > 0 {
                Some(d)
            } else {
                None
            }
        } else {
            None
        },
        None => None,
    }
}

/// The values that these pairs add to a list.
pub open spec fn list_values(pairs: Seq<Seq<char>>) -> Seq<Seq<char>>
    decreases pairs.len(),
{
    if pairs.len() == 0 {
        Seq::empty()
    } else {
        match list_value(pairs.last()) {
            Some(v) => list_values(pairs.drop_last()).push(v),
            None => list_values(pairs.drop_last()),
        }
    }
}

/// The values in `list[]=val1&list[]=val2`.
pub fn parse_list(body: &str) -> (r: Vec<String>)
    ensures
        text::views(r@) == list_values(text::pieces(body@, '&')),
{
    let pairs = text::split(body, '&');
    let ghost vs = text::views(pairs@);
    let mut out: Vec<String> = Vec::new();
    let mut i: usize = 0;
    assert(text::views(out@) =~= list_values(vs.take(0)));
    while i < pairs.len()
        invariant
            vs == text::views(pairs@),
            i <= pairs@.len(),
            text::views(out@) == list_values(vs.take(i as int)),
        decreases pairs@.len() - i,
    {
        let ghost before = text::views(out@);
        assert(vs.take(i + 1).drop_last() =~= vs.take(i as int));
        assert(vs.take(i + 1).last() == pairs@[i as int]@);
        if let Some((k, v)) = text::split_once(&pairs[i], '=') {
            if text::same(&k, "list[]") {
                let d = url_decode(&text::trim(&v));
                if !d.as_str().is_empty() {
                    out.push(d);
                    assert(text::views(out@) =~= before.push(d@));
                }
            }
        }
        i = i + 1;
    }
    assert(vs.take(i as int) =~= vs);
    out
}

proof fn lemma_behind(a: Seq<char>, p: Seq<char>, b: Seq<char>)
    requires
        p.len() > 0,
        forall|i: int| 0 <= i < a.len() ==> !p.is_prefix_of(#[trigger] (a + p + b).skip(i)),
    ensures
        behind(a + p + b, p) == Some(b),
    decreases a.len(),
{
    let s = a + p + b;
    if a.len() == 0 {
        assert(s.take(p.len() as int) =~= p);
        assert(p.is_prefix_of(s));
        assert(s.skip(p.len() as int) =~= b);
    } else {
        assert(s.skip(0) =~= s);
        assert(!p.is_prefix_of(s));
        let rest = a.skip(1);
        assert(s.skip(1) =~= rest + p + b);
        assert forall|i: int| 0 <= i < rest.len() implies !p.is_prefix_of(
            #[trigger] (rest + p + b).skip(i),
        ) by {
            assert((rest + p + b).skip(i) =~= s.skip(i + 1));
        }
        lemma_behind(rest, p, b);
    }
}

/// The body of an answer is what stands behind the first empty line; it may hold
/// empty lines of its own.
pub proof fn law_body_is_behind_the_first_empty_line(head: Seq<char>, body: Seq<char>)
    requires
        !head.contains('\r'),
        !head.contains('\n'),
    ensures
        body_of(head + "\r\n\r\n"@ + body) == body,
        !body.contains('\r') ==> body_of(head + "\n\n"@ + body) == body,
        body_of(head) == head,
{
    let p = "\r\n\r\n"@;
    let q = "\n\n"@;
    reveal_strlit("\r\n\r\n");
    reveal_strlit("\n\n");
    assert forall|i: int| 0 <= i < head.len() implies !p.is_prefix_of(
        #[trigger] (head + p + body).skip(i),
    ) by {
        assert((head + p + body).skip(i)[0] == head[i]);
        assert(head.contains(head[i]));
        assert(p[0] == '\r');
    }
    lemma_behind(head, p, body);
    lemma_nothing_behind(head, p, '\r');
    lemma_nothing_behind(head, q, '\n');
    if !body.contains('\r') {
        let s = head + q + body;
        assert forall|i: int| 0 <= i < s.len() implies s[i] != '\r' by {
            if i < head.len() {
                assert(head.contains(head[i]));
            } else if i >= head.len() + 2 {
                assert(s[i] == body[i - head.len() - 2]);
                assert(body.contains(body[i - head.len() - 2]));
            }
        }
        lemma_nothing_behind(s, p, '\r');
        assert forall|i: int| 0 <= i < head.len() implies !q.is_prefix_of(
            #[trigger] (head + q + body).skip(i),
        ) by {
            assert((head + q + body).skip(i)[0] == head[i]);
            assert(head.contains(head[i]));
            assert(q[0] == '\n');
        }
        lemma_behind(head, q, body);
    }
}

proof fn lemma_nothing_behind(s: Seq<char>, p: Seq<char>, c: char)
    requires
        p.len() > 0,
        p[0] == c,
        !s.contains(c),
    ensures
        behind(s, p) is None,
    decreases s.len(),
{
    if p.is_prefix_of(s) {
        assert(s[0] == p[0]);
        assert(s.contains(s[0]));
    }
    if s.len() > 0 {
        let rest = s.skip(1);
        assert forall|i: int| 0 <= i < rest.len() implies rest[i] != c by {
            assert(rest[i] == s[i + 1]);
            assert(s.contains(s[i + 1]));
        }
        lemma_nothing_behind(rest, p, c);
    }
}

/// An escape is a `%` and two hexadecimal digits, of either case, and stands for the
/// byte that they write. A plus sign stands for a space, and any other byte for
/// itself.
pub proof fn law_escapes_stand_for_bytes(high: nat, low: nat, a: u8, b: u8, rest: Seq<u8>)
    requires
        high < 16 && low < 16,
        (high < 10 && a == 48 + high) || (high >= 10 && (a == 97 + high - 10 || a == 65 + high
            - 10)),
        (low < 10 && b == 48 + low) || (low >= 10 && (b == 97 + low - 10 || b == 65 + low - 10)),
    ensures
        decoded(seq![37u8, a, b] + rest) == seq![(high * 16 + low) as char] + decoded(rest),
        decoded(seq![43u8] + rest) == seq![' '] + decoded(rest),
        decoded(Seq::empty()) == Seq::<char>::empty(),
{
    let s = seq![37u8, a, b] + rest;
    assert(s[0] == 37 && s[1] == a && s[2] == b);
    assert(s.skip(3) =~= rest);
    assert((seq![43u8] + rest).skip(1) =~= rest);
    assert((seq![43u8] + rest)[0] == 43);
}

/// A byte that is neither a `%` nor a plus sign stands for itself.
pub proof fn law_other_bytes_stand_for_themselves(c: u8, rest: Seq<u8>)
    requires
        c != 37 && c != 43,
    ensures
        decoded(seq![c] + rest) == seq![c as char] + decoded(rest),
{
    assert((seq![c] + rest).skip(1) =~= rest);
    assert((seq![c] + rest)[0] == c);
}

/// A list is made of the pairs with its key, and of those that say something.
pub proof fn law_lists_are_made_of_their_pairs(pairs: Seq<Seq<char>>, key: Seq<char>, v: Seq<char>)
    requires
        !key.contains('='),
    ensures
        list_values(Seq::empty()).len() == 0,
        key != "list[]"@ ==> list_values(pairs.push(key.push('=') + v)) == list_values(pairs),
        list_values(pairs.push(key)) == list_values(pairs),
        key == "list[]"@ ==> ({
            let d = decoded(vstd::utf8::encode_utf8(text::trimmed(v)));
            list_values(pairs.push(key.push('=') + v)) == (if d.len() > 0 {
                list_values(pairs).push(d)
            } else {
                list_values(pairs)
            })
        }),
{
    text::law_cut_is_at_the_first(key, '=', v);
    assert(pairs.push(key.push('=') + v).drop_last() =~= pairs);
    assert(pairs.push(key).drop_last() =~= pairs);
}

/// A `%` with two bytes behind it that are no escape is left out, and they stand for
/// themselves. A plus sign in place of the first digit counts for nothing. At the
/// end, where no two bytes follow, a `%` stands for itself.
pub proof fn law_broken_escapes(low: nat, a: u8, b: u8, rest: Seq<u8>)
    ensures
        !(48 <= b <= 57 || 65 <= b <= 70 || 97 <= b <= 102) ==> decoded(seq![37u8, a, b] + rest)
            == decoded(seq![a, b] + rest),
        !(48 <= a <= 57 || 65 <= a <= 70 || 97 <= a <= 102 || a == 43) ==> decoded(
            seq![37u8, a, b] + rest,
        ) == decoded(seq![a, b] + rest),
        low < 10 && b == 48 + low ==> decoded(seq![37u8, 43u8, b] + rest) == seq![low as char]
            + decoded(rest),
        decoded(seq![37u8]) == seq!['%'],
        decoded(seq![37u8, a]) == seq!['%'] + decoded(seq![a]),
{
    let s = seq![37u8, a, b] + rest;
    assert(s[0] == 37 && s[1] == a && s[2] == b);
    assert(s.skip(1) =~= seq![a, b] + rest);
    let p = seq![37u8, 43u8, b] + rest;
    assert(p[0] == 37 && p[1] == 43 && p[2] == b);
    assert(p.skip(3) =~= rest);
    let c = 37u8 as char;
    assert(c == '%');
    assert(seq![37u8].skip(1) =~= Seq::<u8>::empty());
    assert(decoded(Seq::<u8>::empty()) =~= Seq::<char>::empty());
    assert(seq!['%'] + Seq::<char>::empty() =~= seq!['%']);
    assert(seq![37u8, a].skip(1) =~= seq![a]);
}

} // verus!
