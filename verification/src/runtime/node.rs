//! Node.js versions, and the patterns under which installations are found.

use vstd::prelude::*;

use crate::path;
use crate::text;

verus! {

/// Minimum supported Node.js version. `node --import` requires 20.6+.
pub const NODE_MIN_MAJOR: u32 = 20;

pub const NODE_MIN_MINOR: u32 = 6;

/// The version that a text such as `v20.15.1` states: three numbers, the last
/// of which counts as 0 when it is missing.
pub open spec fn version(ver: Seq<char>) -> Option<(nat, nat, nat)> {
    if ver.len() == 0 || ver[0] != 'v' {
        None
    } else {
        match text::cut(ver.skip(1), '.') {
            None => None,
            Some((major, rest)) => {
                let (minor, patch) = match text::cut(rest, '.') {
                    Some((m, p)) => (m, text::number(p, u32::MAX as nat)),
                    None => (rest, Some(0)),
                };
                match (
                    text::number(major, u32::MAX as nat),
                    text::number(minor, u32::MAX as nat),
                    patch,
                ) {
                    (Some(a), Some(b), Some(c)) => Some((a, b, c)),
                    _ => None,
                }
            },
        }
    }
}

pub open spec fn version_view(v: Option<(u32, u32, u32)>) -> Option<(nat, nat, nat)> {
    match v {
        Some((a, b, c)) => Some((a as nat, b as nat, c as nat)),
        None => None,
    }
}

/// Parses `v20.15.1` into `(20, 15, 1)`. `None` when the input does not start
/// with `v`, or any of the version components that are there fails to parse.
pub fn parse_node_semver(ver: &str) -> (r: Option<(u32, u32, u32)>)
    ensures
        version_view(r) == version(ver@),
{
    let cs = text::chars(ver);
    let n: usize = cs.len();
    if n == 0 || cs[0] != 'v' {
        return None;
    }
    let s = text::slice(&cs, 1, n);
    assert(s@ =~= ver@.skip(1));
    match text::split_once(&s, '.') {
        None => None,
        Some((major, rest)) => {
            let (minor, patch): (String, Option<u32>) = match text::split_once(&rest, '.') {
                Some((m, p)) => (m, text::parse_u32(&p)),
                None => (rest, Some(0)),
            };
            match (text::parse_u32(&major), text::parse_u32(&minor), patch) {
                (Some(a), Some(b), Some(c)) => Some((a, b, c)),
                _ => None,
            }
        },
    }
}

/// Whether a version meets the minimum.
pub open spec fn is_supported(ver: Seq<char>) -> bool {
    match version(ver) {
        Some((major, minor, _)) => major > NODE_MIN_MAJOR || (major == NODE_MIN_MAJOR && minor
            >= NODE_MIN_MINOR),
        None => false,
    }
}

pub fn node_version_ok(ver: &str) -> (r: bool)
    ensures
        r == is_supported(ver@),
{
    match parse_node_semver(ver) {
        Some((major, minor, _)) => major > NODE_MIN_MAJOR || (major == NODE_MIN_MAJOR && minor
            >= NODE_MIN_MINOR),
        None => false,
    }
}

/// What a runtime that was asked for its version says: the trimmed output of a
/// run that succeeded, when it looks like a version.
pub open spec fn stated_version(succeeded: bool, stdout: Seq<char>) -> Option<Seq<char>> {
    let ver = text::trimmed(stdout);
    if succeeded && ver.len() > 0 && ver[0] == 'v' {
        Some(ver)
    } else {
        None
    }
}

/// The version that `{path} --version` printed (e.g. `v20.15.1`), without
/// checking it against the minimum supported version.
pub fn get_node_version_raw(succeeded: bool, stdout: &str) -> (r: Option<String>)
    ensures
        crate::command::opt(r) == stated_version(succeeded, stdout@),
{
    if !succeeded {
        return None;
    }
    let ver = text::trim(stdout);
    let cs = text::chars(&ver);
    if cs.len() > 0 && cs[0] == 'v' {
        Some(ver)
    } else {
        None
    }
}

/// Same as `get_node_version_raw` but without the runtimes that don't meet the
/// minimum supported version.
pub fn get_node_version(succeeded: bool, stdout: &str) -> (r: Option<String>)
    ensures
        crate::command::opt(r) == (match stated_version(succeeded, stdout@) {
            Some(ver) => if is_supported(ver) {
                Some(ver)
            } else {
                None
            },
            None => None,
        }),
{
    match get_node_version_raw(succeeded, stdout) {
        Some(ver) => {
            if node_version_ok(&ver) {
                Some(ver)
            } else {
                None
            }
        },
        None => None,
    }
}

// ---------------------------------------------------------------------------
// Patterns
// ---------------------------------------------------------------------------

/// `s` without the slashes it starts with.
pub open spec fn without_lead(s: Seq<char>) -> Seq<char>
    decreases s.len(),
{
    if s.len() > 0 && s[0] == '/' {
        without_lead(s.skip(1))
    } else {
        s
    }
}

/// `s` without the slashes it ends with.
pub open spec fn without_trail(s: Seq<char>) -> Seq<char>
    decreases s.len(),
{
    if s.len() > 0 && s.last() == '/' {
        without_trail(s.drop_last())
    } else {
        s
    }
}

/// A pattern with one `*`, taken apart: the directory to look into, what the
/// name of an entry begins and ends with, and the path from the entry on.
pub struct Glob {
    pub dir: String,
    pub name_prefix: String,
    pub name_suffix: String,
    pub rest: String,
}

#[verifier::ext_equal]
pub struct GlobV {
    pub dir: Seq<char>,
    pub name_prefix: Seq<char>,
    pub name_suffix: Seq<char>,
    pub rest: Seq<char>,
}

impl View for Glob {
    type V = GlobV;

    open spec fn view(&self) -> GlobV {
        GlobV {
            dir: self.dir@,
            name_prefix: self.name_prefix@,
            name_suffix: self.name_suffix@,
            rest: self.rest@,
        }
    }
}

/// A pattern with exactly one `*`, behind a slash. The `*` stands within one
/// path component and may have literal text on either side.
pub open spec fn glob_of(pattern: Seq<char>) -> Option<GlobV> {
    let parts = text::pieces(pattern, '*');
    if parts.len() != 2 {
        None
    } else {
        let (prefix, suffix) = (parts[0], parts[1]);
        let i = text::last_at(prefix, '/');
        let j = text::first_at(suffix, '/');
        if i < 0 {
            None
        } else {
            Some(
                GlobV {
                    dir: without_trail(prefix.take(i + 1)),
                    name_prefix: prefix.skip(i + 1),
                    name_suffix: suffix.take(j),
                    rest: without_lead(suffix.skip(j)),
                },
            )
        }
    }
}

fn trim_trail(s: &str) -> (r: String)
    ensures
        r@ == without_trail(s@),
{
    let cs = text::chars(s);
    let mut n: usize = cs.len();
    assert(cs@.take(n as int) =~= s@);
    while n > 0 && cs[n - 1] == '/'
        invariant
            n <= cs@.len(),
            cs@ == s@,
            without_trail(cs@.take(n as int)) == without_trail(s@),
        decreases n,
    {
        assert(cs@.take(n as int).drop_last() =~= cs@.take(n - 1));
        n = n - 1;
    }
    assert(cs@.subrange(0, n as int) =~= cs@.take(n as int));
    text::slice(&cs, 0, n)
}

fn trim_lead(s: &str) -> (r: String)
    ensures
        r@ == without_lead(s@),
{
    let cs = text::chars(s);
    let len: usize = cs.len();
    let mut n: usize = 0;
    assert(cs@.skip(0) =~= s@);
    while n < len && cs[n] == '/'
        invariant
            n <= len,
            len == cs@.len(),
            cs@ == s@,
            without_lead(cs@.skip(n as int)) == without_lead(s@),
        decreases len - n,
    {
        assert(cs@.skip(n as int)[0] == cs@[n as int]);
        assert(cs@.skip(n as int).skip(1) =~= cs@.skip(n + 1));
        n = n + 1;
    }
    assert(cs@.subrange(n as int, len as int) =~= cs@.skip(n as int));
    text::slice(&cs, n, len)
}

/// Takes a pattern with one `*` apart.
pub fn parse_glob(pattern: &str) -> (r: Option<Glob>)
    ensures
        match r {
            Some(g) => glob_of(pattern@) == Some(g@),
            None => glob_of(pattern@) is None,
        },
{
    let parts = text::split(pattern, '*');
    if parts.len() != 2 {
        return None;
    }
    assert(text::views(parts@)[0] == parts@[0]@);
    assert(text::views(parts@)[1] == parts@[1]@);
    let prefix = &parts[0];
    let suffix = &parts[1];
    match text::rsplit_once(prefix, '/') {
        None => None,
        Some((head, name_prefix)) => {
            proof {
                text::lemma_last_at(prefix@, '/');
                text::lemma_first_at(suffix@, '/');
            }
            let dir = text::cat(&head, "/");
            proof {
                reveal_strlit("/");
                assert(dir@ =~= prefix@.take(text::last_at(prefix@, '/') + 1));
            }
            let (name_suffix, behind): (String, String) = match text::split_once(suffix, '/') {
                Some((a, b)) => {
                    let c = text::cat("/", &b);
                    proof {
                        reveal_strlit("/");
                        assert(c@ =~= suffix@.skip(text::first_at(suffix@, '/')));
                    }
                    (a, c)
                },
                None => {
                    assert(suffix@.take(suffix@.len() as int) =~= suffix@);
                    let empty = String::new();
                    assert(empty@ =~= suffix@.skip(suffix@.len() as int));
                    (suffix.clone(), empty)
                },
            };
            Some(
                Glob { dir: trim_trail(&dir), name_prefix, name_suffix, rest: trim_lead(&behind) },
            )
        },
    }
}

/// Whether the name of an entry fits: it has both literals, and they do not
/// overlap.
pub open spec fn fits(g: GlobV, name: Seq<char>) -> bool {
    g.name_prefix.is_prefix_of(name) && g.name_suffix.is_suffix_of(name) && name.len()
        >= g.name_prefix.len() + g.name_suffix.len()
}

/// The file that an entry leads to.
pub open spec fn leads_to(g: GlobV, name: Seq<char>) -> Seq<char> {
    path::under(path::under(g.dir, name), g.rest)
}

/// The files that the fitting ones among these entries lead to.
pub open spec fn expansions(g: GlobV, names: Seq<Seq<char>>) -> Seq<Seq<char>>
    decreases names.len(),
{
    if names.len() == 0 {
        Seq::empty()
    } else if fits(g, names.last()) {
        expansions(g, names.drop_last()).push(leads_to(g, names.last()))
    } else {
        expansions(g, names.drop_last())
    }
}

/// Single-`*` glob expansion: the paths that `pattern` stands for, given the
/// names of the entries of its directory. Those that are files match.
///
/// The `*` matches within one path component, so it may carry literal text on
/// either side of it — `/opt/alt/alt-nodejs*/root/usr/bin/node` fits the entries
/// of `/opt/alt` that start with `alt-nodejs`.
pub fn glob_paths(pattern: &str, names: &Vec<String>) -> (r: Vec<String>)
    ensures
        text::views(r@) == (match glob_of(pattern@) {
            Some(g) => expansions(g, text::views(names@)),
            None => Seq::empty(),
        }),
{
    let mut out: Vec<String> = Vec::new();
    assert(text::views(out@) =~= Seq::<Seq<char>>::empty());
    if let Some(g) = parse_glob(pattern) {
        let ghost ns = text::views(names@);
        let mut i: usize = 0;
        assert(expansions(g@, ns.take(0)) =~= Seq::<Seq<char>>::empty());
        while i < names.len()
            invariant
                ns == text::views(names@),
                i <= names@.len(),
                text::views(out@) == expansions(g@, ns.take(i as int)),
            decreases names@.len() - i,
        {
            let ghost before = text::views(out@);
            assert(ns.take(i + 1).drop_last() =~= ns.take(i as int));
            assert(ns.take(i + 1).last() == names@[i as int]@);
            if name_fits(&g, &names[i]) {
                let entry = path::join(&g.dir, &names[i]);
                let file = path::join(&entry, &g.rest);
                out.push(file);
                assert(text::views(out@) =~= before.push(file@));
            }
            i = i + 1;
        }
        assert(ns.take(i as int) =~= ns);
    }
    out
}

fn name_fits(g: &Glob, name: &str) -> (r: bool)
    ensures
        r == fits(g@, name@),
{
    let n: usize = text::chars(name).len();
    let p: usize = text::chars(&g.name_prefix).len();
    let s: usize = text::chars(&g.name_suffix).len();
    text::starts_with(name, &g.name_prefix) && text::ends_with(name, &g.name_suffix) && n >= p
        && n - p >= s
}

proof fn lemma_digits_hold_no_dot(n: nat)
    ensures
        !text::decimal(n).contains('.'),
        text::decimal(n).len() > 0,
{
    text::law_numbers_read_back(n, n);
    let d = text::decimal(n);
    assert forall|i: int| 0 <= i < d.len() implies d[i] != '.' by {
        assert('0' <= d[i] <= '9');
    }
}

/// A version that is written in full is read as its three numbers, and is supported
/// from 20.6 on.
pub proof fn law_versions_are_read_in_full(major: nat, minor: nat, patch: nat)
    requires
        major <= u32::MAX,
        minor <= u32::MAX,
        patch <= u32::MAX,
    ensures
        ({
            let ver = seq!['v'] + text::decimal(major).push('.') + text::decimal(minor).push('.')
                + text::decimal(patch);
            &&& version(ver) == Some((major, minor, patch))
            &&& is_supported(ver) <==> major > 20 || (major == 20 && minor >= 6)
        }),
        ({
            let ver = seq!['v'] + text::decimal(major).push('.') + text::decimal(minor);
            version(ver) == Some((major, minor, 0nat))
        }),
{
    lemma_digits_hold_no_dot(major);
    lemma_digits_hold_no_dot(minor);
    lemma_digits_hold_no_dot(patch);
    let (a, b, c) = (text::decimal(major), text::decimal(minor), text::decimal(patch));
    let rest = b.push('.') + c;
    let ver = seq!['v'] + a.push('.') + b.push('.') + c;
    assert(ver[0] == 'v');
    assert(ver.skip(1) =~= a.push('.') + rest);
    text::law_cut_is_at_the_first(a, '.', rest);
    text::law_cut_is_at_the_first(b, '.', c);
    text::law_numbers_read_back(major, u32::MAX as nat);
    text::law_numbers_read_back(minor, u32::MAX as nat);
    text::law_numbers_read_back(patch, u32::MAX as nat);
    let short = seq!['v'] + a.push('.') + b;
    assert(short[0] == 'v');
    assert(short.skip(1) =~= a.push('.') + b);
    text::law_cut_is_at_the_first(a, '.', b);
}

/// What does not begin with a `v`, or has a part that is no number, is no version.
pub proof fn law_other_texts_are_no_version(a: Seq<char>, b: Seq<char>, c: Seq<char>)
    requires
        !a.contains('.'),
        !b.contains('.'),
    ensures
        a.len() > 0 && a[0] != 'v' ==> version(a) is None,
        ({
            let ver = seq!['v'] + a.push('.') + b.push('.') + c;
            version(ver) is Some ==> text::number(a, u32::MAX as nat) is Some && text::number(
                b,
                u32::MAX as nat,
            ) is Some && text::number(c, u32::MAX as nat) is Some
        }),
        version(seq!['v'] + a) is None,
{
    let rest = b.push('.') + c;
    let ver = seq!['v'] + a.push('.') + b.push('.') + c;
    assert(ver[0] == 'v');
    assert(ver.skip(1) =~= a.push('.') + rest);
    text::law_cut_is_at_the_first(a, '.', rest);
    text::law_cut_is_at_the_first(b, '.', c);
    let bare = seq!['v'] + a;
    assert(bare[0] == 'v');
    assert(bare.skip(1) =~= a);
}

/// A runtime states what it printed, white space around it left out, when it ran
/// and that begins with a `v`.
pub proof fn law_runtimes_state_what_they_print(left: Seq<char>, ver: Seq<char>, right: Seq<char>)
    requires
        forall|i: int| 0 <= i < left.len() ==> text::is_space(#[trigger] left[i]),
        forall|i: int| 0 <= i < right.len() ==> text::is_space(#[trigger] right[i]),
        ver.len() > 0 ==> !text::is_space(ver[0]) && !text::is_space(ver.last()),
    ensures
        stated_version(true, left + ver + right) == (if ver.len() > 0 && ver[0] == 'v' {
            Some(ver)
        } else {
            None
        }),
        stated_version(false, left + ver + right) is None,
{
    text::law_trimming_takes_white_space(left, ver, right);
}

/// An entry fits a pattern when it is its two literals with anything between.
pub proof fn law_fitting_names_hold_both_literals(g: GlobV, middle: Seq<char>, name: Seq<char>)
    ensures
        fits(g, g.name_prefix + middle + g.name_suffix),
        fits(g, name) ==> name == g.name_prefix + name.subrange(
            g.name_prefix.len() as int,
            name.len() - g.name_suffix.len(),
        ) + g.name_suffix,
{
    let n = g.name_prefix + middle + g.name_suffix;
    assert(n.take(g.name_prefix.len() as int) =~= g.name_prefix);
    assert(n.skip(n.len() - g.name_suffix.len()) =~= g.name_suffix);
    assert(g.name_prefix.is_prefix_of(n));
    assert(g.name_suffix.is_suffix_of(n));
    if fits(g, name) {
        assert(name =~= g.name_prefix + name.subrange(
            g.name_prefix.len() as int,
            name.len() - g.name_suffix.len(),
        ) + g.name_suffix);
    }
}

/// A pattern names a directory, what the entries in it begin and end with, and the
/// path behind them.
pub proof fn law_patterns_are_taken_apart(
    dir: Seq<char>,
    a: Seq<char>,
    b: Seq<char>,
    rest: Seq<char>,
)
    requires
        dir.len() > 0 && dir.last() != '/' && !dir.contains('*'),
        !a.contains('*') && !a.contains('/'),
        !b.contains('*') && !b.contains('/'),
        rest.len() > 0 && rest[0] != '/' && !rest.contains('*'),
    ensures
        glob_of(dir.push('/') + a.push('*') + b.push('/') + rest) == Some(
            GlobV { dir, name_prefix: a, name_suffix: b, rest },
        ),
{
    let prefix = dir.push('/') + a;
    let suffix = b.push('/') + rest;
    let pattern = dir.push('/') + a.push('*') + b.push('/') + rest;
    assert forall|i: int| 0 <= i < prefix.len() implies prefix[i] != '*' by {
        if i < dir.len() {
            assert(dir.contains(dir[i]));
        } else if i > dir.len() {
            assert(prefix[i] == a[i - dir.len() - 1]);
            assert(a.contains(a[i - dir.len() - 1]));
        }
    }
    assert forall|i: int| 0 <= i < suffix.len() implies suffix[i] != '*' by {
        if i < b.len() {
            assert(b.contains(b[i]));
        } else if i > b.len() {
            assert(suffix[i] == rest[i - b.len() - 1]);
            assert(rest.contains(rest[i - b.len() - 1]));
        }
    }
    assert(pattern =~= prefix.push('*') + suffix);
    text::law_pieces_lie_between(prefix, '*', suffix);
    text::law_pieces_lie_between(suffix, '*', Seq::empty());
    let parts = text::pieces(pattern, '*');
    assert(parts[0] == prefix && parts[1] == suffix);
    text::law_cut_last_is_at_the_last(dir, '/', a);
    text::law_cut_is_at_the_first(b, '/', rest);
    let i = text::last_at(prefix, '/');
    let j = text::first_at(suffix, '/');
    text::lemma_last_at(prefix, '/');
    text::lemma_first_at(suffix, '/');
    assert(i == dir.len()) by {
        assert(prefix.take(i) == dir);
        assert(prefix.take(i).len() == i);
    }
    assert(j == b.len()) by {
        assert(suffix.take(j) == b);
        assert(suffix.take(j).len() == j);
    }
    assert(prefix.take(i + 1) =~= dir.push('/'));
    assert(dir.push('/').drop_last() =~= dir);
    assert(without_trail(dir.push('/')) == without_trail(dir));
    assert(prefix.skip(i + 1) =~= a);
    assert(suffix.skip(j) =~= seq!['/'] + rest);
    assert((seq!['/'] + rest).skip(1) =~= rest);
    assert(without_lead(seq!['/'] + rest) == without_lead(rest));
}

/// The entries that fit lead to a file each, in order; the others to none.
pub proof fn law_fitting_entries_lead_to_a_file(g: GlobV, names: Seq<Seq<char>>, name: Seq<char>)
    ensures
        expansions(g, Seq::empty()).len() == 0,
        fits(g, name) ==> expansions(g, names.push(name)) == expansions(g, names).push(
            path::under(path::under(g.dir, name), g.rest),
        ),
        !fits(g, name) ==> expansions(g, names.push(name)) == expansions(g, names),
{
    assert(names.push(name).drop_last() =~= names);
}

} // verus!
