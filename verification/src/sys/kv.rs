//! `KEY=VALUE` files: the format of the panel's own metadata.

use vstd::prelude::*;

use crate::text;

verus! {

/// The pair that a line states: the key without the white space around it, the
/// value as it stands behind the first `=`.
pub open spec fn pair_of(line: Seq<char>) -> Option<(Seq<char>, Seq<char>)> {
    match text::cut(line, '=') {
        Some((k, v)) => Some((text::trimmed(k), v)),
        None => None,
    }
}

/// What the lines say together. A later line overrides an earlier one; a line
/// that states no pair says nothing.
pub open spec fn of_lines(ls: Seq<Seq<char>>) -> Map<Seq<char>, Seq<char>>
    decreases ls.len(),
{
    if ls.len() == 0 {
        Map::empty()
    } else {
        let before = of_lines(ls.drop_last());
        match pair_of(ls.last()) {
            Some((k, v)) => before.insert(k, v),
            None => before,
        }
    }
}

/// What a file with this content says.
pub open spec fn of_text(content: Seq<char>) -> Map<Seq<char>, Seq<char>> {
    of_lines(text::lines(content))
}

/// The value of `key` in `m`, if it has one.
pub open spec fn value_of(m: Map<Seq<char>, Seq<char>>, key: Seq<char>) -> Option<Seq<char>> {
    if m.contains_key(key) {
        Some(m[key])
    } else {
        None
    }
}

/// The value of `key` in `m`; empty when it has none.
pub open spec fn value_or_empty(m: Map<Seq<char>, Seq<char>>, key: Seq<char>) -> Seq<char> {
    if m.contains_key(key) {
        m[key]
    } else {
        Seq::empty()
    }
}

/// The value of `key` in `m` read as a number no greater than `max`.
pub open spec fn number_of(m: Map<Seq<char>, Seq<char>>, key: Seq<char>, max: nat) -> Option<nat> {
    match value_of(m, key) {
        Some(v) => text::number(v, max),
        None => None,
    }
}

/// Pairs read from a file. The pairs keep the order in which they were stated.
pub struct Kv {
    pairs: Vec<(String, String)>,
}

spec fn of_pairs(ps: Seq<(String, String)>) -> Map<Seq<char>, Seq<char>>
    decreases ps.len(),
{
    if ps.len() == 0 {
        Map::empty()
    } else {
        of_pairs(ps.drop_last()).insert(ps.last().0@, ps.last().1@)
    }
}

impl View for Kv {
    type V = Map<Seq<char>, Seq<char>>;

    closed spec fn view(&self) -> Map<Seq<char>, Seq<char>> {
        of_pairs(self.pairs@)
    }
}

proof fn lemma_latest_pair(ps: Seq<(String, String)>, i: int)
    requires
        0 <= i < ps.len(),
        forall|j: int| i < j < ps.len() ==> (#[trigger] ps[j]).0@ != ps[i].0@,
    ensures
        of_pairs(ps).contains_key(ps[i].0@),
        of_pairs(ps)[ps[i].0@] == ps[i].1@,
    decreases ps.len(),
{
    if i < ps.len() - 1 {
        let t = ps.drop_last();
        assert(t[i] == ps[i]);
        assert forall|j: int| i < j < t.len() implies (#[trigger] t[j]).0@ != t[i].0@ by {
            assert(t[j] == ps[j]);
        }
        lemma_latest_pair(t, i);
        assert(ps[ps.len() - 1].0@ != ps[i].0@);
    }
}

proof fn lemma_absent_key(ps: Seq<(String, String)>, key: Seq<char>)
    requires
        forall|j: int| 0 <= j < ps.len() ==> (#[trigger] ps[j]).0@ != key,
    ensures
        !of_pairs(ps).contains_key(key),
    decreases ps.len(),
{
    if ps.len() > 0 {
        let t = ps.drop_last();
        assert forall|j: int| 0 <= j < t.len() implies (#[trigger] t[j]).0@ != key by {
            assert(t[j] == ps[j]);
        }
        lemma_absent_key(t, key);
        assert(ps[ps.len() - 1].0@ != key);
    }
}

impl Kv {
    /// The value of `key`, if it was stated.
    pub fn get(&self, key: &str) -> (r: Option<String>)
        ensures
            r is Some <==> value_of(self@, key@) is Some,
            r matches Some(v) ==> value_of(self@, key@) == Some(v@),
    {
        let mut i: usize = self.pairs.len();
        while i > 0
            invariant
                i <= self.pairs@.len(),
                forall|j: int| i <= j < self.pairs@.len() ==> (#[trigger] self.pairs@[j]).0@ != key@,
            decreases i,
        {
            i = i - 1;
            if text::same(&self.pairs[i].0, key) {
                proof {
                    lemma_latest_pair(self.pairs@, i as int);
                }
                return Some(self.pairs[i].1.clone());
            }
        }
        proof {
            lemma_absent_key(self.pairs@, key@);
        }
        None
    }

    /// The value of `key`; empty when it was not stated.
    pub fn get_or_empty(&self, key: &str) -> (r: String)
        ensures
            r@ == value_or_empty(self@, key@),
    {
        match self.get(key) {
            Some(v) => v,
            None => String::new(),
        }
    }

    /// The value of `key` read as a number.
    pub fn get_u64(&self, key: &str) -> (r: Option<u64>)
        ensures
            r is Some <==> number_of(self@, key@, u64::MAX as nat) is Some,
            r matches Some(n) ==> number_of(self@, key@, u64::MAX as nat) == Some(n as nat),
    {
        match self.get(key) {
            Some(v) => text::parse_u64(&v),
            None => None,
        }
    }
}

/// The pair that a line states.
pub fn split_pair(line: &str) -> (r: Option<(String, String)>)
    ensures
        r is Some <==> pair_of(line@) is Some,
        r matches Some(p) ==> pair_of(line@) == Some((p.0@, p.1@)),
{
    match text::split_once(line, '=') {
        Some((k, v)) => Some((text::trim(&k), v)),
        None => None,
    }
}

/// Parses `KEY=VALUE` per line. Lines without `=` are silently skipped.
pub fn parse_kv(content: &str) -> (r: Kv)
    ensures
        r@ == of_text(content@),
{
    let ls = text::split_lines(content);
    let mut pairs: Vec<(String, String)> = Vec::new();
    let mut i: usize = 0;
    while i < ls.len()
        invariant
            i <= ls@.len(),
            of_pairs(pairs@) == of_lines(text::views(ls@).take(i as int)),
        decreases ls@.len() - i,
    {
        let ghost next = text::views(ls@).take(i + 1);
        assert(next.drop_last() =~= text::views(ls@).take(i as int));
        assert(next.last() == ls@[i as int]@);
        let ghost before = pairs@;
        if let Some(p) = split_pair(&ls[i]) {
            pairs.push(p);
            assert(pairs@.drop_last() =~= before);
        }
        i = i + 1;
    }
    assert(text::views(ls@).take(i as int) =~= text::views(ls@));
    Kv { pairs }
}

/// A line states its pair: the key without white space around it, and all that
/// stands behind the first `=` as its value. It overrides what was stated before,
/// and nothing else changes.
pub proof fn law_line_states_its_pair(
    before: Seq<char>,
    left: Seq<char>,
    k: Seq<char>,
    right: Seq<char>,
    v: Seq<char>,
)
    requires
        before.len() > 0 ==> before.last() == '\n',
        forall|i: int| 0 <= i < left.len() ==> (#[trigger] left[i] == ' ' || left[i] == '\t'),
        forall|i: int| 0 <= i < right.len() ==> (#[trigger] right[i] == ' ' || right[i] == '\t'),
        !k.contains('=') && !k.contains('\n'),
        k.len() > 0 ==> !text::is_space(k[0]) && !text::is_space(k.last()),
        !v.contains('\n'),
        v.len() > 0 ==> v.last() != '\r',
    ensures
        of_text(before + (left + k + right).push('=') + v.push('\n')) == of_text(before).insert(
            k,
            v,
        ),
{
    let key = left + k + right;
    let line = key.push('=') + v;
    let all = before + key.push('=') + v.push('\n');
    assert(all =~= before + (line.push('\n') + Seq::<char>::empty()));
    text::law_lines_of_parts(before, line.push('\n') + Seq::<char>::empty());
    assert forall|i: int| 0 <= i < key.len() implies key[i] != '=' && key[i] != '\n' by {
        if i < left.len() {
            assert(key[i] == left[i]);
        } else if i < left.len() + k.len() {
            assert(key[i] == k[i - left.len()]);
            assert(k.contains(k[i - left.len()]));
        } else {
            assert(key[i] == right[i - left.len() - k.len()]);
        }
    }
    assert forall|i: int| 0 <= i < line.len() implies line[i] != '\n' by {
        if i < key.len() {
            assert(line[i] == key[i]);
        } else if i > key.len() {
            assert(line[i] == v[i - key.len() - 1]);
            assert(v.contains(v[i - key.len() - 1]));
        }
    }
    text::law_line_ends_at_its_feed(line, Seq::empty());
    text::law_last_line_needs_no_feed(Seq::empty());
    assert(line.last() == (if v.len() > 0 { v.last() } else { '=' }));
    text::law_cut_is_at_the_first(key, '=', v);
    text::law_trimming_takes_white_space(left, k, right);
    let ls = text::lines(before);
    assert(text::lines(all) =~= ls.push(line));
    assert(ls.push(line).drop_last() =~= ls);
}

/// A line without a `=` states nothing.
pub proof fn law_line_without_a_pair_says_nothing(before: Seq<char>, line: Seq<char>)
    requires
        before.len() > 0 ==> before.last() == '\n',
        !line.contains('='),
        !line.contains('\n'),
    ensures
        of_text(before + line.push('\n')) == of_text(before),
        of_text(Seq::empty()) == Map::<Seq<char>, Seq<char>>::empty(),
{
    assert(before + line.push('\n') =~= before + (line.push('\n') + Seq::<char>::empty()));
    text::law_lines_of_parts(before, line.push('\n') + Seq::<char>::empty());
    text::law_line_ends_at_its_feed(line, Seq::empty());
    text::law_last_line_needs_no_feed(Seq::empty());
    let l = if line.len() > 0 && line.last() == '\r' {
        line.drop_last()
    } else {
        line
    };
    assert forall|i: int| 0 <= i < l.len() implies l[i] != '=' by {
        assert(line.contains(line[i]));
    }
    text::law_cut_is_at_the_first(l, '=', Seq::empty());
    let ls = text::lines(before);
    assert(text::lines(before + line.push('\n')) =~= ls.push(l));
    assert(ls.push(l).drop_last() =~= ls);
}

/// A key has the value that a map gives it, none where it gives none, and a number
/// where that value is one.
pub proof fn law_values_are_looked_up(m: Map<Seq<char>, Seq<char>>, k: Seq<char>, n: nat, max: nat)
    ensures
        value_of(m, k) == (if m.contains_key(k) {
            Some(m[k])
        } else {
            None
        }),
        value_or_empty(m.insert(k, text::decimal(n)), k) == text::decimal(n),
        value_or_empty(m.remove(k), k).len() == 0,
        number_of(m.insert(k, text::decimal(n)), k, max) == (if n <= max {
            Some(n)
        } else {
            None
        }),
        number_of(m.remove(k), k, max) is None,
{
    text::law_numbers_read_back(n, max);
}

} // verus!
