//! Arranging things by keys. A key is a sequence of numbers, compared like
//! words in a dictionary.

use vstd::prelude::*;

verus! {

/// Dictionary order: the first difference decides, and a key comes before the
/// keys it is a beginning of.
pub open spec fn at_most(a: Seq<u32>, b: Seq<u32>) -> bool
    decreases a.len(),
{
    if a.len() == 0 {
        true
    } else if b.len() == 0 {
        false
    } else if a[0] != b[0] {
        a[0] < b[0]
    } else {
        at_most(a.skip(1), b.skip(1))
    }
}

/// Whether the element at `i` belongs before the one at `j`: by key, and by
/// place where the keys are the same.
pub open spec fn goes_before(keys: Seq<Seq<u32>>, i: int, j: int) -> bool {
    at_most(keys[i], keys[j]) && (keys[i] == keys[j] ==> i < j)
}

/// Whether `p` lists the places of `keys`, each once, in the order in which
/// their elements belong.
pub open spec fn arranges(keys: Seq<Seq<u32>>, p: Seq<int>) -> bool {
    &&& p.len() == keys.len()
    &&& p.no_duplicates()
    &&& forall|i: int| 0 <= i < p.len() ==> 0 <= #[trigger] p[i] < keys.len()
    &&& forall|i: int, j: int|
        0 <= i < j < p.len() ==> goes_before(keys, #[trigger] p[i], #[trigger] p[j])
}

pub open spec fn places(v: Seq<usize>) -> Seq<int> {
    Seq::new(v.len(), |i: int| v[i] as int)
}

pub open spec fn key_views(v: Seq<Vec<u32>>) -> Seq<Seq<u32>> {
    Seq::new(v.len(), |i: int| v[i]@)
}

proof fn lemma_reflexive(a: Seq<u32>)
    ensures
        at_most(a, a),
    decreases a.len(),
{
    if a.len() > 0 {
        lemma_reflexive(a.skip(1));
    }
}

proof fn lemma_total(a: Seq<u32>, b: Seq<u32>)
    ensures
        at_most(a, b) || at_most(b, a),
    decreases a.len(),
{
    if a.len() > 0 && b.len() > 0 && a[0] == b[0] {
        lemma_total(a.skip(1), b.skip(1));
    }
}

proof fn lemma_antisymmetric(a: Seq<u32>, b: Seq<u32>)
    requires
        at_most(a, b),
        at_most(b, a),
    ensures
        a == b,
    decreases a.len(),
{
    if a.len() > 0 && b.len() > 0 {
        lemma_antisymmetric(a.skip(1), b.skip(1));
        assert(a =~= seq![a[0]] + a.skip(1));
        assert(b =~= seq![b[0]] + b.skip(1));
    } else {
        assert(a =~= b);
    }
}

proof fn lemma_transitive(a: Seq<u32>, b: Seq<u32>, c: Seq<u32>)
    requires
        at_most(a, b),
        at_most(b, c),
    ensures
        at_most(a, c),
    decreases a.len(),
{
    if a.len() > 0 && b.len() > 0 && c.len() > 0 && a[0] == b[0] && b[0] == c[0] {
        lemma_transitive(a.skip(1), b.skip(1), c.skip(1));
    }
}

/// There is only one way to arrange a list: two arrangements of the same keys
/// are the same.
pub proof fn law_arrangement_is_unique(keys: Seq<Seq<u32>>, p: Seq<int>, q: Seq<int>)
    requires
        arranges(keys, p),
        arranges(keys, q),
    ensures
        p == q,
{
    lemma_covers(keys, p);
    lemma_covers(keys, q);
    assert forall|n: int| 0 <= n <= p.len() implies p.take(n) =~= q.take(n) by {
        lemma_same_start(keys, p, q, n);
    }
    assert(p.take(p.len() as int) =~= p);
    assert(q.take(p.len() as int) =~= q);
}

proof fn lemma_covers(keys: Seq<Seq<u32>>, p: Seq<int>)
    requires
        arranges(keys, p),
    ensures
        forall|k: int| 0 <= k < keys.len() ==> p.contains(k),
{
    let n = keys.len() as int;
    let s = p.to_set();
    let all = vstd::set_lib::set_int_range(0, n);
    vstd::set_lib::lemma_int_range(0, n);
    p.unique_seq_to_set();
    assert(s.subset_of(all));
    vstd::set_lib::lemma_subset_equality(s, all);
    assert forall|k: int| 0 <= k < keys.len() implies p.contains(k) by {
        assert(all.contains(k));
        assert(s.contains(k));
    }
}

proof fn lemma_same_start(keys: Seq<Seq<u32>>, p: Seq<int>, q: Seq<int>, n: int)
    requires
        arranges(keys, p),
        arranges(keys, q),
        forall|k: int| 0 <= k < keys.len() ==> p.contains(k),
        forall|k: int| 0 <= k < keys.len() ==> q.contains(k),
        0 <= n <= p.len(),
    ensures
        p.take(n) =~= q.take(n),
    decreases n,
{
    if n > 0 {
        lemma_same_start(keys, p, q, n - 1);
        let i = n - 1;
        assert forall|j: int| 0 <= j < i implies p[j] == q[j] by {
            assert(p.take(i)[j] == q.take(i)[j]);
        }
        if p[i] != q[i] {
            // Each of the two stands later in the other arrangement.
            let a = choose|a: int| 0 <= a < q.len() && q[a] == p[i];
            let b = choose|b: int| 0 <= b < p.len() && p[b] == q[i];
            assert(q.contains(p[i]));
            assert(p.contains(q[i]));
            assert(a > i) by {
                if a < i {
                    assert(p[a] == q[a]);
                }
            }
            assert(b > i) by {
                if b < i {
                    assert(p[b] == q[b]);
                }
            }
            assert(goes_before(keys, q[i], q[a]));
            assert(goes_before(keys, p[i], p[b]));
            lemma_antisymmetric(keys[p[i]], keys[q[i]]);
        }
    }
}

/// Whether `a` comes at or before `b` in dictionary order.
pub fn key_at_most(a: &Vec<u32>, b: &Vec<u32>) -> (r: bool)
    ensures
        r == at_most(a@, b@),
{
    let mut i: usize = 0;
    assert(a@.skip(0) =~= a@);
    assert(b@.skip(0) =~= b@);
    loop
        invariant
            i <= a@.len(),
            i <= b@.len(),
            at_most(a@, b@) == at_most(a@.skip(i as int), b@.skip(i as int)),
        decreases a@.len() - i,
    {
        if i == a.len() {
            return true;
        }
        if i == b.len() {
            return false;
        }
        assert(a@.skip(i as int)[0] == a@[i as int]);
        assert(b@.skip(i as int)[0] == b@[i as int]);
        if a[i] != b[i] {
            return a[i] < b[i];
        }
        assert(a@.skip(i as int).skip(1) =~= a@.skip(i + 1));
        assert(b@.skip(i as int).skip(1) =~= b@.skip(i + 1));
        i = i + 1;
    }
}

/// The order in which the elements with these keys belong, earlier elements
/// first among equals.
pub fn arrange(keys: &Vec<Vec<u32>>) -> (p: Vec<usize>)
    ensures
        arranges(key_views(keys@), places(p@)),
{
    let ghost ks = key_views(keys@);
    let mut p: Vec<usize> = Vec::new();
    let mut n: usize = 0;
    while n < keys.len()
        invariant
            ks == key_views(keys@),
            n <= keys@.len(),
            p@.len() == n,
            places(p@).no_duplicates(),
            forall|i: int| 0 <= i < n ==> #[trigger] p@[i] < n,
            forall|i: int, j: int|
                0 <= i < j < n ==> goes_before(ks, #[trigger] p@[i] as int, #[trigger] p@[j] as int),
        decreases keys@.len() - n,
    {
        // The place of the new element: behind everything that is at most it.
        let mut k: usize = n;
        while k > 0 && !key_at_most(&keys[p[k - 1]], &keys[n])
            invariant
                ks == key_views(keys@),
                n < keys@.len(),
                k <= n,
                p@.len() == n,
                forall|i: int| 0 <= i < n ==> #[trigger] p@[i] < n,
                forall|i: int| k <= i < n ==> !at_most(ks[#[trigger] p@[i] as int], ks[n as int]),
            decreases k,
        {
            k = k - 1;
        }
        let ghost old_p = p@;
        proof {
            if k > 0 {
                assert(at_most(ks[old_p[k - 1] as int], ks[n as int]));
            }
            assert forall|i: int| 0 <= i < k implies goes_before(
                ks,
                #[trigger] old_p[i] as int,
                n as int,
            ) by {
                if i < k - 1 {
                    assert(goes_before(ks, old_p[i] as int, old_p[k - 1] as int));
                    lemma_transitive(
                        ks[old_p[i] as int],
                        ks[old_p[k - 1] as int],
                        ks[n as int],
                    );
                }
            }
            assert forall|i: int| k <= i < n implies goes_before(
                ks,
                n as int,
                #[trigger] old_p[i] as int,
            ) by {
                lemma_total(ks[old_p[i] as int], ks[n as int]);
                lemma_reflexive(ks[n as int]);
            }
        }
        p.insert(k, n);
        proof {
            assert forall|i: int, j: int| 0 <= i < j < n + 1 implies goes_before(
                ks,
                #[trigger] p@[i] as int,
                #[trigger] p@[j] as int,
            ) by {
                let oi = if i < k { i } else { i - 1 };
                let oj = if j < k { j } else { j - 1 };
                if i != k {
                    assert(p@[i] == old_p[oi]);
                }
                if j != k {
                    assert(p@[j] == old_p[oj]);
                }
            }
            assert forall|i: int| 0 <= i < n + 1 implies #[trigger] p@[i] < n + 1 by {
                if i < k {
                    assert(p@[i] == old_p[i]);
                } else if i > k {
                    assert(p@[i] == old_p[i - 1]);
                }
            }
            assert forall|i: int, j: int|
                0 <= i < n + 1 && 0 <= j < n + 1 && i != j implies places(p@)[i] != places(
                p@,
            )[j] by {
                let oi = if i < k { i } else { i - 1 };
                let oj = if j < k { j } else { j - 1 };
                if i != k {
                    assert(p@[i] == old_p[oi]);
                }
                if j != k {
                    assert(p@[j] == old_p[oj]);
                }
                if i != k && j != k {
                    assert(places(old_p)[oi] != places(old_p)[oj]);
                }
            }
        }
        n = n + 1;
    }
    assert forall|i: int, j: int| 0 <= i < j < places(p@).len() implies goes_before(
        ks,
        #[trigger] places(p@)[i],
        #[trigger] places(p@)[j],
    ) by {
        assert(goes_before(ks, p@[i] as int, p@[j] as int));
    }
    assert forall|i: int| 0 <= i < places(p@).len() implies 0 <= #[trigger] places(p@)[i]
        < ks.len() by {
        assert(p@[i] < n);
    }
    p
}

/// The key of a text: its code points, which order texts as their bytes do.
pub open spec fn text_key(s: Seq<char>) -> Seq<u32> {
    Seq::new(s.len(), |i: int| s[i] as u32)
}

pub fn key_of_text(s: &str) -> (k: Vec<u32>)
    ensures
        k@ == text_key(s@),
{
    let cs = crate::text::chars(s);
    let mut k: Vec<u32> = Vec::new();
    let mut i: usize = 0;
    while i < cs.len()
        invariant
            i <= cs@.len(),
            cs@ == s@,
            k@ == text_key(s@).take(i as int),
        decreases cs@.len() - i,
    {
        k.push(cs[i] as u32);
        assert(k@ =~= text_key(s@).take(i + 1));
        i = i + 1;
    }
    assert(text_key(s@).take(i as int) =~= text_key(s@));
    k
}

/// The key of a pair of texts: the first text, a mark below every code point,
/// the second. It orders pairs by the first text and then by the second.
pub open spec fn pair_key(a: Seq<char>, b: Seq<char>) -> Seq<u32> {
    Seq::new(a.len(), |i: int| (a[i] as u32 + 1) as u32).push(0) + Seq::new(
        b.len(),
        |i: int| (b[i] as u32 + 1) as u32,
    )
}

fn code(c: char) -> (n: u32)
    ensures
        n == c as u32,
        n <= 0x10ffff,
{
    c as u32
}

pub fn key_of_pair(a: &str, b: &str) -> (k: Vec<u32>)
    ensures
        k@ == pair_key(a@, b@),
{
    let x = crate::text::chars(a);
    let y = crate::text::chars(b);
    let mut k: Vec<u32> = Vec::new();
    let ghost want = pair_key(a@, b@);
    let mut i: usize = 0;
    while i < x.len()
        invariant
            i <= x@.len(),
            x@ == a@,
            want == pair_key(a@, b@),
            k@ == want.take(i as int),
        decreases x@.len() - i,
    {
        k.push(code(x[i]) + 1);
        assert(k@ =~= want.take(i + 1));
        i = i + 1;
    }
    k.push(0);
    assert(k@ =~= want.take(i + 1));
    let mut j: usize = 0;
    while j < y.len()
        invariant
            j <= y@.len(),
            y@ == b@,
            want == pair_key(a@, b@),
            k@ == want.take(a@.len() + 1 + j),
        decreases y@.len() - j,
    {
        k.push(code(y[j]) + 1);
        assert(k@ =~= want.take(a@.len() + 1 + j + 1));
        j = j + 1;
    }
    assert(want.take(want.len() as int) =~= want);
    k
}

/// The texts of `v` in dictionary order.
pub open spec fn sorted_texts(v: Seq<Seq<char>>, out: Seq<Seq<char>>) -> bool {
    exists|p: Seq<int>| #[trigger] arranges(text_keys(v), p) && out == picked(v, p)
}

pub open spec fn text_keys(v: Seq<Seq<char>>) -> Seq<Seq<u32>> {
    Seq::new(v.len(), |i: int| text_key(v[i]))
}

/// The elements of `v` at the places `p`, in that order.
pub open spec fn picked<T>(v: Seq<T>, p: Seq<int>) -> Seq<T> {
    Seq::new(p.len(), |i: int| v[p[i]])
}

/// The texts of `v` in dictionary order, as a sort of strings.
pub fn sort_texts(v: &Vec<String>) -> (r: Vec<String>)
    ensures
        sorted_texts(crate::text::views(v@), crate::text::views(r@)),
{
    let mut keys: Vec<Vec<u32>> = Vec::new();
    let mut i: usize = 0;
    while i < v.len()
        invariant
            i <= v@.len(),
            keys@.len() == i,
            forall|j: int| 0 <= j < i ==> keys@[j]@ == text_key(v@[j]@),
        decreases v@.len() - i,
    {
        keys.push(key_of_text(&v[i]));
        i = i + 1;
    }
    let p = arrange(&keys);
    let ghost vs = crate::text::views(v@);
    assert forall|i: int| 0 <= i < p@.len() implies #[trigger] p@[i] < v@.len() by {
        assert(places(p@)[i] < keys@.len());
    }
    assert(key_views(keys@) =~= text_keys(vs));
    let mut out: Vec<String> = Vec::new();
    let mut n: usize = 0;
    while n < p.len()
        invariant
            n <= p@.len(),
            p@.len() == v@.len(),
            forall|i: int| 0 <= i < p@.len() ==> #[trigger] p@[i] < v@.len(),
            out@.len() == n,
            forall|j: int| 0 <= j < n ==> out@[j]@ == v@[p@[j] as int]@,
        decreases p@.len() - n,
    {
        out.push(v[p[n]].clone());
        n = n + 1;
    }
    assert(crate::text::views(out@) =~= picked(vs, places(p@)));
    out
}

/// Texts are ordered by their first difference, and one comes before those that it
/// is a beginning of.
pub proof fn law_dictionary_order(p: Seq<u32>, x: u32, y: u32, a: Seq<u32>, b: Seq<u32>)
    ensures
        at_most(p, p + a),
        a.len() > 0 ==> !at_most(p + a, p),
        x < y ==> at_most(p.push(x) + a, p.push(y) + b) && !at_most(p.push(y) + b, p.push(x) + a),
    decreases p.len(),
{
    if p.len() == 0 {
        assert(p + a =~= a);
        assert((p.push(x) + a)[0] == x);
        assert((p.push(y) + b)[0] == y);
    } else {
        let q = p.skip(1);
        law_dictionary_order(q, x, y, a, b);
        assert((p + a).skip(1) =~= q + a);
        assert((p + a)[0] == p[0]);
        assert((p.push(x) + a).skip(1) =~= q.push(x) + a);
        assert((p.push(y) + b).skip(1) =~= q.push(y) + b);
        assert((p.push(x) + a)[0] == p[0]);
        assert((p.push(y) + b)[0] == p[0]);
    }
}

/// Sorting neither loses nor invents anything, and what comes out is in order.
pub proof fn law_sorted_texts_are_the_same_texts(
    v: Seq<Seq<char>>,
    out: Seq<Seq<char>>,
    t: Seq<char>,
    i: int,
    j: int,
)
    requires
        sorted_texts(v, out),
    ensures
        out.len() == v.len(),
        out.contains(t) ==> v.contains(t),
        0 <= i < j < out.len() ==> at_most(text_key(out[i]), text_key(out[j])),
{
    let p = choose|p: Seq<int>| #[trigger] arranges(text_keys(v), p) && out == picked(v, p);
    if out.contains(t) {
        let k = choose|k: int| 0 <= k < out.len() && out[k] == t;
        assert(v[p[k]] == t);
    }
    if 0 <= i < j < out.len() {
        assert(goes_before(text_keys(v), p[i], p[j]));
    }
}

/// A pair comes before another by its first text, and by its second where the first
/// ones are the same.
pub proof fn law_pairs_are_ordered_by_the_first_text(
    a: Seq<char>,
    b: Seq<char>,
    c: Seq<char>,
    d: Seq<char>,
)
    ensures
        at_most(text_key(b), text_key(d)) == at_most(pair_key(a, b), pair_key(a, d)),
        a != c && at_most(text_key(a), text_key(c)) ==> at_most(pair_key(a, b), pair_key(c, d)),
    decreases a.len(),
{
    if a.len() == 0 {
        lemma_raised(b, d);
        assert(pair_key(a, b) =~= seq![0u32] + raised(b));
        assert(pair_key(a, d) =~= seq![0u32] + raised(d));
        assert((seq![0u32] + raised(b)).skip(1) =~= raised(b));
        assert((seq![0u32] + raised(d)).skip(1) =~= raised(d));
        if a != c && at_most(text_key(a), text_key(c)) {
            assert(c.len() > 0) by {
                if c.len() == 0 {
                    assert(a =~= c);
                }
            }
            lemma_code_point(c[0]);
            assert(pair_key(c, d)[0] == (c[0] as u32 + 1) as u32);
            assert(pair_key(a, b)[0] == 0);
        }
    } else {
        let a1 = a.skip(1);
        assert(pair_key(a, b).skip(1) =~= pair_key(a1, b));
        assert(pair_key(a, d).skip(1) =~= pair_key(a1, d));
        assert(pair_key(a, b)[0] == pair_key(a, d)[0]);
        if c.len() > 0 {
            let c1 = c.skip(1);
            lemma_code_point(a[0]);
            lemma_code_point(c[0]);
            assert(text_key(a)[0] == a[0] as u32);
            assert(text_key(c)[0] == c[0] as u32);
            assert(pair_key(a, b)[0] == (a[0] as u32 + 1) as u32);
            assert(pair_key(c, d)[0] == (c[0] as u32 + 1) as u32);
            law_pairs_are_ordered_by_the_first_text(a1, b, c1, d);
            assert(pair_key(c, d).skip(1) =~= pair_key(c1, d));
            assert(text_key(a).skip(1) =~= text_key(a1));
            assert(text_key(c).skip(1) =~= text_key(c1));
            if a[0] == c[0] && a1 == c1 {
                assert(a =~= seq![a[0]] + a1);
                assert(c =~= seq![c[0]] + c1);
            }
        } else {
            law_pairs_are_ordered_by_the_first_text(a1, b, c, d);
        }
    }
}

proof fn lemma_code_point(c: char)
    ensures
        (c as u32) <= 0x10ffff,
        (c as u32 + 1) as u32 == c as u32 + 1,
        c as u32 as char == c,
{
}

spec fn raised(s: Seq<char>) -> Seq<u32> {
    Seq::new(s.len(), |i: int| (s[i] as u32 + 1) as u32)
}

proof fn lemma_raised(b: Seq<char>, d: Seq<char>)
    ensures
        at_most(raised(b), raised(d)) == at_most(text_key(b), text_key(d)),
    decreases b.len(),
{
    if b.len() > 0 && d.len() > 0 {
        lemma_raised(b.skip(1), d.skip(1));
        lemma_code_point(b[0]);
        lemma_code_point(d[0]);
        assert(raised(b).skip(1) =~= raised(b.skip(1)));
        assert(raised(d).skip(1) =~= raised(d.skip(1)));
        assert(text_key(b).skip(1) =~= text_key(b.skip(1)));
        assert(text_key(d).skip(1) =~= text_key(d.skip(1)));
        assert(raised(b)[0] == (b[0] as u32 + 1) as u32);
        assert(raised(d)[0] == (d[0] as u32 + 1) as u32);
    }
}

} // verus!
