//! Unix paths as text: joining, taking apart, and asking whether one path lies
//! under another component by component.

use vstd::prelude::*;

use crate::text;

verus! {

/// `base` with `name` appended: an absolute `name` stands for itself, and a
/// separator comes between the two unless `base` is empty or already ends in
/// one.
pub open spec fn under(base: Seq<char>, name: Seq<char>) -> Seq<char> {
    if name.len() > 0 && name[0] == '/' {
        name
    } else if base.len() == 0 || base.last() == '/' {
        base + name
    } else {
        base.push('/') + name
    }
}

/// `base` with `name` appended, as `Path::join`.
pub fn join(base: &str, name: &str) -> (r: String)
    ensures
        r@ == under(base@, name@),
{
    let b = text::chars(base);
    let n = text::chars(name);
    if n.len() > 0 && n[0] == '/' {
        return name.to_string();
    }
    let mut out = base.to_string();
    if b.len() > 0 && b[b.len() - 1] != '/' {
        out.push('/');
    }
    out.append(name);
    out
}

pub open spec fn is_rooted(s: Seq<char>) -> bool {
    s.len() > 0 && s[0] == '/'
}

pub fn is_absolute(s: &str) -> (r: bool)
    ensures
        r == is_rooted(s@),
{
    let cs = text::chars(s);
    cs.len() > 0 && cs[0] == '/'
}

/// A piece between separators that names something: not empty, and not the
/// `.` that stands for the directory itself.
pub open spec fn names_something(piece: Seq<char>) -> bool {
    piece.len() > 0 && piece != seq!['.']
}

/// The named pieces of a path.
pub open spec fn named(ps: Seq<Seq<char>>) -> Seq<Seq<char>>
    decreases ps.len(),
{
    if ps.len() == 0 {
        Seq::empty()
    } else if names_something(ps.last()) {
        named(ps.drop_last()).push(ps.last())
    } else {
        named(ps.drop_last())
    }
}

/// What a path begins with: `/` when it is absolute, `.` when it is relative
/// and says so.
pub open spec fn lead(s: Seq<char>) -> Seq<Seq<char>> {
    if is_rooted(s) {
        seq![seq!['/']]
    } else if text::pieces(s, '/')[0] == seq!['.'] {
        seq![seq!['.']]
    } else {
        Seq::empty()
    }
}

/// The components of a path. Repeated separators and inner `.` pieces do not
/// count.
pub open spec fn components(s: Seq<char>) -> Seq<Seq<char>> {
    lead(s) + named(text::pieces(s, '/'))
}

/// Whether `s` is `base` or lies under it, judged component by component.
pub open spec fn lies_under(s: Seq<char>, base: Seq<char>) -> bool {
    components(base).is_prefix_of(components(s))
}

fn is_dot(s: &str) -> (r: bool)
    ensures
        r == (s@ == seq!['.']),
{
    let cs = text::chars(s);
    let r = cs.len() == 1 && cs[0] == '.';
    assert(r ==> s@ =~= seq!['.']);
    r
}

/// The components of a path, as `Path::components`.
pub fn split(s: &str) -> (r: Vec<String>)
    ensures
        text::views(r@) == components(s@),
{
    let ps = text::split(s, '/');
    let mut out: Vec<String> = Vec::new();
    proof {
        lemma_pieces_nonempty(s@, '/');
        assert(text::views(ps@)[0] == ps@[0]@);
    }
    if is_absolute(s) {
        out.push("/".to_string());
        proof {
            reveal_strlit("/");
            assert(out@[0]@ =~= seq!['/']);
        }
    } else if is_dot(&ps[0]) {
        out.push(".".to_string());
        proof {
            reveal_strlit(".");
            assert(out@[0]@ =~= seq!['.']);
        }
    }
    assert(text::views(out@) =~= lead(s@));
    let mut i: usize = 0;
    assert(named(text::views(ps@).take(0)) =~= Seq::<Seq<char>>::empty());
    while i < ps.len()
        invariant
            i <= ps@.len(),
            text::views(out@) =~= lead(s@) + named(text::views(ps@).take(i as int)),
        decreases ps@.len() - i,
    {
        let ghost before = text::views(out@);
        let ghost next = text::views(ps@).take(i + 1);
        assert(next.drop_last() =~= text::views(ps@).take(i as int));
        assert(next.last() == ps@[i as int]@);
        if !ps[i].as_str().is_empty() && !is_dot(&ps[i]) {
            let p = ps[i].clone();
            out.push(p);
            assert(text::views(out@) =~= before.push(p@));
        }
        i = i + 1;
    }
    assert(text::views(ps@).take(i as int) =~= text::views(ps@));
    out
}

pub proof fn lemma_pieces_nonempty(s: Seq<char>, c: char)
    ensures
        text::pieces(s, c).len() > 0,
    decreases s.len(),
{
    text::lemma_first_at(s, c);
}

/// Whether `s` is `base` or lies under it, as `Path::starts_with`.
pub fn starts_with(s: &str, base: &str) -> (r: bool)
    ensures
        r == lies_under(s@, base@),
{
    let a = split(s);
    let b = split(base);
    let ghost av = text::views(a@);
    let ghost bv = text::views(b@);
    if b.len() > a.len() {
        return false;
    }
    let mut i: usize = 0;
    while i < b.len()
        invariant
            i <= b@.len() <= a@.len(),
            av == text::views(a@),
            bv == text::views(b@),
            av == components(s@),
            bv == components(base@),
            forall|j: int| 0 <= j < i ==> av[j] == bv[j],
        decreases b@.len() - i,
    {
        if !text::same(&a[i], &b[i]) {
            assert(av.subrange(0, bv.len() as int)[i as int] != bv[i as int]);
            return false;
        }
        assert(av[i as int] == bv[i as int]);
        i = i + 1;
    }
    assert(av.subrange(0, bv.len() as int) =~= bv);
    true
}

/// Whether two paths are the same, component by component.
pub fn same(a: &str, b: &str) -> (r: bool)
    ensures
        r == (components(a@) == components(b@)),
{
    let r = starts_with(a, b) && starts_with(b, a);
    proof {
        let x = components(a@);
        let y = components(b@);
        if r {
            assert(x.subrange(0, y.len() as int) =~= x);
        } else {
            assert(x.subrange(0, x.len() as int) =~= x);
        }
    }
    r
}

/// The part of a file name behind its last dot, when something stands before
/// that dot.
pub open spec fn extension_of(name: Seq<char>) -> Option<Seq<char>> {
    let i = text::last_at(name, '.');
    if i > 0 {
        Some(name.skip(i + 1))
    } else {
        None
    }
}

/// A file name without its extension.
pub open spec fn stem_of(name: Seq<char>) -> Seq<char> {
    let i = text::last_at(name, '.');
    if i > 0 {
        name.take(i)
    } else {
        name
    }
}

/// The stem of a file name whose extension is `ext`.
pub fn stem_with_extension(name: &str, ext: &str) -> (r: Option<String>)
    ensures
        r is Some <==> extension_of(name@) == Some(ext@),
        r matches Some(t) ==> t@ == stem_of(name@),
{
    match text::rsplit_once(name, '.') {
        Some((stem, e)) => {
            assert(stem@.len() == text::last_at(name@, '.')) by {
                text::lemma_last_at(name@, '.');
            }
            if !stem.as_str().is_empty() && text::same(&e, ext) {
                Some(stem)
            } else {
                None
            }
        },
        None => None,
    }
}

/// The last component, when it names an entry: not the root, and neither `.`
/// nor `..`.
pub open spec fn last_name(cs: Seq<Seq<char>>) -> Option<Seq<char>> {
    if cs.len() > 0 && cs.last() != seq!['/'] && cs.last() != seq!['.'] && cs.last() != seq![
        '.',
        '.',
    ] {
        Some(cs.last())
    } else {
        None
    }
}

/// The text of the path that the components of an absolute path make up.
pub open spec fn assembled(cs: Seq<Seq<char>>) -> Seq<char>
    decreases cs.len(),
{
    if cs.len() == 0 {
        Seq::empty()
    } else {
        under(assembled(cs.drop_last()), cs.last())
    }
}

/// The text of the path that `cs` makes up.
pub fn assemble(cs: &Vec<String>, n: usize) -> (r: String)
    requires
        n <= cs@.len(),
    ensures
        r@ == assembled(text::views(cs@).take(n as int)),
{
    let mut out = String::new();
    let mut i: usize = 0;
    while i < n
        invariant
            i <= n <= cs@.len(),
            out@ == assembled(text::views(cs@).take(i as int)),
        decreases n - i,
    {
        let ghost next = text::views(cs@).take(i + 1);
        assert(next.drop_last() =~= text::views(cs@).take(i as int));
        assert(next.last() == cs@[i as int]@);
        out = join(&out, &cs[i]);
        i = i + 1;
    }
    out
}

proof fn lemma_pieces_join(a: Seq<char>, c: char, b: Seq<char>)
    ensures
        text::pieces(a.push(c) + b, c) == text::pieces(a, c) + text::pieces(b, c),
    decreases a.len(),
{
    let i = text::first_at(a, c);
    text::lemma_first_at(a, c);
    let x = a.take(i);
    assert forall|j: int| 0 <= j < x.len() implies x[j] != c by {
        assert(x[j] == a[j]);
    }
    if i < a.len() {
        let y = a.skip(i + 1);
        assert(a =~= x.push(c) + y);
        assert(a.push(c) + b =~= x.push(c) + (y.push(c) + b));
        text::law_pieces_lie_between(x, c, y);
        text::law_pieces_lie_between(x, c, y.push(c) + b);
        lemma_pieces_join(y, c, b);
        assert(seq![x] + (text::pieces(y, c) + text::pieces(b, c)) =~= (seq![x] + text::pieces(
            y,
            c,
        )) + text::pieces(b, c));
    } else {
        assert(x =~= a);
        text::law_pieces_lie_between(a, c, b);
    }
}

proof fn lemma_named_join(a: Seq<Seq<char>>, b: Seq<Seq<char>>)
    ensures
        named(a + b) == named(a) + named(b),
    decreases b.len(),
{
    if b.len() == 0 {
        assert(a + b =~= a);
        assert(named(a) + named(b) =~= named(a));
    } else {
        assert((a + b).drop_last() =~= a + b.drop_last());
        lemma_named_join(a, b.drop_last());
        assert(named(a + b) =~= named(a) + named(b));
    }
}

/// A path that is joined to another one lies right below it: it has the components
/// of the other one and one more. Separators that are doubled do not count.
pub proof fn law_joined_name_is_one_more_component(dir: Seq<char>, name: Seq<char>)
    requires
        name.len() > 0,
        !name.contains('/'),
        name != seq!['.'],
    ensures
        components(under(dir, name)) == components(dir).push(name),
        components(dir.push('/')) == (if dir.len() == 0 {
            seq![seq!['/']]
        } else {
            components(dir)
        }),
{
    assert(name[0] != '/') by {
        assert(name.contains(name[0]));
    }
    let none = Seq::<char>::empty();
    assert forall|j: int| 0 <= j < none.len() implies none[j] != '/' by {}
    text::law_pieces_lie_between(name, '/', none);
    text::law_pieces_lie_between(none, '/', name);
    assert(seq![name].drop_last() =~= Seq::<Seq<char>>::empty());
    assert(named(Seq::<Seq<char>>::empty()) =~= Seq::<Seq<char>>::empty());
    assert(seq![name].last() == name);
    assert(named(seq![name]) =~= seq![name]);
    assert(seq![none].drop_last() =~= Seq::<Seq<char>>::empty());
    assert(seq![none].last() == none);
    assert(named(seq![none]) =~= Seq::<Seq<char>>::empty());
    assert(none != seq!['.']) by {
        assert(seq!['.'].len() == 1);
    }
    let all = under(dir, name);
    if dir.len() == 0 {
        assert(dir =~= none);
        assert(all =~= name);
        assert(text::pieces(name, '/')[0] == name);
        assert(text::pieces(dir, '/')[0] == none);
        assert(components(all) =~= seq![name]);
        assert(components(dir) =~= Seq::<Seq<char>>::empty());
        assert(components(dir).push(name) =~= seq![name]);
        assert(dir.push('/') + none =~= dir.push('/'));
        lemma_pieces_join(none, '/', none);
        lemma_named_join(seq![none], seq![none]);
        assert(dir.push('/') =~= seq!['/']);
        assert(components(dir.push('/')) =~= seq![seq!['/']]);
    } else {
        lemma_pieces_nonempty(dir, '/');
        assert(dir.push('/') + none =~= dir.push('/'));
        lemma_pieces_join(dir, '/', none);
        lemma_named_join(text::pieces(dir, '/'), seq![none]);
        assert(dir.push('/')[0] == dir[0]);
        assert(text::pieces(dir.push('/'), '/')[0] == text::pieces(dir, '/')[0]);
        assert(lead(dir.push('/')) == lead(dir));
        assert(components(dir.push('/')) =~= components(dir));
        assert(all[0] == dir[0]);
        if dir.last() == '/' {
            let d = dir.drop_last();
            assert(dir =~= d.push('/') + none);
            assert(all =~= d.push('/') + name);
            lemma_pieces_join(d, '/', name);
            lemma_pieces_join(d, '/', none);
            lemma_named_join(text::pieces(d, '/'), seq![name]);
            lemma_named_join(text::pieces(d, '/'), seq![none]);
            lemma_pieces_nonempty(d, '/');
            assert(text::pieces(all, '/')[0] == text::pieces(dir, '/')[0]);
        } else {
            assert(all =~= dir.push('/') + name);
            lemma_pieces_join(dir, '/', name);
            lemma_named_join(text::pieces(dir, '/'), seq![name]);
            assert(text::pieces(all, '/')[0] == text::pieces(dir, '/')[0]);
        }
        assert(lead(all) == lead(dir));
        assert(components(all) =~= components(dir).push(name));
    }
}

/// What lies under a directory is judged by names, not by letters: a directory
/// lies under itself, what is in it lies under it, and a neighbour does not, though
/// its name may begin the same.
pub proof fn law_neighbours_lie_outside(dir: Seq<char>, a: Seq<char>, b: Seq<char>)
    requires
        a.len() > 0 && !a.contains('/') && a != seq!['.'],
        b.len() > 0 && !b.contains('/') && b != seq!['.'],
    ensures
        lies_under(dir, dir),
        lies_under(under(dir, a), dir),
        !lies_under(dir, under(dir, a)),
        a != b ==> !lies_under(under(dir, a), under(dir, b)),
{
    law_joined_name_is_one_more_component(dir, a);
    law_joined_name_is_one_more_component(dir, b);
    let cs = components(dir);
    assert(cs.take(cs.len() as int) =~= cs);
    assert(cs.push(a).take(cs.len() as int) =~= cs);
    if a != b && lies_under(under(dir, a), under(dir, b)) {
        assert(cs.push(b)[cs.len() as int] == b);
        assert(cs.push(a).take(cs.push(b).len() as int)[cs.len() as int] == a);
    }
}

/// What lies under something that lies under a directory lies under that too.
pub proof fn law_lying_under_goes_all_the_way(a: Seq<char>, b: Seq<char>, c: Seq<char>)
    requires
        lies_under(a, b),
        lies_under(b, c),
    ensures
        lies_under(a, c),
{
    let (x, y, z) = (components(a), components(b), components(c));
    assert(x.take(z.len() as int) =~= y.take(z.len() as int)) by {
        assert(x.take(y.len() as int) =~= y);
        assert(x.take(y.len() as int).take(z.len() as int) =~= x.take(z.len() as int));
    }
}

/// The extension of a file name is what stands behind its last dot, where something
/// stands before that.
pub proof fn law_extension_is_behind_the_last_dot(stem: Seq<char>, ext: Seq<char>)
    requires
        !ext.contains('.'),
    ensures
        stem.len() > 0 ==> extension_of(stem.push('.') + ext) == Some(ext) && stem_of(
            stem.push('.') + ext,
        ) == stem,
        extension_of(ext) is None && stem_of(ext) == ext,
        extension_of(seq!['.'] + ext) is None && stem_of(seq!['.'] + ext) == seq!['.'] + ext,
{
    let s = stem.push('.') + ext;
    text::lemma_last_at(s, '.');
    assert(s[stem.len() as int] == '.');
    let i = text::last_at(s, '.');
    if i > stem.len() {
        assert(s[i] == ext[i - stem.len() - 1]);
        assert(ext.contains(ext[i - stem.len() - 1]));
    }
    assert(s.take(stem.len() as int) =~= stem);
    assert(s.skip(stem.len() as int + 1) =~= ext);
    text::lemma_last_at(ext, '.');
    let t = seq!['.'] + ext;
    text::lemma_last_at(t, '.');
    let j = text::last_at(t, '.');
    if j > 0 {
        assert(t[j] == ext[j - 1]);
        assert(ext.contains(ext[j - 1]));
    }
}

/// The name at the end of a path is its last component, unless that is the root or
/// a dot or two.
pub proof fn law_last_component_is_the_name(cs: Seq<Seq<char>>, name: Seq<char>)
    ensures
        last_name(Seq::empty()) is None,
        last_name(cs.push(name)) == (if name == seq!['/'] || name == seq!['.'] || name == seq![
            '.',
            '.',
        ] {
            None
        } else {
            Some(name)
        }),
{
}

/// Components are put together in their order, with a slash between.
pub proof fn law_components_are_put_together_in_order(cs: Seq<Seq<char>>, name: Seq<char>)
    ensures
        assembled(Seq::empty()) == Seq::<char>::empty(),
        cs.len() == 0 ==> assembled(cs.push(name)) == name,
        cs.len() > 0 ==> assembled(cs.push(name)) == under(assembled(cs), name),
{
    assert(cs.push(name).drop_last() =~= cs);
    if cs.len() == 0 {
        assert(assembled(cs) =~= Seq::<char>::empty());
        assert(under(assembled(cs), name) =~= name);
    }
}

} // verus!
