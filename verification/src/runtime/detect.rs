//! Which of the Node.js runtimes on this server are safe to run.
//!
//! Reading a version means executing the binary, and that happens as root. A
//! runtime a customer can write is one they can have run as root, so each
//! candidate must resolve inside a trusted root and be root-owned and unwritable
//! by others, parents included.

use vstd::prelude::*;

use crate::order;
use crate::path;
use crate::runtime::node;
use crate::text;

verus! {

pub const NODE_LOCAL: &'static str = "/usr/local/bin/node";

pub const NODE_SYSTEM: &'static str = "/usr/bin/node";

/// Where a runtime is looked for first, in order.
pub open spec fn fixed_paths() -> Seq<Seq<char>> {
    seq![NODE_LOCAL@, NODE_SYSTEM@]
}

pub fn node_fixed_paths() -> (r: Vec<String>)
    ensures
        text::views(r@) == fixed_paths(),
{
    let mut out: Vec<String> = Vec::new();
    out.push(NODE_LOCAL.to_string());
    out.push(NODE_SYSTEM.to_string());
    assert(text::views(out@) =~= fixed_paths());
    out
}

/// Whether `NVM_DIR` may be looked into: only below roots that customers cannot
/// write to, and without a way out of them.
pub open spec fn nvm_is_safe(dir: Seq<char>) -> bool {
    ("/opt/"@.is_prefix_of(dir) || "/usr/local/"@.is_prefix_of(dir)) && !text::occurs(dir, ".."@)
}

/// The patterns under which runtimes are looked for.
pub open spec fn patterns(nvm_dir: Option<Seq<char>>) -> Seq<Seq<char>> {
    let known = seq![
        "/usr/local/nvm/versions/node/*/bin/node"@,
        "/opt/alt/alt-nodejs*/root/usr/bin/node"@,
        "/usr/local/lib/nodejs/*/bin/node"@,
    ];
    match nvm_dir {
        Some(d) => if nvm_is_safe(d) {
            known.push(d + "/versions/node/*/bin/node"@)
        } else {
            known
        },
        None => known,
    }
}

/// The patterns under which runtimes are looked for. Being found there is not
/// trust: see [`is_safe_to_execute`].
pub fn node_globs(nvm_dir: Option<&str>) -> (r: Vec<String>)
    ensures
        text::views(r@) == patterns(crate::sys::state::opt_view(nvm_dir)),
{
    let mut out: Vec<String> = Vec::new();
    out.push("/usr/local/nvm/versions/node/*/bin/node".to_string());
    out.push("/opt/alt/alt-nodejs*/root/usr/bin/node".to_string());
    out.push("/usr/local/lib/nodejs/*/bin/node".to_string());
    if let Some(d) = nvm_dir {
        if (text::starts_with(d, "/opt/") || text::starts_with(d, "/usr/local/"))
            && !text::contains(d, "..") {
            out.push(text::cat(d, "/versions/node/*/bin/node"));
        }
    }
    assert(text::views(out@) =~= patterns(crate::sys::state::opt_view(nvm_dir)));
    out
}

/// The paths that these patterns lead to, each with the entries of the directory
/// it looks in.
pub open spec fn spread(ps: Seq<Seq<char>>, listings: Seq<Seq<Seq<char>>>) -> Seq<Seq<char>>
    decreases ps.len(),
{
    if ps.len() == 0 {
        Seq::empty()
    } else {
        spread(ps.drop_last(), listings.drop_last()) + (match node::glob_of(ps.last()) {
            Some(g) => node::expansions(g, listings.last()),
            None => Seq::empty(),
        })
    }
}

pub open spec fn listing_views(v: Seq<Vec<String>>) -> Seq<Seq<Seq<char>>> {
    Seq::new(v.len(), |i: int| text::views(v[i]@))
}

/// Where runtimes may be: the fixed paths, and what the patterns lead to.
/// `listings` are the entries of the directory of each of [`node_globs`].
pub fn node_candidates(nvm_dir: Option<&str>, listings: &Vec<Vec<String>>) -> (r: Vec<String>)
    requires
        listings@.len() == patterns(crate::sys::state::opt_view(nvm_dir)).len(),
    ensures
        text::views(r@) == fixed_paths() + spread(
            patterns(crate::sys::state::opt_view(nvm_dir)),
            listing_views(listings@),
        ),
{
    let globs = node_globs(nvm_dir);
    let ghost ps = text::views(globs@);
    let ghost ls = listing_views(listings@);
    let mut out = node_fixed_paths();
    let ghost fixed = text::views(out@);
    let mut i: usize = 0;
    assert(fixed + spread(ps.take(0), ls.take(0)) =~= fixed);
    while i < globs.len()
        invariant
            ps == text::views(globs@),
            ls == listing_views(listings@),
            ps.len() == ls.len(),
            i <= globs@.len(),
            text::views(out@) == fixed + spread(ps.take(i as int), ls.take(i as int)),
        decreases globs@.len() - i,
    {
        assert(ps.take(i + 1).drop_last() =~= ps.take(i as int));
        assert(ls.take(i + 1).drop_last() =~= ls.take(i as int));
        assert(ps.take(i + 1).last() == globs@[i as int]@);
        assert(ls.take(i + 1).last() == text::views(listings@[i as int]@));
        let ghost had = text::views(out@);
        let ghost so_far = spread(ps.take(i as int), ls.take(i as int));
        let mut found = node::glob_paths(&globs[i], &listings[i]);
        let ghost more = text::views(found@);
        out.append(&mut found);
        assert(text::views(out@) =~= had + more);
        assert(had + more =~= fixed + (so_far + more));
        i = i + 1;
    }
    assert(ps.take(i as int) =~= ps);
    assert(ls.take(i as int) =~= ls);
    out
}

/// The interpreter to execute when an app names no version of its own, given
/// which of the fixed paths are files.
///
/// An absolute path, never the bare name: the app is launched with the
/// environment of whoever invoked the panel, whose `PATH` may not carry
/// `/usr/local/bin`.
pub fn default_node_path(local: bool, system: bool) -> (r: Option<&'static str>)
    ensures
        match r {
            Some(p) => path::is_rooted(p@) && (if local {
                p@ == NODE_LOCAL@
            } else {
                system && p@ == NODE_SYSTEM@
            }),
            None => !local && !system,
        },
{
    proof {
        reveal_strlit("/usr/local/bin/node");
        reveal_strlit("/usr/bin/node");
    }
    if local {
        Some(NODE_LOCAL)
    } else if system {
        Some(NODE_SYSTEM)
    } else {
        None
    }
}

// ---------------------------------------------------------------------------
// Trust
// ---------------------------------------------------------------------------

/// Whether a resolved runtime path lies under a root reserved for system-wide
/// software.
pub open spec fn is_trusted(canonical: Seq<char>) -> bool {
    path::lies_under(canonical, "/usr/bin/"@) || path::lies_under(canonical, "/usr/local/"@)
        || path::lies_under(canonical, "/opt/"@)
}

pub fn is_trusted_runtime_path(canonical: &str) -> (r: bool)
    ensures
        r == is_trusted(canonical@),
{
    path::starts_with(canonical, "/usr/bin/") || path::starts_with(canonical, "/usr/local/")
        || path::starts_with(canonical, "/opt/")
}

/// Owner and mode of a file.
#[derive(Debug, Clone, Copy, PartialEq, Eq, Structural)]
pub struct Ownership {
    pub uid: u32,
    pub mode: u32,
}

/// Root-owned and writable by nobody but root. A file that cannot be looked at
/// is not.
pub open spec fn is_roots_alone(o: Option<Ownership>) -> bool {
    match o {
        Some(f) => f.uid == 0 && f.mode & 0o022 == 0,
        None => false,
    }
}

pub fn is_root_owned_and_unwritable(o: Option<Ownership>) -> (r: bool)
    ensures
        r == is_roots_alone(o),
{
    match o {
        Some(f) => f.uid == 0 && f.mode & 0o022 == 0,
        None => false,
    }
}

/// A path and every directory above it, up to the root.
pub open spec fn chain(canonical: Seq<char>) -> Seq<Seq<char>> {
    let cs = path::components(canonical);
    Seq::new(cs.len(), |i: int| path::assembled(cs.take(cs.len() - i)))
}

/// A resolved path and every directory above it: what has to be looked at
/// before the file is executed.
pub fn paths_to_check(canonical: &str) -> (r: Vec<String>)
    ensures
        text::views(r@) == chain(canonical@),
{
    let cs = path::split(canonical);
    let n: usize = cs.len();
    let mut out: Vec<String> = Vec::new();
    let mut i: usize = 0;
    while i < n
        invariant
            n == cs@.len(),
            text::views(cs@) == path::components(canonical@),
            i <= n,
            text::views(out@) =~= chain(canonical@).take(i as int),
        decreases n - i,
    {
        let ghost before = text::views(out@);
        let p = path::assemble(&cs, n - i);
        out.push(p);
        assert(text::views(out@) =~= before.push(p@));
        i = i + 1;
    }
    assert(chain(canonical@).take(i as int) =~= chain(canonical@));
    out
}

pub open spec fn all_roots_alone(facts: Seq<Option<Ownership>>) -> bool {
    forall|i: int| 0 <= i < facts.len() ==> is_roots_alone(#[trigger] facts[i])
}

/// Whether a runtime binary is safe to execute as root. `facts` are the owners
/// and modes of [`paths_to_check`].
///
/// Location alone is not enough. Runtime trees are routinely left owned by the
/// account that unpacked them, and anyone who can write the file — or any
/// directory leading to it — can choose what runs as root here.
pub fn is_safe_to_execute(canonical: &str, facts: &Vec<Option<Ownership>>) -> (r: bool)
    requires
        facts@.len() == chain(canonical@).len(),
    ensures
        r == (is_trusted(canonical@) && all_roots_alone(facts@)),
{
    if !is_trusted_runtime_path(canonical) {
        return false;
    }
    let mut i: usize = 0;
    while i < facts.len()
        invariant
            i <= facts@.len(),
            forall|j: int| 0 <= j < i ==> is_roots_alone(#[trigger] facts@[j]),
        decreases facts@.len() - i,
    {
        if !is_root_owned_and_unwritable(facts[i]) {
            return false;
        }
        i = i + 1;
    }
    true
}

/// One file or directory on the way that someone else can write is enough to
/// refuse a runtime, wherever it lies.
pub proof fn law_one_writable_parent_refuses(
    canonical: Seq<char>,
    facts: Seq<Option<Ownership>>,
    i: int,
)
    requires
        0 <= i < facts.len(),
        !is_roots_alone(facts[i]),
    ensures
        !(is_trusted(canonical) && all_roots_alone(facts)),
{
}

// ---------------------------------------------------------------------------
// Candidates
// ---------------------------------------------------------------------------

/// A path at which a runtime may be: whether it is a file, what it resolves to,
/// and whether that is safe to execute.
pub struct Candidate {
    pub path: String,
    pub is_file: bool,
    pub canonical: Option<String>,
    pub safe: bool,
}

pub open spec fn resolves(c: Candidate) -> Option<Seq<char>> {
    if c.is_file {
        crate::command::opt(c.canonical)
    } else {
        None
    }
}

/// Whether the candidate at `i` is the first of the safe ones that resolve to
/// the same file.
pub open spec fn is_runnable(cs: Seq<Candidate>, i: int) -> bool {
    &&& resolves(cs[i]) is Some
    &&& cs[i].safe
    &&& forall|j: int|
        0 <= j < i ==> !(resolves(#[trigger] cs[j]) == resolves(cs[i]) && cs[j].safe)
}

/// The places of the candidates that are to be executed, in order.
pub open spec fn runnable(cs: Seq<Candidate>, n: nat) -> Seq<int>
    decreases n,
{
    if n == 0 {
        Seq::empty()
    } else if is_runnable(cs, n - 1) {
        runnable(cs, (n - 1) as nat).push(n - 1)
    } else {
        runnable(cs, (n - 1) as nat)
    }
}

fn already_seen(cs: &Vec<Candidate>, i: usize, must_be_safe: bool) -> (r: bool)
    requires
        i < cs@.len(),
        resolves(cs@[i as int]) is Some,
    ensures
        r == exists|j: int|
            0 <= j < i && resolves(#[trigger] cs@[j]) == resolves(cs@[i as int]) && (must_be_safe
                ==> cs@[j].safe),
{
    let mut j: usize = 0;
    while j < i
        invariant
            j <= i < cs@.len(),
            resolves(cs@[i as int]) is Some,
            forall|k: int|
                0 <= k < j ==> !(resolves(#[trigger] cs@[k]) == resolves(cs@[i as int]) && (
                must_be_safe ==> cs@[k].safe)),
        decreases i - j,
    {
        if cs[j].is_file && (!must_be_safe || cs[j].safe) {
            if let Some(a) = &cs[j].canonical {
                if let Some(b) = &cs[i].canonical {
                    if text::same(a, b) {
                        return true;
                    }
                }
            }
        }
        j = j + 1;
    }
    false
}

/// The candidates to execute for their version: each safe file once, under the
/// first path that leads to it. Nothing else may be executed.
pub fn runtimes_to_run(cs: &Vec<Candidate>) -> (r: Vec<usize>)
    ensures
        order::places(r@) == runnable(cs@, cs@.len()),
{
    let mut out: Vec<usize> = Vec::new();
    let mut i: usize = 0;
    assert(order::places(out@) =~= Seq::<int>::empty());
    while i < cs.len()
        invariant
            i <= cs@.len(),
            order::places(out@) == runnable(cs@, i as nat),
        decreases cs@.len() - i,
    {
        let ghost before = order::places(out@);
        if cs[i].is_file && cs[i].canonical.is_some() && cs[i].safe {
            if !already_seen(cs, i, true) {
                out.push(i);
                assert(order::places(out@) =~= before.push(i as int));
            }
        }
        i = i + 1;
    }
    out
}

proof fn lemma_runnable_is_safe(cs: Seq<Candidate>, n: nat)
    requires
        n <= cs.len(),
    ensures
        forall|k: int| 0 <= k < runnable(cs, n).len() ==> {
            let i = #[trigger] runnable(cs, n)[k];
            0 <= i < n && is_runnable(cs, i)
        },
    decreases n,
{
    if n > 0 {
        lemma_runnable_is_safe(cs, (n - 1) as nat);
        let front = runnable(cs, (n - 1) as nat);
        assert forall|k: int| 0 <= k < runnable(cs, n).len() implies {
            let i = #[trigger] runnable(cs, n)[k];
            0 <= i < n && is_runnable(cs, i)
        } by {
            if k < front.len() {
                assert(runnable(cs, n)[k] == front[k]);
            }
        }
    }
}

/// Whatever is executed was found safe.
pub proof fn law_only_safe_runtimes_run(cs: Seq<Candidate>, k: int)
    requires
        0 <= k < runnable(cs, cs.len()).len(),
    ensures
        0 <= runnable(cs, cs.len())[k] < cs.len(),
        cs[runnable(cs, cs.len())[k]].safe,
        cs[runnable(cs, cs.len())[k]].is_file,
{
    lemma_runnable_is_safe(cs, cs.len());
    assert(is_runnable(cs, runnable(cs, cs.len())[k]));
}

/// A runtime: where it is and what version it states.
pub struct NodeVersion {
    pub path: String,
    pub version: String,
}

pub open spec fn version_views(v: Seq<NodeVersion>) -> Seq<(Seq<char>, Seq<char>)> {
    Seq::new(v.len(), |i: int| (v[i].path@, v[i].version@))
}

/// The key that puts the newest version first: versions before what states
/// none, greater numbers before smaller ones, and then by text.
pub open spec fn newness(ver: Seq<char>) -> Seq<u32> {
    match node::version(ver) {
        Some((a, b, c)) => seq![
            0u32,
            (u32::MAX - a) as u32,
            (u32::MAX - b) as u32,
            (u32::MAX - c) as u32,
        ] + order::text_key(ver),
        None => seq![1u32] + order::text_key(ver),
    }
}

fn newness_key(ver: &str) -> (r: Vec<u32>)
    ensures
        r@ == newness(ver@),
{
    let mut key: Vec<u32> = Vec::new();
    match node::parse_node_semver(ver) {
        Some((a, b, c)) => {
            key.push(0);
            key.push(u32::MAX - a);
            key.push(u32::MAX - b);
            key.push(u32::MAX - c);
        },
        None => {
            key.push(1);
        },
    }
    let ghost head = key@;
    let mut rest = order::key_of_text(ver);
    key.append(&mut rest);
    assert(key@ =~= newness(ver@));
    key
}

pub open spec fn newness_keys(v: Seq<(Seq<char>, Seq<char>)>) -> Seq<Seq<u32>> {
    Seq::new(v.len(), |i: int| newness(v[i].1))
}

/// Whether `out` lists `v` from the newest version to the oldest, runtimes of
/// the same version in the order they had.
pub open spec fn is_newest_first(
    v: Seq<(Seq<char>, Seq<char>)>,
    out: Seq<(Seq<char>, Seq<char>)>,
) -> bool {
    exists|p: Seq<int>| #[trigger] order::arranges(newness_keys(v), p) && out == order::picked(v, p)
}

/// The runtimes from the newest version to the oldest.
pub fn newest_first(v: &Vec<NodeVersion>) -> (r: Vec<NodeVersion>)
    ensures
        is_newest_first(version_views(v@), version_views(r@)),
{
    let ghost vs = version_views(v@);
    let mut keys: Vec<Vec<u32>> = Vec::new();
    let mut i: usize = 0;
    while i < v.len()
        invariant
            i <= v@.len(),
            keys@.len() == i,
            forall|j: int| 0 <= j < i ==> (#[trigger] keys@[j])@ == newness(v@[j].version@),
        decreases v@.len() - i,
    {
        keys.push(newness_key(&v[i].version));
        i = i + 1;
    }
    assert(order::key_views(keys@) =~= newness_keys(vs));
    let p = order::arrange(&keys);
    assert forall|i: int| 0 <= i < p@.len() implies #[trigger] p@[i] < v@.len() by {
        assert(order::places(p@)[i] < keys@.len());
    }
    let mut out: Vec<NodeVersion> = Vec::new();
    let mut n: usize = 0;
    while n < p.len()
        invariant
            n <= p@.len(),
            forall|i: int| 0 <= i < p@.len() ==> #[trigger] p@[i] < v@.len(),
            out@.len() == n,
            forall|j: int|
                0 <= j < n ==> (#[trigger] out@[j]).path@ == v@[p@[j] as int].path@
                    && out@[j].version@ == v@[p@[j] as int].version@,
        decreases p@.len() - n,
    {
        let at: usize = p[n];
        out.push(NodeVersion { path: v[at].path.clone(), version: v[at].version.clone() });
        n = n + 1;
    }
    assert(version_views(out@) =~= order::picked(vs, order::places(p@)));
    out
}

/// What a runtime that was executed answered: its path, whether the run
/// succeeded, and what it printed.
pub struct Answer {
    pub path: String,
    pub succeeded: bool,
    pub stdout: String,
}

/// The supported runtimes among those that answered, as they come.
pub open spec fn supported(v: Seq<Answer>) -> Seq<(Seq<char>, Seq<char>)>
    decreases v.len(),
{
    if v.len() == 0 {
        Seq::empty()
    } else {
        let a = v.last();
        match node::stated_version(a.succeeded, a.stdout@) {
            Some(ver) => if node::is_supported(ver) {
                supported(v.drop_last()).push((a.path@, ver))
            } else {
                supported(v.drop_last())
            },
            None => supported(v.drop_last()),
        }
    }
}

/// The Node.js runtimes installed on the system, from the newest to the oldest,
/// given what those of [`runtimes_to_run`] answered.
pub fn detect_node_versions(answers: &Vec<Answer>) -> (r: Vec<NodeVersion>)
    ensures
        is_newest_first(supported(answers@), version_views(r@)),
{
    let mut found: Vec<NodeVersion> = Vec::new();
    let mut i: usize = 0;
    assert(version_views(found@) =~= supported(answers@.take(0)));
    while i < answers.len()
        invariant
            i <= answers@.len(),
            version_views(found@) == supported(answers@.take(i as int)),
        decreases answers@.len() - i,
    {
        let ghost before = version_views(found@);
        assert(answers@.take(i + 1).drop_last() =~= answers@.take(i as int));
        if let Some(version) = node::get_node_version(answers[i].succeeded, &answers[i].stdout) {
            let path = answers[i].path.clone();
            found.push(NodeVersion { path, version });
            assert(version_views(found@) =~= before.push((path@, version@)));
        }
        i = i + 1;
    }
    assert(answers@.take(i as int) =~= answers@);
    newest_first(&found)
}

/// Whether the candidate at `i` is the first one that resolves to its file, and
/// is refused.
pub open spec fn is_refused(cs: Seq<Candidate>, i: int) -> bool {
    &&& resolves(cs[i]) is Some
    &&& !cs[i].safe
    &&& forall|j: int| 0 <= j < i ==> resolves(#[trigger] cs[j]) != resolves(cs[i])
}

/// Why a candidate is refused.
pub open spec fn refusal(c: Candidate) -> Seq<char> {
    if is_trusted(c.canonical->0@) {
        "unsafe_ownership"@
    } else {
        "untrusted_path"@
    }
}

pub open spec fn refusals(cs: Seq<Candidate>, n: nat) -> Seq<(Seq<char>, Seq<char>)>
    decreases n,
{
    if n == 0 {
        Seq::empty()
    } else if is_refused(cs, n - 1) {
        refusals(cs, (n - 1) as nat).push((cs[n - 1].path@, refusal(cs[n - 1])))
    } else {
        refusals(cs, (n - 1) as nat)
    }
}

/// A runtime that was found and refused, and why.
pub struct Rejected {
    pub path: String,
    pub reason: String,
}

pub open spec fn rejected_views(v: Seq<Rejected>) -> Seq<(Seq<char>, Seq<char>)> {
    Seq::new(v.len(), |i: int| (v[i].path@, v[i].reason@))
}

/// Runtime binaries that exist in a searched location but were refused, paired
/// with why. Detection skips these silently, so the diagnostic reports them.
pub fn rejected_node_runtimes(cs: &Vec<Candidate>) -> (r: Vec<Rejected>)
    ensures
        rejected_views(r@) == refusals(cs@, cs@.len()),
{
    let mut out: Vec<Rejected> = Vec::new();
    let mut i: usize = 0;
    assert(rejected_views(out@) =~= refusals(cs@, 0));
    while i < cs.len()
        invariant
            i <= cs@.len(),
            rejected_views(out@) == refusals(cs@, i as nat),
        decreases cs@.len() - i,
    {
        let ghost before = rejected_views(out@);
        if cs[i].is_file && !cs[i].safe {
            if let Some(canonical) = &cs[i].canonical {
                if !already_seen(cs, i, false) {
                    let reason = if is_trusted_runtime_path(canonical) {
                        "unsafe_ownership".to_string()
                    } else {
                        "untrusted_path".to_string()
                    };
                    let path = cs[i].path.clone();
                    out.push(Rejected { path, reason });
                    assert(rejected_views(out@) =~= before.push((path@, reason@)));
                }
            }
        }
        i = i + 1;
    }
    out
}

/// `NVM_DIR` is looked into below `/opt/` and `/usr/local/` only, and only where it
/// does not lead out of there.
pub proof fn law_nvm_is_looked_for_in_safe_places(rest: Seq<char>, dir: Seq<char>)
    ensures
        !text::occurs("/opt/"@ + rest, ".."@) ==> nvm_is_safe("/opt/"@ + rest),
        !text::occurs("/usr/local/"@ + rest, ".."@) ==> nvm_is_safe("/usr/local/"@ + rest),
        nvm_is_safe(dir) ==> !text::occurs(dir, ".."@) && ("/opt/"@.is_prefix_of(dir)
            || "/usr/local/"@.is_prefix_of(dir)),
        nvm_is_safe(dir) ==> patterns(Some(dir)) == patterns(None).push(
            dir + "/versions/node/*/bin/node"@,
        ),
        !nvm_is_safe(dir) ==> patterns(Some(dir)) == patterns(None),
        patterns(None) == seq![
            "/usr/local/nvm/versions/node/*/bin/node"@,
            "/opt/alt/alt-nodejs*/root/usr/bin/node"@,
            "/usr/local/lib/nodejs/*/bin/node"@,
        ],
        fixed_paths() == seq!["/usr/local/bin/node"@, "/usr/bin/node"@],
{
    let a = "/opt/"@ + rest;
    let b = "/usr/local/"@ + rest;
    assert(a.take("/opt/"@.len() as int) =~= "/opt/"@);
    assert(b.take("/usr/local/"@.len() as int) =~= "/usr/local/"@);
    assert("/opt/"@.is_prefix_of(a));
    assert("/usr/local/"@.is_prefix_of(b));
}

/// A runtime is trusted where it and all above it are root's, and nobody else may
/// write to them.
pub proof fn law_trusted_means_roots_alone(uid: u32, mode: u32)
    ensures
        is_roots_alone(Some(Ownership { uid, mode })) <==> uid == 0 && mode & 0o020 == 0 && mode
            & 0o002 == 0,
        !is_roots_alone(None),
{
    assert((mode & 0o022 == 0) == (mode & 0o020 == 0 && mode & 0o002 == 0)) by (bit_vector);
}

/// What is looked at of a path is it and every directory above, up to the root.
pub proof fn law_whole_way_up_is_looked_at(dir: Seq<char>, name: Seq<char>)
    requires
        name.len() > 0,
        !name.contains('/'),
        name != seq!['.'],
    ensures
        chain(path::under(dir, name)).len() == chain(dir).len() + 1,
        chain(path::under(dir, name)).skip(1) == chain(dir),
        chain(path::under(dir, name))[0] == path::assembled(path::components(dir).push(name)),
{
    path::law_joined_name_is_one_more_component(dir, name);
    let cs = path::components(dir);
    let all = path::components(path::under(dir, name));
    assert(all.take(all.len() as int) =~= all);
    assert forall|i: int| 0 <= i < chain(dir).len() implies chain(path::under(dir, name)).skip(1)[i]
        == chain(dir)[i] by {
        assert(all.take(all.len() - (i + 1)) =~= cs.take(cs.len() - i));
    }
    assert(chain(path::under(dir, name)).skip(1) =~= chain(dir));
}

/// A runtime is found when it answered with a version from 20.6 on.
pub proof fn law_supported_answers_are_found(
    v: Seq<Answer>,
    a: Answer,
    major: nat,
    minor: nat,
    patch: nat,
)
    requires
        major <= u32::MAX && minor <= u32::MAX && patch <= u32::MAX,
        a.stdout@ == seq!['v'] + text::decimal(major).push('.') + text::decimal(minor).push('.')
            + text::decimal(patch),
    ensures
        supported(Seq::empty()).len() == 0,
        supported(v.push(a)) == (if a.succeeded && (major > 20 || (major == 20 && minor >= 6)) {
            supported(v).push((a.path@, a.stdout@))
        } else {
            supported(v)
        }),
{
    node::law_versions_are_read_in_full(major, minor, patch);
    text::law_numbers_read_back(patch, patch);
    let s = a.stdout@;
    let d = text::decimal(patch);
    let none = Seq::<char>::empty();
    text::law_ascii_white_space('v');
    assert(s[0] == 'v');
    assert(s.last() == d[d.len() - 1]);
    text::law_ascii_white_space(s.last());
    assert(none + s + none =~= s);
    node::law_runtimes_state_what_they_print(none, s, none);
    assert(v.push(a).drop_last() =~= v);
}

/// Newer versions come first: by the first number, then the second, then the third.
pub proof fn law_newer_versions_come_first(
    a: Seq<char>,
    b: Seq<char>,
    x: (nat, nat, nat),
    y: (nat, nat, nat),
)
    requires
        node::version(a) == Some(x),
        node::version(b) == Some(y),
        x.0 <= u32::MAX && x.1 <= u32::MAX && x.2 <= u32::MAX,
        y.0 <= u32::MAX && y.1 <= u32::MAX && y.2 <= u32::MAX,
        x.0 > y.0 || (x.0 == y.0 && (x.1 > y.1 || (x.1 == y.1 && x.2 > y.2))),
    ensures
        order::at_most(newness(a), newness(b)),
        !order::at_most(newness(b), newness(a)),
{
    let ka = order::text_key(a);
    let kb = order::text_key(b);
    let a1 = (u32::MAX - x.0) as u32;
    let a2 = (u32::MAX - x.1) as u32;
    let a3 = (u32::MAX - x.2) as u32;
    let b1 = (u32::MAX - y.0) as u32;
    let b2 = (u32::MAX - y.1) as u32;
    let b3 = (u32::MAX - y.2) as u32;
    if x.0 > y.0 {
        let p = seq![0u32];
        order::law_dictionary_order(p, a1, b1, seq![a2, a3] + ka, seq![b2, b3] + kb);
        assert(newness(a) =~= p.push(a1) + (seq![a2, a3] + ka));
        assert(newness(b) =~= p.push(b1) + (seq![b2, b3] + kb));
    } else if x.1 > y.1 {
        let p = seq![0u32, a1];
        order::law_dictionary_order(p, a2, b2, seq![a3] + ka, seq![b3] + kb);
        assert(newness(a) =~= p.push(a2) + (seq![a3] + ka));
        assert(newness(b) =~= p.push(b2) + (seq![b3] + kb));
    } else {
        let p = seq![0u32, a1, a2];
        order::law_dictionary_order(p, a3, b3, ka, kb);
        assert(newness(a) =~= p.push(a3) + ka);
        assert(newness(b) =~= p.push(b3) + kb);
    }
}

/// A safe candidate that no other one resolves to is run; one that is refused is
/// told why: its place, or else its owners.
pub proof fn law_candidates_are_run_or_refused(cs: Seq<Candidate>, n: nat)
    requires
        n < cs.len(),
        cs[n as int].is_file,
        cs[n as int].canonical is Some,
        forall|j: int|
            0 <= j < n ==> !((#[trigger] cs[j]).is_file && cs[j].canonical is Some
                && cs[j].canonical->0@ == cs[n as int].canonical->0@),
    ensures
        runnable(cs, 0).len() == 0,
        refusals(cs, 0).len() == 0,
        ({
            let c = cs[n as int];
            let trusted = path::lies_under(c.canonical->0@, "/usr/bin/"@) || path::lies_under(
                c.canonical->0@,
                "/usr/local/"@,
            ) || path::lies_under(c.canonical->0@, "/opt/"@);
            &&& c.safe ==> runnable(cs, n + 1) == runnable(cs, n).push(n as int) && refusals(
                cs,
                n + 1,
            ) == refusals(cs, n)
            &&& !c.safe ==> runnable(cs, n + 1) == runnable(cs, n) && refusals(cs, n + 1)
                == refusals(cs, n).push(
                (
                    c.path@,
                    if trusted {
                        "unsafe_ownership"@
                    } else {
                        "untrusted_path"@
                    },
                ),
            )
        }),
{
    let c = cs[n as int];
    assert(resolves(c) == Some(c.canonical->0@));
    assert forall|j: int| 0 <= j < n implies resolves(#[trigger] cs[j]) != resolves(c) by {
        if cs[j].is_file && cs[j].canonical is Some {
            assert(resolves(cs[j]) == Some(cs[j].canonical->0@));
        } else {
            assert(resolves(cs[j]) is None);
        }
    }
}

/// What is found under a pattern is looked for in the listing of its own directory.
pub proof fn law_patterns_are_looked_up_in_their_listing(
    ps: Seq<Seq<char>>,
    listings: Seq<Seq<Seq<char>>>,
    p: Seq<char>,
    listing: Seq<Seq<char>>,
    g: node::GlobV,
)
    requires
        ps.len() == listings.len(),
        node::glob_of(p) == Some(g),
    ensures
        spread(Seq::empty(), Seq::empty()).len() == 0,
        spread(ps.push(p), listings.push(listing)) == spread(ps, listings) + node::expansions(
            g,
            listing,
        ),
{
    assert(ps.push(p).drop_last() =~= ps);
    assert(listings.push(listing).drop_last() =~= listings);
}

/// A list from the newest to the oldest has every runtime once and none other, and
/// no version behind an older one.
pub proof fn law_newest_first_loses_nothing(
    v: Seq<(Seq<char>, Seq<char>)>,
    out: Seq<(Seq<char>, Seq<char>)>,
    i: int,
    j: int,
)
    requires
        is_newest_first(v, out),
        0 <= i < j < out.len(),
    ensures
        out.len() == v.len(),
        v.contains(out[i]),
        order::at_most(newness(out[i].1), newness(out[j].1)),
{
    let p = choose|p: Seq<int>| #[trigger]
        order::arranges(newness_keys(v), p) && out == order::picked(v, p);
    assert(order::goes_before(newness_keys(v), p[i], p[j]));
    assert(out[i] == v[p[i]]);
}

/// A file that several candidates resolve to is run once, for the first of them that
/// is safe, and told of as refused at most once, for the first of them.
pub proof fn law_each_file_is_run_once(cs: Seq<Candidate>, j: int, n: nat)
    requires
        0 <= j < n < cs.len(),
        cs[j].is_file && cs[n as int].is_file,
        cs[j].canonical is Some && cs[n as int].canonical is Some,
        cs[j].canonical->0@ == cs[n as int].canonical->0@,
    ensures
        cs[j].safe ==> runnable(cs, n + 1) == runnable(cs, n),
        refusals(cs, n + 1) == refusals(cs, n),
        !cs[j].safe && cs[n as int].safe && (forall|i: int|
            0 <= i < n && i != j ==> !((#[trigger] cs[i]).is_file && cs[i].canonical is Some
                && cs[i].canonical->0@ == cs[n as int].canonical->0@)) ==> runnable(cs, n + 1)
            == runnable(cs, n).push(n as int),
{
    let c = cs[n as int];
    assert(resolves(c) == Some(c.canonical->0@));
    assert(resolves(cs[j]) == resolves(c));
    if !cs[j].safe && c.safe && (forall|i: int|
        0 <= i < n && i != j ==> !((#[trigger] cs[i]).is_file && cs[i].canonical is Some
            && cs[i].canonical->0@ == c.canonical->0@)) {
        assert forall|i: int| 0 <= i < n implies !(resolves(#[trigger] cs[i]) == resolves(c)
            && cs[i].safe) by {
            if i != j {
                if cs[i].is_file && cs[i].canonical is Some {
                    assert(resolves(cs[i]) == Some(cs[i].canonical->0@));
                } else {
                    assert(resolves(cs[i]) is None);
                }
            }
        }
    }
}

} // verus!
