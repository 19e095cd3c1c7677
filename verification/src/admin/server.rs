//! The administrator's overview of all apps, and the settings of the server.

use vstd::prelude::*;

use crate::app::commands;
use crate::app::status::AppStatus;
use crate::effect;
use crate::effect::{Change, Steps};
use crate::limits::usage;
use crate::limits::usage::ScopeUsage;
use crate::order;
use crate::path;
use crate::runtime::detect;
use crate::runtime::detect::NodeVersion;
use crate::sys::kv;
use crate::sys::output;
use crate::sys::output::{Json, JsonV, Members, Response};
use crate::sys::state;
use crate::sys::state::PLUGIN_PATH;
use crate::text;

verus! {

// ---------------------------------------------------------------------------
// The overview
// ---------------------------------------------------------------------------

/// An app as the overview shows it.
pub struct AdminApp {
    pub user: String,
    pub name: String,
    pub app_type: String,
    pub host: String,
    pub cwd: String,
    pub entry: String,
    pub created_at: Option<u64>,
    pub status: AppStatus,
    pub usage: Option<ScopeUsage>,
}

pub struct AdminAppV {
    pub user: Seq<char>,
    pub name: Seq<char>,
    pub app_type: Seq<char>,
    pub host: Seq<char>,
    pub cwd: Seq<char>,
    pub entry: Seq<char>,
    pub created_at: Option<nat>,
    pub status: AppStatus,
    pub usage: Option<ScopeUsage>,
}

impl View for AdminApp {
    type V = AdminAppV;

    open spec fn view(&self) -> AdminAppV {
        AdminAppV {
            user: self.user@,
            name: self.name@,
            app_type: self.app_type@,
            host: self.host@,
            cwd: self.cwd@,
            entry: self.entry@,
            created_at: state::nat_of(self.created_at),
            status: self.status,
            usage: self.usage,
        }
    }
}

pub open spec fn app_views(v: Seq<AdminApp>) -> Seq<AdminAppV> {
    Seq::new(v.len(), |i: int| v[i]@)
}

/// What a file in the run directory of an account says of an app; nothing where
/// the file is no `.app` or cannot be read. Only a running app uses anything.
pub open spec fn described(
    user: Seq<char>,
    file_name: Seq<char>,
    content: Option<Seq<char>>,
    s: AppStatus,
    used: Option<ScopeUsage>,
) -> Option<AdminAppV> {
    match content {
        Some(c) if path::extension_of(file_name) == Some("app"@) => {
            let m = kv::of_text(c);
            Some(
                AdminAppV {
                    user,
                    name: path::stem_of(file_name),
                    app_type: kv::value_or_empty(m, "type"@),
                    host: kv::value_or_empty(m, "host"@),
                    cwd: kv::value_or_empty(m, "cwd"@),
                    entry: kv::value_or_empty(m, "entry"@),
                    created_at: kv::number_of(m, "created_at"@, u64::MAX as nat),
                    status: s,
                    usage: if s.is_up() {
                        used
                    } else {
                        None
                    },
                },
            )
        },
        _ => None,
    }
}

/// Describes one app from its `.app` file, for the overview. `s` is its status
/// and `used` what its cgroup says.
pub fn describe_app(
    user: &str,
    file_name: &str,
    content: Option<&str>,
    s: AppStatus,
    used: Option<ScopeUsage>,
) -> (r: Option<AdminApp>)
    ensures
        match r {
            Some(a) => described(user@, file_name@, state::opt_view(content), s, used) == Some(a@),
            None => described(user@, file_name@, state::opt_view(content), s, used) is None,
        },
{
    let name = match path::stem_with_extension(file_name, "app") {
        Some(n) => n,
        None => {
            return None;
        },
    };
    let m = match content {
        Some(c) => kv::parse_kv(c),
        None => {
            return None;
        },
    };
    let usage = if s.running() {
        used
    } else {
        None
    };
    Some(
        AdminApp {
            user: user.to_string(),
            name,
            app_type: m.get_or_empty("type"),
            host: m.get_or_empty("host"),
            cwd: m.get_or_empty("cwd"),
            entry: m.get_or_empty("entry"),
            created_at: m.get_u64("created_at"),
            status: s,
            usage,
        },
    )
}

/// What the overview says of an app.
pub open spec fn admin_entry(a: AdminAppV) -> JsonV {
    JsonV::Obj(
        seq![
            ("user"@, JsonV::Str(a.user)),
            ("name"@, JsonV::Str(a.name)),
            ("type"@, JsonV::Str(a.app_type)),
            ("host"@, JsonV::Str(a.host)),
            ("cwd"@, JsonV::Str(a.cwd)),
            ("entry"@, JsonV::Str(a.entry)),
            ("status"@, JsonV::Str(a.status.name())),
            ("pid"@, commands::pid_view(a.status.pid)),
            ("created_at"@, usage::num(a.created_at)),
            ("started_at"@, output::optional_view(a.status.started_at)),
            (
                "memory"@,
                match a.usage {
                    Some(u) => JsonV::Num(u.memory_bytes as nat),
                    None => JsonV::Null,
                },
            ),
            (
                "cpu_usec"@,
                match a.usage {
                    Some(u) => JsonV::Num(u.cpu_usec as nat),
                    None => JsonV::Null,
                },
            ),
        ],
    )
}

fn admin_json(a: &AdminApp) -> (r: Json)
    ensures
        r@ == admin_entry(a@),
{
    let memory = match a.usage {
        Some(u) => Some(u.memory_bytes),
        None => None,
    };
    let cpu = match a.usage {
        Some(u) => Some(u.cpu_usec),
        None => None,
    };
    let mut m = Members::new();
    m.put_text("user", &a.user);
    m.put_text("name", &a.name);
    m.put_text("type", &a.app_type);
    m.put_text("host", &a.host);
    m.put_text("cwd", &a.cwd);
    m.put_text("entry", &a.entry);
    m.put_text("status", a.status.label());
    m.put("pid", commands::pid_json(a.status.pid));
    m.put_optional("created_at", a.created_at);
    m.put_optional("started_at", a.status.started_at);
    m.put_optional("memory", memory);
    m.put_optional("cpu_usec", cpu);
    assert(m@ =~= admin_entry(a@)->Obj_0);
    m.object()
}

/// The keys by which the overview is sorted: by account, and then by app.
pub open spec fn overview_keys(apps: Seq<AdminAppV>) -> Seq<Seq<u32>> {
    Seq::new(apps.len(), |i: int| order::pair_key(apps[i].user, apps[i].name))
}

/// Whether these are the entries of the apps, sorted by account and app.
pub open spec fn is_overview(apps: Seq<AdminAppV>, entries: Seq<JsonV>) -> bool {
    exists|p: Seq<int>| #[trigger]
        order::arranges(overview_keys(apps), p) && entries == Seq::new(
            p.len(),
            |i: int| admin_entry(apps[p[i]]),
        )
}

/// Every app on the server, for the administrator's overview.
pub fn collect_admin_list(apps: &Vec<AdminApp>) -> (r: Vec<Json>)
    ensures
        is_overview(app_views(apps@), output::json_views(r@)),
{
    let ghost vs = app_views(apps@);
    let mut keys: Vec<Vec<u32>> = Vec::new();
    let mut i: usize = 0;
    while i < apps.len()
        invariant
            i <= apps@.len(),
            keys@.len() == i,
            forall|j: int|
                0 <= j < i ==> (#[trigger] keys@[j])@ == order::pair_key(
                    apps@[j].user@,
                    apps@[j].name@,
                ),
        decreases apps@.len() - i,
    {
        keys.push(order::key_of_pair(&apps[i].user, &apps[i].name));
        i = i + 1;
    }
    assert(order::key_views(keys@) =~= overview_keys(vs));
    let p = order::arrange(&keys);
    let ghost ps = order::places(p@);
    assert forall|i: int| 0 <= i < p@.len() implies #[trigger] p@[i] < apps@.len() by {
        assert(ps[i] < keys@.len());
    }
    let mut out: Vec<Json> = Vec::new();
    let mut n: usize = 0;
    while n < p.len()
        invariant
            vs == app_views(apps@),
            n <= p@.len(),
            forall|i: int| 0 <= i < p@.len() ==> #[trigger] p@[i] < apps@.len(),
            out@.len() == n,
            forall|j: int| 0 <= j < n ==> (#[trigger] out@[j])@ == admin_entry(vs[p@[j] as int]),
        decreases p@.len() - n,
    {
        let at: usize = p[n];
        out.push(admin_json(&apps[at]));
        n = n + 1;
    }
    assert(output::json_views(out@) =~= Seq::new(ps.len(), |i: int| admin_entry(vs[ps[i]])));
    out
}

/// Shows every app on the server.
pub fn cmd_admin_list(apps: &Vec<AdminApp>, debug: Option<Json>) -> (r: Response)
    ensures
        exists|entries: Seq<JsonV>| #[trigger]
            is_overview(app_views(apps@), entries) && r@ == output::accepted(
                output::debugged(
                    seq![("apps"@, JsonV::List(entries))],
                    output::debug_view(debug),
                ),
            ),
{
    let list = collect_admin_list(apps);
    let ghost entries = output::json_views(list@);
    let mut m = Members::new();
    m.put("apps", output::list(list));
    assert(m@ =~= seq![("apps"@, JsonV::List(entries))]);
    output::success(output::with_debug(m, debug))
}

/// What is said of a runtime.
pub open spec fn runtime_entry(v: (Seq<char>, Seq<char>)) -> JsonV {
    JsonV::Obj(seq![("version"@, JsonV::Str(v.1)), ("path"@, JsonV::Str(v.0))])
}

/// Lists the Node.js runtimes of the server.
pub fn cmd_admin_detect_nodes(versions: &Vec<NodeVersion>, debug: Option<Json>) -> (r: Response)
    ensures
        ({
            let vs = detect::version_views(versions@);
            r@ == output::accepted(
                output::debugged(
                    seq![
                        (
                            "versions"@,
                            JsonV::List(Seq::new(vs.len(), |i: int| runtime_entry(vs[i]))),
                        ),
                    ],
                    output::debug_view(debug),
                ),
            )
        }),
{
    let ghost vs = detect::version_views(versions@);
    let ghost want = Seq::new(vs.len(), |i: int| runtime_entry(vs[i]));
    let mut out: Vec<Json> = Vec::new();
    let mut i: usize = 0;
    while i < versions.len()
        invariant
            vs == detect::version_views(versions@),
            want == Seq::new(vs.len(), |i: int| runtime_entry(vs[i])),
            i <= versions@.len(),
            out@.len() == i,
            forall|j: int| 0 <= j < i ==> (#[trigger] out@[j])@ == want[j],
        decreases versions@.len() - i,
    {
        let mut e = Members::new();
        e.put_text("version", &versions[i].version);
        e.put_text("path", &versions[i].path);
        assert(e@ =~= runtime_entry(vs[i as int])->Obj_0);
        out.push(e.object());
        i = i + 1;
    }
    assert(output::json_views(out@) =~= want);
    let mut m = Members::new();
    m.put("versions", output::list(out));
    assert(m@ =~= seq![("versions"@, JsonV::List(want))]);
    output::success(output::with_debug(m, debug))
}

// ---------------------------------------------------------------------------
// Choosing runtimes
// ---------------------------------------------------------------------------

/// The first of these places that is none of the list.
pub open spec fn first_beyond(indices: Seq<usize>, n: nat) -> Option<usize>
    decreases indices.len(),
{
    if indices.len() == 0 {
        None
    } else if indices[0] >= n {
        Some(indices[0])
    } else {
        first_beyond(indices.skip(1), n)
    }
}

/// The place of the runtime among the chosen ones that has this version.
pub open spec fn place_of(
    all: Seq<(Seq<char>, Seq<char>)>,
    chosen: Seq<usize>,
    version: Seq<char>,
) -> Option<int>
    decreases chosen.len(),
{
    if chosen.len() == 0 {
        None
    } else if all[chosen[0] as int].1 == version {
        Some(chosen[0] as int)
    } else {
        place_of(all, chosen.skip(1), version)
    }
}

/// The runtimes that are chosen: of two with the same version the first.
pub open spec fn chosen(all: Seq<(Seq<char>, Seq<char>)>, indices: Seq<usize>) -> Seq<usize>
    decreases indices.len(),
{
    if indices.len() == 0 {
        Seq::empty()
    } else {
        let front = chosen(all, indices.drop_last());
        if place_of(all, front, all[indices.last() as int].1) is Some {
            front
        } else {
            front.push(indices.last())
        }
    }
}

/// A version that was chosen twice, and where.
pub open spec fn clash(version: Seq<char>, first: Seq<char>, second: Seq<char>) -> Seq<char> {
    version + " ("@ + first + " and "@ + second + ")"@
}

/// The versions that were chosen more than once.
pub open spec fn clashes(all: Seq<(Seq<char>, Seq<char>)>, indices: Seq<usize>) -> Seq<Seq<char>>
    decreases indices.len(),
{
    if indices.len() == 0 {
        Seq::empty()
    } else {
        let front = indices.drop_last();
        let v = all[indices.last() as int];
        match place_of(all, chosen(all, front), v.1) {
            Some(j) => clashes(all, front).push(clash(v.1, all[j].0, v.0)),
            None => clashes(all, front),
        }
    }
}

/// How a chosen runtime is recorded.
pub open spec fn record_line(v: (Seq<char>, Seq<char>)) -> Seq<char> {
    v.0 + " "@ + v.1
}

/// How the chosen runtimes are recorded.
pub open spec fn record_lines(all: Seq<(Seq<char>, Seq<char>)>, places: Seq<usize>) -> Seq<Seq<char>> {
    Seq::new(places.len(), |i: int| record_line(all[places[i] as int]))
}

/// What comes of a choice: the lines to record, or an error.
pub open spec fn selection(all: Seq<(Seq<char>, Seq<char>)>, indices: Seq<usize>) -> Result<
    Seq<Seq<char>>,
    (Seq<char>, Seq<char>),
> {
    if all.len() == 0 {
        Err(("no_versions"@, "No Node.js versions detected."@))
    } else {
        match first_beyond(indices, all.len()) {
            Some(i) => Err(
                (
                    "invalid_index"@,
                    "Index "@ + text::decimal(i as nat) + " out of range (max: "@
                        + text::decimal((all.len() - 1) as nat) + ")."@,
                ),
            ),
            None => if clashes(all, indices).len() > 0 {
                Err(
                    (
                        "duplicate_versions"@,
                        "Same version installed twice: "@ + text::joined(
                            clashes(all, indices),
                            ", "@,
                        ) + ". Pick one."@,
                    ),
                )
            } else if indices.len() == 0 {
                Err(("no_selection"@, "No valid version selected."@))
            } else {
                Ok(record_lines(all, chosen(all, indices)))
            },
        }
    }
}

fn find_version(all: &Vec<NodeVersion>, picked: &Vec<usize>, version: &str) -> (r: Option<usize>)
    requires
        forall|i: int| 0 <= i < picked@.len() ==> (#[trigger] picked@[i]) < all@.len(),
    ensures
        match r {
            Some(j) => place_of(detect::version_views(all@), picked@, version@) == Some(j as int)
                && j < all@.len(),
            None => place_of(detect::version_views(all@), picked@, version@) is None,
        },
{
    let ghost vs = detect::version_views(all@);
    let mut i: usize = 0;
    assert(picked@.skip(0) =~= picked@);
    while i < picked.len()
        invariant
            vs == detect::version_views(all@),
            forall|i: int| 0 <= i < picked@.len() ==> (#[trigger] picked@[i]) < all@.len(),
            i <= picked@.len(),
            place_of(vs, picked@, version@) == place_of(vs, picked@.skip(i as int), version@),
        decreases picked@.len() - i,
    {
        let at: usize = picked[i];
        assert(picked@.skip(i as int)[0] == at);
        assert(vs[at as int].1 == all@[at as int].version@);
        if text::same(&all[at].version, version) {
            return Some(at);
        }
        assert(picked@.skip(i as int).skip(1) =~= picked@.skip(i + 1));
        i = i + 1;
    }
    None
}

fn beyond(indices: &Vec<usize>, n: usize) -> (r: Option<usize>)
    ensures
        r == first_beyond(indices@, n as nat),
        r is None ==> forall|i: int| 0 <= i < indices@.len() ==> (#[trigger] indices@[i]) < n,
{
    let mut i: usize = 0;
    assert(indices@.skip(0) =~= indices@);
    while i < indices.len()
        invariant
            i <= indices@.len(),
            first_beyond(indices@, n as nat) == first_beyond(indices@.skip(i as int), n as nat),
            forall|j: int| 0 <= j < i ==> (#[trigger] indices@[j]) < n,
        decreases indices@.len() - i,
    {
        assert(indices@.skip(i as int)[0] == indices@[i as int]);
        if indices[i] >= n {
            return Some(indices[i]);
        }
        assert(indices@.skip(i as int).skip(1) =~= indices@.skip(i + 1));
        i = i + 1;
    }
    None
}

fn index_error(i: usize, n: usize) -> (r: (String, String))
    requires
        n > 0,
    ensures
        r.0@ == "invalid_index"@,
        r.1@ == "Index "@ + text::decimal(i as nat) + " out of range (max: "@ + text::decimal(
            (n - 1) as nat,
        ) + ")."@,
{
    let mut message = "Index ".to_string();
    message.append(&text::show_usize(i));
    message.append(" out of range (max: ");
    message.append(&text::show_usize(n - 1));
    message.append(").");
    ("invalid_index".to_string(), message)
}

proof fn lemma_chosen(all: Seq<(Seq<char>, Seq<char>)>, indices: Seq<usize>)
    ensures
        chosen(all, indices).len() <= indices.len(),
        forall|i: int|
            0 <= i < chosen(all, indices).len() ==> indices.contains(
                #[trigger] chosen(all, indices)[i],
            ),
    decreases indices.len(),
{
    if indices.len() > 0 {
        let front = indices.drop_last();
        lemma_chosen(all, front);
        assert forall|i: int| 0 <= i < chosen(all, indices).len() implies indices.contains(
            #[trigger] chosen(all, indices)[i],
        ) by {
            if i < chosen(all, front).len() {
                let x = chosen(all, front)[i];
                assert(front.contains(x));
                let j = choose|j: int| 0 <= j < front.len() && front[j] == x;
                assert(indices[j] == x);
            } else {
                assert(indices[indices.len() - 1] == indices.last());
            }
        }
    }
}

/// Resolves the chosen indices into the lines to record.
///
/// Refuses two paths carrying the same version: runtimes are known by their
/// version, so a duplicate would make one of them unreachable.
pub fn resolve_selection(all: &Vec<NodeVersion>, indices: &Vec<usize>) -> (r: Result<
    Vec<String>,
    (String, String),
>)
    ensures
        ({
            let want = selection(detect::version_views(all@), indices@);
            match r {
                Ok(v) => want == Ok::<_, (Seq<char>, Seq<char>)>(text::views(v@)),
                Err(e) => want == Err::<Seq<Seq<char>>, _>((e.0@, e.1@)),
            }
        }),
{
    let ghost vs = detect::version_views(all@);
    if all.len() == 0 {
        return Err(("no_versions".to_string(), "No Node.js versions detected.".to_string()));
    }
    if let Some(i) = beyond(indices, all.len()) {
        return Err(index_error(i, all.len()));
    }
    let mut picked: Vec<usize> = Vec::new();
    let mut selected: Vec<String> = Vec::new();
    let mut dupes: Vec<String> = Vec::new();
    let mut i: usize = 0;
    assert(picked@ =~= chosen(vs, indices@.take(0)));
    assert(text::views(selected@) =~= record_lines(vs, picked@));
    assert(text::views(dupes@) =~= clashes(vs, indices@.take(0)));
    while i < indices.len()
        invariant
            vs == detect::version_views(all@),
            forall|j: int| 0 <= j < indices@.len() ==> (#[trigger] indices@[j]) < all@.len(),
            i <= indices@.len(),
            picked@ == chosen(vs, indices@.take(i as int)),
            forall|j: int| 0 <= j < picked@.len() ==> (#[trigger] picked@[j]) < all@.len(),
            text::views(selected@) == record_lines(vs, picked@),
            text::views(dupes@) == clashes(vs, indices@.take(i as int)),
        decreases indices@.len() - i,
    {
        assert(indices@.take(i + 1).drop_last() =~= indices@.take(i as int));
        let at: usize = indices[i];
        assert(indices@.take(i + 1).last() == at);
        assert(vs[at as int] == (all@[at as int].path@, all@[at as int].version@));
        let ghost lines = text::views(selected@);
        let ghost twice = text::views(dupes@);
        match find_version(all, &picked, &all[at].version) {
            Some(j) => {
                let mut d = all[at].version.clone();
                d.append(" (");
                d.append(&all[j].path);
                d.append(" and ");
                d.append(&all[at].path);
                d.append(")");
                assert(d@ == clash(vs[at as int].1, vs[j as int].0, vs[at as int].0));
                dupes.push(d);
                assert(text::views(dupes@) =~= twice.push(d@));
            },
            None => {
                let mut line = all[at].path.clone();
                line.append(" ");
                line.append(&all[at].version);
                assert(line@ == record_line(vs[at as int]));
                let ghost had = picked@;
                picked.push(at);
                selected.push(line);
                assert(text::views(selected@) =~= lines.push(line@));
                assert(record_lines(vs, picked@) =~= record_lines(vs, had).push(line@));
            },
        }
        i = i + 1;
    }
    assert(indices@.take(i as int) =~= indices@);
    assert(text::views(dupes@).len() == dupes@.len());
    if dupes.len() > 0 {
        let mut message = "Same version installed twice: ".to_string();
        message.append(&text::join(&dupes, ", "));
        message.append(". Pick one.");
        return Err(("duplicate_versions".to_string(), message));
    }
    if selected.len() == 0 {
        proof {
            assert(text::views(selected@).len() == 0);
            assert(picked@.len() == 0);
            if indices@.len() > 0 {
                lemma_first_is_chosen(vs, indices@);
            }
        }
        return Err(("no_selection".to_string(), "No valid version selected.".to_string()));
    }
    proof {
        lemma_chosen(vs, indices@);
        assert(text::views(selected@).len() == picked@.len());
    }
    Ok(selected)
}

proof fn lemma_first_is_chosen(all: Seq<(Seq<char>, Seq<char>)>, indices: Seq<usize>)
    requires
        indices.len() > 0,
    ensures
        chosen(all, indices).len() > 0,
    decreases indices.len(),
{
    let front = indices.drop_last();
    if front.len() > 0 {
        lemma_first_is_chosen(all, front);
    } else {
        assert(chosen(all, front) =~= Seq::<usize>::empty());
    }
}

proof fn lemma_place_of(
    all: Seq<(Seq<char>, Seq<char>)>,
    places: Seq<usize>,
    version: Seq<char>,
    k: int,
)
    requires
        place_of(all, places, version) is None,
        0 <= k < places.len(),
    ensures
        all[places[k] as int].1 != version,
    decreases places.len(),
{
    if k > 0 {
        lemma_place_of(all, places.skip(1), version, k - 1);
        assert(places.skip(1)[k - 1] == places[k]);
    }
}

/// No version is ever recorded twice: each of the recorded runtimes can be
/// reached by its version.
pub proof fn law_recorded_versions_are_distinct(
    all: Seq<(Seq<char>, Seq<char>)>,
    indices: Seq<usize>,
    i: int,
    j: int,
)
    requires
        0 <= i < j < chosen(all, indices).len(),
    ensures
        all[chosen(all, indices)[i] as int].1 != all[chosen(all, indices)[j] as int].1,
    decreases indices.len(),
{
    if indices.len() > 0 {
        let front = chosen(all, indices.drop_last());
        if j < front.len() {
            law_recorded_versions_are_distinct(all, indices.drop_last(), i, j);
        } else {
            lemma_place_of(all, front, all[indices.last() as int].1, i);
        }
    }
}

// ---------------------------------------------------------------------------
// Settings of the server
// ---------------------------------------------------------------------------

/// The directory of the plugin's settings.
pub open spec fn etc_dir() -> Seq<char> {
    path::under(PLUGIN_PATH@, "etc"@)
}

/// The error when a setting could not be stored: what failed, where, and why.
pub fn write_failed(what: &str, file: &str, error: &str) -> (r: (String, String))
    ensures
        r.0@ == "write_failed"@,
        r.1@ == "failed to "@ + what@ + " "@ + file@ + ": "@ + error@,
{
    let mut message = "failed to ".to_string();
    message.append(what);
    message.append(" ");
    message.append(file);
    message.append(": ");
    message.append(error);
    ("write_failed".to_string(), message)
}

/// The error when a change to the settings failed.
pub open spec fn change_failed(change: effect::ChangeV, error: Seq<char>) -> Seq<char> {
    match change {
        effect::ChangeV::MakeDir(p) => "failed to "@ + "create"@ + " "@ + p + ": "@ + error,
        effect::ChangeV::Write(p, _) => "failed to "@ + "write"@ + " "@ + p + ": "@ + error,
        _ => error,
    }
}

/// The error when a change to the settings failed.
pub fn store_failed(change: &Change, error: &str) -> (r: (String, String))
    ensures
        r.0@ == "write_failed"@,
        r.1@ == change_failed(change@, error@),
{
    match change {
        Change::MakeDir(p) => write_failed("create", p, error),
        Change::Write(p, _) => write_failed("write", p, error),
        _ => ("write_failed".to_string(), error.to_string()),
    }
}

/// Storing the default for new apps. Everybody may read it: it is looked at
/// after privileges were dropped.
pub open spec fn default_stored(isolated: bool, etc_exists: bool) -> Seq<effect::StepV> {
    let file = path::under(etc_dir(), "default_isolated"@);
    let made = if etc_exists {
        Seq::empty()
    } else {
        seq![
            effect::needed(effect::ChangeV::MakeDir(etc_dir())),
            effect::tried(effect::ChangeV::SetMode(etc_dir(), 0o755)),
        ]
    };
    made + seq![
        effect::needed(
            effect::ChangeV::Write(
                file,
                if isolated {
                    "1\n"@
                } else {
                    "0\n"@
                },
            ),
        ),
        effect::tried(effect::ChangeV::SetMode(file, 0o644)),
    ]
}

/// Stores the server-wide default for whether new accounts isolate their apps:
/// what to change, and the answer's member.
pub fn save_default_isolated(isolated: bool, etc_exists: bool) -> (r: (Steps, Members))
    ensures
        r.0@ == default_stored(isolated, etc_exists),
        r.1@ == seq![("isolated"@, JsonV::Bool(isolated))],
{
    let etc = path::join(PLUGIN_PATH, "etc");
    let file = path::join(&etc, "default_isolated");
    let mut steps = Steps::new();
    if !etc_exists {
        steps.need(Change::MakeDir(etc.clone()));
        steps.try_to(Change::SetMode(etc, 0o755));
    }
    let value = if isolated {
        "1\n".to_string()
    } else {
        "0\n".to_string()
    };
    steps.need(Change::Write(file.clone(), value));
    steps.try_to(Change::SetMode(file, 0o644));
    assert(steps@ =~= default_stored(isolated, etc_exists));
    let mut m = Members::new();
    m.put_bool("isolated", isolated);
    assert(m@ =~= seq![("isolated"@, JsonV::Bool(isolated))]);
    (steps, m)
}

/// The file that the chosen runtimes are recorded in.
pub open spec fn versions_file() -> Seq<char> {
    path::under(etc_dir(), "node_versions"@)
}

/// Recording the chosen runtimes, for everybody to read.
pub open spec fn versions_stored(lines: Seq<Seq<char>>, etc_exists: bool) -> Seq<effect::StepV> {
    let made = if etc_exists {
        Seq::empty()
    } else {
        seq![effect::needed(effect::ChangeV::MakeDir(etc_dir()))]
    };
    made + seq![
        effect::tried(effect::ChangeV::SetMode(etc_dir(), 0o755)),
        effect::needed(
            effect::ChangeV::Write(versions_file(), text::joined(lines, "\n"@) + "\n"@),
        ),
        effect::tried(effect::ChangeV::SetMode(versions_file(), 0o644)),
    ]
}

/// What is said of runtimes that were recorded.
pub open spec fn versions_saved(n: nat) -> Seq<(Seq<char>, JsonV)> {
    seq![
        ("message"@, JsonV::Str("Versions saved."@)),
        ("saved"@, JsonV::Num(n)),
        ("file"@, JsonV::Str(versions_file())),
    ]
}

/// Records the runtimes the administrator chose, by their place in the list of
/// detected ones: what to change, and the members of the answer.
pub fn save_node_versions(all: &Vec<NodeVersion>, indices: &Vec<usize>, etc_exists: bool) -> (r:
    Result<(Steps, Members), (String, String)>)
    ensures
        match (r, selection(detect::version_views(all@), indices@)) {
            (Ok(done), Ok(lines)) => done.0@ == versions_stored(lines, etc_exists) && done.1@
                == versions_saved(lines.len()),
            (Err(e), Err(want)) => (e.0@, e.1@) == want,
            _ => false,
        },
{
    let selected = match resolve_selection(all, indices) {
        Ok(s) => s,
        Err(e) => {
            return Err(e);
        },
    };
    let ghost lines = text::views(selected@);
    let etc = path::join(PLUGIN_PATH, "etc");
    let file = path::join(&etc, "node_versions");
    let mut content = text::join(&selected, "\n");
    content.append("\n");
    let mut steps = Steps::new();
    if !etc_exists {
        steps.need(Change::MakeDir(etc.clone()));
    }
    steps.try_to(Change::SetMode(etc, 0o755));
    steps.need(Change::Write(file.clone(), content));
    steps.try_to(Change::SetMode(file.clone(), 0o644));
    assert(steps@ =~= versions_stored(lines, etc_exists));
    let mut m = Members::new();
    m.put_text("message", "Versions saved.");
    m.put_number("saved", selected.len() as u64);
    m.put_text("file", &file);
    assert(lines.len() == selected@.len());
    assert(m@ =~= versions_saved(lines.len()));
    Ok((steps, m))
}

/// A choice of runtimes is recorded when there is one, each of its numbers is on the
/// list, and no version is chosen twice. What is recorded is the path and the
/// version of each.
pub proof fn law_sound_choices_are_recorded(
    all: Seq<(Seq<char>, Seq<char>)>,
    indices: Seq<usize>,
)
    requires
        forall|i: int| 0 <= i < indices.len() ==> (#[trigger] indices[i]) < all.len(),
        forall|i: int, j: int|
            0 <= i < j < indices.len() ==> all[#[trigger] indices[i] as int].1
                != all[#[trigger] indices[j] as int].1,
    ensures
        indices.len() > 0 ==> selection(all, indices) == Ok::<_, (Seq<char>, Seq<char>)>(
            Seq::new(
                indices.len(),
                |i: int| all[indices[i] as int].0.push(' ') + all[indices[i] as int].1,
            ),
        ),
        all.len() > 0 && indices.len() == 0 ==> selection(all, indices) == Err::<Seq<Seq<char>>, _>(
            ("no_selection"@, "No valid version selected."@),
        ),
        all.len() == 0 ==> selection(all, indices) == Err::<Seq<Seq<char>>, _>(
            ("no_versions"@, "No Node.js versions detected."@),
        ),
{
    reveal_strlit(" ");
    lemma_none_beyond(indices, all.len());
    lemma_all_chosen(all, indices);
    let want = Seq::new(
        indices.len(),
        |i: int| all[indices[i] as int].0.push(' ') + all[indices[i] as int].1,
    );
    assert forall|i: int| 0 <= i < indices.len() implies record_lines(all, indices)[i] == want[i] by {
        let v = all[indices[i] as int];
        assert(v.0 + " "@ + v.1 =~= v.0.push(' ') + v.1);
    }
    assert(record_lines(all, indices) =~= want);
}

proof fn lemma_none_beyond(indices: Seq<usize>, n: nat)
    requires
        forall|i: int| 0 <= i < indices.len() ==> (#[trigger] indices[i]) < n,
    ensures
        first_beyond(indices, n) is None,
    decreases indices.len(),
{
    if indices.len() > 0 {
        let rest = indices.skip(1);
        assert forall|i: int| 0 <= i < rest.len() implies (#[trigger] rest[i]) < n by {
            assert(rest[i] == indices[i + 1]);
        }
        lemma_none_beyond(rest, n);
    }
}

proof fn lemma_no_place(all: Seq<(Seq<char>, Seq<char>)>, chosen: Seq<usize>, version: Seq<char>)
    requires
        forall|i: int| 0 <= i < chosen.len() ==> all[#[trigger] chosen[i] as int].1 != version,
    ensures
        place_of(all, chosen, version) is None,
    decreases chosen.len(),
{
    if chosen.len() > 0 {
        let rest = chosen.skip(1);
        assert forall|i: int| 0 <= i < rest.len() implies all[#[trigger] rest[i] as int].1
            != version by {
            assert(rest[i] == chosen[i + 1]);
        }
        assert(all[chosen[0] as int].1 != version);
        lemma_no_place(all, rest, version);
    }
}

proof fn lemma_all_chosen(all: Seq<(Seq<char>, Seq<char>)>, indices: Seq<usize>)
    requires
        forall|i: int, j: int|
            0 <= i < j < indices.len() ==> all[#[trigger] indices[i] as int].1
                != all[#[trigger] indices[j] as int].1,
    ensures
        chosen(all, indices) == indices,
        clashes(all, indices).len() == 0,
    decreases indices.len(),
{
    if indices.len() > 0 {
        let front = indices.drop_last();
        assert forall|i: int, j: int| 0 <= i < j < front.len() implies all[#[trigger] front[i] as int].1
            != all[#[trigger] front[j] as int].1 by {
            assert(front[i] == indices[i] && front[j] == indices[j]);
        }
        lemma_all_chosen(all, front);
        let v = all[indices.last() as int].1;
        assert forall|i: int| 0 <= i < front.len() implies all[#[trigger] front[i] as int].1 != v by {
            assert(front[i] == indices[i]);
            assert(indices.last() == indices[indices.len() - 1]);
        }
        lemma_no_place(all, front, v);
        assert(front.push(indices.last()) =~= indices);
    } else {
        assert(chosen(all, indices) =~= indices);
    }
}

/// A number that is not on the list refuses the choice, and is named with the last
/// one that is.
pub proof fn law_numbers_beyond_the_list_are_refused(
    all: Seq<(Seq<char>, Seq<char>)>,
    indices: Seq<usize>,
    k: int,
)
    requires
        all.len() > 0,
        0 <= k < indices.len(),
        indices[k] >= all.len(),
        forall|i: int| 0 <= i < k ==> (#[trigger] indices[i]) < all.len(),
    ensures
        selection(all, indices) == Err::<Seq<Seq<char>>, _>(
            (
                "invalid_index"@,
                "Index "@ + text::decimal(indices[k] as nat) + " out of range (max: "@
                    + text::decimal((all.len() - 1) as nat) + ")."@,
            ),
        ),
{
    lemma_beyond(indices, all.len(), k);
}

proof fn lemma_beyond(indices: Seq<usize>, n: nat, k: int)
    requires
        0 <= k < indices.len(),
        indices[k] >= n,
        forall|i: int| 0 <= i < k ==> (#[trigger] indices[i]) < n,
    ensures
        first_beyond(indices, n) == Some(indices[k]),
    decreases k,
{
    if k > 0 {
        assert(indices[0] < n);
        let rest = indices.skip(1);
        assert forall|i: int| 0 <= i < k - 1 implies (#[trigger] rest[i]) < n by {
            assert(rest[i] == indices[i + 1]);
        }
        lemma_beyond(rest, n, k - 1);
    }
}

/// Every file that ends in `.app` is an app of the overview, by the name before the
/// ending; one that is not up uses nothing.
pub proof fn law_app_files_are_in_the_overview(
    user: Seq<char>,
    stem: Seq<char>,
    ext: Seq<char>,
    content: Seq<char>,
    s: AppStatus,
    used: Option<ScopeUsage>,
)
    requires
        stem.len() > 0,
        !ext.contains('.'),
    ensures
        ext != "app"@ ==> described(user, stem.push('.') + ext, Some(content), s, used) is None,
        ext == "app"@ ==> (described(user, stem.push('.') + ext, Some(content), s, used)
            matches Some(a) && a.user == user && a.name == stem && a.app_type == kv::value_or_empty(
            kv::of_text(content),
            "type"@,
        ) && a.host == kv::value_or_empty(kv::of_text(content), "host"@) && a.cwd
            == kv::value_or_empty(kv::of_text(content), "cwd"@) && a.entry == kv::value_or_empty(
            kv::of_text(content),
            "entry"@,
        ) && a.created_at == kv::number_of(
            kv::of_text(content),
            "created_at"@,
            u64::MAX as nat,
        ) && a.status == s && (s.pid is Some ==> a.usage == used) && (s.pid is None
            ==> a.usage is None)),
        described(user, stem.push('.') + ext, None, s, used) is None,
{
    path::law_extension_is_behind_the_last_dot(stem, ext);
}

/// The default for new apps is stored as what is read back for an account without a
/// switch of its own.
pub proof fn law_stored_default_is_read_back(isolated: bool, etc_exists: bool)
    ensures
        ({
            let r = default_stored(isolated, etc_exists);
            let file = path::under(etc_dir(), "default_isolated"@);
            let k = r.len() - 2;
            &&& etc_exists ==> r.len() == 2
            &&& !etc_exists ==> r.len() == 4 && r[0].must && r[0].change
                == effect::ChangeV::MakeDir(etc_dir()) && r[1].change == effect::ChangeV::SetMode(
                etc_dir(),
                493,
            )
            &&& r[k].must && (r[k].change matches effect::ChangeV::Write(p, c) && p == file
                && state::isolated(None, Some(c)) == isolated)
            &&& r[k + 1].change == effect::ChangeV::SetMode(file, 420)
        }),
{
    commands::law_switch_is_read_back(isolated, None);
}

/// The chosen runtimes are recorded one to a line, for everybody to read.
pub proof fn law_recorded_runtimes_are_lines(lines: Seq<Seq<char>>, etc_exists: bool)
    requires
        lines.len() > 0,
        forall|i: int| 0 <= i < lines.len() ==> text::is_plain_line(#[trigger] lines[i]),
    ensures
        ({
            let r = versions_stored(lines, etc_exists);
            let k = r.len() - 2;
            &&& r.len() == (if etc_exists {
                3nat
            } else {
                4
            })
            &&& r[k].must && (r[k].change matches effect::ChangeV::Write(p, c) && p == path::under(
                etc_dir(),
                "node_versions"@,
            ) && text::lines(c) == lines)
            &&& r[k + 1].change == effect::ChangeV::SetMode(versions_file(), 420)
            &&& !etc_exists ==> r[0].must && r[0].change == effect::ChangeV::MakeDir(etc_dir())
        }),
{
    text::law_joined_lines_lack_the_last_feed(lines);
    text::law_closed_lines_read_back(lines);
}

/// The overview lists every app once, sorted by account and then by name.
pub proof fn law_overview_is_sorted_and_complete(
    apps: Seq<AdminAppV>,
    entries: Seq<JsonV>,
    i: int,
    j: int,
    k: int,
)
    requires
        is_overview(apps, entries),
    ensures
        entries.len() == apps.len(),
        0 <= i < entries.len() ==> exists|a: int|
            0 <= a < apps.len() && entries[i] == admin_entry(#[trigger] apps[a]),
        0 <= i < j < entries.len() ==> exists|a: int, b: int|
            0 <= a < apps.len() && 0 <= b < apps.len() && a != b && entries[i] == admin_entry(
                #[trigger] apps[a],
            ) && entries[j] == admin_entry(#[trigger] apps[b]) && order::at_most(
                order::pair_key(apps[a].user, apps[a].name),
                order::pair_key(apps[b].user, apps[b].name),
            ),
{
    let p = choose|p: Seq<int>| #[trigger]
        order::arranges(overview_keys(apps), p) && entries == Seq::new(
            p.len(),
            |i: int| admin_entry(apps[p[i]]),
        );
    if 0 <= i < entries.len() {
        assert(entries[i] == admin_entry(apps[p[i]]));
    }
    if 0 <= i < j < entries.len() {
        assert(order::goes_before(overview_keys(apps), p[i], p[j]));
        assert(entries[i] == admin_entry(apps[p[i]]));
        assert(entries[j] == admin_entry(apps[p[j]]));
        assert(p[i] != p[j]);
    }
}

/// What the overview says of an app, member by member.
pub proof fn law_entries_of_the_overview(a: AdminAppV)
    ensures
        admin_entry(a) matches JsonV::Obj(ms) && ms.len() == 12 && ms.take(8) == seq![
            ("user"@, JsonV::Str(a.user)),
            ("name"@, JsonV::Str(a.name)),
            ("type"@, JsonV::Str(a.app_type)),
            ("host"@, JsonV::Str(a.host)),
            ("cwd"@, JsonV::Str(a.cwd)),
            ("entry"@, JsonV::Str(a.entry)),
            (
                "status"@,
                JsonV::Str(
                    if a.status.pid is Some {
                        "RUNNING"@
                    } else {
                        "STOPPED"@
                    },
                ),
            ),
            (
                "pid"@,
                match a.status.pid {
                    Some(p) => JsonV::Num(p as nat),
                    None => JsonV::Null,
                },
            ),
        ] && ms[10] == (
            "memory"@,
            match a.usage {
                Some(u) => JsonV::Num(u.memory_bytes as nat),
                None => JsonV::Null,
            },
        ) && ms[11] == (
            "cpu_usec"@,
            match a.usage {
                Some(u) => JsonV::Num(u.cpu_usec as nat),
                None => JsonV::Null,
            },
        ),
{
}

/// A version that is chosen a second time refuses the choice, and is named with both
/// places.
pub proof fn law_versions_chosen_twice_are_refused(
    all: Seq<(Seq<char>, Seq<char>)>,
    front: Seq<usize>,
    i: int,
    k: usize,
)
    requires
        forall|a: int| 0 <= a < front.len() ==> (#[trigger] front[a]) < all.len(),
        forall|a: int, b: int|
            0 <= a < b < front.len() ==> all[#[trigger] front[a] as int].1
                != all[#[trigger] front[b] as int].1,
        0 <= i < front.len(),
        k < all.len(),
        all[k as int].1 == all[front[i] as int].1,
    ensures
        selection(all, front.push(k)) == Err::<Seq<Seq<char>>, _>(
            (
                "duplicate_versions"@,
                "Same version installed twice: "@ + (all[k as int].1 + " ("@
                    + all[front[i] as int].0 + " and "@ + all[k as int].0 + ")"@) + ". Pick one."@,
            ),
        ),
{
    let indices = front.push(k);
    assert(indices.drop_last() =~= front);
    assert forall|a: int| 0 <= a < indices.len() implies (#[trigger] indices[a]) < all.len() by {
        if a < front.len() {
            assert(indices[a] == front[a]);
        }
    }
    lemma_none_beyond(indices, all.len());
    lemma_all_chosen(all, front);
    lemma_found_place(all, front, i);
    let c = clash(all[k as int].1, all[front[i] as int].0, all[k as int].0);
    assert(clashes(all, front) =~= Seq::<Seq<char>>::empty());
    assert(clashes(all, indices) =~= seq![c]);
    let none = Seq::<Seq<char>>::empty();
    text::law_joining_puts_the_separator_between(none, c, ", "@);
    assert(none.push(c) =~= seq![c]);
}

proof fn lemma_found_place(all: Seq<(Seq<char>, Seq<char>)>, chosen: Seq<usize>, i: int)
    requires
        0 <= i < chosen.len(),
        forall|a: int, b: int|
            0 <= a < b < chosen.len() ==> all[#[trigger] chosen[a] as int].1
                != all[#[trigger] chosen[b] as int].1,
    ensures
        place_of(all, chosen, all[chosen[i] as int].1) == Some(chosen[i] as int),
    decreases i,
{
    if i > 0 {
        let rest = chosen.skip(1);
        assert(all[chosen[0] as int].1 != all[chosen[i] as int].1);
        assert forall|a: int, b: int| 0 <= a < b < rest.len() implies all[#[trigger] rest[a] as int].1
            != all[#[trigger] rest[b] as int].1 by {
            assert(rest[a] == chosen[a + 1] && rest[b] == chosen[b + 1]);
        }
        assert(rest[i - 1] == chosen[i]);
        lemma_found_place(all, rest, i - 1);
    }
}

/// A change to the settings that failed says what was being done, and to which file.
pub proof fn law_failed_changes_name_the_file(p: Seq<char>, content: Seq<char>, error: Seq<char>)
    ensures
        change_failed(effect::ChangeV::MakeDir(p), error) == "failed to "@ + "create"@ + " "@ + p
            + ": "@ + error,
        change_failed(effect::ChangeV::Write(p, content), error) == "failed to "@ + "write"@ + " "@
            + p + ": "@ + error,
{
}

} // verus!
