//! The commands that act on an account's apps: what each one does and answers.

use vstd::prelude::*;

use crate::app::appfile;
use crate::app::logs;
use crate::app::status;
use crate::app::status::{AppStatus, StopPlan};
use crate::app::validate;
use crate::app::validate::{AddArgs, EntryFacts};
use crate::effect;
use crate::effect::{Change, Steps};
use crate::limits::sandbox;
use crate::limits::usage;
use crate::order;
use crate::path;
use crate::runtime::kind;
use crate::runtime::kind::Runtime;
use crate::sys::json;
use crate::sys::output;
use crate::sys::output::{Json, JsonV, Members, Response};
use crate::sys::state;
use crate::sys::state::AppMeta;
use crate::text;

verus! {

/// The smallest memory cap an app can be given, in megabytes. Below it nothing
/// a Node process needs would fit.
pub const MIN_MEMORY_MB: u64 = 16;

/// How long a script name can be, in bytes.
pub const MAX_SCRIPT_NAME: usize = 64;

/// How long an argument can be, in bytes.
pub const MAX_ARGUMENT: usize = 256;

/// How many arguments there can be.
pub const MAX_ARGUMENTS: usize = 32;

/// The answer of a command that has nothing to add.
pub open spec fn done(debug: Option<JsonV>) -> output::ResponseV {
    output::accepted(output::debugged(Seq::empty(), debug))
}

fn just_done(debug: Option<Json>) -> (r: Response)
    ensures
        r@ == done(output::debug_view(debug)),
{
    output::success(output::with_debug(Members::new(), debug))
}

pub open spec fn pid_view(pid: Option<u32>) -> JsonV {
    match pid {
        Some(p) => JsonV::Num(p as nat),
        None => JsonV::Null,
    }
}

pub fn pid_json(pid: Option<u32>) -> (r: Json)
    ensures
        r@ == pid_view(pid),
{
    match pid {
        Some(p) => Json::Num(p as u64),
        None => Json::Null,
    }
}

// ---------------------------------------------------------------------------
// Listing
// ---------------------------------------------------------------------------

/// An app of the account: its name, its metadata where it can be loaded, and
/// its status.
pub struct ListedApp {
    pub name: String,
    pub meta: Option<AppMeta>,
    pub status: AppStatus,
}

/// What the list says of an app.
pub open spec fn list_entry(name: Seq<char>, m: state::AppMetaV, s: AppStatus) -> JsonV {
    let fixed = seq![
        ("name"@, JsonV::Str(name)),
        ("type"@, JsonV::Str(m.app_type)),
        ("status"@, JsonV::Str(s.name())),
        ("pid"@, pid_view(s.pid)),
        ("host"@, JsonV::Str(m.host)),
        ("cwd"@, JsonV::Str(m.cwd)),
        ("entry"@, JsonV::Str(m.entry)),
        ("created_at"@, usage::num(m.created_at)),
        ("started_at"@, output::optional_view(s.started_at)),
    ];
    JsonV::Obj(
        if m.node_version.len() > 0 {
            fixed.push(("node_version"@, JsonV::Str(m.node_version)))
        } else {
            fixed
        },
    )
}

/// What the list says: one entry for every app whose metadata can be loaded.
pub open spec fn list_entries(apps: Seq<ListedApp>) -> Seq<JsonV>
    decreases apps.len(),
{
    if apps.len() == 0 {
        Seq::empty()
    } else {
        let a = apps.last();
        match a.meta {
            Some(m) => list_entries(apps.drop_last()).push(list_entry(a.name@, m@, a.status)),
            None => list_entries(apps.drop_last()),
        }
    }
}

fn entry_json(name: &str, m: &AppMeta, s: AppStatus) -> (r: Json)
    ensures
        r@ == list_entry(name@, m@, s),
{
    let mut e = Members::new();
    e.put_text("name", name);
    e.put_text("type", &m.app_type);
    e.put_text("status", s.label());
    e.put("pid", pid_json(s.pid));
    e.put_text("host", &m.host);
    e.put_text("cwd", &m.cwd);
    e.put_text("entry", &m.entry);
    e.put_optional("created_at", m.created_at);
    e.put_optional("started_at", s.started_at);
    if !m.node_version.as_str().is_empty() {
        e.put_text("node_version", &m.node_version);
    }
    assert(e@ =~= list_entry(name@, m@, s)->Obj_0);
    e.object()
}

/// Lists the apps of an account.
pub fn cmd_list(apps: &Vec<ListedApp>, debug: Option<Json>) -> (r: Response)
    ensures
        r@ == output::accepted(
            output::debugged(
                seq![("apps"@, JsonV::List(list_entries(apps@)))],
                output::debug_view(debug),
            ),
        ),
{
    let mut out: Vec<Json> = Vec::new();
    let mut i: usize = 0;
    assert(output::json_views(out@) =~= list_entries(apps@.take(0)));
    while i < apps.len()
        invariant
            i <= apps@.len(),
            output::json_views(out@) == list_entries(apps@.take(i as int)),
        decreases apps@.len() - i,
    {
        let ghost before = output::json_views(out@);
        assert(apps@.take(i + 1).drop_last() =~= apps@.take(i as int));
        if let Some(m) = &apps[i].meta {
            let e = entry_json(&apps[i].name, m, apps[i].status);
            out.push(e);
            assert(output::json_views(out@) =~= before.push(e@));
        }
        i = i + 1;
    }
    assert(apps@.take(i as int) =~= apps@);
    let mut m = Members::new();
    m.put("apps", output::list(out));
    assert(m@ =~= seq![("apps"@, JsonV::List(list_entries(apps@)))]);
    output::success(output::with_debug(m, debug))
}

/// The names of the apps that are up.
pub open spec fn names_up(apps: Seq<ListedApp>) -> Seq<Seq<char>>
    decreases apps.len(),
{
    if apps.len() == 0 {
        Seq::empty()
    } else if apps.last().status.is_up() {
        names_up(apps.drop_last()).push(apps.last().name@)
    } else {
        names_up(apps.drop_last())
    }
}

/// Names of the account's apps that are currently running.
pub fn running_app_names(apps: &Vec<ListedApp>) -> (r: Vec<String>)
    ensures
        text::views(r@) == names_up(apps@),
{
    let mut out: Vec<String> = Vec::new();
    let mut i: usize = 0;
    assert(text::views(out@) =~= names_up(apps@.take(0)));
    while i < apps.len()
        invariant
            i <= apps@.len(),
            text::views(out@) == names_up(apps@.take(i as int)),
        decreases apps@.len() - i,
    {
        let ghost before = text::views(out@);
        assert(apps@.take(i + 1).drop_last() =~= apps@.take(i as int));
        if apps[i].status.running() {
            let name = apps[i].name.clone();
            out.push(name);
            assert(text::views(out@) =~= before.push(name@));
        }
        i = i + 1;
    }
    assert(apps@.take(i as int) =~= apps@);
    out
}

/// Reports the status of one app. `known` says whether its metadata can be
/// loaded.
pub fn cmd_status(name: &str, known: bool, s: AppStatus, debug: Option<Json>) -> (r: Response)
    ensures
        r@ == (if !known {
            usage::no_such_app(name@)
        } else {
            output::accepted(
                output::debugged(
                    seq![("status"@, JsonV::Str(s.name())), ("pid"@, pid_view(s.pid))],
                    output::debug_view(debug),
                ),
            )
        }),
{
    if !known {
        return usage::app_not_found(name);
    }
    let mut m = Members::new();
    m.put_text("status", s.label());
    m.put("pid", pid_json(s.pid));
    assert(m@ =~= seq![("status"@, JsonV::Str(s.name())), ("pid"@, pid_view(s.pid))]);
    output::success(output::with_debug(m, debug))
}

// ---------------------------------------------------------------------------
// Stopping and restarting
// ---------------------------------------------------------------------------

/// What stopping an app comes to: how, the file that would bring it back at
/// boot, whether the proxy has to be told, and the answer.
pub struct StopOutcome {
    pub plan: Option<StopPlan>,
    pub enabled_file: Option<String>,
    pub sync: bool,
    pub response: Response,
}

/// Stops an app. One that is not running is left alone.
pub fn cmd_stop(
    state_dir: &str,
    name: &str,
    meta: Option<&AppMeta>,
    s: AppStatus,
    descendants: &Vec<u32>,
    recorded: Option<&str>,
    isolated: bool,
    debug: Option<Json>,
) -> (r: StopOutcome)
    ensures
        r.response@ == (if meta is None {
            usage::no_such_app(name@)
        } else {
            done(output::debug_view(debug))
        }),
        r.sync == (meta is Some && s.is_up()),
        r.plan is Some <==> r.sync,
        r.enabled_file is Some <==> r.sync,
        r.plan matches Some(p) ==> {
            &&& p.marker@ == state::marker_path(state_dir@, meta->0.host@)
            &&& p.targets@ == seq![s.pid->0] + descendants@
            &&& text::views(p.cleanup@) == status::leftovers(
                state_dir@,
                name@,
                state::active_socket(state_dir@, meta->0@, state::opt_view(recorded), isolated),
            )
        },
        r.enabled_file matches Some(f) ==> f@ == state::run_file(state_dir@, name@, ".enabled"@),
{
    let m = match meta {
        Some(m) => m,
        None => {
            return StopOutcome {
                plan: None,
                enabled_file: None,
                sync: false,
                response: usage::app_not_found(name),
            };
        },
    };
    let response = just_done(debug);
    match status::stop_internal(state_dir, name, m, s, descendants, recorded, isolated) {
        None => StopOutcome { plan: None, enabled_file: None, sync: false, response },
        Some(plan) => StopOutcome {
            plan: Some(plan),
            enabled_file: Some(state::run_file_path(state_dir, name, ".enabled")),
            sync: true,
            response,
        },
    }
}

/// Restarts an app: what keeps it from being started again, if anything does.
/// The stop and the respawn happen while still root; what is left is to wait for
/// the app as a start does.
pub fn cmd_restart(name: &str, known: bool) -> (r: Option<Response>)
    ensures
        match r {
            Some(e) => !known && e@ == usage::no_such_app(name@),
            None => known,
        },
{
    if known {
        None
    } else {
        Some(usage::app_not_found(name))
    }
}

// ---------------------------------------------------------------------------
// Registering
// ---------------------------------------------------------------------------

/// What is left to do for a new app whose arguments are in order: create the
/// working directory, write the environment, and look after the entry.
pub struct AddPlan {
    pub cwd: String,
    pub env: Option<Steps>,
    pub entry_path: String,
}

/// The working directory of an app that is being added: the one in its
/// metadata, which was checked when that was written, or else the one asked for.
pub open spec fn added_cwd(args: AddArgs<'_>, recorded: Option<Seq<char>>) -> Seq<char> {
    match recorded {
        Some(c) => c,
        None => validate::given(args.cwd),
    }
}

/// The working directory of an app that is being added.
pub fn cwd_to_check(args: &AddArgs<'_>, recorded: Option<&str>) -> (r: String)
    ensures
        r@ == added_cwd(*args, state::opt_view(recorded)),
{
    match recorded {
        Some(c) => c.to_string(),
        None => match args.cwd {
            Some(c) => c.to_string(),
            None => String::new(),
        },
    }
}

/// Adds an app whose metadata was written while still root: checks the
/// arguments and says what is left to do.
///
/// `recorded` is the working directory in the app's metadata, `home` is
/// `$HOME`, `home_real` and `found` are what it and the ancestors of the
/// working directory resolve to.
pub fn cmd_add(
    args: &AddArgs<'_>,
    recorded: Option<&str>,
    home: Option<&str>,
    home_real: Option<&str>,
    found: &Vec<Option<String>>,
) -> (r: Result<AddPlan, Response>)
    requires
        found@.len() == validate::ancestors(added_cwd(*args, state::opt_view(recorded))).len(),
    ensures
        ({
            let cwd = added_cwd(*args, state::opt_view(recorded));
            let complaint = validate::complaint(
                *args,
                cwd,
                state::opt_view(home),
                validate::verdict(
                    cwd,
                    state::opt_view(home_real),
                    validate::resolutions(found@),
                ),
            );
            match r {
                Err(e) => complaint == Some(e@),
                Ok(p) => {
                    &&& complaint is None
                    &&& p.cwd@ == cwd
                    &&& p.entry_path@ == path::under(cwd, args.entry@)
                    &&& p.env is Some <==> args.env_vars@.len() > 0
                    &&& p.env matches Some(steps) ==> steps@ == validate::env_written(
                        cwd,
                        text::views(args.env_vars@),
                    )
                },
            }
        }),
{
    let cwd = cwd_to_check(args, recorded);
    if let Some(e) = validate::validate_add_args(args, &cwd, home, home_real, found) {
        return Err(e);
    }
    let env = if args.env_vars.len() > 0 {
        Some(validate::write_env_file(&cwd, args.env_vars))
    } else {
        None
    };
    let entry_path = path::join(&cwd, args.entry);
    Ok(AddPlan { cwd, env, entry_path })
}

/// The answer when the environment of a new app cannot be written.
pub fn env_write_failed(error: &str) -> (r: Response)
    ensures
        r@ == output::broken("write_failed"@, error@),
{
    output::system_error("write_failed", error)
}

/// The answer when the working directory cannot be created.
pub fn cwd_create_failed(error: &str) -> (r: Response)
    ensures
        r@ == output::refused(
            "cwd_create_failed"@,
            "failed to create cwd directory: "@ + error@,
        ),
{
    let message = text::cat("failed to create cwd directory: ", error);
    output::user_error("cwd_create_failed", &message)
}

/// The end of adding an app: the starter file to write at its entry, if one is
/// to be written, and the answer.
pub struct AddEnd {
    pub scaffold: Option<String>,
    pub response: Response,
}

/// Finishes adding an app, once its working directory is there: a Node.js app
/// without an entry gets the starter file, a compiled one has its binary looked
/// at.
pub fn finish_add(
    args: &AddArgs<'_>,
    entry_path: &str,
    facts: &EntryFacts,
    template: Option<&str>,
    debug: Option<Json>,
) -> (r: AddEnd)
    ensures
        ({
            let rt = kind::runtime_of(args.app_type@);
            &&& r.scaffold is Some <==> rt == Some(Runtime::Node) && !facts.exists
                && template is Some
            &&& r.scaffold matches Some(t) ==> t@ == text::replaced(
                template->0@,
                "{{APP_NAME}}"@,
                args.name@,
            )
            &&& r.response@ == (match validate::entry_complaint(entry_path@, *facts) {
                Some(e) => if rt == Some(Runtime::Rust) {
                    e
                } else {
                    done(output::debug_view(debug))
                },
                None => done(output::debug_view(debug)),
            })
        }),
{
    let mut scaffold: Option<String> = None;
    if let Ok(rt) = Runtime::from_str(args.app_type) {
        if rt.scaffolds_entry() {
            scaffold = validate::scaffold_node_entry(facts.exists, template, args.name);
        }
        if rt.requires_executable_entry() {
            if let Some(e) = validate::validate_rust_entry(entry_path, facts) {
                return AddEnd { scaffold, response: e };
            }
        }
    }
    AddEnd { scaffold, response: just_done(debug) }
}

// ---------------------------------------------------------------------------
// Isolation
// ---------------------------------------------------------------------------

/// What the report on isolation says.
pub open spec fn isolation_report(
    isolated: bool,
    bwrap: bool,
    userns: bool,
    running: Seq<Seq<char>>,
) -> Seq<(Seq<char>, JsonV)> {
    let supported = bwrap && userns;
    seq![
        ("isolated"@, JsonV::Bool(isolated)),
        ("supported"@, JsonV::Bool(supported)),
        (
            "reason"@,
            if supported {
                JsonV::Null
            } else {
                JsonV::Str(sandbox::missing_piece(bwrap, userns))
            },
        ),
        ("running"@, JsonV::List(output::text_views(running))),
    ]
}

/// Reports whether this account isolates its apps, and which are running.
///
/// `supported` is separate from `isolated`: the first says whether this host
/// can isolate at all, the second whether the account asked for it.
pub fn cmd_status_isolated(
    isolated: bool,
    bwrap: bool,
    userns: bool,
    running: &Vec<String>,
    debug: Option<Json>,
) -> (r: Response)
    ensures
        r@ == output::accepted(
            output::debugged(
                isolation_report(isolated, bwrap, userns, text::views(running@)),
                output::debug_view(debug),
            ),
        ),
{
    let supported = sandbox::available(bwrap, userns);
    let mut m = Members::new();
    m.put_bool("isolated", isolated);
    m.put_bool("supported", supported);
    if supported {
        m.put("reason", Json::Null);
    } else {
        m.put_text("reason", sandbox::unavailable_reason(bwrap, userns));
    }
    m.put("running", output::strings(running));
    assert(m@ =~= isolation_report(isolated, bwrap, userns, text::views(running@)));
    output::success(output::with_debug(m, debug))
}

/// Recording the isolation mode of an account.
pub open spec fn flag_written(state_dir: Seq<char>, isolated: bool) -> Seq<effect::StepV> {
    let flag = path::under(state_dir, "isolated"@);
    seq![
        effect::needed(
            effect::ChangeV::Write(
                flag,
                if isolated {
                    "1\n"@
                } else {
                    "0\n"@
                },
            ),
        ),
        effect::needed(effect::ChangeV::SetMode(flag, 0o644)),
    ]
}

/// Switches the account's isolation mode: records it, or refuses what this host
/// cannot honour. The running apps are restarted afterwards, since an app keeps
/// the mode it launched with.
pub fn switch_isolation(state_dir: &str, isolated: bool, bwrap: bool, userns: bool) -> (r: Result<
    Steps,
    (String, String),
>)
    ensures
        match r {
            Ok(steps) => !(isolated && !(bwrap && userns)) && steps@ == flag_written(
                state_dir@,
                isolated,
            ),
            Err(e) => isolated && !(bwrap && userns) && e.0@ == "sandbox_unavailable"@ && e.1@
                == sandbox::missing_piece(bwrap, userns),
        },
{
    if isolated && !sandbox::available(bwrap, userns) {
        return Err(
            (
                "sandbox_unavailable".to_string(),
                sandbox::unavailable_reason(bwrap, userns).to_string(),
            ),
        );
    }
    let flag = path::join(state_dir, "isolated");
    let value = if isolated {
        "1\n".to_string()
    } else {
        "0\n".to_string()
    };
    let mut steps = Steps::new();
    steps.need(Change::Write(flag.clone(), value));
    steps.need(Change::SetMode(flag, 0o644));
    assert(steps@ =~= flag_written(state_dir@, isolated));
    Ok(steps)
}

/// A switch that is on is read as on, and one that is off as off.
pub proof fn law_switch_is_read_back(isolated: bool, default: Option<Seq<char>>)
    ensures
        state::isolated(
            Some(
                if isolated {
                    "1\n"@
                } else {
                    "0\n"@
                },
            ),
            default,
        ) == isolated,
{
    reveal_strlit("1\n");
    reveal_strlit("0\n");
    let s = if isolated {
        "1\n"@
    } else {
        "0\n"@
    };
    let t = s.drop_last();
    assert(text::trimmed_start(s) == s);
    assert(text::trimmed_end(s) == text::trimmed_end(t));
    assert(text::trimmed_end(t) == t);
    assert(t =~= seq![s[0]]);
    assert(seq![s[0]][0] == s[0]);
    assert(seq!['1'][0] == '1');
}

/// Outcome of an isolation switch: the apps that came back up, and those that
/// stayed down after being stopped to apply it.
pub struct IsolationSwitch {
    pub restarted: Vec<String>,
    pub failed: Vec<String>,
}

/// An app of an account whose isolation mode is switched: its status, and whether
/// its metadata can be loaded. All are looked at before any is stopped.
pub struct SwitchedApp {
    pub name: String,
    pub status: AppStatus,
    pub loaded: bool,
}

/// The names of the apps that a switch restarts: those that are running and can
/// be launched again, in order.
pub open spec fn to_restart(apps: Seq<SwitchedApp>) -> Seq<Seq<char>>
    decreases apps.len(),
{
    if apps.len() == 0 {
        Seq::empty()
    } else if apps.last().status.is_up() && apps.last().loaded {
        to_restart(apps.drop_last()).push(apps.last().name@)
    } else {
        to_restart(apps.drop_last())
    }
}

/// The apps that a switch restarts.
pub fn apps_to_restart(apps: &Vec<SwitchedApp>) -> (r: Vec<String>)
    ensures
        text::views(r@) == to_restart(apps@),
{
    let mut out: Vec<String> = Vec::new();
    let mut i: usize = 0;
    assert(text::views(out@) =~= to_restart(apps@.take(0)));
    while i < apps.len()
        invariant
            i <= apps@.len(),
            text::views(out@) == to_restart(apps@.take(i as int)),
        decreases apps@.len() - i,
    {
        let ghost before = text::views(out@);
        assert(apps@.take(i + 1).drop_last() =~= apps@.take(i as int));
        if apps[i].status.running() && apps[i].loaded {
            let name = apps[i].name.clone();
            out.push(name);
            assert(text::views(out@) =~= before.push(name@));
        }
        i = i + 1;
    }
    assert(apps@.take(i as int) =~= apps@);
    out
}

/// An app that was stopped to apply a switch, and whether it came back.
pub struct Restarted {
    pub name: String,
    pub came_back: bool,
}

/// The names of those that came back, or of those that did not.
pub open spec fn names_that(v: Seq<Restarted>, came_back: bool) -> Seq<Seq<char>>
    decreases v.len(),
{
    if v.len() == 0 {
        Seq::empty()
    } else if v.last().came_back == came_back {
        names_that(v.drop_last(), came_back).push(v.last().name@)
    } else {
        names_that(v.drop_last(), came_back)
    }
}

/// What a switch came to. Both outcomes are told: an app that was taken down
/// and never came back must not go unmentioned.
pub fn switch_outcome(v: &Vec<Restarted>) -> (r: IsolationSwitch)
    ensures
        text::views(r.restarted@) == names_that(v@, true),
        text::views(r.failed@) == names_that(v@, false),
{
    let mut restarted: Vec<String> = Vec::new();
    let mut failed: Vec<String> = Vec::new();
    let mut i: usize = 0;
    assert(text::views(restarted@) =~= names_that(v@.take(0), true));
    assert(text::views(failed@) =~= names_that(v@.take(0), false));
    while i < v.len()
        invariant
            i <= v@.len(),
            text::views(restarted@) == names_that(v@.take(i as int), true),
            text::views(failed@) == names_that(v@.take(i as int), false),
        decreases v@.len() - i,
    {
        let ghost up = text::views(restarted@);
        let ghost down = text::views(failed@);
        assert(v@.take(i + 1).drop_last() =~= v@.take(i as int));
        let name = v[i].name.clone();
        let ghost shown = name@;
        if v[i].came_back {
            restarted.push(name);
            assert(text::views(restarted@) =~= up.push(shown));
        } else {
            failed.push(name);
            assert(text::views(failed@) =~= down.push(shown));
        }
        i = i + 1;
    }
    assert(v@.take(i as int) =~= v@);
    IsolationSwitch { restarted, failed }
}

/// Every app that was stopped to apply a switch is reported, on the side of
/// what became of it, and nothing else is.
pub proof fn law_every_stopped_app_is_reported(v: Seq<Restarted>)
    ensures
        names_that(v, true).len() + names_that(v, false).len() == v.len(),
        forall|i: int|
            0 <= i < v.len() ==> names_that(v, (#[trigger] v[i]).came_back).contains(v[i].name@),
    decreases v.len(),
{
    if v.len() > 0 {
        law_every_stopped_app_is_reported(v.drop_last());
    }
    assert forall|i: int| 0 <= i < v.len() implies names_that(
        v,
        (#[trigger] v[i]).came_back,
    ).contains(v[i].name@) by {
        lemma_names_that(v, v[i].came_back, v[i].name@);
    }
}

proof fn lemma_to_restart(apps: Seq<SwitchedApp>, name: Seq<char>)
    ensures
        to_restart(apps).contains(name) <==> exists|k: int|
            0 <= k < apps.len() && (#[trigger] apps[k]).name@ == name && apps[k].status.is_up()
                && apps[k].loaded,
    decreases apps.len(),
{
    if apps.len() > 0 {
        let before = apps.drop_last();
        lemma_to_restart(before, name);
        let chosen = to_restart(before);
        if chosen.contains(name) {
            let k = choose|k: int|
                0 <= k < before.len() && (#[trigger] before[k]).name@ == name
                    && before[k].status.is_up() && before[k].loaded;
            assert(apps[k] == before[k]);
            let at = choose|at: int| 0 <= at < chosen.len() && chosen[at] == name;
            assert(to_restart(apps)[at] == name);
        }
        if to_restart(apps).contains(name) && !chosen.contains(name) {
            let at = choose|at: int| 0 <= at < to_restart(apps).len() && to_restart(apps)[at] == name;
            assert(at == chosen.len()) by {
                if at < chosen.len() {
                    assert(chosen[at] == name);
                }
            }
            assert(apps[apps.len() - 1].name@ == name);
        }
        if exists|k: int|
            0 <= k < apps.len() && (#[trigger] apps[k]).name@ == name && apps[k].status.is_up()
                && apps[k].loaded {
            let k = choose|k: int|
                0 <= k < apps.len() && (#[trigger] apps[k]).name@ == name
                    && apps[k].status.is_up() && apps[k].loaded;
            if k < before.len() {
                assert(before[k] == apps[k]);
            } else {
                assert(to_restart(apps)[chosen.len() as int] == name);
            }
        }
    }
}

proof fn lemma_names_that(v: Seq<Restarted>, came_back: bool, name: Seq<char>)
    ensures
        names_that(v, came_back).contains(name) <==> exists|i: int|
            0 <= i < v.len() && (#[trigger] v[i]).name@ == name && v[i].came_back == came_back,
    decreases v.len(),
{
    if v.len() > 0 {
        let before = v.drop_last();
        lemma_names_that(before, came_back, name);
        let told = names_that(before, came_back);
        let all = names_that(v, came_back);
        if told.contains(name) {
            let i = choose|i: int|
                0 <= i < before.len() && (#[trigger] before[i]).name@ == name
                    && before[i].came_back == came_back;
            assert(v[i] == before[i]);
            let at = choose|at: int| 0 <= at < told.len() && told[at] == name;
            assert(all[at] == name);
        }
        if all.contains(name) && !told.contains(name) {
            let at = choose|at: int| 0 <= at < all.len() && all[at] == name;
            assert(at == told.len()) by {
                if at < told.len() {
                    assert(told[at] == name);
                }
            }
            assert(v[v.len() - 1].name@ == name);
        }
        if exists|i: int|
            0 <= i < v.len() && (#[trigger] v[i]).name@ == name && v[i].came_back == came_back {
            let i = choose|i: int|
                0 <= i < v.len() && (#[trigger] v[i]).name@ == name && v[i].came_back == came_back;
            if i < before.len() {
                assert(before[i] == v[i]);
            } else {
                assert(all[told.len() as int] == name);
            }
        }
    }
}

proof fn lemma_chosen_once(apps: Seq<SwitchedApp>)
    requires
        forall|j: int, k: int|
            0 <= j < k < apps.len() ==> (#[trigger] apps[j]).name@ != (#[trigger] apps[k]).name@,
    ensures
        to_restart(apps).no_duplicates(),
    decreases apps.len(),
{
    if apps.len() > 0 {
        let before = apps.drop_last();
        assert forall|j: int, k: int| 0 <= j < k < before.len() implies (
        #[trigger] before[j]).name@ != (#[trigger] before[k]).name@ by {
            assert(before[j] == apps[j] && before[k] == apps[k]);
        }
        lemma_chosen_once(before);
        lemma_to_restart(before, apps.last().name@);
        let chosen = to_restart(before);
        assert(!chosen.contains(apps.last().name@)) by {
            if chosen.contains(apps.last().name@) {
                let k = choose|k: int|
                    0 <= k < before.len() && (#[trigger] before[k]).name@ == apps.last().name@
                        && before[k].status.is_up() && before[k].loaded;
                assert(apps[k].name@ != apps[apps.len() - 1].name@);
            }
        }
        assert forall|a: int, b: int|
            0 <= a < to_restart(apps).len() && 0 <= b < to_restart(apps).len() && a
                != b implies to_restart(apps)[a] != to_restart(apps)[b] by {
            if a < chosen.len() {
                assert(chosen.contains(chosen[a]));
            }
            if b < chosen.len() {
                assert(chosen.contains(chosen[b]));
            }
        }
    }
}

/// The apps that a switch reports, on either side, are those that were running
/// and could be launched again; no two of them having the same name, none is on
/// both sides.
pub proof fn law_switch_restarts_what_was_running(
    apps: Seq<SwitchedApp>,
    v: Seq<Restarted>,
    name: Seq<char>,
)
    requires
        v.len() == to_restart(apps).len(),
        forall|i: int| 0 <= i < v.len() ==> (#[trigger] v[i]).name@ == to_restart(apps)[i],
    ensures
        names_that(v, true).contains(name) || names_that(v, false).contains(name) <==> exists|k: int|
            0 <= k < apps.len() && (#[trigger] apps[k]).name@ == name && apps[k].status.is_up()
                && apps[k].loaded,
        (forall|j: int, k: int|
            0 <= j < k < apps.len() ==> (#[trigger] apps[j]).name@ != (#[trigger] apps[k]).name@)
            ==> !(names_that(v, true).contains(name) && names_that(v, false).contains(name)),
{
    lemma_to_restart(apps, name);
    if forall|j: int, k: int|
        0 <= j < k < apps.len() ==> (#[trigger] apps[j]).name@ != (#[trigger] apps[k]).name@ {
        lemma_chosen_once(apps);
    }
    lemma_names_that(v, true, name);
    lemma_names_that(v, false, name);
    let chosen = to_restart(apps);
    if chosen.contains(name) {
        let at = choose|at: int| 0 <= at < chosen.len() && chosen[at] == name;
        assert(v[at].name@ == name);
    }
}

/// Reports the new isolation mode and which apps were restarted to apply it.
pub fn cmd_set_isolated(isolated: bool, switch: &IsolationSwitch, debug: Option<Json>) -> (r:
    Response)
    ensures
        r@ == output::accepted(
            output::debugged(
                seq![
                    ("isolated"@, JsonV::Bool(isolated)),
                    (
                        "restarted"@,
                        JsonV::List(output::text_views(text::views(switch.restarted@))),
                    ),
                    ("failed"@, JsonV::List(output::text_views(text::views(switch.failed@)))),
                ],
                output::debug_view(debug),
            ),
        ),
{
    let mut m = Members::new();
    m.put_bool("isolated", isolated);
    m.put("restarted", output::strings(&switch.restarted));
    m.put("failed", output::strings(&switch.failed));
    assert(m@ =~= seq![
        ("isolated"@, JsonV::Bool(isolated)),
        ("restarted"@, JsonV::List(output::text_views(text::views(switch.restarted@)))),
        ("failed"@, JsonV::List(output::text_views(text::views(switch.failed@)))),
    ]);
    output::success(output::with_debug(m, debug))
}

// ---------------------------------------------------------------------------
// Settings of an app
// ---------------------------------------------------------------------------

/// Why an entry cannot be accepted, as a code and a message.
pub open spec fn entry_error(
    name: Seq<char>,
    known: bool,
    entry: Seq<char>,
    is_file: bool,
) -> Option<(Seq<char>, Seq<char>)> {
    if !known {
        Some(appfile::missing_app(name))
    } else if !validate::is_safe_component(entry) {
        Some(("invalid_entry"@, "entry must not contain '/', '..' or null bytes"@))
    } else if !validate::is_meta_value(entry) {
        Some(validate::bad_meta("entry"@))
    } else if !is_file {
        Some(
            (
                "entry_not_found"@,
                "file '"@ + entry + "' not found in the application directory"@,
            ),
        )
    } else {
        None
    }
}

/// The file that an entry names in the directory of its app.
pub fn entry_file(meta: &AppMeta, entry: &str) -> (r: String)
    ensures
        r@ == path::under(meta.cwd@, entry@),
{
    path::join(&meta.cwd, entry)
}

/// Why an entry cannot be accepted, or `Ok(())`. `is_file` says whether
/// [`entry_file`] is a file.
///
/// Used before the `.app` is written and again by the command afterwards: one
/// rule, so that the two sides cannot disagree.
pub fn entry_refusal(name: &str, known: bool, entry: &str, is_file: bool) -> (r: Result<
    (),
    (String, String),
>)
    ensures
        match r {
            Ok(_) => entry_error(name@, known, entry@, is_file) is None,
            Err(e) => entry_error(name@, known, entry@, is_file) == Some((e.0@, e.1@)),
        },
{
    if !known {
        return Err(appfile::missing_app_error(name));
    }
    if !validate::validate_safe_component(entry) {
        return Err(
            (
                "invalid_entry".to_string(),
                "entry must not contain '/', '..' or null bytes".to_string(),
            ),
        );
    }
    if !validate::validate_meta_value(entry) {
        return Err(validate::meta_error("entry"));
    }
    if !is_file {
        let mut message = "file '".to_string();
        message.append(entry);
        message.append("' not found in the application directory");
        return Err(("entry_not_found".to_string(), message));
    }
    Ok(())
}

/// Changes the entry file of an app. The running process keeps the old one
/// until it is restarted.
pub fn cmd_set_entry(
    name: &str,
    known: bool,
    entry: &str,
    is_file: bool,
    s: AppStatus,
    debug: Option<Json>,
) -> (r: Response)
    ensures
        r@ == (match entry_error(name@, known, entry@, is_file) {
            Some((code, message)) => output::refused(code, message),
            None => output::accepted(
                output::debugged(
                    seq![
                        ("entry"@, JsonV::Str(entry@)),
                        ("restart_required"@, JsonV::Bool(s.is_up())),
                    ],
                    output::debug_view(debug),
                ),
            ),
        }),
{
    if let Err((code, message)) = entry_refusal(name, known, entry, is_file) {
        return output::user_error(&code, &message);
    }
    let mut m = Members::new();
    m.put_text("entry", entry);
    m.put_bool("restart_required", s.running());
    assert(m@ =~= seq![
        ("entry"@, JsonV::Str(entry@)),
        ("restart_required"@, JsonV::Bool(s.is_up())),
    ]);
    output::success(output::with_debug(m, debug))
}

/// Changes the runtime of an app. The running process keeps the old one until
/// it is restarted.
pub fn cmd_set_node_version(
    name: &str,
    known: bool,
    node_version: &str,
    s: AppStatus,
    debug: Option<Json>,
) -> (r: Response)
    ensures
        r@ == (if !known {
            usage::no_such_app(name@)
        } else if !validate::is_meta_value(node_version@) {
            output::refused(
                "invalid_node_version"@,
                "node_version must not contain newlines or null bytes"@,
            )
        } else {
            output::accepted(
                output::debugged(
                    seq![("restart_required"@, JsonV::Bool(s.is_up()))],
                    output::debug_view(debug),
                ),
            )
        }),
{
    if !known {
        return usage::app_not_found(name);
    }
    if !validate::validate_meta_value(node_version) {
        return output::user_error(
            "invalid_node_version",
            "node_version must not contain newlines or null bytes",
        );
    }
    let mut m = Members::new();
    m.put_bool("restart_required", s.running());
    assert(m@ =~= seq![("restart_required"@, JsonV::Bool(s.is_up()))]);
    output::success(output::with_debug(m, debug))
}

/// Whether a memory cap can be set: none, or enough for a process to boot.
pub open spec fn cap_is_ok(megabytes: u64) -> bool {
    megabytes == 0 || megabytes >= MIN_MEMORY_MB
}

/// A cap in bytes, no more than 64 bits hold.
pub open spec fn cap_bytes(megabytes: u64) -> nat {
    if megabytes * (1024 * 1024) <= u64::MAX {
        (megabytes * (1024 * 1024)) as nat
    } else {
        u64::MAX as nat
    }
}

fn bytes_of(megabytes: u64) -> (r: u64)
    ensures
        r as nat == cap_bytes(megabytes),
{
    match megabytes.checked_mul(1024 * 1024) {
        Some(n) => n,
        None => u64::MAX,
    }
}

/// Writes a memory cap into an app's file, as root. `content` is what the file
/// holds. A cap that cannot be set, or an app that cannot be read, changes
/// nothing.
pub fn apply_memory_max(
    state_dir: &str,
    name: &str,
    megabytes: u64,
    content: Option<&str>,
    gid: u32,
) -> (r: Option<Steps>)
    ensures
        r is Some <==> cap_is_ok(megabytes) && content is Some,
        r matches Some(steps) ==> steps@ == appfile::root_write(
            appfile::app_file(state_dir@, name@),
            text::closed_lines(
                appfile::capped_lines(text::lines(content->0@), cap_bytes(megabytes)),
            ),
            gid as int,
        ),
{
    if megabytes != 0 && megabytes < MIN_MEMORY_MB {
        return None;
    }
    match content {
        None => None,
        Some(c) => {
            let file = appfile::app_file_path(state_dir, name);
            let updated = appfile::with_memory_max(c, bytes_of(megabytes));
            Some(appfile::write_as_root(&file, &updated, gid))
        },
    }
}

/// Sets or clears an app's memory cap. The write and the new limits of its
/// siblings have happened already; this reports them.
pub fn cmd_set_memory_max(
    name: &str,
    known: bool,
    megabytes: u64,
    s: AppStatus,
    debug: Option<Json>,
) -> (r: Response)
    ensures
        r@ == (if !known {
            usage::no_such_app(name@)
        } else if !cap_is_ok(megabytes) {
            output::refused(
                "invalid_memory_max"@,
                "memory cap must be 0 (auto) or at least 16 MB"@,
            )
        } else {
            output::accepted(
                output::debugged(
                    seq![
                        (
                            "memory_max"@,
                            if cap_bytes(megabytes) > 0 {
                                JsonV::Num(cap_bytes(megabytes))
                            } else {
                                JsonV::Null
                            },
                        ),
                        ("running"@, JsonV::Bool(s.is_up())),
                    ],
                    output::debug_view(debug),
                ),
            )
        }),
{
    if !known {
        return usage::app_not_found(name);
    }
    if megabytes != 0 && megabytes < MIN_MEMORY_MB {
        return output::user_error(
            "invalid_memory_max",
            "memory cap must be 0 (auto) or at least 16 MB",
        );
    }
    let bytes: u64 = bytes_of(megabytes);
    let cap = if bytes > 0 {
        Some(bytes)
    } else {
        None
    };
    let mut m = Members::new();
    m.put_optional("memory_max", cap);
    m.put_bool("running", s.running());
    assert(m@ =~= seq![
        (
            "memory_max"@,
            if cap_bytes(megabytes) > 0 {
                JsonV::Num(cap_bytes(megabytes))
            } else {
                JsonV::Null
            },
        ),
        ("running"@, JsonV::Bool(s.is_up())),
    ]);
    output::success(output::with_debug(m, debug))
}

// ---------------------------------------------------------------------------
// Removing
// ---------------------------------------------------------------------------

/// Everything the panel recorded about an app, being removed: its run state,
/// its last job, both places its socket may be in, and the proxy marker.
pub open spec fn run_state_removed(
    state_dir: Seq<char>,
    name: Seq<char>,
    m: state::AppMetaV,
    recorded: Option<Seq<char>>,
    isolated: bool,
) -> Seq<effect::StepV> {
    seq![
        effect::tried(effect::ChangeV::RemoveFile(state::run_file(state_dir, name, ".pid"@))),
        effect::tried(effect::ChangeV::RemoveFile(state::run_file(state_dir, name, ".meta"@))),
        effect::tried(effect::ChangeV::RemoveFile(state::run_file(state_dir, name, ".enabled"@))),
        effect::tried(effect::ChangeV::RemoveFile(state::run_file(state_dir, name, ".job"@))),
        effect::tried(effect::ChangeV::RemoveFile(state::run_file(state_dir, name, ".job.log"@))),
        effect::tried(
            effect::ChangeV::RemoveFile(state::active_socket(state_dir, m, recorded, isolated)),
        ),
        effect::tried(
            effect::ChangeV::RemoveFile(
                state::socket_path(state_dir, m.name, m.host, isolated),
            ),
        ),
        effect::tried(
            effect::ChangeV::RemoveDir(path::under(path::under(state_dir, ".sockets"@), name)),
        ),
        effect::tried(effect::ChangeV::RemoveFile(state::marker_path(state_dir, m.host))),
    ]
}

/// Erases everything the panel recorded about an app. `recorded` is the content
/// of its `.meta`, which says where the socket really is.
pub fn remove_run_state(
    state_dir: &str,
    name: &str,
    meta: &AppMeta,
    recorded: Option<&str>,
    isolated: bool,
) -> (r: Steps)
    ensures
        r@ == run_state_removed(
            state_dir@,
            name@,
            meta@,
            state::opt_view(recorded),
            isolated,
        ),
{
    let mut steps = Steps::new();
    steps.try_remove(state::run_file_path(state_dir, name, ".pid"));
    steps.try_remove(state::run_file_path(state_dir, name, ".meta"));
    steps.try_remove(state::run_file_path(state_dir, name, ".enabled"));
    steps.try_remove(state::run_file_path(state_dir, name, ".job"));
    steps.try_remove(state::run_file_path(state_dir, name, ".job.log"));
    steps.try_remove(state::active_socket_path(state_dir, meta, recorded, isolated));
    steps.try_remove(state::socket_path_for(state_dir, meta, isolated));
    let sockets = path::join(state_dir, ".sockets");
    steps.try_to(Change::RemoveDir(path::join(&sockets, name)));
    steps.try_remove(state::marker_file(state_dir, &meta.host));
    assert(steps@ =~= run_state_removed(
        state_dir@,
        name@,
        meta@,
        state::opt_view(recorded),
        isolated,
    ));
    steps
}

/// What is at the working directory of an app that is being removed.
#[derive(Debug, Clone, Copy, PartialEq, Eq, Structural)]
pub enum CwdFound {
    Nothing,
    Symlink,
    /// Something that is not a link, and whether it lies outside the home
    /// directory.
    Other { escapes_home: bool },
}

/// Why a working directory is not deleted.
pub open spec fn delete_error(found: CwdFound) -> Option<output::ResponseV> {
    match found {
        CwdFound::Symlink => Some(
            output::refused(
                "cwd_is_symlink"@,
                "refusing to delete a cwd that is a symlink; remove the link manually"@,
            ),
        ),
        CwdFound::Other { escapes_home } => if escapes_home {
            Some(
                output::refused(
                    "cwd_outside_home"@,
                    "refusing to delete a cwd outside the user's home directory"@,
                ),
            )
        } else {
            None
        },
        CwdFound::Nothing => None,
    }
}

/// What becomes of the files of an app that is being removed: its directory
/// deleted where that was asked for, and otherwise only its logs.
pub open spec fn files_removed(
    name: Seq<char>,
    cwd: Seq<char>,
    delete_dir: bool,
    found: CwdFound,
) -> Seq<effect::StepV> {
    if delete_dir {
        if found is Other {
            seq![effect::tried(effect::ChangeV::RemoveTree(cwd))]
        } else {
            Seq::empty()
        }
    } else {
        seq![
            effect::tried(effect::ChangeV::RemoveFile(logs::log_path(cwd, name, false))),
            effect::tried(effect::ChangeV::RemoveFile(logs::log_path(cwd, name, true))),
        ]
    }
}

/// How long an app is given to end before it is removed, in seconds.
pub const REMOVE_TIMEOUT_SECS: u64 = 10;

/// What removing an app comes to, once it has been stopped: the records to
/// erase, the files to remove behind them, whether the proxy has to be told,
/// and the answer.
pub struct RemoveOutcome {
    pub records: Option<Steps>,
    pub files: Option<Steps>,
    pub sync: bool,
    pub response: Response,
}

/// Removes an app. Its `.app` file is gone already; `meta` is what it said.
///
/// A directory is never deleted through a link, which would wipe what the link
/// points at, nor outside the home directory.
pub fn cmd_remove(
    state_dir: &str,
    name: &str,
    delete_dir: bool,
    meta: Option<&AppMeta>,
    recorded: Option<&str>,
    isolated: bool,
    found: CwdFound,
    debug: Option<Json>,
) -> (r: RemoveOutcome)
    ensures
        match meta {
            None => r.records is None && r.files is None && !r.sync && r.response@
                == usage::no_such_app(name@),
            Some(m) => {
                &&& r.records matches Some(steps) && steps@ == run_state_removed(
                    state_dir@,
                    name@,
                    m@,
                    state::opt_view(recorded),
                    isolated,
                )
                &&& match delete_error(found) {
                    Some(e) if delete_dir => r.files is None && !r.sync && r.response@ == e,
                    _ => r.sync && r.response@ == done(output::debug_view(debug)) && (
                    r.files matches Some(steps) && steps@ == files_removed(
                        name@,
                        m.cwd@,
                        delete_dir,
                        found,
                    )),
                }
            },
        },
{
    let m = match meta {
        Some(m) => m,
        None => {
            return RemoveOutcome {
                records: None,
                files: None,
                sync: false,
                response: usage::app_not_found(name),
            };
        },
    };
    let records = Some(remove_run_state(state_dir, name, m, recorded, isolated));
    let mut files = Steps::new();
    if delete_dir {
        match found {
            CwdFound::Symlink => {
                let response = output::user_error(
                    "cwd_is_symlink",
                    "refusing to delete a cwd that is a symlink; remove the link manually",
                );
                return RemoveOutcome { records, files: None, sync: false, response };
            },
            CwdFound::Other { escapes_home } => {
                if escapes_home {
                    let response = output::user_error(
                        "cwd_outside_home",
                        "refusing to delete a cwd outside the user's home directory",
                    );
                    return RemoveOutcome { records, files: None, sync: false, response };
                }
                files.try_to(Change::RemoveTree(m.cwd.clone()));
            },
            CwdFound::Nothing => {},
        }
    } else {
        files.try_remove(logs::log_file(&m.cwd, name, false));
        files.try_remove(logs::log_file(&m.cwd, name, true));
    }
    assert(files@ =~= files_removed(name@, m.cwd@, delete_dir, found));
    RemoveOutcome { records, files: Some(files), sync: true, response: just_done(debug) }
}

/// Nothing outside the home directory, and nothing behind a link, is ever
/// deleted: a tree is removed only where it was asked for and lies inside.
pub proof fn law_only_own_directories_are_deleted(
    name: Seq<char>,
    cwd: Seq<char>,
    delete_dir: bool,
    found: CwdFound,
)
    requires
        exists|i: int|
            0 <= i < files_removed(name, cwd, delete_dir, found).len()
                && (#[trigger] files_removed(name, cwd, delete_dir, found)[i]).change is RemoveTree,
        !(delete_dir && delete_error(found) is Some),
    ensures
        delete_dir,
        found == (CwdFound::Other { escapes_home: false }),
{
}

// ---------------------------------------------------------------------------
// Domains and logs
// ---------------------------------------------------------------------------

/// A domain and the prefixes of its subdomains.
pub struct Domain {
    pub name: String,
    pub subdomains: Vec<String>,
}

/// What the list of domains says of one.
pub open spec fn domain_entry(name: Seq<char>, subs: Seq<Seq<char>>) -> JsonV {
    JsonV::Obj(
        seq![
            ("host"@, JsonV::Str(name)),
            (
                "subdomains"@,
                JsonV::List(
                    Seq::new(
                        subs.len(),
                        |i: int|
                            JsonV::Obj(seq![("host"@, JsonV::Str(subs[i] + "."@ + name))]),
                    ),
                ),
            ),
        ],
    )
}

fn domain_json(d: &Domain) -> (r: Json)
    ensures
        r@ == domain_entry(d.name@, text::views(d.subdomains@)),
{
    let ghost subs = text::views(d.subdomains@);
    let mut out: Vec<Json> = Vec::new();
    let mut i: usize = 0;
    while i < d.subdomains.len()
        invariant
            subs == text::views(d.subdomains@),
            i <= d.subdomains@.len(),
            out@.len() == i,
            forall|j: int|
                0 <= j < i ==> (#[trigger] out@[j])@ == JsonV::Obj(
                    seq![("host"@, JsonV::Str(subs[j] + "."@ + d.name@))],
                ),
        decreases d.subdomains@.len() - i,
    {
        let mut host = d.subdomains[i].clone();
        host.append(".");
        host.append(&d.name);
        let mut m = Members::new();
        m.put_text("host", &host);
        assert(m@ =~= seq![("host"@, JsonV::Str(subs[i as int] + "."@ + d.name@))]);
        out.push(m.object());
        i = i + 1;
    }
    let ghost shown = output::json_views(out@);
    let mut m = Members::new();
    m.put_text("host", &d.name);
    m.put("subdomains", output::list(out));
    proof {
        let want = domain_entry(d.name@, subs)->Obj_0;
        assert(shown =~= want[1].1->List_0);
        assert(m@ =~= want);
    }
    m.object()
}

/// Lists the account's domains and subdomains.
pub fn cmd_domains(data: &Vec<Domain>, debug: Option<Json>) -> (r: Response)
    ensures
        r@ == output::accepted(
            output::debugged(
                seq![
                    (
                        "domains"@,
                        JsonV::List(
                            Seq::new(
                                data@.len(),
                                |i: int|
                                    domain_entry(
                                        data@[i].name@,
                                        text::views(data@[i].subdomains@),
                                    ),
                            ),
                        ),
                    ),
                ],
                output::debug_view(debug),
            ),
        ),
{
    let ghost want = Seq::new(
        data@.len(),
        |i: int| domain_entry(data@[i].name@, text::views(data@[i].subdomains@)),
    );
    let mut out: Vec<Json> = Vec::new();
    let mut i: usize = 0;
    while i < data.len()
        invariant
            want == Seq::new(
                data@.len(),
                |i: int| domain_entry(data@[i].name@, text::views(data@[i].subdomains@)),
            ),
            i <= data@.len(),
            out@.len() == i,
            forall|j: int| 0 <= j < i ==> (#[trigger] out@[j])@ == want[j],
        decreases data@.len() - i,
    {
        out.push(domain_json(&data[i]));
        i = i + 1;
    }
    assert(output::json_views(out@) =~= want);
    let mut m = Members::new();
    m.put("domains", output::list(out));
    assert(m@ =~= seq![("domains"@, JsonV::List(want))]);
    output::success(output::with_debug(m, debug))
}

/// The last lines of an app's log, without escape sequences. A stopped app has
/// nothing to say: its file holds the lines of a run that is over.
pub fn cmd_logs(
    name: &str,
    known: bool,
    s: AppStatus,
    tail: &Vec<String>,
    debug: Option<Json>,
) -> (r: Response)
    ensures
        r@ == (if !known {
            usage::no_such_app(name@)
        } else {
            output::accepted(
                output::debugged(
                    seq![
                        (
                            "lines"@,
                            JsonV::List(
                                output::text_views(
                                    if s.is_up() {
                                        logs::all_plain(text::views(tail@))
                                    } else {
                                        Seq::empty()
                                    },
                                ),
                            ),
                        ),
                    ],
                    output::debug_view(debug),
                ),
            )
        }),
{
    if !known {
        return usage::app_not_found(name);
    }
    let lines = if s.running() {
        logs::strip_all(tail)
    } else {
        Vec::new()
    };
    assert(!s.is_up() ==> text::views(lines@) =~= Seq::<Seq<char>>::empty());
    let ghost shown = JsonV::List(output::text_views(text::views(lines@)));
    let mut m = Members::new();
    m.put("lines", output::strings(&lines));
    assert(m@ =~= seq![("lines"@, shown)]);
    output::success(output::with_debug(m, debug))
}

// ---------------------------------------------------------------------------
// Scripts and dependencies
// ---------------------------------------------------------------------------

/// Whether a script name is kept to what cannot be mistaken for an option, a
/// path or shell syntax.
pub open spec fn is_script_name(s: Seq<char>) -> bool {
    &&& 0 < s.len() <= MAX_SCRIPT_NAME
    &&& s[0] != '-'
    &&& forall|i: int| 0 <= i < s.len() ==> is_script_char(#[trigger] s[i])
}

pub open spec fn is_script_char(c: char) -> bool {
    text::is_alnum(c) || c == ':' || c == '_' || c == '-' || c == '.'
}

/// Whether a `package.json` script name is safe to hand to `npm run`.
///
/// npm itself allows almost anything as a key. This is the boundary where a
/// name stops being data and becomes part of a command.
pub fn is_safe_script_name(s: &str) -> (r: bool)
    ensures
        r == is_script_name(s@),
{
    let cs = text::chars(s);
    let n: usize = cs.len();
    if n == 0 || n > MAX_SCRIPT_NAME || cs[0] == '-' {
        return false;
    }
    let mut i: usize = 0;
    while i < n
        invariant
            n == cs@.len(),
            cs@ == s@,
            i <= n,
            forall|j: int| 0 <= j < i ==> is_script_char(#[trigger] s@[j]),
        decreases n - i,
    {
        let c: char = cs[i];
        assert(c == s@[i as int]);
        if !(text::is_ascii_alnum(c) || c == ':' || c == '_' || c == '-' || c == '.') {
            return false;
        }
        i = i + 1;
    }
    true
}

/// The safe names among these.
pub open spec fn safe_names(names: Seq<Seq<char>>) -> Seq<Seq<char>>
    decreases names.len(),
{
    if names.len() == 0 {
        Seq::empty()
    } else if is_script_name(names.last()) {
        safe_names(names.drop_last()).push(names.last())
    } else {
        safe_names(names.drop_last())
    }
}

/// The scripts of a `package.json` that can be run, in dictionary order. Only
/// names are given, never bodies.
pub fn script_names(pkg: &Json) -> (r: Vec<String>)
    ensures
        order::sorted_texts(
            safe_names(json::keys_under(pkg@, "scripts"@)),
            text::views(r@),
        ),
{
    let names = pkg.keys_of("scripts");
    let ghost ns = text::views(names@);
    let mut safe: Vec<String> = Vec::new();
    let mut i: usize = 0;
    assert(text::views(safe@) =~= safe_names(ns.take(0)));
    while i < names.len()
        invariant
            ns == text::views(names@),
            i <= names@.len(),
            text::views(safe@) == safe_names(ns.take(i as int)),
        decreases names@.len() - i,
    {
        let ghost before = text::views(safe@);
        assert(ns.take(i + 1).drop_last() =~= ns.take(i as int));
        assert(ns.take(i + 1).last() == names@[i as int]@);
        if is_safe_script_name(&names[i]) {
            let name = names[i].clone();
            safe.push(name);
            assert(text::views(safe@) =~= before.push(name@));
        }
        i = i + 1;
    }
    assert(ns.take(i as int) =~= ns);
    order::sort_texts(&safe)
}

/// What a `package.json` declares.
pub open spec fn declared(pkg: JsonV) -> Seq<Seq<char>> {
    json::keys_under(pkg, "dependencies"@) + json::keys_under(pkg, "devDependencies"@)
}

/// The directories that a lockfile says are there: its packages below
/// `node_modules/`.
pub open spec fn locked(paths: Seq<Seq<char>>) -> Seq<Seq<char>>
    decreases paths.len(),
{
    if paths.len() == 0 {
        Seq::empty()
    } else if "node_modules/"@.is_prefix_of(paths.last()) {
        locked(paths.drop_last()).push(paths.last())
    } else {
        locked(paths.drop_last())
    }
}

/// The directories that a lockfile says are there, when it lists any packages
/// at all.
pub open spec fn locked_dirs(lock: JsonV) -> Option<Seq<Seq<char>>> {
    match json::member(lock, "packages"@) {
        Some(JsonV::Obj(ms)) => Some(locked(json::keys(JsonV::Obj(ms)))),
        _ => None,
    }
}

/// The directories that a lockfile says are there, relative to the app's.
pub fn lock_directories(lock: &Json) -> (r: Option<Vec<String>>)
    ensures
        match r {
            Some(v) => locked_dirs(lock@) == Some(text::views(v@)),
            None => locked_dirs(lock@) is None,
        },
{
    let packages = match lock.get("packages") {
        Some(p) => p,
        None => {
            return None;
        },
    };
    match packages {
        Json::Obj(_) => {},
        _ => {
            return None;
        },
    }
    let paths = packages.key_list();
    let ghost ps = text::views(paths@);
    let mut out: Vec<String> = Vec::new();
    let mut i: usize = 0;
    assert(text::views(out@) =~= locked(ps.take(0)));
    while i < paths.len()
        invariant
            ps == text::views(paths@),
            i <= paths@.len(),
            text::views(out@) == locked(ps.take(i as int)),
        decreases paths@.len() - i,
    {
        let ghost before = text::views(out@);
        assert(ps.take(i + 1).drop_last() =~= ps.take(i as int));
        assert(ps.take(i + 1).last() == paths@[i as int]@);
        if text::starts_with(&paths[i], "node_modules/") {
            let p = paths[i].clone();
            out.push(p);
            assert(text::views(out@) =~= before.push(p@));
        }
        i = i + 1;
    }
    assert(ps.take(i as int) =~= ps);
    Some(out)
}

/// The directories that the text of a lockfile says are there; none where it
/// does not say.
pub fn lock_paths(lock: &str) -> (r: Vec<String>)
    ensures
        text::views(r@) == (match json::parsed(lock@) {
            Some(l) => match locked_dirs(l) {
                Some(dirs) => dirs,
                None => Seq::empty(),
            },
            None => Seq::empty(),
        }),
{
    if let Some(l) = json::parse(lock) {
        if let Some(dirs) = lock_directories(&l) {
            return dirs;
        }
    }
    let none: Vec<String> = Vec::new();
    assert(text::views(none@) =~= Seq::<Seq<char>>::empty());
    none
}

/// Whether each of these is among the others.
pub open spec fn all_among(some: Seq<Seq<char>>, others: Seq<Seq<char>>) -> bool {
    forall|i: int| 0 <= i < some.len() ==> others.contains(#[trigger] some[i])
}

/// Where the packages that are declared are to be found.
pub open spec fn homes_of(packages: Seq<Seq<char>>) -> Seq<Seq<char>> {
    Seq::new(packages.len(), |i: int| "node_modules/"@ + packages[i])
}

/// The state of an app's dependencies: `node_modules` says whether there is such
/// a directory, `lock` what the lockfile holds, and `present` which of the
/// directories it names are there.
pub open spec fn dependencies(
    pkg: JsonV,
    node_modules: bool,
    lock: Option<JsonV>,
    present: Seq<Seq<char>>,
) -> Seq<char> {
    if declared(pkg).len() == 0 {
        "none"@
    } else if !node_modules {
        "missing"@
    } else {
        match lock {
            Some(l) => match locked_dirs(l) {
                Some(dirs) => if !all_among(dirs, present) {
                    "incomplete"@
                } else if !all_among(homes_of(declared(pkg)), dirs) {
                    "outdated"@
                } else {
                    "ok"@
                },
                None => "ok"@,
            },
            None => "ok"@,
        }
    }
}

fn are_among(some: &Vec<String>, others: &Vec<String>) -> (r: bool)
    ensures
        r == all_among(text::views(some@), text::views(others@)),
{
    let ghost ss = text::views(some@);
    let mut i: usize = 0;
    while i < some.len()
        invariant
            ss == text::views(some@),
            i <= some@.len(),
            forall|j: int| 0 <= j < i ==> text::views(others@).contains(#[trigger] ss[j]),
        decreases some@.len() - i,
    {
        assert(ss[i as int] == some@[i as int]@);
        if !text::is_in(others, &some[i]) {
            return false;
        }
        i = i + 1;
    }
    true
}

fn package_homes(packages: &Vec<String>, out: &mut Vec<String>)
    ensures
        text::views(final(out)@) == text::views(old(out)@) + homes_of(text::views(packages@)),
{
    let ghost before = text::views(out@);
    let ghost want = homes_of(text::views(packages@));
    let mut i: usize = 0;
    assert(before + want.take(0) =~= before);
    while i < packages.len()
        invariant
            want == homes_of(text::views(packages@)),
            i <= packages@.len(),
            text::views(out@) == before + want.take(i as int),
        decreases packages@.len() - i,
    {
        let ghost so_far = text::views(out@);
        let p = text::cat("node_modules/", &packages[i]);
        assert(p@ == want[i as int]);
        out.push(p);
        assert(text::views(out@) =~= so_far.push(p@));
        assert(so_far.push(p@) =~= before + want.take(i + 1));
        i = i + 1;
    }
    assert(want.take(i as int) =~= want);
}

/// State of the app's dependencies, decided without running npm: the lockfile
/// names every directory that should exist, and without one there is nothing to
/// compare against. Whether a version range is satisfied is npm's call.
pub fn dependency_state(
    pkg: &Json,
    node_modules: bool,
    lock: Option<&Json>,
    present: &Vec<String>,
) -> (r: &'static str)
    ensures
        r@ == dependencies(
            pkg@,
            node_modules,
            match lock {
                Some(l) => Some(l@),
                None => None,
            },
            text::views(present@),
        ),
{
    let direct = pkg.keys_of("dependencies");
    let dev = pkg.keys_of("devDependencies");
    if direct.len() == 0 && dev.len() == 0 {
        return "none";
    }
    assert(text::views(direct@).len() == direct@.len());
    assert(text::views(dev@).len() == dev@.len());
    if !node_modules {
        return "missing";
    }
    let dirs = match lock {
        Some(l) => match lock_directories(l) {
            Some(dirs) => dirs,
            None => {
                return "ok";
            },
        },
        None => {
            return "ok";
        },
    };
    if !are_among(&dirs, present) {
        return "incomplete";
    }
    let mut homes: Vec<String> = Vec::new();
    package_homes(&direct, &mut homes);
    package_homes(&dev, &mut homes);
    assert(text::views(homes@) =~= homes_of(declared(pkg@)));
    if !are_among(&homes, &dirs) {
        return "outdated";
    }
    "ok"
}

/// The answer of `scripts`.
pub open spec fn scripts_answer(
    names: Seq<Seq<char>>,
    deps: Seq<char>,
    reason: Option<Seq<char>>,
    debug: Option<JsonV>,
) -> output::ResponseV {
    let ms = seq![
        ("scripts"@, JsonV::List(output::text_views(names))),
        ("deps"@, JsonV::Str(deps)),
    ];
    output::accepted(
        output::debugged(
            match reason {
                Some(why) => ms.push(("reason"@, JsonV::Str(why))),
                None => ms,
            },
            debug,
        ),
    )
}

fn answer_scripts(names: &Vec<String>, deps: &str, reason: Option<&str>, debug: Option<Json>) -> (r:
    Response)
    ensures
        r@ == scripts_answer(
            text::views(names@),
            deps@,
            state::opt_view(reason),
            output::debug_view(debug),
        ),
{
    let ghost shown = JsonV::List(output::text_views(text::views(names@)));
    let mut m = Members::new();
    m.put("scripts", output::strings(names));
    m.put_text("deps", deps);
    assert(m@ =~= seq![("scripts"@, shown), ("deps"@, JsonV::Str(deps@))]);
    if let Some(why) = reason {
        m.put_text("reason", why);
    }
    output::success(output::with_debug(m, debug))
}

/// Whether an answer lists the runnable scripts of a `package.json`, sorted,
/// and the state of its dependencies.
pub open spec fn reports_scripts(
    r: output::ResponseV,
    pkg: JsonV,
    node_modules: bool,
    lock: Option<JsonV>,
    present: Seq<Seq<char>>,
    debug: Option<JsonV>,
) -> bool {
    exists|names: Seq<Seq<char>>| #[trigger]
        order::sorted_texts(safe_names(json::keys_under(pkg, "scripts"@)), names) && r
            == scripts_answer(
            names,
            dependencies(pkg, node_modules, lock, present),
            None,
            debug,
        )
}

/// Lists the scripts of a `package.json` that has been read.
pub fn scripts_report(
    pkg: &Json,
    node_modules: bool,
    lock: Option<&Json>,
    present: &Vec<String>,
    debug: Option<Json>,
) -> (r: Response)
    ensures
        reports_scripts(
            r@,
            pkg@,
            node_modules,
            match lock {
                Some(l) => Some(l@),
                None => None,
            },
            text::views(present@),
            output::debug_view(debug),
        ),
{
    let names = script_names(pkg);
    let deps = dependency_state(pkg, node_modules, lock, present);
    answer_scripts(&names, deps, None, debug)
}

/// What the text of a file reads as, where there is one.
pub open spec fn read_json(raw: Option<Seq<char>>) -> Option<JsonV> {
    match raw {
        Some(t) => json::parsed(t),
        None => None,
    }
}

/// Lists the `scripts` entries of the app's `package.json`: `package` and `lock`
/// are what that file and the lockfile hold, `node_modules` and `present` which
/// directories are there (see [`lock_paths`]).
pub fn cmd_scripts(
    name: &str,
    meta: Option<&AppMeta>,
    package: Option<&str>,
    node_modules: bool,
    lock: Option<&str>,
    present: &Vec<String>,
    debug: Option<Json>,
) -> (r: Response)
    ensures
        ({
            let dbg = output::debug_view(debug);
            let nothing = Seq::<Seq<char>>::empty();
            match meta {
                None => r@ == usage::no_such_app(name@),
                Some(m) => if m.app_type@ != "node"@ {
                    r@ == scripts_answer(nothing, "unknown"@, Some("not_node"@), dbg)
                } else {
                    match package {
                        None => r@ == scripts_answer(
                            nothing,
                            "unknown"@,
                            Some("no_package_json"@),
                            dbg,
                        ),
                        Some(p) => match json::parsed(p@) {
                            None => r@ == scripts_answer(
                                nothing,
                                "unknown"@,
                                Some("invalid_package_json"@),
                                dbg,
                            ),
                            Some(pkg) => reports_scripts(
                                r@,
                                pkg,
                                node_modules,
                                read_json(state::opt_view(lock)),
                                text::views(present@),
                                dbg,
                            ),
                        },
                    }
                },
            }
        }),
{
    let m = match meta {
        Some(m) => m,
        None => {
            return usage::app_not_found(name);
        },
    };
    let none: Vec<String> = Vec::new();
    assert(text::views(none@) =~= Seq::<Seq<char>>::empty());
    if !text::same(&m.app_type, "node") {
        return answer_scripts(&none, "unknown", Some("not_node"), debug);
    }
    let raw = match package {
        Some(p) => p,
        None => {
            return answer_scripts(&none, "unknown", Some("no_package_json"), debug);
        },
    };
    let pkg = match json::parse(raw) {
        Some(p) => p,
        None => {
            return answer_scripts(&none, "unknown", Some("invalid_package_json"), debug);
        },
    };
    let lock_json = match lock {
        Some(l) => json::parse(l),
        None => None,
    };
    match &lock_json {
        Some(l) => scripts_report(&pkg, node_modules, Some(l), present, debug),
        None => scripts_report(&pkg, node_modules, None, present, debug),
    }
}

proof fn lemma_safe_names(names: Seq<Seq<char>>)
    ensures
        forall|i: int|
            0 <= i < safe_names(names).len() ==> is_script_name(#[trigger] safe_names(names)[i]),
    decreases names.len(),
{
    if names.len() > 0 {
        let rest = safe_names(names.drop_last());
        lemma_safe_names(names.drop_last());
        assert forall|i: int| 0 <= i < safe_names(names).len() implies is_script_name(
            #[trigger] safe_names(names)[i],
        ) by {
            if i < rest.len() {
                assert(safe_names(names)[i] == rest[i]);
            }
        }
    }
}

/// No script is ever offered whose name could be taken for an option, a path or
/// shell syntax.
pub proof fn law_only_safe_scripts_are_offered(pkg: JsonV, names: Seq<Seq<char>>, i: int)
    requires
        order::sorted_texts(safe_names(json::keys_under(pkg, "scripts"@)), names),
        0 <= i < names.len(),
    ensures
        is_script_name(names[i]),
{
    let safe = safe_names(json::keys_under(pkg, "scripts"@));
    lemma_safe_names(json::keys_under(pkg, "scripts"@));
    let p = choose|p: Seq<int>|
        #[trigger] order::arranges(order::text_keys(safe), p) && names == order::picked(safe, p);
    assert(names[i] == safe[p[i]]);
}

// ---------------------------------------------------------------------------
// Arguments
// ---------------------------------------------------------------------------

/// Why an argument must not reach a command line.
pub open spec fn refusal(arg: Seq<char>) -> Option<Seq<char>> {
    if arg.len() == 0 {
        None
    } else if text::byte_len(arg) > MAX_ARGUMENT {
        Some("argument is too long"@)
    } else if exists|i: int| 0 <= i < arg.len() && text::is_control(#[trigger] arg[i]) {
        Some("argument contains control characters"@)
    } else if arg[0] == '-' {
        Some(
            "argument "@ + text::debug_form(arg)
                + " would be read as an option; the panel only passes values"@,
        )
    } else if text::occurs(arg, ".."@) || arg[0] == '/' {
        Some("argument "@ + text::debug_form(arg) + " points outside the application directory"@)
    } else {
        None
    }
}

fn has_control(s: &str) -> (r: bool)
    ensures
        r == exists|i: int| 0 <= i < s@.len() && text::is_control(#[trigger] s@[i]),
{
    let cs = text::chars(s);
    let mut i: usize = 0;
    while i < cs.len()
        invariant
            cs@ == s@,
            i <= cs@.len(),
            forall|j: int| 0 <= j < i ==> !text::is_control(#[trigger] s@[j]),
        decreases cs@.len() - i,
    {
        let c: char = cs[i];
        assert(c == s@[i as int]);
        if text::is_ctl(c) {
            return true;
        }
        i = i + 1;
    }
    false
}

/// Why an argument typed in the panel must not reach a command line, or `None`.
///
/// Commands are built from an argument list, never through a shell, so `;`,
/// `&&` and `$(…)` are inert already. This is about the two things a list cannot
/// prevent: an argument that is read as an option, and a path that leaves the
/// application.
pub fn argument_refusal(arg: &str) -> (r: Option<String>)
    ensures
        crate::command::opt(r) == refusal(arg@),
{
    let cs = text::chars(arg);
    if cs.len() == 0 {
        return None;
    }
    if text::bytes(arg) > MAX_ARGUMENT {
        return Some("argument is too long".to_string());
    }
    if has_control(arg) {
        return Some("argument contains control characters".to_string());
    }
    if cs[0] == '-' {
        let mut message = "argument ".to_string();
        message.append(&text::quoted(arg));
        message.append(" would be read as an option; the panel only passes values");
        return Some(message);
    }
    if text::contains(arg, "..") || cs[0] == '/' {
        let mut message = "argument ".to_string();
        message.append(&text::quoted(arg));
        message.append(" points outside the application directory");
        return Some(message);
    }
    None
}

/// The first refusal among these arguments.
pub open spec fn first_refusal(ws: Seq<Seq<char>>) -> Option<Seq<char>>
    decreases ws.len(),
{
    if ws.len() == 0 {
        None
    } else {
        match refusal(ws[0]) {
            Some(m) => Some(m),
            None => first_refusal(ws.skip(1)),
        }
    }
}

/// The arguments in what was typed: its words, unless one of them is refused or
/// there are too many.
pub open spec fn arguments(raw: Seq<char>) -> Result<Seq<Seq<char>>, Seq<char>> {
    let ws = text::words(raw);
    match first_refusal(ws) {
        Some(m) => Err(m),
        None => if ws.len() > MAX_ARGUMENTS {
            Err("too many arguments"@)
        } else {
            Ok(ws)
        },
    }
}

/// Splits the argument string typed in the panel into individual arguments:
/// separated by white space, with no quoting rules of its own.
pub fn split_arguments(raw: &str) -> (r: Result<Vec<String>, String>)
    ensures
        match r {
            Ok(v) => arguments(raw@) == Ok::<_, Seq<char>>(text::views(v@)),
            Err(m) => arguments(raw@) == Err::<Seq<Seq<char>>, _>(m@),
        },
{
    let words = text::split_words(raw);
    let ghost ws = text::views(words@);
    let mut i: usize = 0;
    assert(ws.skip(0) =~= ws);
    while i < words.len()
        invariant
            ws == text::views(words@),
            ws == text::words(raw@),
            i <= words@.len(),
            first_refusal(ws) == first_refusal(ws.skip(i as int)),
        decreases words@.len() - i,
    {
        assert(ws.skip(i as int)[0] == words@[i as int]@);
        if let Some(m) = argument_refusal(&words[i]) {
            return Err(m);
        }
        assert(ws.skip(i as int).skip(1) =~= ws.skip(i + 1));
        i = i + 1;
    }
    if words.len() > MAX_ARGUMENTS {
        return Err("too many arguments".to_string());
    }
    Ok(words)
}

proof fn lemma_no_refusal(ws: Seq<Seq<char>>, i: int)
    requires
        first_refusal(ws) is None,
        0 <= i < ws.len(),
    ensures
        refusal(ws[i]) is None,
    decreases ws.len(),
{
    if i > 0 {
        lemma_no_refusal(ws.skip(1), i - 1);
    }
}

/// What reaches a command line is only ever a value: no argument that was
/// accepted is an option, an absolute path, or a path that climbs, and none holds
/// a control character.
pub proof fn law_accepted_arguments_are_values(raw: Seq<char>, args: Seq<Seq<char>>, i: int)
    requires
        arguments(raw) == Ok::<_, Seq<char>>(args),
        0 <= i < args.len(),
    ensures
        args.len() <= MAX_ARGUMENTS,
        args[i].len() > 0 ==> args[i][0] != '-' && args[i][0] != '/',
        !text::occurs(args[i], ".."@),
        forall|j: int| 0 <= j < args[i].len() ==> !text::is_control(#[trigger] args[i][j]),
        text::byte_len(args[i]) <= MAX_ARGUMENT,
{
    lemma_no_refusal(args, i);
    if args[i].len() == 0 {
        reveal_strlit("..");
    }
}

/// The list has an entry for every app whose metadata can be loaded, in order, and
/// none for the others.
pub proof fn law_loadable_apps_are_listed(apps: Seq<ListedApp>, a: ListedApp)
    ensures
        list_entries(Seq::empty()).len() == 0,
        a.meta is None ==> list_entries(apps.push(a)) == list_entries(apps),
        a.meta matches Some(m) ==> list_entries(apps.push(a)) == list_entries(apps).push(
            list_entry(a.name@, m@, a.status),
        ),
{
    assert(apps.push(a).drop_last() =~= apps);
}

/// What the list says of an app, member by member.
pub proof fn law_entries_of_the_list(name: Seq<char>, m: state::AppMetaV, pid: u32, at: u64)
    ensures
        ({
            let up = list_entry(name, m, AppStatus { pid: Some(pid), started_at: Some(at) });
            let down = list_entry(name, m, AppStatus { pid: None, started_at: None });
            &&& up matches JsonV::Obj(ms) && ms.take(9) == seq![
                ("name"@, JsonV::Str(name)),
                ("type"@, JsonV::Str(m.app_type)),
                ("status"@, JsonV::Str("RUNNING"@)),
                ("pid"@, JsonV::Num(pid as nat)),
                ("host"@, JsonV::Str(m.host)),
                ("cwd"@, JsonV::Str(m.cwd)),
                ("entry"@, JsonV::Str(m.entry)),
                (
                    "created_at"@,
                    match m.created_at {
                        Some(n) => JsonV::Num(n),
                        None => JsonV::Null,
                    },
                ),
                ("started_at"@, JsonV::Num(at as nat)),
            ] && ms.skip(9) == (if m.node_version.len() > 0 {
                seq![("node_version"@, JsonV::Str(m.node_version))]
            } else {
                Seq::empty()
            })
            &&& down matches JsonV::Obj(ds) && ds[2] == ("status"@, JsonV::Str("STOPPED"@)) && ds[3]
                == ("pid"@, JsonV::Null) && ds[8] == ("started_at"@, JsonV::Null)
        }),
{
}

/// The apps that are up are those with a pid.
pub proof fn law_apps_with_a_pid_are_up(apps: Seq<ListedApp>, name: Seq<char>)
    ensures
        names_up(apps).contains(name) <==> exists|i: int|
            0 <= i < apps.len() && (#[trigger] apps[i]).name@ == name && apps[i].status.pid is Some,
        names_up(apps).len() <= apps.len(),
    decreases apps.len(),
{
    if apps.len() > 0 {
        let front = apps.drop_last();
        law_apps_with_a_pid_are_up(front, name);
        let before = names_up(front);
        if names_up(apps).contains(name) {
            let j = choose|j: int| 0 <= j < names_up(apps).len() && names_up(apps)[j] == name;
            if j < before.len() {
                assert(before[j] == name);
                let i = choose|i: int|
                    0 <= i < front.len() && (#[trigger] front[i]).name@ == name
                        && front[i].status.pid is Some;
                assert(apps[i] == front[i]);
            } else {
                assert(apps[apps.len() - 1].name@ == name);
            }
        }
        if exists|i: int|
            0 <= i < apps.len() && (#[trigger] apps[i]).name@ == name && apps[i].status.pid is Some {
            let i = choose|i: int|
                0 <= i < apps.len() && (#[trigger] apps[i]).name@ == name
                    && apps[i].status.pid is Some;
            if i < front.len() {
                assert(front[i] == apps[i]);
                let j = choose|j: int| 0 <= j < before.len() && before[j] == name;
                assert(names_up(apps)[j] == name);
            } else {
                assert(names_up(apps)[before.len() as int] == name);
            }
        }
    }
}

/// A memory cap is none at all or at least 16 megabytes, and counts in bytes,
/// 1048576 to the megabyte.
pub proof fn law_caps_in_numbers(megabytes: u64)
    ensures
        cap_is_ok(megabytes) <==> megabytes == 0 || megabytes >= 16,
        cap_bytes(0) == 0,
        megabytes * 1048576 <= u64::MAX ==> cap_bytes(megabytes) == megabytes * 1048576,
        megabytes * 1048576 > u64::MAX ==> cap_bytes(megabytes) == u64::MAX,
{
}

/// Nothing that the panel recorded of an app outlives it: its run state, its job,
/// its sockets and its route.
pub proof fn law_removed_apps_leave_no_records(
    state_dir: Seq<char>,
    name: Seq<char>,
    m: state::AppMetaV,
    recorded: Option<Seq<char>>,
    isolated: bool,
    file: Seq<char>,
)
    requires
        file == state::run_file(state_dir, name, ".pid"@) || file == state::run_file(
            state_dir,
            name,
            ".meta"@,
        ) || file == state::run_file(state_dir, name, ".enabled"@) || file == state::run_file(
            state_dir,
            name,
            ".job"@,
        ) || file == state::run_file(state_dir, name, ".job.log"@) || file == state::active_socket(
            state_dir,
            m,
            recorded,
            isolated,
        ) || file == state::socket_path(state_dir, m.name, m.host, isolated) || file
            == state::marker_path(state_dir, m.host),
    ensures
        exists|i: int|
            0 <= i < run_state_removed(state_dir, name, m, recorded, isolated).len()
                && #[trigger] run_state_removed(state_dir, name, m, recorded, isolated)[i]
                == effect::tried(effect::ChangeV::RemoveFile(file)),
        exists|i: int|
            0 <= i < run_state_removed(state_dir, name, m, recorded, isolated).len()
                && #[trigger] run_state_removed(state_dir, name, m, recorded, isolated)[i]
                == effect::tried(
                effect::ChangeV::RemoveDir(path::under(path::under(state_dir, ".sockets"@), name)),
            ),
{
    let r = run_state_removed(state_dir, name, m, recorded, isolated);
    assert(r[7] == effect::tried(
        effect::ChangeV::RemoveDir(path::under(path::under(state_dir, ".sockets"@), name)),
    ));
    let want = effect::tried(effect::ChangeV::RemoveFile(file));
    assert(r[0] == want || r[1] == want || r[2] == want || r[3] == want || r[4] == want || r[5]
        == want || r[6] == want || r[8] == want);
}

/// A directory that is asked to go goes as a whole when it lies in the home; a link
/// and one outside are refused. Otherwise only the two logs go.
pub proof fn law_files_go_as_asked(name: Seq<char>, cwd: Seq<char>, found: CwdFound)
    ensures
        files_removed(name, cwd, true, CwdFound::Other { escapes_home: false }) == seq![
            effect::tried(effect::ChangeV::RemoveTree(cwd)),
        ],
        files_removed(name, cwd, true, CwdFound::Nothing).len() == 0,
        files_removed(name, cwd, true, CwdFound::Symlink).len() == 0,
        files_removed(name, cwd, false, found) == seq![
            effect::tried(effect::ChangeV::RemoveFile(logs::log_path(cwd, name, false))),
            effect::tried(effect::ChangeV::RemoveFile(logs::log_path(cwd, name, true))),
        ],
        delete_error(CwdFound::Symlink) == Some(
            output::refused(
                "cwd_is_symlink"@,
                "refusing to delete a cwd that is a symlink; remove the link manually"@,
            ),
        ),
        delete_error(CwdFound::Other { escapes_home: true }) == Some(
            output::refused(
                "cwd_outside_home"@,
                "refusing to delete a cwd outside the user's home directory"@,
            ),
        ),
        delete_error(CwdFound::Other { escapes_home: false }) is None,
        delete_error(CwdFound::Nothing) is None,
{
}

/// A subdomain is named before its domain, with a dot between.
pub proof fn law_subdomains_stand_before_their_domain(name: Seq<char>, subs: Seq<Seq<char>>, i: int)
    requires
        0 <= i < subs.len(),
    ensures
        domain_entry(name, subs) matches JsonV::Obj(ms) && ms.len() == 2 && ms[0] == (
            "host"@,
            JsonV::Str(name),
        ) && ms[1].0 == "subdomains"@ && (ms[1].1 matches JsonV::List(ss) && ss.len() == subs.len()
            && (ss[i] matches JsonV::Obj(s) && s == seq![
            ("host"@, JsonV::Str(subs[i].push('.') + name)),
        ])),
{
    reveal_strlit(".");
    assert(subs[i] + "."@ + name =~= subs[i].push('.') + name);
}

/// A script can be run by its name when that is of letters, digits and `:_-.`, up to
/// 64 of them, and does not begin like an option.
pub proof fn law_script_names_are_plain(s: Seq<char>)
    ensures
        is_script_name(s) <==> {
            &&& 1 <= s.len() <= 64
            &&& s[0] != '-'
            &&& forall|i: int|
                0 <= i < s.len() ==> ('a' <= #[trigger] s[i] <= 'z') || ('A' <= s[i] <= 'Z') || (
                '0' <= s[i] <= '9') || s[i] == ':' || s[i] == '_' || s[i] == '-' || s[i] == '.'
        },
{
}

/// Of the scripts that a `package.json` names, those with a plain name are offered,
/// and all of them.
pub proof fn law_every_safe_script_is_offered(names: Seq<Seq<char>>, name: Seq<char>)
    ensures
        safe_names(names).contains(name) <==> names.contains(name) && is_script_name(name),
    decreases names.len(),
{
    if names.len() > 0 {
        let front = names.drop_last();
        law_every_safe_script_is_offered(front, name);
        let before = safe_names(front);
        let all = safe_names(names);
        if all.contains(name) {
            let j = choose|j: int| 0 <= j < all.len() && all[j] == name;
            if j < before.len() {
                assert(before[j] == name);
                let i = choose|i: int| 0 <= i < front.len() && front[i] == name;
                assert(names[i] == name);
            } else {
                assert(names[names.len() - 1] == name);
            }
        }
        if names.contains(name) && is_script_name(name) {
            let i = choose|i: int| 0 <= i < names.len() && names[i] == name;
            if i < front.len() {
                assert(front[i] == name);
                let j = choose|j: int| 0 <= j < before.len() && before[j] == name;
                assert(all[j] == name);
            } else {
                assert(all[before.len() as int] == name);
            }
        }
    }
}

/// Arguments are accepted when there are at most 32 of them and each is a value: of
/// at most 256 bytes, without control characters, not an option, and not a way out
/// of the directory.
pub proof fn law_arguments_are_accepted_exactly_when_they_are_values(raw: Seq<char>)
    ensures
        arguments(raw) is Ok <==> {
            &&& text::words(raw).len() <= 32
            &&& forall|i: int|
                0 <= i < text::words(raw).len() ==> is_value_argument(#[trigger] text::words(raw)[i])
        },
        arguments(raw) matches Ok(ws) ==> ws == text::words(raw),
{
    lemma_first_refusal(text::words(raw));
}

/// A value: at most 256 bytes, none of them a control character, that begin neither
/// an option nor an absolute path and lead nowhere up.
pub open spec fn is_value_argument(arg: Seq<char>) -> bool {
    arg.len() == 0 || {
        &&& text::byte_len(arg) <= 256
        &&& forall|i: int|
            0 <= i < arg.len() ==> !((#[trigger] arg[i] as u32) < 32 || 127 <= arg[i] as u32 <= 159)
        &&& arg[0] != '-' && arg[0] != '/'
        &&& forall|i: int, j: int|
            0 <= i && j == i + 1 && j < arg.len() ==> !(#[trigger] arg[i] == '.' && #[trigger] arg[j]
                == '.')
    }
}

proof fn lemma_refusal(arg: Seq<char>)
    ensures
        refusal(arg) is None <==> is_value_argument(arg),
{
    reveal_strlit("..");
    if text::occurs(arg, ".."@) {
        let i = choose|i: int| #[trigger] text::occurs_at(arg, ".."@, i);
        assert(arg.subrange(i, i + 2)[0] == arg[i]);
        assert(arg.subrange(i, i + 2)[1] == arg[i + 1]);
    } else {
        assert forall|i: int, j: int| 0 <= i && j == i + 1 && j < arg.len() implies !(
        #[trigger] arg[i] == '.' && #[trigger] arg[j] == '.') by {
            if arg[i] == '.' && arg[j] == '.' {
                assert(arg.subrange(i, i + 2) =~= ".."@);
                assert(text::occurs_at(arg, ".."@, i));
            }
        }
    }
    if exists|i: int| 0 <= i < arg.len() && text::is_control(#[trigger] arg[i]) {
        let i = choose|i: int| 0 <= i < arg.len() && text::is_control(#[trigger] arg[i]);
        let n = arg[i] as u32;
        assert(n < 32 || 127 <= n <= 159);
    }
    if arg.len() > 0 && !(exists|i: int| 0 <= i < arg.len() && text::is_control(#[trigger] arg[i])) {
        assert forall|i: int| 0 <= i < arg.len() implies !((#[trigger] arg[i] as u32) < 32 || 127
            <= arg[i] as u32 <= 159) by {
            assert(!text::is_control(arg[i]));
        }
    }
}

proof fn lemma_first_refusal(ws: Seq<Seq<char>>)
    ensures
        first_refusal(ws) is None <==> forall|i: int|
            0 <= i < ws.len() ==> is_value_argument(#[trigger] ws[i]),
    decreases ws.len(),
{
    if ws.len() > 0 {
        lemma_refusal(ws[0]);
        lemma_first_refusal(ws.skip(1));
        let rest = ws.skip(1);
        if forall|i: int| 0 <= i < ws.len() ==> is_value_argument(#[trigger] ws[i]) {
            assert forall|i: int| 0 <= i < rest.len() implies is_value_argument(
                #[trigger] rest[i],
            ) by {
                assert(rest[i] == ws[i + 1]);
            }
        }
        if first_refusal(ws) is None {
            assert forall|i: int| 0 <= i < ws.len() implies is_value_argument(#[trigger] ws[i]) by {
                if i > 0 {
                    assert(rest[i - 1] == ws[i]);
                }
            }
        }
    }
}

/// What is said of the dependencies of an app: `none` where nothing is declared,
/// `missing` without `node_modules`, `incomplete` where a directory of the lockfile
/// is not there, `outdated` where a declared package is not in the lockfile.
pub proof fn law_dependencies_are_told_apart(
    pkg: JsonV,
    node_modules: bool,
    lock: Option<JsonV>,
    present: Seq<Seq<char>>,
    dirs: Seq<Seq<char>>,
    i: int,
)
    ensures
        declared(pkg).len() == 0 ==> dependencies(pkg, node_modules, lock, present) == "none"@,
        declared(pkg).len() > 0 ==> dependencies(pkg, false, lock, present) == "missing"@,
        declared(pkg).len() > 0 ==> dependencies(pkg, true, None, present) == "ok"@,
        declared(pkg).len() > 0 && (lock matches Some(l) && locked_dirs(l) == Some(dirs)) && 0 <= i
            < dirs.len() && !present.contains(dirs[i]) ==> dependencies(pkg, true, lock, present)
            == "incomplete"@,
        0 <= i < declared(pkg).len() && (lock matches Some(l) && locked_dirs(l) == Some(dirs))
            && all_among(dirs, present) && !dirs.contains("node_modules/"@ + declared(pkg)[i])
            ==> dependencies(pkg, true, lock, present) == "outdated"@,
        declared(pkg).len() > 0 && (lock matches Some(l) && locked_dirs(l) == Some(dirs)) && (
        forall|k: int| 0 <= k < dirs.len() ==> present.contains(#[trigger] dirs[k])) && (forall|k: int|

            0 <= k < declared(pkg).len() ==> dirs.contains(
                "node_modules/"@ + #[trigger] declared(pkg)[k],
            )) ==> dependencies(pkg, true, lock, present) == "ok"@,
{
    if 0 <= i < declared(pkg).len() {
        assert(homes_of(declared(pkg))[i] == "node_modules/"@ + declared(pkg)[i]);
    }
}

/// The packages of a lockfile that lie in `node_modules` are the directories that it
/// speaks of.
pub proof fn law_locked_directories_lie_in_node_modules(paths: Seq<Seq<char>>, p: Seq<char>)
    ensures
        locked(Seq::empty()).len() == 0,
        locked(paths.push("node_modules/"@ + p)) == locked(paths).push("node_modules/"@ + p),
        !"node_modules/"@.is_prefix_of(p) ==> locked(paths.push(p)) == locked(paths),
{
    let q = "node_modules/"@ + p;
    assert(q.take("node_modules/"@.len() as int) =~= "node_modules/"@);
    assert("node_modules/"@.is_prefix_of(q));
    assert(paths.push(q).drop_last() =~= paths);
    assert(paths.push(p).drop_last() =~= paths);
}

/// An entry is accepted for an app that is known, when it is a file with a name in
/// one directory.
pub proof fn law_entries_are_files_of_the_app(
    name: Seq<char>,
    known: bool,
    entry: Seq<char>,
    is_file: bool,
)
    ensures
        entry_error(name, known, entry, is_file) is None <==> known && is_file
            && validate::is_safe_component(entry) && validate::is_meta_value(entry),
        !known ==> entry_error(name, known, entry, is_file) == Some(
            ("app_not_found"@, "app '"@ + name + "' not found"@),
        ),
        known && validate::is_safe_component(entry) && validate::is_meta_value(entry) && !is_file
            ==> (entry_error(name, known, entry, is_file) matches Some((code, _m)) && code
            == "entry_not_found"@),
{
}

/// The report on isolation says whether the mode is on, and whether this host can
/// isolate: with bubblewrap and user namespaces both.
pub proof fn law_isolation_needs_both_pieces(
    isolated: bool,
    bwrap: bool,
    userns: bool,
    running: Seq<Seq<char>>,
)
    ensures
        ({
            let r = isolation_report(isolated, bwrap, userns, running);
            &&& r.len() == 4
            &&& r[0] == ("isolated"@, JsonV::Bool(isolated))
            &&& r[1] == ("supported"@, JsonV::Bool(bwrap && userns))
            &&& r[2].0 == "reason"@ && (r[2].1 == JsonV::Null <==> bwrap && userns)
            &&& r[3] == ("running"@, JsonV::List(output::text_views(running)))
        }),
{
}

/// Switching isolation writes what is read back as the switch, in the state
/// directory of the account, for everybody to read.
pub proof fn law_written_switch_is_read_back(
    state_dir: Seq<char>,
    isolated: bool,
    default: Option<Seq<char>>,
)
    ensures
        flag_written(state_dir, isolated).len() == 2,
        flag_written(state_dir, isolated)[0].must,
        flag_written(state_dir, isolated)[0].change matches effect::ChangeV::Write(p, c) && p
            == path::under(state_dir, "isolated"@) && state::isolated(Some(c), default) == isolated,
        flag_written(state_dir, isolated)[1].change == effect::ChangeV::SetMode(
            path::under(state_dir, "isolated"@),
            420,
        ),
{
    law_switch_is_read_back(isolated, default);
}

/// An app keeps the working directory that was recorded of it.
pub proof fn law_recorded_directories_are_kept(args: AddArgs<'_>, recorded: Seq<char>)
    ensures
        added_cwd(args, Some(recorded)) == recorded,
        args.cwd matches Some(c) ==> added_cwd(args, None) == c@,
        args.cwd is None ==> added_cwd(args, None).len() == 0,
{
}

/// The scripts of a `package.json` are reported sorted, and with the state of its
/// dependencies.
pub proof fn law_reported_scripts_are_the_safe_ones(
    r: output::ResponseV,
    pkg: JsonV,
    node_modules: bool,
    lock: Option<JsonV>,
    present: Seq<Seq<char>>,
)
    requires
        reports_scripts(r, pkg, node_modules, lock, present, None),
    ensures
        r.exit == 0,
        exists|names: Seq<Seq<char>>|
            {
                &&& #[trigger] order::sorted_texts(
                    safe_names(json::keys_under(pkg, "scripts"@)),
                    names,
                )
                &&& r.body == JsonV::Obj(
                    seq![
                        ("ok"@, JsonV::Bool(true)),
                        ("scripts"@, JsonV::List(output::text_views(names))),
                        ("deps"@, JsonV::Str(dependencies(pkg, node_modules, lock, present))),
                    ],
                )
            },
        declared(pkg) == json::keys_under(pkg, "dependencies"@) + json::keys_under(
            pkg,
            "devDependencies"@,
        ),
{
    let names = choose|names: Seq<Seq<char>>| #[trigger]
        order::sorted_texts(safe_names(json::keys_under(pkg, "scripts"@)), names) && r
            == scripts_answer(
            names,
            dependencies(pkg, node_modules, lock, present),
            None,
            None,
        );
    let want = seq![
        ("ok"@, JsonV::Bool(true)),
        ("scripts"@, JsonV::List(output::text_views(names))),
        ("deps"@, JsonV::Str(dependencies(pkg, node_modules, lock, present))),
    ];
    let extra = seq![
        ("scripts"@, JsonV::List(output::text_views(names))),
        ("deps"@, JsonV::Str(dependencies(pkg, node_modules, lock, present))),
    ];
    assert(seq![("ok"@, JsonV::Bool(true))] + extra =~= want);
}

} // verus!
