//! Starting an app: the command it is launched with, what is recorded about it,
//! and how long it is waited for.

use vstd::prelude::*;

use crate::app::appfile;
use crate::app::commands;
use crate::app::logs;
use crate::app::status::AppStatus;
use crate::app::validate;
use crate::command;
use crate::command::CommandLine;
use crate::effect;
use crate::effect::{Change, Steps};
use crate::limits::policy;
use crate::limits::policy::AppLimits;
use crate::limits::sandbox;
use crate::limits::usage;
use crate::path;
use crate::runtime::detect;
use crate::runtime::kind;
use crate::runtime::kind::Runtime;
use crate::runtime::node;
use crate::sys::kv;
use crate::sys::output;
use crate::sys::output::{Json, JsonV, Members, Response};
use crate::sys::proc::ProcessSnapshot;
use crate::sys::state;
use crate::sys::state::AppMeta;
use crate::text;

verus! {

/// Ceiling for the socket to be created, in seconds.
pub const SOCKET_HARD_TIMEOUT_SECS: u64 = 120;

/// Ceiling for the socket to accept connections, in seconds.
pub const SOCKET_ACCEPT_TIMEOUT_SECS: u64 = 15;

/// Time between progress snapshots, in milliseconds. It absorbs scheduling
/// jitter and collector pauses without raising false positives.
pub const PROGRESS_CHECK_MILLIS: u64 = 2500;

/// Snapshots in a row without progress that declare a process stuck.
pub const STUCK_THRESHOLD: u32 = 4;

/// How long a new process is given before `/proc` is asked about it, in
/// milliseconds.
pub const SPAWN_PROC_SETTLE_MILLIS: u64 = 50;

/// Time between two looks at a socket, in milliseconds.
pub const READY_POLL_MILLIS: u64 = 100;

/// Time between asking a process to end and killing it, in milliseconds.
pub const KILL_GRACE_MILLIS: u64 = 500;

pub const NETWORK_PORT_FORBIDDEN_MSG: &'static str =
    "process opened an externally reachable network port — only Unix sockets are allowed";

// ---------------------------------------------------------------------------
// The command
// ---------------------------------------------------------------------------

/// The pairs that the lines of an environment file state, spaces and all.
pub open spec fn env_pairs(ls: Seq<Seq<char>>) -> Seq<(Seq<char>, Seq<char>)>
    decreases ls.len(),
{
    if ls.len() == 0 {
        Seq::empty()
    } else {
        match text::cut(ls.last(), '=') {
            Some(p) => env_pairs(ls.drop_last()).push(p),
            None => env_pairs(ls.drop_last()),
        }
    }
}

/// What an app's `.env` file sets.
pub open spec fn env_of(content: Option<Seq<char>>) -> Seq<(Seq<char>, Seq<char>)> {
    match content {
        Some(c) => env_pairs(text::lines(c)),
        None => Seq::empty(),
    }
}

pub open spec fn pair_views(v: Seq<(String, String)>) -> Seq<(Seq<char>, Seq<char>)> {
    Seq::new(v.len(), |i: int| (v[i].0@, v[i].1@))
}

/// What an app's `.env` file sets.
pub fn load_env_file(content: Option<&str>) -> (r: Vec<(String, String)>)
    ensures
        pair_views(r@) == env_of(state::opt_view(content)),
{
    let mut out: Vec<(String, String)> = Vec::new();
    let c = match content {
        Some(c) => c,
        None => {
            assert(pair_views(out@) =~= Seq::<(Seq<char>, Seq<char>)>::empty());
            return out;
        },
    };
    let ls = text::split_lines(c);
    let ghost vs = text::views(ls@);
    let mut i: usize = 0;
    assert(pair_views(out@) =~= env_pairs(vs.take(0)));
    while i < ls.len()
        invariant
            vs == text::views(ls@),
            i <= ls@.len(),
            pair_views(out@) == env_pairs(vs.take(i as int)),
        decreases ls@.len() - i,
    {
        let ghost before = pair_views(out@);
        assert(vs.take(i + 1).drop_last() =~= vs.take(i as int));
        assert(vs.take(i + 1).last() == ls@[i as int]@);
        if let Some((k, v)) = text::split_once(&ls[i], '=') {
            let ghost p = (k@, v@);
            out.push((k, v));
            assert(pair_views(out@) =~= before.push(p));
        }
        i = i + 1;
    }
    assert(vs.take(i as int) =~= vs);
    out
}

/// Whether the kind of an app runs through an interpreter.
pub open spec fn interpreted(app_type: Seq<char>) -> bool {
    kind::runtime_of(app_type) == Some(Runtime::Node)
}

/// The interpreter of an app: the one it pins, else the default one of the
/// server, by its absolute path wherever one is known.
pub open spec fn interpreter(node_version: Seq<char>, local: bool, system: bool) -> Seq<char> {
    if node_version.len() > 0 {
        node_version
    } else if local {
        detect::NODE_LOCAL@
    } else if system {
        detect::NODE_SYSTEM@
    } else {
        "node"@
    }
}

/// The interpreter of an app. `local` and `system` say which of the default
/// ones are there.
pub fn node_binary(meta: &AppMeta, local: bool, system: bool) -> (r: String)
    ensures
        r@ == interpreter(meta.node_version@, local, system),
{
    if !meta.node_version.as_str().is_empty() {
        return meta.node_version.clone();
    }
    match detect::default_node_path(local, system) {
        Some(p) => p.to_string(),
        None => "node".to_string(),
    }
}

/// The answer when the interpreter is too old.
pub open spec fn too_old(version: Seq<char>) -> output::ResponseV {
    output::refused(
        "unsupported_node"@,
        "Node.js "@ + version + " is not supported. Minimum: v20.6.0"@,
    )
}

/// The command that runs an app, outside any sandbox and scope.
pub open spec fn launch(app_type: Seq<char>, entry_path: Seq<char>, node_bin: Seq<char>) ->
    command::CommandV {
    if interpreted(app_type) {
        command::CommandV {
            program: node_bin,
            args: seq![
                "--import"@,
                state::PLUGIN_PATH@ + "/lib/node-loader.js"@,
                entry_path,
            ],
            env: Seq::empty(),
            current_dir: None,
        }
    } else {
        command::CommandV {
            program: entry_path,
            args: Seq::empty(),
            env: Seq::empty(),
            current_dir: None,
        }
    }
}

/// Whether an interpreter that states this version is refused. One that states
/// none is given the benefit of the doubt.
pub open spec fn is_too_old(app_type: Seq<char>, version: Option<Seq<char>>) -> bool {
    interpreted(app_type) && (version matches Some(v) && !node::is_supported(v))
}

/// The command that runs an app. `version` is what its interpreter says it is.
pub fn build_command(meta: &AppMeta, entry_path: &str, node_bin: &str, version: Option<&str>) -> (r:
    Result<CommandLine, Response>)
    ensures
        match r {
            Ok(c) => !is_too_old(meta.app_type@, state::opt_view(version)) && c@ == launch(
                meta.app_type@,
                entry_path@,
                node_bin@,
            ),
            Err(e) => is_too_old(meta.app_type@, state::opt_view(version)) && e@ == too_old(
                version->0@,
            ),
        },
{
    let through_node = match Runtime::from_str(&meta.app_type) {
        Ok(rt) => rt.is_interpreted(),
        Err(_) => false,
    };
    if !through_node {
        return Ok(CommandLine::new(entry_path));
    }
    if let Some(v) = version {
        if !node::node_version_ok(v) {
            let mut message = "Node.js ".to_string();
            message.append(v);
            message.append(" is not supported. Minimum: v20.6.0");
            return Err(output::user_error("unsupported_node", &message));
        }
    }
    let mut c = CommandLine::new(node_bin);
    c.arg("--import");
    c.arg(&text::cat(state::PLUGIN_PATH, "/lib/node-loader.js"));
    c.arg(entry_path);
    assert(c@.args =~= launch(meta.app_type@, entry_path@, node_bin@).args);
    Ok(c)
}

/// What this host can confine an app with: the bundled bubblewrap where it is
/// there, whether namespaces are allowed, and the system paths that exist.
pub struct Confinement {
    pub bwrap: Option<String>,
    pub userns: bool,
    pub system: Vec<String>,
}

impl Confinement {
    pub open spec fn works(self) -> bool {
        self.bwrap is Some && self.userns
    }
}

/// The answer when an account asks for a sandbox that this host cannot give.
pub open spec fn no_isolation(c: Confinement) -> output::ResponseV {
    output::refused("sandbox_unavailable"@, sandbox::missing_piece(c.bwrap is Some, c.userns))
}

/// `cmd` as an account wants it run: confined to the app's directory and the
/// one its socket lives in, where it isolates its apps.
pub open spec fn isolated_command(
    cmd: command::CommandV,
    isolated: bool,
    cwd: Seq<char>,
    socket: Seq<char>,
    c: Confinement,
) -> command::CommandV {
    match state::parent_of(socket) {
        Some(dir) if isolated => sandbox::confined(
            c.bwrap->0@,
            cmd,
            text::views(c.system@),
            seq![cwd, dir],
        ),
        _ => cmd,
    }
}

/// Whether a sandbox is asked for that cannot be had.
pub open spec fn lacks_sandbox(isolated: bool, socket: Seq<char>, c: Confinement) -> bool {
    isolated && state::parent_of(socket) is Some && !c.works()
}

/// Puts the app inside its namespaces, when the account asked for isolation.
///
/// Refuses to start rather than run shared: isolation was accepted when it was
/// switched on, so losing it means the host changed underneath, and starting
/// anyway would give the account less separation than it is told it has.
pub fn apply_sandbox(
    cmd: CommandLine,
    isolated: bool,
    cwd: &str,
    socket: &str,
    c: &Confinement,
) -> (r: Result<CommandLine, Response>)
    ensures
        match r {
            Ok(done) => !lacks_sandbox(isolated, socket@, *c) && done@ == isolated_command(
                cmd@,
                isolated,
                cwd@,
                socket@,
                *c,
            ),
            Err(e) => lacks_sandbox(isolated, socket@, *c) && e@ == no_isolation(*c),
        },
{
    if !isolated {
        return Ok(cmd);
    }
    let dir = match state::parent_dir(socket) {
        Some(d) => d,
        None => {
            return Ok(cmd);
        },
    };
    match &c.bwrap {
        Some(b) if c.userns => Ok(sandbox::wrap_with(b, &cmd, cwd, &dir, &c.system)),
        _ => {
            let reason = sandbox::unavailable_reason(c.bwrap.is_some(), c.userns);
            Err(output::user_error("sandbox_unavailable", reason))
        },
    }
}

/// The arguments that put a command into a scope of its own, in the slice of
/// its account, as that account, held to these limits.
pub open spec fn scope_args(
    username: Seq<char>,
    name: Seq<char>,
    uid: nat,
    gid: nat,
    limits: Option<AppLimits>,
) -> Seq<Seq<char>> {
    let placed = seq![
        "--scope"@,
        "--quiet"@,
        "--collect"@,
        "--unit="@ + usage::scope_unit(username, name),
        "--slice="@ + policy::slice_unit(username),
        "--uid="@ + text::decimal(uid),
        "--gid="@ + text::decimal(gid),
        "--property=KillMode=process"@,
    ];
    match limits {
        Some(l) => placed + seq![
            "--property=MemoryMin="@ + text::decimal(l.min as nat),
            "--property=MemoryHigh="@ + text::decimal(l.high as nat),
            "--property=MemoryMax="@ + text::decimal(l.max as nat),
        ],
        None => placed,
    }
}

/// `cmd` in a scope of its own.
pub open spec fn scoped(
    cmd: command::CommandV,
    username: Seq<char>,
    name: Seq<char>,
    uid: nat,
    gid: nat,
    limits: Option<AppLimits>,
) -> command::CommandV {
    command::running(
        command::CommandV {
            program: "systemd-run"@,
            args: scope_args(username, name, uid, gid, limits),
            env: Seq::empty(),
            current_dir: None,
        },
        cmd,
    )
}

/// Wraps `cmd` in `systemd-run --scope` so the app lands in a cgroup of its own.
///
/// Without it the app inherits the cgroup of whatever started it and systemd
/// tears it down along with that. Registering a scope needs root, so this runs
/// before privileges are dropped and lets `--uid` and `--gid` drop them.
pub fn wrap_in_scope(
    cmd: &CommandLine,
    username: &str,
    name: &str,
    uid: u32,
    gid: u32,
    limits: Option<AppLimits>,
) -> (r: CommandLine)
    ensures
        r@ == scoped(cmd@, username@, name@, uid as nat, gid as nat, limits),
{
    let mut run = CommandLine::new("systemd-run");
    run.arg("--scope");
    run.arg("--quiet");
    run.arg("--collect");
    run.arg(&text::cat("--unit=", &usage::scope_unit_name(username, name)));
    run.arg(&text::cat("--slice=", &policy::slice_unit_name(username)));
    run.arg(&text::cat("--uid=", &text::show_u32(uid)));
    run.arg(&text::cat("--gid=", &text::show_u32(gid)));
    run.arg("--property=KillMode=process");
    if let Some(l) = limits {
        run.arg(&text::cat("--property=MemoryMin=", &text::show_u64(l.min)));
        run.arg(&text::cat("--property=MemoryHigh=", &text::show_u64(l.high)));
        run.arg(&text::cat("--property=MemoryMax=", &text::show_u64(l.max)));
    }
    assert(run@.args =~= scope_args(username@, name@, uid as nat, gid as nat, limits));
    run.run(cmd);
    run
}

/// A command in a scope still runs what it was asked to run, in order and in
/// its environment, and runs it as the account.
pub proof fn law_scope_keeps_the_command(
    cmd: command::CommandV,
    username: Seq<char>,
    name: Seq<char>,
    uid: nat,
    gid: nat,
    limits: Option<AppLimits>,
)
    ensures
        ({
            let r = scoped(cmd, username, name, uid, gid, limits);
            let args = scope_args(username, name, uid, gid, limits);
            &&& r.args == args + (seq![cmd.program] + cmd.args)
            &&& r.env == cmd.env
            &&& args.contains("--uid="@ + text::decimal(uid))
            &&& args.contains("--gid="@ + text::decimal(gid))
        }),
{
    let r = scoped(cmd, username, name, uid, gid, limits);
    let args = scope_args(username, name, uid, gid, limits);
    assert(r.args =~= args + (seq![cmd.program] + cmd.args));
    assert(r.env =~= cmd.env);
    assert(args[5] == "--uid="@ + text::decimal(uid));
    assert(args[6] == "--gid="@ + text::decimal(gid));
}

/// The account that an app is launched for while still root.
pub struct Scope<'a> {
    pub username: &'a str,
    pub uid: u32,
    pub gid: u32,
}

/// Creating the directory an isolated app's socket lives in, owned by the
/// account where that is known.
pub open spec fn socket_dir_made(socket: Seq<char>, exists_already: bool, scope: Option<Scope<'_>>) ->
    Seq<effect::StepV> {
    match state::parent_of(socket) {
        Some(dir) if !exists_already => {
            let made = seq![
                effect::tried(effect::ChangeV::MakeDir(dir)),
                effect::tried(effect::ChangeV::SetMode(dir, 0o750)),
            ];
            match scope {
                Some(s) => made.push(
                    effect::tried(effect::ChangeV::Own(dir, s.uid as int, s.gid as int)),
                ),
                None => made,
            }
        },
        _ => Seq::empty(),
    }
}

/// Creates the directory an isolated app's socket lives in, owned by the
/// account. It has to exist before the sandbox can bind it.
pub fn ensure_socket_dir(socket: &str, exists_already: bool, scope: &Option<Scope<'_>>) -> (r: Steps)
    ensures
        r@ == socket_dir_made(socket@, exists_already, *scope),
{
    let mut steps = Steps::new();
    if let Some(dir) = state::parent_dir(socket) {
        if !exists_already {
            steps.try_to(Change::MakeDir(dir.clone()));
            steps.try_to(Change::SetMode(dir.clone(), 0o750));
            if let Some(s) = scope {
                steps.try_to(Change::Own(dir, s.uid, s.gid));
            }
        }
    }
    assert(steps@ =~= socket_dir_made(socket@, exists_already, *scope));
    steps
}

/// What is known of an app and its host when it is launched: the content of its
/// `.env`, whether the directory of its socket is there, the interpreter and
/// what that says it is, what can confine it, and whether scopes can be run.
pub struct SpawnFacts {
    pub env_file: Option<String>,
    pub socket_dir_exists: bool,
    pub node_bin: String,
    pub node_version: Option<String>,
    pub confinement: Confinement,
    pub can_run_scopes: bool,
}

/// The environment of an app: the path of its socket, under both names by which
/// apps ask for it, and what its `.env` sets, which comes last and so wins.
pub open spec fn app_env(socket: Seq<char>, env_file: Option<Seq<char>>) -> Seq<
    (Seq<char>, Option<Seq<char>>),
> {
    let pairs = env_of(env_file);
    seq![("SELYNT_SOCKET"@, Some(socket)), ("SELYNT_HOST"@, Some(socket))] + Seq::new(
        pairs.len(),
        |i: int| (pairs[i].0, Some(pairs[i].1)),
    )
}

/// The command that launches an app.
pub open spec fn launched(
    m: state::AppMetaV,
    name: Seq<char>,
    socket: Seq<char>,
    scope: Option<Scope<'_>>,
    limits: Option<AppLimits>,
    isolated: bool,
    f: SpawnFacts,
) -> command::CommandV {
    let bare = isolated_command(
        launch(m.app_type, path::under(m.cwd, m.entry), f.node_bin@),
        isolated,
        m.cwd,
        socket,
        f.confinement,
    );
    let inner = command::CommandV {
        env: bare.env + app_env(socket, command::opt(f.env_file)),
        ..bare
    };
    let outer = match scope {
        Some(s) if f.can_run_scopes => scoped(
            inner,
            s.username@,
            name,
            s.uid as nat,
            s.gid as nat,
            limits,
        ),
        _ => inner,
    };
    command::CommandV { current_dir: Some(m.cwd), ..outer }
}

/// The answer when an app cannot be launched as it is.
pub open spec fn launch_error(
    m: state::AppMetaV,
    socket: Seq<char>,
    isolated: bool,
    f: SpawnFacts,
) -> Option<output::ResponseV> {
    if is_too_old(m.app_type, command::opt(f.node_version)) {
        Some(too_old(f.node_version->0@))
    } else if lacks_sandbox(isolated, socket, f.confinement) {
        Some(no_isolation(f.confinement))
    } else {
        None
    }
}

/// How an app is launched: its log files, which start empty, the directory of
/// its socket, the command or the answer when there is none, and how the
/// command is shown.
pub struct SpawnPlan {
    pub out_log: String,
    pub err_log: String,
    pub socket_dir: Steps,
    pub command: Result<CommandLine, Response>,
    pub display: String,
}

/// How an app is launched.
pub fn spawn_app(
    meta: &AppMeta,
    name: &str,
    socket: &str,
    scope: &Option<Scope<'_>>,
    limits: Option<AppLimits>,
    isolated: bool,
    facts: &SpawnFacts,
) -> (r: SpawnPlan)
    ensures
        r.out_log@ == logs::log_path(meta.cwd@, name@, false),
        r.err_log@ == logs::log_path(meta.cwd@, name@, true),
        r.socket_dir@ == socket_dir_made(socket@, facts.socket_dir_exists, *scope),
        match r.command {
            Ok(c) => launch_error(meta@, socket@, isolated, *facts) is None && c@ == launched(
                meta@,
                name@,
                socket@,
                *scope,
                limits,
                isolated,
                *facts,
            ),
            Err(e) => launch_error(meta@, socket@, isolated, *facts) == Some(e@),
        },
        r.display@ == kind::display(
            kind::runtime_of(meta.app_type@),
            path::under(meta.cwd@, meta.entry@),
        ),
{
    let entry_path = path::join(&meta.cwd, &meta.entry);
    let command = assemble(meta, name, &entry_path, socket, scope, limits, isolated, facts);
    SpawnPlan {
        out_log: logs::log_file(&meta.cwd, name, false),
        err_log: logs::log_file(&meta.cwd, name, true),
        socket_dir: ensure_socket_dir(socket, facts.socket_dir_exists, scope),
        command,
        display: kind::launch_display(&meta.app_type, &entry_path),
    }
}

fn assemble(
    meta: &AppMeta,
    name: &str,
    entry_path: &str,
    socket: &str,
    scope: &Option<Scope<'_>>,
    limits: Option<AppLimits>,
    isolated: bool,
    facts: &SpawnFacts,
) -> (r: Result<CommandLine, Response>)
    requires
        entry_path@ == path::under(meta.cwd@, meta.entry@),
    ensures
        match r {
            Ok(c) => launch_error(meta@, socket@, isolated, *facts) is None && c@ == launched(
                meta@,
                name@,
                socket@,
                *scope,
                limits,
                isolated,
                *facts,
            ),
            Err(e) => launch_error(meta@, socket@, isolated, *facts) == Some(e@),
        },
{
    let version = match &facts.node_version {
        Some(v) => Some(v.as_str()),
        None => None,
    };
    let bare = build_command(meta, entry_path, &facts.node_bin, version)?;
    let mut cmd = apply_sandbox(bare, isolated, &meta.cwd, socket, &facts.confinement)?;
    let ghost confined = cmd@;
    cmd.env("SELYNT_SOCKET", socket);
    cmd.env("SELYNT_HOST", socket);
    let env_file = match &facts.env_file {
        Some(e) => Some(e.as_str()),
        None => None,
    };
    let pairs = load_env_file(env_file);
    let ghost ps = pair_views(pairs@);
    let ghost given = Seq::new(ps.len(), |i: int| (ps[i].0, Some(ps[i].1)));
    let ghost fixed = confined.env + seq![
        ("SELYNT_SOCKET"@, Some(socket@)),
        ("SELYNT_HOST"@, Some(socket@)),
    ];
    assert(cmd@.env =~= fixed + given.take(0));
    let mut i: usize = 0;
    while i < pairs.len()
        invariant
            ps == pair_views(pairs@),
            given == Seq::new(ps.len(), |i: int| (ps[i].0, Some(ps[i].1))),
            i <= pairs@.len(),
            cmd@ == (command::CommandV { env: fixed + given.take(i as int), ..confined }),
        decreases pairs@.len() - i,
    {
        let ghost before = cmd@.env;
        cmd.env(&pairs[i].0, &pairs[i].1);
        assert(before.push(given[i as int]) =~= fixed + given.take(i + 1));
        i = i + 1;
    }
    assert(given.take(i as int) =~= given);
    assert(cmd@.env =~= confined.env + app_env(socket@, command::opt(facts.env_file)));
    let mut outer = cmd;
    if let Some(s) = scope {
        if facts.can_run_scopes {
            outer = wrap_in_scope(&outer, s.username, name, s.uid, s.gid, limits);
        }
    }
    outer.in_dir(&meta.cwd);
    Ok(outer)
}

/// The answer when an app's command cannot be run.
pub fn spawn_failed(display: &str, error: &str) -> (r: Response)
    ensures
        r@ == output::broken("spawn_failed"@, display@ + ": "@ + error@),
{
    let mut message = display.to_string();
    message.append(": ");
    message.append(error);
    output::system_error("spawn_failed", &message)
}

/// The answer when a log file cannot be opened.
pub fn log_open_failed(stderr: bool, error: &str) -> (r: Response)
    ensures
        r@ == output::broken(
            "log_open_failed"@,
            (if stderr {
                "stderr"@
            } else {
                "stdout"@
            }) + " log: "@ + error@,
        ),
{
    let mut message = if stderr {
        "stderr".to_string()
    } else {
        "stdout".to_string()
    };
    message.append(" log: ");
    message.append(error);
    output::system_error("log_open_failed", &message)
}

/// Launches an app while still root: where scopes can be run, how, and
/// otherwise `None`, which leaves it to be launched after the drop.
pub fn spawn_into_scope(
    meta: &AppMeta,
    name: &str,
    state_dir: &str,
    scope: Scope<'_>,
    limits: Option<AppLimits>,
    isolated: bool,
    facts: &SpawnFacts,
) -> (r: Option<(String, SpawnPlan)>)
    ensures
        r is Some <==> facts.can_run_scopes,
        r matches Some((socket, plan)) ==> {
            &&& socket@ == state::socket_path(state_dir@, meta.name@, meta.host@, isolated)
            &&& plan.out_log@ == logs::log_path(meta.cwd@, name@, false)
            &&& plan.err_log@ == logs::log_path(meta.cwd@, name@, true)
            &&& plan.socket_dir@ == socket_dir_made(
                socket@,
                facts.socket_dir_exists,
                Some(scope),
            )
            &&& match plan.command {
                Ok(c) => launch_error(meta@, socket@, isolated, *facts) is None && c@ == launched(
                    meta@,
                    name@,
                    socket@,
                    Some(scope),
                    limits,
                    isolated,
                    *facts,
                ),
                Err(e) => launch_error(meta@, socket@, isolated, *facts) == Some(e@),
            }
            &&& plan.display@ == kind::display(
                kind::runtime_of(meta.app_type@),
                path::under(meta.cwd@, meta.entry@),
            )
        },
{
    if !facts.can_run_scopes {
        return None;
    }
    let socket = state::socket_path_for(state_dir, meta, isolated);
    let account = Some(scope);
    let plan = spawn_app(meta, name, &socket, &account, limits, isolated, facts);
    Some((socket, plan))
}

/// Nothing that an app's `.env` says can put it outside its scope or its
/// sandbox: the program and the arguments of the launch do not depend on it.
pub proof fn law_environment_does_not_change_the_command(
    m: state::AppMetaV,
    name: Seq<char>,
    socket: Seq<char>,
    scope: Option<Scope<'_>>,
    limits: Option<AppLimits>,
    isolated: bool,
    f: SpawnFacts,
    g: SpawnFacts,
)
    requires
        f.node_bin@ == g.node_bin@,
        f.confinement == g.confinement,
        f.can_run_scopes == g.can_run_scopes,
    ensures
        ({
            let a = launched(m, name, socket, scope, limits, isolated, f);
            let b = launched(m, name, socket, scope, limits, isolated, g);
            a.program == b.program && a.args == b.args && a.current_dir == b.current_dir
        }),
{
}

// ---------------------------------------------------------------------------
// What is recorded
// ---------------------------------------------------------------------------

/// Recording the pid of an app.
pub open spec fn pid_recorded(pid_file: Seq<char>, pid: nat) -> Seq<effect::StepV> {
    seq![
        effect::needed(effect::ChangeV::Write(pid_file, text::decimal(pid) + "\n"@)),
        effect::needed(effect::ChangeV::SetMode(pid_file, 0o600)),
    ]
}

/// What the `.meta` of a running app says: whose process it is, when that began
/// by the kernel's clock and by the wall's, and where its socket is.
pub open spec fn run_lines(uid: nat, starttime: nat, started_at: nat, socket: Seq<char>) -> Seq<
    Seq<char>,
> {
    seq![
        appfile::pair_line("uid"@, text::decimal(uid)),
        appfile::pair_line("starttime"@, text::decimal(starttime)),
        appfile::pair_line("started_at"@, text::decimal(started_at)),
        appfile::pair_line("socket"@, socket),
    ]
}

/// Recording what runs under that pid.
pub open spec fn run_recorded(
    meta_file: Seq<char>,
    uid: nat,
    starttime: nat,
    started_at: nat,
    socket: Seq<char>,
) -> Seq<effect::StepV> {
    seq![
        effect::needed(
            effect::ChangeV::Write(
                meta_file,
                text::closed_lines(run_lines(uid, starttime, started_at, socket)),
            ),
        ),
        effect::needed(effect::ChangeV::SetMode(meta_file, 0o600)),
    ]
}

/// Records the pid of an app.
pub fn persist_pid(pid_file: &str, pid: u32) -> (r: Steps)
    ensures
        r@ == pid_recorded(pid_file@, pid as nat),
{
    let mut content = text::show_u32(pid);
    content.append("\n");
    let mut steps = Steps::new();
    steps.need(Change::Write(pid_file.to_string(), content));
    steps.need(Change::SetMode(pid_file.to_string(), 0o600));
    assert(steps@ =~= pid_recorded(pid_file@, pid as nat));
    steps
}

fn pair(key: &str, value: &str) -> (r: String)
    ensures
        r@ == appfile::pair_line(key@, value@),
{
    let mut line = key.to_string();
    line.append("=");
    line.append(value);
    line
}

/// Records what runs under that pid, once it has been given a moment to appear
/// in `/proc`; where this fails the pid file is to go again. A process that is
/// not there to be asked is recorded as begun at 0.
pub fn persist_state(
    meta_file: &str,
    uid: u32,
    starttime: Option<u64>,
    started_at: u64,
    socket: &str,
) -> (r: Steps)
    ensures
        r@ == run_recorded(
            meta_file@,
            uid as nat,
            match starttime {
                Some(t) => t as nat,
                None => 0,
            },
            started_at as nat,
            socket@,
        ),
{
    let began: u64 = match starttime {
        Some(t) => t,
        None => 0,
    };
    let mut ls: Vec<String> = Vec::new();
    ls.push(pair("uid", &text::show_u32(uid)));
    ls.push(pair("starttime", &text::show_u64(began)));
    ls.push(pair("started_at", &text::show_u64(started_at)));
    ls.push(pair("socket", socket));
    assert(text::views(ls@) =~= run_lines(uid as nat, began as nat, started_at as nat, socket@));
    let content = text::close_lines(&ls);
    let mut steps = Steps::new();
    steps.need(Change::Write(meta_file.to_string(), content));
    steps.need(Change::SetMode(meta_file.to_string(), 0o600));
    assert(steps@ =~= run_recorded(
        meta_file@,
        uid as nat,
        began as nat,
        started_at as nat,
        socket@,
    ));
    steps
}

/// What was recorded of a running app is what a later look reads: the moment
/// its process began, when it was started, and where its socket really is, but
/// for a carriage return at the end of that path.
pub proof fn law_recorded_run_is_read_back(
    uid: nat,
    starttime: nat,
    started_at: nat,
    socket: Seq<char>,
)
    requires
        uid <= u32::MAX,
        starttime <= u64::MAX,
        started_at <= u64::MAX,
        !socket.contains('\n'),
    ensures
        ({
            let m = kv::of_text(
                text::closed_lines(run_lines(uid, starttime, started_at, socket)),
            );
            &&& kv::number_of(m, "uid"@, u32::MAX as nat) == Some(uid)
            &&& kv::number_of(m, "starttime"@, u64::MAX as nat) == Some(starttime)
            &&& kv::number_of(m, "started_at"@, u64::MAX as nat) == Some(started_at)
            &&& kv::value_of(m, "socket"@) == Some(text::without_cr(socket))
        }),
{
    let ls = run_lines(uid, starttime, started_at, socket);
    reveal_strlit("uid");
    reveal_strlit("starttime");
    reveal_strlit("started_at");
    reveal_strlit("socket");
    text::lemma_decimal_number(uid, u32::MAX as nat);
    text::lemma_decimal_number(starttime, u64::MAX as nat);
    text::lemma_decimal_number(started_at, u64::MAX as nat);
    appfile::lemma_number_is_value(uid);
    appfile::lemma_number_is_value(starttime);
    appfile::lemma_number_is_value(started_at);
    appfile::lemma_pair_line("uid"@, text::decimal(uid));
    appfile::lemma_pair_line("starttime"@, text::decimal(starttime));
    appfile::lemma_pair_line("started_at"@, text::decimal(started_at));
    appfile::lemma_pair_line("socket"@, socket);
    assert forall|i: int| 0 <= i < ls.len() implies !(#[trigger] ls[i]).contains('\n') by {}
    text::lemma_closed_lines_are_bare(ls);
    appfile::lemma_bare_lines(ls);
    let m1 = Map::<Seq<char>, Seq<char>>::empty().insert("uid"@, text::decimal(uid));
    let m2 = m1.insert("starttime"@, text::decimal(starttime));
    let m3 = m2.insert("started_at"@, text::decimal(started_at));
    let m4 = m3.insert("socket"@, socket);
    let l3 = ls.drop_last();
    let l2 = l3.drop_last();
    let l1 = l2.drop_last();
    assert(l1.drop_last() =~= Seq::<Seq<char>>::empty());
    assert(kv::of_lines(l1.drop_last()) == Map::<Seq<char>, Seq<char>>::empty());
    assert(l1.last() == ls[0]);
    assert(kv::of_lines(l1) == m1);
    assert(kv::of_lines(l2) == m2);
    assert(kv::of_lines(l3) == m3);
    assert(kv::of_lines(ls) == m4);
    assert("uid"@.len() == 3 && "starttime"@.len() == 9 && "started_at"@.len() == 10
        && "socket"@.len() == 6);
}

// ---------------------------------------------------------------------------
// Waiting
// ---------------------------------------------------------------------------

/// The processes whose ports count as an app's: all of its cgroup, since a
/// child can bind anything, and where there is none its own process.
pub open spec fn processes_of(scope: Seq<u32>, pid: u32) -> Seq<u32> {
    if scope.len() == 0 {
        seq![pid]
    } else {
        scope
    }
}

/// The processes whose ports count as an app's.
pub fn pids_of_app(scope: Vec<u32>, pid: u32) -> (r: Vec<u32>)
    ensures
        r@ == processes_of(scope@, pid),
{
    if scope.len() == 0 {
        let mut own: Vec<u32> = Vec::new();
        own.push(pid);
        own
    } else {
        scope
    }
}

/// What is done to the process of an app that failed to start.
#[derive(Debug, Clone, Copy, PartialEq, Eq, Structural)]
pub enum Ending {
    /// It is gone already.
    Nothing,
    /// Killed outright.
    Kill,
    /// Asked to end, and killed after the grace period.
    TermThenKill,
}

/// An app that failed to start: what is done to its process, the files to
/// remove, and the answer.
pub struct StartFailure {
    pub ending: Ending,
    pub cleanup: Vec<String>,
    pub response: Response,
}

pub struct StartFailureV {
    pub ending: Ending,
    pub cleanup: Seq<Seq<char>>,
    pub response: output::ResponseV,
}

impl View for StartFailure {
    type V = StartFailureV;

    open spec fn view(&self) -> StartFailureV {
        StartFailureV {
            ending: self.ending,
            cleanup: text::views(self.cleanup@),
            response: self.response@,
        }
    }
}

/// The files of an app that is being waited for.
pub struct WaitContext<'a> {
    pub socket: &'a str,
    pub pid_file: &'a str,
    pub meta_file: &'a str,
}

/// The files of a failed start that have to go.
pub open spec fn failed_files(ctx: WaitContext<'_>, with_socket: bool) -> Seq<Seq<char>> {
    if with_socket {
        seq![ctx.pid_file@, ctx.meta_file@, ctx.socket@]
    } else {
        seq![ctx.pid_file@, ctx.meta_file@]
    }
}

/// The files of a failed start that have to go.
pub fn cleanup_failed(ctx: &WaitContext<'_>, with_socket: bool) -> (r: Vec<String>)
    ensures
        text::views(r@) == failed_files(*ctx, with_socket),
{
    let mut out: Vec<String> = Vec::new();
    out.push(ctx.pid_file.to_string());
    out.push(ctx.meta_file.to_string());
    if with_socket {
        out.push(ctx.socket.to_string());
    }
    assert(text::views(out@) =~= failed_files(*ctx, with_socket));
    out
}

/// The failure of an app that opened a port.
pub open spec fn port_failure(ctx: WaitContext<'_>, with_socket: bool) -> StartFailureV {
    StartFailureV {
        ending: Ending::TermThenKill,
        cleanup: failed_files(ctx, with_socket),
        response: output::refused("network_port_forbidden"@, NETWORK_PORT_FORBIDDEN_MSG@),
    }
}

/// A failure that is not the account's doing.
pub open spec fn broken_start(
    ctx: WaitContext<'_>,
    ending: Ending,
    with_socket: bool,
    code: Seq<char>,
    message: Seq<char>,
) -> StartFailureV {
    StartFailureV {
        ending,
        cleanup: failed_files(ctx, with_socket),
        response: output::broken(code, message),
    }
}

fn break_start(
    ctx: &WaitContext<'_>,
    ending: Ending,
    with_socket: bool,
    code: &str,
    message: &str,
) -> (r: StartFailure)
    ensures
        r@ == broken_start(*ctx, ending, with_socket, code@, message@),
{
    StartFailure {
        ending,
        cleanup: cleanup_failed(ctx, with_socket),
        response: output::system_error(code, message),
    }
}

fn refuse_port(ctx: &WaitContext<'_>, with_socket: bool) -> (r: StartFailure)
    ensures
        r@ == port_failure(*ctx, with_socket),
{
    StartFailure {
        ending: Ending::TermThenKill,
        cleanup: cleanup_failed(ctx, with_socket),
        response: output::user_error("network_port_forbidden", NETWORK_PORT_FORBIDDEN_MSG),
    }
}

/// Fails the start of an app that bound a reachable port. Checked once more
/// when the socket is up: an app can open a port at any point while it starts.
pub fn refuse_external_port(ctx: &WaitContext<'_>, external_port: bool) -> (r: Option<StartFailure>)
    ensures
        match r {
            Some(f) => external_port && f@ == port_failure(*ctx, true),
            None => !external_port,
        },
{
    if external_port {
        Some(refuse_port(ctx, true))
    } else {
        None
    }
}

/// How an app that is being waited for has failed, if it has.
pub open spec fn failure_mode(
    ctx: WaitContext<'_>,
    external_port: bool,
    alive: bool,
    with_socket: bool,
) -> Option<StartFailureV> {
    if external_port {
        Some(port_failure(ctx, with_socket))
    } else if !alive {
        Some(
            broken_start(
                ctx,
                Ending::Nothing,
                with_socket,
                "process_exited"@,
                "process exited before reaching the expected state"@,
            ),
        )
    } else {
        None
    }
}

/// How an app that is being waited for has failed, if it has: it opened a port,
/// or its process is gone.
pub fn check_failure_modes(
    ctx: &WaitContext<'_>,
    external_port: bool,
    alive: bool,
    with_socket: bool,
) -> (r: Option<StartFailure>)
    ensures
        match r {
            Some(f) => failure_mode(*ctx, external_port, alive, with_socket) == Some(f@),
            None => failure_mode(*ctx, external_port, alive, with_socket) is None,
        },
{
    if external_port {
        return Some(refuse_port(ctx, with_socket));
    }
    if !alive {
        return Some(
            break_start(
                ctx,
                Ending::Nothing,
                with_socket,
                "process_exited",
                "process exited before reaching the expected state",
            ),
        );
    }
    None
}

/// Whether a process did anything between two snapshots. A snapshot that could
/// not be taken proves nothing against it.
pub open spec fn progressed(prev: Option<ProcessSnapshot>, now: Option<ProcessSnapshot>) -> bool {
    match (prev, now) {
        (Some(p), Some(c)) => c.cpu_ticks > p.cpu_ticks || c.rss_kb > p.rss_kb,
        _ => true,
    }
}

/// How many snapshots in a row have shown no progress.
pub fn next_stuck_count(
    current_stuck: u32,
    prev: Option<ProcessSnapshot>,
    current: Option<ProcessSnapshot>,
) -> (r: u32)
    requires
        current_stuck < u32::MAX,
    ensures
        r == (if progressed(prev, current) {
            0
        } else {
            current_stuck + 1
        }),
{
    let made_progress = match (prev, current) {
        (Some(p), Some(c)) => c.cpu_ticks > p.cpu_ticks || c.rss_kb > p.rss_kb,
        _ => true,
    };
    if made_progress {
        0
    } else {
        current_stuck + 1
    }
}

/// What is remembered between two looks: the last snapshot, and how many in a
/// row have shown no progress.
#[derive(Debug, Clone, Copy)]
pub struct Watch {
    pub last: Option<ProcessSnapshot>,
    pub stuck: u32,
}

impl Watch {
    /// A watch that has not given up.
    pub open spec fn going(self) -> bool {
        self.stuck < STUCK_THRESHOLD
    }

    pub fn begin(snapshot: Option<ProcessSnapshot>) -> (r: Watch)
        ensures
            r == (Watch { last: snapshot, stuck: 0 }),
            r.going(),
    {
        Watch { last: snapshot, stuck: 0 }
    }
}

/// The watch after a look, with a snapshot where one was due.
pub open spec fn watched(w: Watch, snapshot: Option<Option<ProcessSnapshot>>) -> Watch {
    match snapshot {
        Some(now) => Watch {
            last: now,
            stuck: if progressed(w.last, now) {
                0
            } else {
                (w.stuck + 1) as u32
            },
        },
        None => w,
    }
}

fn watch(w: Watch, snapshot: Option<Option<ProcessSnapshot>>) -> (r: Watch)
    requires
        w.going(),
    ensures
        r == watched(w, snapshot),
{
    match snapshot {
        Some(now) => Watch { last: now, stuck: next_stuck_count(w.stuck, w.last, now) },
        None => w,
    }
}

/// A look at an app that is being waited for: whether what is waited for is
/// there, whether the deadline has passed, whether it bound a reachable port,
/// whether its process lives, and a snapshot where one was due.
#[derive(Debug, Clone, Copy)]
pub struct Look {
    pub there: bool,
    pub too_late: bool,
    pub external_port: bool,
    pub alive: bool,
    pub snapshot: Option<Option<ProcessSnapshot>>,
}

/// What comes of a look.
pub enum WaitStep {
    Ready,
    Failed(StartFailure),
    Again(Watch),
}

pub enum WaitStepV {
    Ready,
    Failed(StartFailureV),
    Again(Watch),
}

impl View for WaitStep {
    type V = WaitStepV;

    open spec fn view(&self) -> WaitStepV {
        match self {
            WaitStep::Ready => WaitStepV::Ready,
            WaitStep::Failed(f) => WaitStepV::Failed(f@),
            WaitStep::Again(w) => WaitStepV::Again(*w),
        }
    }
}

/// The end of a look, when nothing decided it before: on with the watch, unless
/// the process is stuck.
pub open spec fn watch_on(
    ctx: WaitContext<'_>,
    w: Watch,
    look: Look,
    with_socket: bool,
    stuck_message: Seq<char>,
) -> WaitStepV {
    match failure_mode(ctx, look.external_port, look.alive, with_socket) {
        Some(f) => WaitStepV::Failed(f),
        None => if watched(w, look.snapshot).going() {
            WaitStepV::Again(watched(w, look.snapshot))
        } else {
            WaitStepV::Failed(
                broken_start(ctx, Ending::Kill, with_socket, "socket_stuck"@, stuck_message),
            )
        },
    }
}

fn keep_watching(
    ctx: &WaitContext<'_>,
    w: Watch,
    look: Look,
    with_socket: bool,
    stuck_message: &str,
) -> (r: WaitStep)
    requires
        w.going(),
    ensures
        r@ == watch_on(*ctx, w, look, with_socket, stuck_message@),
{
    if let Some(f) = check_failure_modes(ctx, look.external_port, look.alive, with_socket) {
        return WaitStep::Failed(f);
    }
    let next = watch(w, look.snapshot);
    if next.stuck >= STUCK_THRESHOLD {
        return WaitStep::Failed(
            break_start(ctx, Ending::Kill, with_socket, "socket_stuck", stuck_message),
        );
    }
    WaitStep::Again(next)
}

/// What comes of a look for the socket of an app.
pub open spec fn file_step(ctx: WaitContext<'_>, w: Watch, look: Look) -> WaitStepV {
    if look.there {
        WaitStepV::Ready
    } else if look.too_late {
        WaitStepV::Failed(
            broken_start(
                ctx,
                Ending::Kill,
                false,
                "socket_timeout"@,
                "process did not create the Unix socket within 120s"@,
            ),
        )
    } else {
        watch_on(
            ctx,
            w,
            look,
            false,
            "process stopped making progress before creating the Unix socket"@,
        )
    }
}

/// One look for the socket of an app that was launched: `look.there` says
/// whether the file exists.
pub fn wait_for_socket_file(ctx: &WaitContext<'_>, w: Watch, look: Look) -> (r: WaitStep)
    requires
        w.going(),
    ensures
        r@ == file_step(*ctx, w, look),
{
    if look.there {
        return WaitStep::Ready;
    }
    if look.too_late {
        return WaitStep::Failed(
            break_start(
                ctx,
                Ending::Kill,
                false,
                "socket_timeout",
                "process did not create the Unix socket within 120s",
            ),
        );
    }
    keep_watching(
        ctx,
        w,
        look,
        false,
        "process stopped making progress before creating the Unix socket",
    )
}

/// What comes of an attempt to connect to the socket of an app.
pub open spec fn accept_step(ctx: WaitContext<'_>, w: Watch, look: Look) -> WaitStepV {
    if look.too_late {
        WaitStepV::Failed(
            broken_start(
                ctx,
                Ending::Kill,
                true,
                "socket_not_accepting"@,
                "Unix socket exists but is not accepting connections"@,
            ),
        )
    } else if look.there {
        WaitStepV::Ready
    } else {
        watch_on(
            ctx,
            w,
            look,
            true,
            "process stopped making progress before accepting connections on the socket"@,
        )
    }
}

/// One attempt to connect to the socket of an app: `look.there` says whether it
/// accepted.
pub fn wait_for_socket_accept(ctx: &WaitContext<'_>, w: Watch, look: Look) -> (r: WaitStep)
    requires
        w.going(),
    ensures
        r@ == accept_step(*ctx, w, look),
{
    if look.too_late {
        return WaitStep::Failed(
            break_start(
                ctx,
                Ending::Kill,
                true,
                "socket_not_accepting",
                "Unix socket exists but is not accepting connections",
            ),
        );
    }
    if look.there {
        return WaitStep::Ready;
    }
    keep_watching(
        ctx,
        w,
        look,
        true,
        "process stopped making progress before accepting connections on the socket",
    )
}

/// A wait that goes on is one that has not given up, so that the next look can
/// be taken.
pub proof fn law_waiting_goes_on(ctx: WaitContext<'_>, w: Watch, look: Look)
    ensures
        file_step(ctx, w, look) matches WaitStepV::Again(next) ==> next.going(),
        accept_step(ctx, w, look) matches WaitStepV::Again(next) ==> next.going(),
{
}

/// How many snapshots in a row have shown no progress, over all that were
/// taken.
pub open spec fn stuck_after(snaps: Seq<Option<ProcessSnapshot>>) -> nat
    decreases snaps.len(),
{
    if snaps.len() < 2 {
        0
    } else if progressed(snaps[snaps.len() - 2], snaps[snaps.len() - 1]) {
        0
    } else {
        stuck_after(snaps.drop_last()) + 1
    }
}

/// The watch after all of these snapshots.
pub open spec fn watch_over(snaps: Seq<Option<ProcessSnapshot>>) -> Watch
    decreases snaps.len(),
{
    if snaps.len() <= 1 {
        Watch { last: snaps[0], stuck: 0 }
    } else {
        watched(watch_over(snaps.drop_last()), Some(snaps.last()))
    }
}

/// A process is declared stuck only after that many snapshots in a row without
/// any progress at all: work done at any point since starts the count over.
pub proof fn law_stuck_means_no_progress(snaps: Seq<Option<ProcessSnapshot>>, k: int)
    requires
        1 <= snaps.len() <= u32::MAX,
        0 <= k < watch_over(snaps).stuck,
    ensures
        k + 2 <= snaps.len(),
        !progressed(snaps[snaps.len() - 2 - k], snaps[snaps.len() - 1 - k]),
    decreases snaps.len(),
{
    lemma_watch_over(snaps);
    if k > 0 {
        lemma_watch_over(snaps.drop_last());
        law_stuck_means_no_progress(snaps.drop_last(), k - 1);
        let rest = snaps.drop_last();
        assert(rest[rest.len() - 2 - (k - 1)] == snaps[snaps.len() - 2 - k]);
        assert(rest[rest.len() - 1 - (k - 1)] == snaps[snaps.len() - 1 - k]);
    }
}

proof fn lemma_watch_over(snaps: Seq<Option<ProcessSnapshot>>)
    requires
        1 <= snaps.len() <= u32::MAX,
    ensures
        watch_over(snaps).last == snaps.last(),
        watch_over(snaps).stuck as nat == stuck_after(snaps),
        stuck_after(snaps) < snaps.len(),
    decreases snaps.len(),
{
    if snaps.len() > 1 {
        lemma_watch_over(snaps.drop_last());
        assert(snaps.drop_last().last() == snaps[snaps.len() - 2]);
    }
}

// ---------------------------------------------------------------------------
// Starting
// ---------------------------------------------------------------------------

/// Making an app reachable: the proxy marker, which has to be there, and behind
/// the access of the web server the flag that boot recovery reads.
pub struct Publication {
    pub marker: Steps,
    pub enabled: Steps,
}

/// Writing an empty file with a mode.
pub open spec fn flag_steps(file: Seq<char>, mode: u32, required: bool) -> Seq<effect::StepV> {
    let write = effect::ChangeV::Write(file, Seq::empty());
    let set = effect::ChangeV::SetMode(file, mode as int);
    if required {
        seq![effect::needed(write), effect::needed(set)]
    } else {
        seq![effect::tried(write), effect::tried(set)]
    }
}

/// Makes the app reachable: the proxy marker and the `.enabled` flag that boot
/// recovery reads. That flag is removed by `stop` and `remove`.
pub fn publish_route(state_dir: &str, name: &str, marker: &str) -> (r: Publication)
    ensures
        r.marker@ == flag_steps(marker@, 0o644, true),
        r.enabled@ == flag_steps(
            state::run_file(state_dir@, name@, ".enabled"@),
            0o600,
            false,
        ),
{
    let mut published = Steps::new();
    let empty = String::new();
    assert(empty@ =~= Seq::<char>::empty());
    published.need(Change::Write(marker.to_string(), empty));
    published.need(Change::SetMode(marker.to_string(), 0o644));
    assert(published@ =~= flag_steps(marker@, 0o644, true));
    let flag = state::run_file_path(state_dir, name, ".enabled");
    let mut enabled = Steps::new();
    let nothing = String::new();
    assert(nothing@ =~= Seq::<char>::empty());
    enabled.try_to(Change::Write(flag.clone(), nothing));
    enabled.try_to(Change::SetMode(flag, 0o600));
    assert(enabled@ =~= flag_steps(state::run_file(state_dir@, name@, ".enabled"@), 0o600, false));
    Publication { marker: published, enabled }
}

/// The answer of a start: the pid.
pub open spec fn started(pid: Option<u32>, debug: Option<JsonV>) -> output::ResponseV {
    output::accepted(output::debugged(seq![("pid"@, commands::pid_view(pid))], debug))
}

/// The answer of a start that succeeded.
pub fn start_answer(pid: Option<u32>, debug: Option<Json>) -> (r: Response)
    ensures
        r@ == started(pid, output::debug_view(debug)),
{
    let mut m = Members::new();
    m.put("pid", commands::pid_json(pid));
    assert(m@ =~= seq![("pid"@, commands::pid_view(pid))]);
    output::success(output::with_debug(m, debug))
}

/// Where the pieces of an app that is to be started go. The socket and the
/// marker of an earlier run are removed first.
pub struct StartPlan {
    pub socket: String,
    pub marker: String,
    pub pid_file: String,
    pub meta_file: String,
    pub clear: Steps,
}

/// The answer when there is nothing to start.
pub open spec fn start_refusal(
    name: Seq<char>,
    meta: Option<state::AppMetaV>,
    s: AppStatus,
    debug: Option<JsonV>,
) -> Option<output::ResponseV> {
    match meta {
        None => Some(usage::no_such_app(name)),
        Some(m) => if !validate::is_safe_component(m.entry) {
            Some(
                output::refused(
                    "invalid_entry"@,
                    "entry contains path traversal — re-create the app"@,
                ),
            )
        } else if !validate::is_safe_component(m.host) {
            Some(
                output::refused(
                    "invalid_host"@,
                    "host contains path traversal — re-create the app"@,
                ),
            )
        } else if s.is_up() {
            Some(started(s.pid, debug))
        } else {
            None
        },
    }
}

/// Starts an app: the answer where it cannot or need not be started, and
/// otherwise where its pieces go. It is then launched, unless that happened
/// while still root, and takes the course of [`crate::app::course`].
pub fn cmd_start(
    state_dir: &str,
    name: &str,
    meta: Option<&AppMeta>,
    s: AppStatus,
    isolated: bool,
    debug: Option<Json>,
) -> (r: Result<StartPlan, Response>)
    ensures
        ({
            let m = match meta {
                Some(m) => Some(m@),
                None => None,
            };
            let refusal = start_refusal(name@, m, s, output::debug_view(debug));
            match r {
                Err(e) => refusal == Some(e@),
                Ok(p) => {
                    &&& refusal is None
                    &&& p.socket@ == state::socket_path(
                        state_dir@,
                        meta->0.name@,
                        meta->0.host@,
                        isolated,
                    )
                    &&& p.marker@ == state::marker_path(state_dir@, meta->0.host@)
                    &&& p.pid_file@ == state::run_file(state_dir@, name@, ".pid"@)
                    &&& p.meta_file@ == state::run_file(state_dir@, name@, ".meta"@)
                    &&& p.clear@ == effect::removals(seq![p.socket@, p.marker@])
                },
            }
        }),
{
    let m = match meta {
        Some(m) => m,
        None => {
            return Err(usage::app_not_found(name));
        },
    };
    if !validate::validate_safe_component(&m.entry) {
        return Err(
            output::user_error(
                "invalid_entry",
                "entry contains path traversal — re-create the app",
            ),
        );
    }
    if !validate::validate_safe_component(&m.host) {
        return Err(
            output::user_error(
                "invalid_host",
                "host contains path traversal — re-create the app",
            ),
        );
    }
    if s.running() {
        return Err(start_answer(s.pid, debug));
    }
    let socket = state::socket_path_for(state_dir, m, isolated);
    let marker = state::marker_file(state_dir, &m.host);
    let mut clear = Steps::new();
    clear.try_remove(socket.clone());
    clear.try_remove(marker.clone());
    assert(clear@ =~= effect::removals(seq![socket@, marker@]));
    Ok(
        StartPlan {
            socket,
            marker,
            pid_file: state::run_file_path(state_dir, name, ".pid"),
            meta_file: state::run_file_path(state_dir, name, ".meta"),
            clear,
        },
    )
}

/// An app is started only when its entry and its host stay inside their
/// directories, and when it does not run already.
pub proof fn law_started_apps_stay_inside(
    name: Seq<char>,
    meta: state::AppMetaV,
    s: AppStatus,
    debug: Option<JsonV>,
)
    requires
        start_refusal(name, Some(meta), s, debug) is None,
    ensures
        validate::is_safe_component(meta.entry),
        validate::is_safe_component(meta.host),
        !s.is_up(),
{
}

// ---------------------------------------------------------------------------
// What an app is launched with
// ---------------------------------------------------------------------------

proof fn lemma_env_join(a: Seq<Seq<char>>, b: Seq<Seq<char>>)
    ensures
        env_pairs(a + b) == env_pairs(a) + env_pairs(b),
    decreases b.len(),
{
    if b.len() == 0 {
        assert(a + b =~= a);
        assert(env_pairs(a) + env_pairs(b) =~= env_pairs(a));
    } else {
        assert((a + b).drop_last() =~= a + b.drop_last());
        lemma_env_join(a, b.drop_last());
        assert(env_pairs(a + b) =~= env_pairs(a) + env_pairs(b));
    }
}

/// A line of the `.env` sets the variable before its first `=` to all that stands
/// behind it, which may hold more of them. It sets nothing else, and leaves what
/// the lines above and below it set.
pub proof fn law_env_line_sets_its_variable(
    above: Seq<char>,
    k: Seq<char>,
    v: Seq<char>,
    below: Seq<char>,
)
    requires
        above.len() > 0 ==> above.last() == '\n',
        !k.contains('=') && !k.contains('\n'),
        !v.contains('\n'),
        v.len() > 0 ==> v.last() != '\r',
    ensures
        env_of(Some(above + k.push('=') + v.push('\n') + below)) == env_of(Some(above)).push(
            (k, v),
        ) + env_of(Some(below)),
        env_of(Some(above + k.push('=') + v)) == env_of(Some(above)).push((k, v)),
{
    let line = k.push('=') + v;
    let all = above + k.push('=') + v.push('\n') + below;
    assert(all =~= above + (line.push('\n') + below));
    assert forall|i: int| 0 <= i < line.len() implies line[i] != '\n' by {
        if i < k.len() {
            assert(line[i] == k[i]);
            assert(k.contains(k[i]));
        } else if i > k.len() {
            assert(line[i] == v[i - k.len() - 1]);
            assert(v.contains(v[i - k.len() - 1]));
        }
    }
    assert(line.last() == (if v.len() > 0 { v.last() } else { '=' }));
    text::law_lines_of_parts(above, line.push('\n') + below);
    text::law_line_ends_at_its_feed(line, below);
    text::law_cut_is_at_the_first(k, '=', v);
    let one = seq![line];
    assert(one.drop_last() =~= Seq::<Seq<char>>::empty());
    assert(env_pairs(Seq::<Seq<char>>::empty()) =~= Seq::<(Seq<char>, Seq<char>)>::empty());
    assert(one.last() == line);
    assert(env_pairs(one) =~= seq![(k, v)]);
    lemma_env_join(one, text::lines(below));
    lemma_env_join(text::lines(above), one + text::lines(below));
    assert(env_of(Some(all)) =~= env_of(Some(above)).push((k, v)) + env_of(Some(below)));
    assert(above + k.push('=') + v =~= above + line);
    text::law_lines_of_parts(above, line);
    text::law_last_line_needs_no_feed(line);
    lemma_env_join(text::lines(above), one);
    assert(env_of(Some(above + line)) =~= env_of(Some(above)).push((k, v)));
}

/// A line of the `.env` without a `=` sets nothing, and neither does a `.env` that
/// is empty or not there.
pub proof fn law_other_env_lines_set_nothing(above: Seq<char>, line: Seq<char>, below: Seq<char>)
    requires
        above.len() > 0 ==> above.last() == '\n',
        !line.contains('='),
        !line.contains('\n'),
    ensures
        env_of(Some(above + line.push('\n') + below)) == env_of(Some(above)) + env_of(Some(below)),
        env_of(Some(Seq::empty())).len() == 0,
        env_of(None).len() == 0,
{
    assert(above + line.push('\n') + below =~= above + (line.push('\n') + below));
    text::law_lines_of_parts(above, line.push('\n') + below);
    text::law_line_ends_at_its_feed(line, below);
    text::law_last_line_needs_no_feed(Seq::empty());
    let l = if line.len() > 0 && line.last() == '\r' {
        line.drop_last()
    } else {
        line
    };
    assert forall|i: int| 0 <= i < l.len() implies l[i] != '=' by {
        assert(line.contains(line[i]));
    }
    text::law_cut_is_at_the_first(l, '=', Seq::empty());
    let one = seq![l];
    assert(one.drop_last() =~= Seq::<Seq<char>>::empty());
    assert(one.last() == l);
    lemma_env_join(one, text::lines(below));
    lemma_env_join(text::lines(above), one + text::lines(below));
    assert(env_pairs(Seq::<Seq<char>>::empty()) =~= Seq::<(Seq<char>, Seq<char>)>::empty());
    assert(env_pairs(one) =~= Seq::<(Seq<char>, Seq<char>)>::empty());
    assert(env_of(Some(above + line.push('\n') + below)) =~= env_of(Some(above)) + env_of(
        Some(below),
    ));
}

/// No name that a `.env` sets holds a `=`.
pub proof fn law_env_names_hold_no_equals_sign(content: Seq<char>, i: int)
    requires
        0 <= i < env_of(Some(content)).len(),
    ensures
        !env_of(Some(content))[i].0.contains('='),
{
    lemma_env_names(text::lines(content), i);
}

proof fn lemma_env_names(ls: Seq<Seq<char>>, i: int)
    requires
        0 <= i < env_pairs(ls).len(),
    ensures
        !env_pairs(ls)[i].0.contains('='),
    decreases ls.len(),
{
    let front = ls.drop_last();
    if i < env_pairs(front).len() {
        lemma_env_names(front, i);
    } else {
        let l = ls.last();
        text::lemma_first_at(l, '=');
        let k = l.take(text::first_at(l, '='));
        assert(env_pairs(ls)[i].0 == k);
        assert forall|j: int| 0 <= j < k.len() implies k[j] != '=' by {
            assert(k[j] == l[j]);
        }
    }
}

/// The value that a command sets a variable to: a later entry overrides an earlier
/// one.
pub open spec fn setting(env: Seq<(Seq<char>, Option<Seq<char>>)>, k: Seq<char>) -> Option<Seq<char>>
    decreases env.len(),
{
    if env.len() == 0 {
        None
    } else if env.last().0 == k {
        env.last().1
    } else {
        setting(env.drop_last(), k)
    }
}

proof fn lemma_setting_join(
    a: Seq<(Seq<char>, Option<Seq<char>>)>,
    b: Seq<(Seq<char>, Option<Seq<char>>)>,
    k: Seq<char>,
)
    ensures
        (exists|i: int| 0 <= i < b.len() && (#[trigger] b[i]).0 == k) ==> setting(a + b, k)
            == setting(b, k),
        (forall|i: int| 0 <= i < b.len() ==> (#[trigger] b[i]).0 != k) ==> setting(a + b, k)
            == setting(a, k),
    decreases b.len(),
{
    if b.len() == 0 {
        assert(a + b =~= a);
    } else {
        let front = b.drop_last();
        assert((a + b).drop_last() =~= a + front);
        assert((a + b).last() == b.last());
        lemma_setting_join(a, front, k);
        if b.last().0 != k {
            if exists|i: int| 0 <= i < b.len() && (#[trigger] b[i]).0 == k {
                let i = choose|i: int| 0 <= i < b.len() && (#[trigger] b[i]).0 == k;
                assert(front[i].0 == k);
            }
            if forall|i: int| 0 <= i < b.len() ==> (#[trigger] b[i]).0 != k {
                assert forall|i: int| 0 <= i < front.len() implies (#[trigger] front[i]).0 != k by {
                    assert(front[i] == b[i]);
                }
            }
        } else {
            assert(b[b.len() - 1].0 == k);
        }
    }
}

/// An app is launched with what its `.env` sets: a variable that a line of it sets,
/// and no line below it, has exactly the value of that line, in a scope or a
/// sandbox as without.
pub proof fn law_launched_apps_have_their_environment(
    m: state::AppMetaV,
    name: Seq<char>,
    socket: Seq<char>,
    scope: Option<Scope<'_>>,
    limits: Option<AppLimits>,
    isolated: bool,
    f: SpawnFacts,
    above: Seq<char>,
    k: Seq<char>,
    v: Seq<char>,
    below: Seq<char>,
)
    requires
        f.env_file matches Some(e) && e@ == above + k.push('=') + v.push('\n') + below,
        above.len() > 0 ==> above.last() == '\n',
        !k.contains('=') && !k.contains('\n'),
        !v.contains('\n'),
        v.len() > 0 ==> v.last() != '\r',
        forall|i: int|
            0 <= i < env_of(Some(below)).len() ==> (#[trigger] env_of(Some(below))[i]).0 != k,
    ensures
        setting(launched(m, name, socket, scope, limits, isolated, f).env, k) == Some(v),
{
    law_env_line_sets_its_variable(above, k, v, below);
    let pairs = env_of(command::opt(f.env_file));
    let given = Seq::new(pairs.len(), |i: int| (pairs[i].0, Some(pairs[i].1)));
    let n = env_of(Some(above)).len();
    let all = launched(m, name, socket, scope, limits, isolated, f).env;
    let tail = given.skip(n as int);
    assert(given =~= given.take(n as int) + tail);
    assert(tail[0] == (k, Some(v))) by {
        assert(pairs[n as int] == (k, v));
    }
    let rest = tail.skip(1);
    assert(tail =~= seq![(k, Some(v))] + rest);
    assert forall|i: int| 0 <= i < rest.len() implies (#[trigger] rest[i]).0 != k by {
        assert(rest[i].0 == env_of(Some(below))[i].0);
    }
    lemma_setting_join(seq![(k, Some(v))], rest, k);
    assert(seq![(k, Some(v))].last() == (k, Some(v)));
    assert(setting(tail, k) == Some(v));
    let front = all.take(all.len() - tail.len());
    assert(all =~= front + tail);
    assert(tail[0].0 == k);
    lemma_setting_join(front, tail, k);
}

/// An app is told where its socket goes, under both names, unless its own `.env`
/// says otherwise.
pub proof fn law_launched_apps_know_their_socket(
    m: state::AppMetaV,
    name: Seq<char>,
    socket: Seq<char>,
    scope: Option<Scope<'_>>,
    limits: Option<AppLimits>,
    isolated: bool,
    f: SpawnFacts,
    k: Seq<char>,
)
    requires
        k == "SELYNT_SOCKET"@ || k == "SELYNT_HOST"@,
        forall|i: int|
            0 <= i < env_of(command::opt(f.env_file)).len() ==> (#[trigger] env_of(
                command::opt(f.env_file),
            )[i]).0 != k,
    ensures
        setting(launched(m, name, socket, scope, limits, isolated, f).env, k) == Some(socket),
        launched(m, name, socket, scope, limits, isolated, f).current_dir == Some(m.cwd),
{
    let pairs = env_of(command::opt(f.env_file));
    let given = Seq::new(pairs.len(), |i: int| (pairs[i].0, Some(pairs[i].1)));
    let all = launched(m, name, socket, scope, limits, isolated, f).env;
    let own = seq![("SELYNT_SOCKET"@, Some(socket)), ("SELYNT_HOST"@, Some(socket))];
    let front = all.take(all.len() - given.len() - 2);
    assert(all =~= front + (own + given));
    assert(all =~= (front + own) + given);
    assert forall|i: int| 0 <= i < given.len() implies (#[trigger] given[i]).0 != k by {
        assert(given[i].0 == pairs[i].0);
    }
    lemma_setting_join(front + own, given, k);
    assert(own[0].0 == "SELYNT_SOCKET"@ && own[1].0 == "SELYNT_HOST"@);
    lemma_setting_join(front, own, k);
    let first = own.drop_last();
    assert(first.last() == own[0]);
    assert(own.last() == own[1]);
    assert(setting(first, "SELYNT_SOCKET"@) == Some(socket));
    assert(setting(own, k) == Some(socket));
}

/// While the socket is waited for, the first of these that holds decides: it is
/// there; the time is up; a port is open; the process is gone; it has done nothing
/// for four snapshots in a row. Otherwise the wait goes on.
pub proof fn law_waiting_for_the_socket(ctx: WaitContext<'_>, w: Watch, look: Look)
    ensures
        look.there ==> file_step(ctx, w, look) == WaitStepV::Ready,
        !look.there && look.too_late ==> (file_step(ctx, w, look) matches WaitStepV::Failed(f)
            && f.ending == Ending::Kill && f.cleanup == seq![ctx.pid_file@, ctx.meta_file@]
            && f.response == output::broken(
            "socket_timeout"@,
            "process did not create the Unix socket within 120s"@,
        )),
        !look.there && !look.too_late && look.external_port ==> (file_step(ctx, w, look)
            matches WaitStepV::Failed(f) && f.ending == Ending::TermThenKill && f.cleanup
            == seq![ctx.pid_file@, ctx.meta_file@] && f.response == output::refused(
            "network_port_forbidden"@,
            NETWORK_PORT_FORBIDDEN_MSG@,
        )),
        !look.there && !look.too_late && !look.external_port && !look.alive ==> (file_step(
            ctx,
            w,
            look,
        ) matches WaitStepV::Failed(f) && f.ending == Ending::Nothing && f.cleanup == seq![
            ctx.pid_file@,
            ctx.meta_file@,
        ] && f.response == output::broken(
            "process_exited"@,
            "process exited before reaching the expected state"@,
        )),
        !look.there && !look.too_late && !look.external_port && look.alive && look.snapshot is None
            && w.stuck < 4 ==> file_step(ctx, w, look) == WaitStepV::Again(w),
{
}

/// While a connection is waited for, the first of these that holds decides: the
/// time is up; it was accepted; a port is open; the process is gone; it has done
/// nothing for four snapshots in a row. The socket goes too then.
pub proof fn law_waiting_for_a_connection(ctx: WaitContext<'_>, w: Watch, look: Look)
    ensures
        look.too_late ==> (accept_step(ctx, w, look) matches WaitStepV::Failed(f) && f.ending
            == Ending::Kill && f.cleanup == seq![ctx.pid_file@, ctx.meta_file@, ctx.socket@]
            && f.response == output::broken(
            "socket_not_accepting"@,
            "Unix socket exists but is not accepting connections"@,
        )),
        !look.too_late && look.there ==> accept_step(ctx, w, look) == WaitStepV::Ready,
        !look.there && !look.too_late && look.external_port ==> (accept_step(ctx, w, look)
            matches WaitStepV::Failed(f) && f.ending == Ending::TermThenKill && f.cleanup
            == seq![ctx.pid_file@, ctx.meta_file@, ctx.socket@] && f.response == output::refused(
            "network_port_forbidden"@,
            NETWORK_PORT_FORBIDDEN_MSG@,
        )),
        !look.there && !look.too_late && !look.external_port && !look.alive ==> (accept_step(
            ctx,
            w,
            look,
        ) matches WaitStepV::Failed(f) && f.ending == Ending::Nothing && f.cleanup == seq![
            ctx.pid_file@,
            ctx.meta_file@,
            ctx.socket@,
        ] && f.response == output::broken(
            "process_exited"@,
            "process exited before reaching the expected state"@,
        )),
        !look.there && !look.too_late && !look.external_port && look.alive && look.snapshot is None
            && w.stuck < 4 ==> accept_step(ctx, w, look) == WaitStepV::Again(w),
{
}

/// A process that has used no more processor time and no more memory since the
/// snapshot before is idle. The fourth idle snapshot in a row ends the wait; one
/// that shows more of either, or that cannot be taken, starts the count again.
pub proof fn law_idle_processes_are_given_up(
    ctx: WaitContext<'_>,
    w: Watch,
    before: ProcessSnapshot,
    now: ProcessSnapshot,
    look: Look,
)
    requires
        w.stuck < 4,
        !look.there && !look.too_late && !look.external_port && look.alive,
        w.last == Some(before),
    ensures
        look.snapshot == Some(Some(now)) && now.cpu_ticks <= before.cpu_ticks && now.rss_kb
            <= before.rss_kb ==> {
            &&& w.stuck < 3 ==> {
                &&& file_step(ctx, w, look) == WaitStepV::Again(
                    Watch { last: Some(now), stuck: (w.stuck + 1) as u32 },
                )
                &&& accept_step(ctx, w, look) == file_step(ctx, w, look)
            }
            &&& w.stuck == 3 ==> {
                &&& file_step(ctx, w, look) matches WaitStepV::Failed(f) && f.ending
                    == Ending::Kill && f.cleanup == seq![ctx.pid_file@, ctx.meta_file@]
                    && f.response == output::broken(
                    "socket_stuck"@,
                    "process stopped making progress before creating the Unix socket"@,
                )
                &&& accept_step(ctx, w, look) matches WaitStepV::Failed(g) && g.ending
                    == Ending::Kill && g.cleanup == seq![
                    ctx.pid_file@,
                    ctx.meta_file@,
                    ctx.socket@,
                ] && g.response == output::broken(
                    "socket_stuck"@,
                    "process stopped making progress before accepting connections on the socket"@,
                )
            }
        },
        look.snapshot == Some(Some(now)) && (now.cpu_ticks > before.cpu_ticks || now.rss_kb
            > before.rss_kb) ==> file_step(ctx, w, look) == WaitStepV::Again(
            Watch { last: Some(now), stuck: 0 },
        ) && accept_step(ctx, w, look) == file_step(ctx, w, look),
        look.snapshot == Some(None::<ProcessSnapshot>) ==> file_step(ctx, w, look)
            == WaitStepV::Again(Watch { last: None, stuck: 0 }) && accept_step(ctx, w, look)
            == file_step(ctx, w, look),
{
}

/// A `node` app is run by its interpreter, which loads the panel's loader before
/// the entry. Any other app is its own program.
pub proof fn law_apps_are_launched_by_kind(
    app_type: Seq<char>,
    entry_path: Seq<char>,
    node_bin: Seq<char>,
)
    ensures
        app_type == "node"@ ==> launch(app_type, entry_path, node_bin).program == node_bin && launch(
            app_type,
            entry_path,
            node_bin,
        ).args == seq![
            "--import"@,
            "/usr/local/directadmin/plugins/selynt_panel"@ + "/lib/node-loader.js"@,
            entry_path,
        ],
        app_type != "node"@ ==> launch(app_type, entry_path, node_bin).program == entry_path
            && launch(app_type, entry_path, node_bin).args.len() == 0,
        launch(app_type, entry_path, node_bin).env.len() == 0,
{
    reveal_strlit("node");
    reveal_strlit("rust");
    assert("node"@.len() == 4 && "node"@[0] == 'n' && "rust"@[0] == 'r');
}

/// An interpreter that an app pins is the one that it runs with. Without a pin it
/// is the local one, then the system's, then whatever the path has.
pub proof fn law_pinned_interpreters_win(pin: Seq<char>, local: bool, system: bool)
    ensures
        pin.len() > 0 ==> interpreter(pin, local, system) == pin,
        interpreter(Seq::empty(), true, system) == "/usr/local/bin/node"@,
        interpreter(Seq::empty(), false, true) == "/usr/bin/node"@,
        interpreter(Seq::empty(), false, false) == "node"@,
{
}

/// An app is launched unless its interpreter says that it is older than 20.6, or
/// its account isolates its apps and this host has no bubblewrap or no user
/// namespaces.
pub proof fn law_only_fit_apps_are_launched(
    m: state::AppMetaV,
    socket: Seq<char>,
    isolated: bool,
    f: SpawnFacts,
    major: nat,
    minor: nat,
    patch: nat,
)
    requires
        major <= u32::MAX && minor <= u32::MAX && patch <= u32::MAX,
        state::parent_of(socket) is Some,
        f.node_version matches Some(v) ==> v@ == seq!['v'] + text::decimal(major).push('.')
            + text::decimal(minor).push('.') + text::decimal(patch),
    ensures
        ({
            let old = m.app_type == "node"@ && f.node_version is Some && (major < 20 || (major == 20
                && minor < 6));
            let bare = isolated && (f.confinement.bwrap is None || !f.confinement.userns);
            &&& launch_error(m, socket, isolated, f) is None <==> !old && !bare
            &&& old ==> (launch_error(m, socket, isolated, f) matches Some(r) && r == output::refused(
                "unsupported_node"@,
                "Node.js "@ + f.node_version->0@ + " is not supported. Minimum: v20.6.0"@,
            ))
            &&& !old && bare ==> (launch_error(m, socket, isolated, f) matches Some(r) && r
                == output::refused(
                "sandbox_unavailable"@,
                if f.confinement.bwrap is None {
                    "errors.sandbox_no_bwrap"@
                } else {
                    "errors.sandbox_no_userns"@
                },
            ))
        }),
{
    reveal_strlit("node");
    reveal_strlit("rust");
    assert("node"@[0] == 'n' && "rust"@[0] == 'r');
    node::law_versions_are_read_in_full(major, minor, patch);
}

/// A scope carries the name of its app and lies in the slice of its account. The
/// command runs in it as that account, and its limits are the scope's.
pub proof fn law_scopes_hold_apps_to_their_account(
    username: Seq<char>,
    name: Seq<char>,
    uid: nat,
    gid: nat,
    l: AppLimits,
)
    ensures
        scope_args(username, name, uid, gid, None) == seq![
            "--scope"@,
            "--quiet"@,
            "--collect"@,
            "--unit="@ + ("selynt-"@ + username + "-"@ + name + ".scope"@),
            "--slice="@ + ("selynt-"@ + username + ".slice"@),
            "--uid="@ + text::decimal(uid),
            "--gid="@ + text::decimal(gid),
            "--property=KillMode=process"@,
        ],
        scope_args(username, name, uid, gid, Some(l)) == scope_args(username, name, uid, gid, None)
            + seq![
            "--property=MemoryMin="@ + text::decimal(l.min as nat),
            "--property=MemoryHigh="@ + text::decimal(l.high as nat),
            "--property=MemoryMax="@ + text::decimal(l.max as nat),
        ],
{
}

/// Where the account is known and scopes can be run, an app runs in one, and its
/// command is what stands behind the arguments of the scope. Otherwise it runs as
/// it is.
pub proof fn law_apps_run_in_their_scope(
    m: state::AppMetaV,
    name: Seq<char>,
    socket: Seq<char>,
    s: Scope<'_>,
    limits: Option<AppLimits>,
    f: SpawnFacts,
)
    ensures
        ({
            let bare = launch(m.app_type, path::under(m.cwd, m.entry), f.node_bin@);
            let inside = launched(m, name, socket, Some(s), limits, false, f);
            let outside = launched(m, name, socket, None, limits, false, f);
            let args = scope_args(s.username@, name, s.uid as nat, s.gid as nat, limits);
            &&& outside.program == bare.program && outside.args == bare.args
            &&& f.can_run_scopes ==> inside.program == "systemd-run"@ && inside.args == args + seq![
                bare.program,
            ] + bare.args
            &&& !f.can_run_scopes ==> inside.program == bare.program && inside.args == bare.args
        }),
{
    let bare = launch(m.app_type, path::under(m.cwd, m.entry), f.node_bin@);
    let args = scope_args(s.username@, name, s.uid as nat, s.gid as nat, limits);
    assert(args.push(bare.program) + bare.args =~= args + seq![bare.program] + bare.args);
}

/// An app of an account that isolates its apps is run by bubblewrap, and may write
/// to its own directory and to the one of its socket.
pub proof fn law_isolated_apps_are_confined(
    m: state::AppMetaV,
    name: Seq<char>,
    dir: Seq<char>,
    socket: Seq<char>,
    limits: Option<AppLimits>,
    f: SpawnFacts,
)
    requires
        state::parent_of(socket) == Some(dir),
        f.confinement.bwrap is Some,
    ensures
        ({
            let r = launched(m, name, socket, None, limits, true, f);
            let bare = launch(m.app_type, path::under(m.cwd, m.entry), f.node_bin@);
            let n = r.args.len() - 1 - bare.args.len();
            &&& r.program == f.confinement.bwrap->0@
            &&& n >= 0 && r.args.take(n) == sandbox::confinement(
                text::views(f.confinement.system@),
                seq![m.cwd, dir],
            )
            &&& r.args.skip(n) == seq![bare.program] + bare.args
        }),
{
    let bare = launch(m.app_type, path::under(m.cwd, m.entry), f.node_bin@);
    let c = sandbox::confinement(text::views(f.confinement.system@), seq![m.cwd, dir]);
    let all = c.push(bare.program) + bare.args;
    assert(all.take(c.len() as int) =~= c);
    assert(all.skip(c.len() as int) =~= seq![bare.program] + bare.args);
}

/// The records of a running app are written first and then kept from everybody
/// but their owner; a start that cannot do either has failed.
pub proof fn law_records_are_private(
    file: Seq<char>,
    pid: nat,
    uid: nat,
    starttime: nat,
    started_at: nat,
    socket: Seq<char>,
)
    ensures
        pid_recorded(file, pid) == seq![
            effect::StepV {
                change: effect::ChangeV::Write(file, text::decimal(pid) + "\n"@),
                must: true,
            },
            effect::StepV { change: effect::ChangeV::SetMode(file, 384), must: true },
        ],
        ({
            let r = run_recorded(file, uid, starttime, started_at, socket);
            &&& r.len() == 2
            &&& r[0].must && r[1].must
            &&& r[0].change is Write
            &&& r[1].change == effect::ChangeV::SetMode(file, 384)
        }),
{
}

/// The ports of an app are those of every process in its scope, and those of its
/// own process where the scope has none.
pub proof fn law_ports_are_looked_for_in_the_scope(scope: Seq<u32>, pid: u32)
    ensures
        scope.len() > 0 ==> processes_of(scope, pid) == scope,
        processes_of(Seq::empty(), pid) == seq![pid],
{
}

/// An app is started when it is known, its entry and host are names in one
/// directory, and it is not up. One that is up answers with its pid, and nothing
/// is done.
pub proof fn law_starts_are_refused_for_a_reason(
    name: Seq<char>,
    m: state::AppMetaV,
    s: AppStatus,
    debug: Option<JsonV>,
)
    ensures
        start_refusal(name, None, s, debug) == Some(
            output::refused("app_not_found"@, "app '"@ + name + "' not found"@),
        ),
        start_refusal(name, Some(m), s, debug) is None <==> validate::is_safe_component(m.entry)
            && validate::is_safe_component(m.host) && s.pid is None,
        validate::is_safe_component(m.entry) && validate::is_safe_component(m.host) ==> (
        s.pid matches Some(p) ==> (start_refusal(name, Some(m), s, debug) matches Some(r) && r
            == output::accepted(
            output::debugged(seq![("pid"@, JsonV::Num(p as nat))], debug),
        ))),
        !validate::is_safe_component(m.entry) || !validate::is_safe_component(m.host) ==> (
        start_refusal(name, Some(m), s, debug) matches Some(r) && r.exit == 1),
{
}

/// A directory for a socket is made where there is none: it is the account's, and
/// nobody outside its group gets in.
pub proof fn law_socket_directories_are_the_accounts(
    dir: Seq<char>,
    socket: Seq<char>,
    s: Scope<'_>,
)
    requires
        state::parent_of(socket) == Some(dir),
    ensures
        socket_dir_made(socket, true, Some(s)).len() == 0,
        ({
            let r = socket_dir_made(socket, false, Some(s));
            &&& r.len() == 3
            &&& r[0].change == effect::ChangeV::MakeDir(dir)
            &&& r[1].change == effect::ChangeV::SetMode(dir, 488)
            &&& r[2].change == effect::ChangeV::Own(dir, s.uid as int, s.gid as int)
        }),
        socket_dir_made(socket, false, None) == socket_dir_made(socket, false, Some(s)).take(2),
{
    assert(socket_dir_made(socket, false, None) =~= socket_dir_made(socket, false, Some(s)).take(2));
}

/// An empty file is written, and then given its mode.
pub proof fn law_flags_are_empty_files(file: Seq<char>, mode: u32, required: bool)
    ensures
        flag_steps(file, mode, required).len() == 2,
        flag_steps(file, mode, required)[0].change matches effect::ChangeV::Write(p, c) && p == file
            && c.len() == 0,
        flag_steps(file, mode, required)[1].change == effect::ChangeV::SetMode(file, mode as int),
        flag_steps(file, mode, required)[0].must == required,
        flag_steps(file, mode, required)[1].must == required,
{
}

} // verus!
