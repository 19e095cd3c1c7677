//! Running npm commands of an app as background work.
//!
//! The panel offers `npm install` and the scripts of `package.json` to people
//! without a shell. What makes that safe is where the command runs: always
//! inside the bundled sandbox, seeing only the app's own directory. The command
//! is detached from the request that asked for it and leaves its progress on
//! disk, where a page can look for it.

use vstd::prelude::*;

use crate::app::commands;
use crate::app::logs;
use crate::app::start;
use crate::app::status::AppStatus;
use crate::command;
use crate::command::CommandLine;
use crate::effect;
use crate::effect::{Change, Steps};
use crate::limits::sandbox;
use crate::limits::usage;
use crate::path;
use crate::sys::json;
use crate::sys::output;
use crate::sys::output::{Json, JsonV, Members, Response};
use crate::sys::state;
use crate::sys::state::AppMeta;
use crate::text;

verus! {

/// How long a command may take before it is ended, in seconds.
pub const TIMEOUT_SECS: u64 = 900;

/// Time between two looks at a command, in milliseconds.
pub const POLL_MILLIS: u64 = 200;

/// How many looks a command that was interrupted is given to end by itself.
pub const STOP_POLLS: u32 = 25;

/// How many lines of a command's output are shown.
pub const SHOWN_LINES: usize = 400;

/// What the panel can ask to be run. A closed list: there is no way to an
/// arbitrary command.
#[derive(Debug, Clone, Copy, PartialEq, Eq, Structural)]
pub enum Kind {
    Install,
    Update,
    Ci,
    Run,
}

/// The word that asks for a command.
pub open spec fn word(k: Kind) -> Seq<char> {
    match k {
        Kind::Install => "install"@,
        Kind::Update => "update"@,
        Kind::Ci => "ci"@,
        Kind::Run => "run"@,
    }
}

/// The command that a word asks for.
pub open spec fn kind_of(s: Seq<char>) -> Option<Kind> {
    if s == "install"@ {
        Some(Kind::Install)
    } else if s == "update"@ {
        Some(Kind::Update)
    } else if s == "ci"@ {
        Some(Kind::Ci)
    } else if s == "run"@ {
        Some(Kind::Run)
    } else {
        None
    }
}

impl Kind {
    pub fn parse(s: &str) -> (r: Option<Kind>)
        ensures
            r == kind_of(s@),
    {
        if text::same(s, "install") {
            Some(Kind::Install)
        } else if text::same(s, "update") {
            Some(Kind::Update)
        } else if text::same(s, "ci") {
            Some(Kind::Ci)
        } else if text::same(s, "run") {
            Some(Kind::Run)
        } else {
            None
        }
    }

    pub fn npm_arg(self) -> (r: &'static str)
        ensures
            r@ == word(self),
    {
        match self {
            Kind::Install => "install",
            Kind::Update => "update",
            Kind::Ci => "ci",
            Kind::Run => "run",
        }
    }

    /// Whether the command rewrites `node_modules`. Those need the app stopped:
    /// changing the tree under a process that reads from it breaks the app in
    /// ways that give no clear error.
    pub open spec fn rewrites(self) -> bool {
        self != Kind::Run
    }

    pub fn rewrites_tree(self) -> (r: bool)
        ensures
            r == self.rewrites(),
    {
        matches!(self, Kind::Install | Kind::Update | Kind::Ci)
    }
}

/// The word of a command asks for that command.
pub proof fn law_words_read_back(k: Kind)
    ensures
        kind_of(word(k)) == Some(k),
{
    reveal_strlit("install");
    reveal_strlit("update");
    reveal_strlit("ci");
    reveal_strlit("run");
    assert("install"@.len() == 7 && "update"@.len() == 6 && "ci"@.len() == 2 && "run"@.len() == 3);
}

// ---------------------------------------------------------------------------
// The command
// ---------------------------------------------------------------------------

/// The directory that an interpreter lives in, where its npm lives too.
pub open spec fn install_dir(node_bin: Seq<char>) -> Seq<char> {
    match state::parent_of(node_bin) {
        Some(d) => d,
        None => "/usr/local/bin"@,
    }
}

/// The arguments of npm. Commands that rewrite the tree run without the scripts
/// of the packages, which nobody here chose; what the user typed goes behind
/// `--`, where npm passes it on to the script.
pub open spec fn npm_args(kind: Kind, script: Seq<char>, args: Seq<Seq<char>>) -> Seq<Seq<char>> {
    let what = if kind == Kind::Run {
        seq![word(kind), script]
    } else {
        seq![word(kind), "--ignore-scripts"@]
    };
    let quiet = what + seq!["--no-audit"@, "--no-fund"@];
    if kind == Kind::Run && args.len() > 0 {
        quiet.push("--"@) + args
    } else {
        quiet
    }
}

/// The npm command of an app.
pub open spec fn npm_command(
    cwd: Seq<char>,
    node_bin: Seq<char>,
    kind: Kind,
    script: Seq<char>,
    args: Seq<Seq<char>>,
) -> command::CommandV {
    let dir = install_dir(node_bin);
    command::CommandV {
        program: path::under(dir, "npm"@),
        args: npm_args(kind, script, args),
        env: seq![
            ("PATH"@, Some(dir + ":/usr/bin:/bin"@)),
            ("HOME"@, Some(cwd)),
            ("NO_COLOR"@, Some("1"@)),
            ("npm_config_progress"@, Some("false"@)),
        ],
        current_dir: Some(cwd),
    }
}

/// Builds the npm command itself, before it is confined. npm is run with the
/// app's own interpreter on its path: what installs the dependencies has to be
/// what will run them. `local` and `system` say which default interpreters are
/// there.
pub fn build_inner(
    meta: &AppMeta,
    kind: Kind,
    script: &str,
    args: &Vec<String>,
    local: bool,
    system: bool,
) -> (r: CommandLine)
    ensures
        r@ == npm_command(
            meta.cwd@,
            start::interpreter(meta.node_version@, local, system),
            kind,
            script@,
            text::views(args@),
        ),
{
    let node_bin = start::node_binary(meta, local, system);
    let node_dir = match state::parent_dir(&node_bin) {
        Some(d) => d,
        None => "/usr/local/bin".to_string(),
    };
    let mut inner = CommandLine::new(&path::join(&node_dir, "npm"));
    inner.arg(kind.npm_arg());
    if matches!(kind, Kind::Run) {
        inner.arg(script);
    }
    if kind.rewrites_tree() {
        inner.arg("--ignore-scripts");
    }
    inner.arg("--no-audit");
    inner.arg("--no-fund");
    if args.len() > 0 && matches!(kind, Kind::Run) {
        inner.arg("--");
        inner.args(args);
    }
    assert(inner@.args =~= npm_args(kind, script@, text::views(args@)));
    inner.in_dir(&meta.cwd);
    inner.env("PATH", &text::cat(&node_dir, ":/usr/bin:/bin"));
    inner.env("HOME", &meta.cwd);
    inner.env("NO_COLOR", "1");
    inner.env("npm_config_progress", "false");
    assert(inner@.env =~= npm_command(
        meta.cwd@,
        start::interpreter(meta.node_version@, local, system),
        kind,
        script@,
        text::views(args@),
    ).env);
    inner
}

/// Builds the npm command, confined to the app's directory and run in it. The
/// answer is an error where there is nothing to confine it with.
pub fn build_command(
    meta: &AppMeta,
    kind: Kind,
    script: &str,
    args: &Vec<String>,
    local: bool,
    system: bool,
    c: &start::Confinement,
) -> (r: Result<CommandLine, Response>)
    ensures
        match r {
            Ok(cmd) => c.bwrap is Some && cmd@ == (command::CommandV {
                current_dir: Some(meta.cwd@),
                ..sandbox::confined(
                    c.bwrap->0@,
                    npm_command(
                        meta.cwd@,
                        start::interpreter(meta.node_version@, local, system),
                        kind,
                        script@,
                        text::views(args@),
                    ),
                    text::views(c.system@),
                    seq![meta.cwd@],
                )
            }),
            Err(e) => c.bwrap is None && e@ == sandbox::no_sandbox(c.userns),
        },
{
    let inner = build_inner(meta, kind, script, args, local, system);
    let bwrap = match &c.bwrap {
        Some(b) => Some(b.as_str()),
        None => None,
    };
    match sandbox::wrap_command(bwrap, c.userns, &inner, &meta.cwd, &c.system) {
        Ok(cmd) => {
            let mut confined = cmd;
            confined.in_dir(&meta.cwd);
            Ok(confined)
        },
        Err(e) => Err(e),
    }
}

/// Installing dependencies never runs what a package brought along, and running
/// a script never hands what the user typed to npm itself: it all stands behind
/// the separator.
pub proof fn law_npm_runs_no_foreign_scripts(kind: Kind, script: Seq<char>, args: Seq<Seq<char>>)
    ensures
        kind.rewrites() ==> npm_args(kind, script, args) == seq![
            word(kind),
            "--ignore-scripts"@,
            "--no-audit"@,
            "--no-fund"@,
        ],
        !kind.rewrites() && args.len() > 0 ==> npm_args(kind, script, args) == seq![
            word(kind),
            script,
            "--no-audit"@,
            "--no-fund"@,
            "--"@,
        ] + args,
{
    if kind.rewrites() {
        assert(npm_args(kind, script, args) =~= seq![
            word(kind),
            "--ignore-scripts"@,
            "--no-audit"@,
            "--no-fund"@,
        ]);
    } else {
        assert(npm_args(kind, script, args) =~= seq![
            word(kind),
            script,
            "--no-audit"@,
            "--no-fund"@,
            "--"@,
        ] + args || args.len() == 0);
    }
}

// ---------------------------------------------------------------------------
// The state of a job
// ---------------------------------------------------------------------------

/// The file that tells the state of an app's job.
pub fn state_file(state_dir: &str, app: &str) -> (r: String)
    ensures
        r@ == state::run_file(state_dir@, app@, ".job"@),
{
    state::run_file_path(state_dir, app, ".job")
}

/// The file that an app's job writes to.
pub fn log_file(state_dir: &str, app: &str) -> (r: String)
    ensures
        r@ == state::run_file(state_dir@, app@, ".job.log"@),
{
    state::run_file_path(state_dir, app, ".job.log")
}

/// How a command is shown.
pub open spec fn label_of(kind: Kind, script: Seq<char>) -> Seq<char> {
    if kind == Kind::Run {
        "npm run "@ + script
    } else {
        "npm "@ + word(kind)
    }
}

pub fn label(kind: Kind, script: &str) -> (r: String)
    ensures
        r@ == label_of(kind, script@),
{
    if matches!(kind, Kind::Run) {
        text::cat("npm run ", script)
    } else {
        text::cat("npm ", kind.npm_arg())
    }
}

/// Whether a state says that a command is running.
pub open spec fn says_running(job: JsonV) -> bool {
    json::text_member(job, "status"@) == Some("running"@)
}

/// Whether a state says that a command is running.
pub fn is_running(job: &Json) -> (r: bool)
    ensures
        r == says_running(job@),
{
    match job.get_text("status") {
        Some(s) => text::same(&s, "running"),
        None => false,
    }
}

/// The keys of a state are all of different lengths.
proof fn lemma_keys_differ()
    ensures
        "pid"@.len() == 3,
        "status"@.len() == 6,
        "command"@.len() == 7,
        "exit_code"@.len() == 9,
        "started_at"@.len() == 10,
        "finished_at"@.len() == 11,
{
    reveal_strlit("pid");
    reveal_strlit("status");
    reveal_strlit("command");
    reveal_strlit("exit_code");
    reveal_strlit("started_at");
    reveal_strlit("finished_at");
}

/// The state of a command that is running, with the process to interrupt once
/// there is one.
pub open spec fn running_view(command: Seq<char>, started_at: nat, pid: Option<u32>) -> JsonV {
    let ms = seq![
        ("status"@, JsonV::Str("running"@)),
        ("command"@, JsonV::Str(command)),
        ("started_at"@, JsonV::Num(started_at)),
    ];
    JsonV::Obj(
        match pid {
            Some(p) => ms.push(("pid"@, JsonV::Num(p as nat))),
            None => ms,
        },
    )
}

pub fn running_state(command: &str, started_at: u64, pid: Option<u32>) -> (r: Json)
    ensures
        r@ == running_view(command@, started_at as nat, pid),
        json::is_flat(r@),
{
    proof {
        lemma_keys_differ();
    }
    let mut m = Members::new();
    m.put_text("status", "running");
    m.put_text("command", command);
    m.put_number("started_at", started_at);
    if let Some(p) = pid {
        m.put_number("pid", p as u64);
    }
    assert(m@ =~= running_view(command@, started_at as nat, pid)->Obj_0);
    m.object()
}

/// How a command ended.
pub open spec fn ended(code: i32, timed_out: bool) -> Seq<char> {
    if timed_out {
        "timeout"@
    } else if code == 0 {
        "ok"@
    } else {
        "failed"@
    }
}

/// The state of a command that has ended.
pub open spec fn finished_view(
    command: Seq<char>,
    started_at: nat,
    finished_at: nat,
    code: i32,
    timed_out: bool,
) -> JsonV {
    JsonV::Obj(
        seq![
            ("status"@, JsonV::Str(ended(code, timed_out))),
            ("command"@, JsonV::Str(command)),
            ("started_at"@, JsonV::Num(started_at)),
            ("finished_at"@, JsonV::Num(finished_at)),
            ("exit_code"@, output::signed_view(code as int)),
        ],
    )
}

pub fn finished_state(
    command: &str,
    started_at: u64,
    finished_at: u64,
    code: i32,
    timed_out: bool,
) -> (r: Json)
    ensures
        r@ == finished_view(command@, started_at as nat, finished_at as nat, code, timed_out),
        json::is_flat(r@),
{
    proof {
        lemma_keys_differ();
        if code < 0 {
            let k = (-(code as int)) as nat;
            assert(output::signed_view(code as int) == JsonV::Other("-"@ + text::decimal(k)));
            assert(json::is_negative("-"@ + text::decimal(k)));
        }
    }
    let status = if timed_out {
        "timeout"
    } else if code == 0 {
        "ok"
    } else {
        "failed"
    };
    let mut m = Members::new();
    m.put_text("status", status);
    m.put_text("command", command);
    m.put_number("started_at", started_at);
    m.put_number("finished_at", finished_at);
    m.put("exit_code", output::signed(code));
    assert(m@ =~= finished_view(
        command@,
        started_at as nat,
        finished_at as nat,
        code,
        timed_out,
    )->Obj_0);
    m.object()
}

/// The state of a command that was interrupted: it keeps what the state before
/// said of the command.
pub open spec fn stopped_view(job: JsonV, finished_at: nat) -> JsonV {
    JsonV::Obj(
        seq![
            ("status"@, JsonV::Str("stopped"@)),
            (
                "command"@,
                JsonV::Str(
                    match json::text_member(job, "command"@) {
                        Some(c) => c,
                        None => Seq::empty(),
                    },
                ),
            ),
            ("started_at"@, JsonV::Num(usage::or_zero(json::number_member(job, "started_at"@)))),
            ("finished_at"@, JsonV::Num(finished_at)),
        ],
    )
}

pub fn stopped_state(job: &Json, finished_at: u64) -> (r: Json)
    ensures
        r@ == stopped_view(job@, finished_at as nat),
        json::is_flat(r@),
{
    proof {
        lemma_keys_differ();
    }
    let command = match job.get_text("command") {
        Some(c) => c,
        None => {
            let none = String::new();
            assert(none@ =~= Seq::<char>::empty());
            none
        },
    };
    let started_at: u64 = match job.get_number("started_at") {
        Some(n) => n,
        None => 0,
    };
    let mut m = Members::new();
    m.put_text("status", "stopped");
    m.put_text("command", &command);
    m.put_number("started_at", started_at);
    m.put_number("finished_at", finished_at);
    assert(m@ =~= stopped_view(job@, finished_at as nat)->Obj_0);
    m.object()
}

/// Writing a state: the account may read it, and only root may change it.
pub open spec fn state_kept(file: Seq<char>, content: Seq<char>, gid: int) -> Seq<effect::StepV> {
    seq![
        effect::needed(effect::ChangeV::Write(file, content)),
        effect::tried(effect::ChangeV::SetMode(file, 0o640)),
        effect::tried(effect::ChangeV::Own(file, 0, gid)),
    ]
}

/// Writes the state of a job. A page may ask for it at any moment, so it is
/// replaced at once.
pub fn write_state(file: &str, gid: u32, state: &Json) -> (r: Steps)
    ensures
        r@ == state_kept(file@, json::printed(state@), gid as int),
        json::is_flat(state@) ==> json::reads_as(json::printed(state@), state@),
{
    let mut steps = Steps::new();
    steps.need(Change::Write(file.to_string(), json::show(state)));
    steps.try_to(Change::SetMode(file.to_string(), 0o640));
    steps.try_to(Change::Own(file.to_string(), 0, gid));
    assert(steps@ =~= state_kept(file@, json::printed(state@), gid as int));
    steps
}

/// A job is running from the moment its state is written until it has ended or
/// was interrupted, and not a moment longer.
pub proof fn law_state_tells_whether_a_job_runs(
    command: Seq<char>,
    started_at: nat,
    finished_at: nat,
    pid: Option<u32>,
    code: i32,
    timed_out: bool,
    job: JsonV,
)
    ensures
        says_running(running_view(command, started_at, pid)),
        !says_running(finished_view(command, started_at, finished_at, code, timed_out)),
        !says_running(stopped_view(job, finished_at)),
{
    reveal_strlit("running");
    reveal_strlit("timeout");
    reveal_strlit("ok");
    reveal_strlit("failed");
    reveal_strlit("stopped");
    assert("running"@[0] == 'r');
    assert("timeout"@[0] == 't');
    assert("ok"@[0] == 'o');
    assert("failed"@[0] == 'f');
    assert("stopped"@[0] == 's');
}

/// What was written of a job is what is read of it: whether it runs, and which
/// process is to be interrupted.
pub proof fn law_written_state_is_read_back(text: Seq<char>, job: JsonV)
    requires
        json::reads_as(text, job),
    ensures
        says_running(json::parsed(text)->0) == says_running(job),
        json::number_member(json::parsed(text)->0, "pid"@) == json::number_member(job, "pid"@),
        json::text_member(json::parsed(text)->0, "command"@) == json::text_member(
            job,
            "command"@,
        ),
        json::number_member(json::parsed(text)->0, "started_at"@) == json::number_member(
            job,
            "started_at"@,
        ),
{
    let back = json::parsed(text)->0;
    assert(json::member(back, "status"@) == json::member(job, "status"@));
    assert(json::member(back, "pid"@) == json::member(job, "pid"@));
    assert(json::member(back, "command"@) == json::member(job, "command"@));
    assert(json::member(back, "started_at"@) == json::member(job, "started_at"@));
}

// ---------------------------------------------------------------------------
// Running
// ---------------------------------------------------------------------------

/// What a look at a command showed.
#[derive(Debug, Clone, Copy, PartialEq, Eq, Structural)]
pub enum ChildPoll {
    /// It ended, with an exit code unless a signal ended it.
    Ended(Option<i32>),
    Running,
    /// It could not be looked at.
    Unknown,
}

/// What comes of a look at a command.
#[derive(Debug, Clone, Copy, PartialEq, Eq, Structural)]
pub enum RunStep {
    Done { code: i32, timed_out: bool },
    /// Killed and waited for, which ends it like this.
    Kill { code: i32, timed_out: bool },
    Wait,
}

/// What comes of a look at a command that runs: it ends by itself, or it is
/// killed when its time is up. One that could not be started has ended, too,
/// with the code -1.
pub fn run_to_completion(poll: ChildPoll, elapsed_secs: u64) -> (r: RunStep)
    ensures
        r == (match poll {
            ChildPoll::Ended(Some(code)) => RunStep::Done { code, timed_out: false },
            ChildPoll::Ended(None) => RunStep::Done { code: (-1) as i32, timed_out: false },
            ChildPoll::Unknown => RunStep::Done { code: (-1) as i32, timed_out: false },
            ChildPoll::Running => if elapsed_secs >= TIMEOUT_SECS {
                RunStep::Kill { code: (-1) as i32, timed_out: true }
            } else {
                RunStep::Wait
            },
        }),
{
    match poll {
        ChildPoll::Ended(Some(code)) => RunStep::Done { code, timed_out: false },
        ChildPoll::Ended(None) => RunStep::Done { code: -1, timed_out: false },
        ChildPoll::Unknown => RunStep::Done { code: -1, timed_out: false },
        ChildPoll::Running => if elapsed_secs >= TIMEOUT_SECS {
            RunStep::Kill { code: -1, timed_out: true }
        } else {
            RunStep::Wait
        },
    }
}

/// A command that is to be run: what it is, its arguments, and how it is shown.
pub struct JobPlan {
    pub kind: Kind,
    pub args: Vec<String>,
    pub label: String,
}

/// Why a command is not run.
pub open spec fn job_refusal(
    app: Seq<char>,
    app_type: Option<Seq<char>>,
    kind_raw: Seq<char>,
    script: Seq<char>,
    args_raw: Seq<char>,
    app_is_up: bool,
    job_is_running: bool,
) -> Option<output::ResponseV> {
    match app_type {
        None => Some(usage::no_such_app(app)),
        Some(t) => if t != "node"@ {
            Some(output::refused("not_node"@, "only Node.js apps run npm commands"@))
        } else {
            match kind_of(kind_raw) {
                None => Some(
                    output::refused("invalid_command"@, "unknown command '"@ + kind_raw + "'"@),
                ),
                Some(k) => if k == Kind::Run && !commands::is_script_name(script) {
                    Some(output::refused("invalid_script"@, "script name is not acceptable"@))
                } else {
                    match commands::arguments(args_raw) {
                        Err(m) => Some(output::refused("invalid_arguments"@, m)),
                        Ok(_) => if k.rewrites() && app_is_up {
                            Some(
                                output::refused(
                                    "app_running"@,
                                    "stop the application before changing its dependencies"@,
                                ),
                            )
                        } else if job_is_running {
                            Some(
                                output::refused(
                                    "job_running"@,
                                    "another command is already running"@,
                                ),
                            )
                        } else {
                            None
                        },
                    }
                },
            }
        },
    }
}

pub open spec fn type_of(meta: Option<&AppMeta>) -> Option<Seq<char>> {
    match meta {
        Some(m) => Some(m.app_type@),
        None => None,
    }
}

/// Decides whether a command is run, once it is known whether another one is.
pub fn plan_job(
    app: &str,
    meta: Option<&AppMeta>,
    kind_raw: &str,
    script: &str,
    args_raw: &str,
    s: AppStatus,
    job_is_running: bool,
) -> (r: Result<JobPlan, Response>)
    ensures
        ({
            let refusal = job_refusal(
                app@,
                type_of(meta),
                kind_raw@,
                script@,
                args_raw@,
                s.is_up(),
                job_is_running,
            );
            match r {
                Err(e) => refusal == Some(e@),
                Ok(p) => {
                    &&& refusal is None
                    &&& kind_of(kind_raw@) == Some(p.kind)
                    &&& commands::arguments(args_raw@) == Ok::<_, Seq<char>>(text::views(p.args@))
                    &&& p.label@ == label_of(p.kind, script@)
                },
            }
        }),
{
    let m = match meta {
        Some(m) => m,
        None => {
            return Err(usage::app_not_found(app));
        },
    };
    if !text::same(&m.app_type, "node") {
        return Err(output::user_error("not_node", "only Node.js apps run npm commands"));
    }
    let kind = match Kind::parse(kind_raw) {
        Some(k) => k,
        None => {
            let mut message = "unknown command '".to_string();
            message.append(kind_raw);
            message.append("'");
            return Err(output::user_error("invalid_command", &message));
        },
    };
    if matches!(kind, Kind::Run) && !commands::is_safe_script_name(script) {
        return Err(output::user_error("invalid_script", "script name is not acceptable"));
    }
    let args = match commands::split_arguments(args_raw) {
        Ok(a) => a,
        Err(message) => {
            return Err(output::user_error("invalid_arguments", &message));
        },
    };
    if kind.rewrites_tree() && s.running() {
        return Err(
            output::user_error(
                "app_running",
                "stop the application before changing its dependencies",
            ),
        );
    }
    if job_is_running {
        return Err(output::user_error("job_running", "another command is already running"));
    }
    Ok(JobPlan { kind, args, label: label(kind, script) })
}

/// Whether the text of a state file says that a command is running. What cannot
/// be read says nothing.
pub open spec fn text_says_running(state_text: Option<Seq<char>>) -> bool {
    match commands::read_json(state_text) {
        Some(job) => says_running(job),
        None => false,
    }
}

/// Runs an npm command of an app: decides whether it is run. `state_text` is
/// what the state file of the app's job holds.
///
/// There is one job per app: two installs in the same tree corrupt it in a way
/// that only shows at the next start.
pub fn cmd_run_job(
    app: &str,
    meta: Option<&AppMeta>,
    kind_raw: &str,
    script: &str,
    args_raw: &str,
    s: AppStatus,
    state_text: Option<&str>,
) -> (r: Result<JobPlan, Response>)
    ensures
        ({
            let refusal = job_refusal(
                app@,
                type_of(meta),
                kind_raw@,
                script@,
                args_raw@,
                s.is_up(),
                text_says_running(state::opt_view(state_text)),
            );
            match r {
                Err(e) => refusal == Some(e@),
                Ok(p) => {
                    &&& refusal is None
                    &&& kind_of(kind_raw@) == Some(p.kind)
                    &&& commands::arguments(args_raw@) == Ok::<_, Seq<char>>(text::views(p.args@))
                    &&& p.label@ == label_of(p.kind, script@)
                },
            }
        }),
{
    let busy = match state_text {
        Some(t) => match json::parse(t) {
            Some(job) => is_running(&job),
            None => false,
        },
        None => false,
    };
    plan_job(app, meta, kind_raw, script, args_raw, s, busy)
}

/// The answer of a command that was started.
pub fn job_started(command: &str, debug: Option<Json>) -> (r: Response)
    ensures
        r@ == output::accepted(
            output::debugged(
                seq![
                    ("status"@, JsonV::Str("running"@)),
                    ("command"@, JsonV::Str(command@)),
                ],
                output::debug_view(debug),
            ),
        ),
{
    let mut m = Members::new();
    m.put_text("status", "running");
    m.put_text("command", command);
    assert(m@ =~= seq![
        ("status"@, JsonV::Str("running"@)),
        ("command"@, JsonV::Str(command@)),
    ]);
    output::success(output::with_debug(m, debug))
}

/// The answer when a command could not be started.
pub fn fork_failed(error: &str) -> (r: Response)
    ensures
        r@ == output::refused("fork_failed"@, "could not start the command: "@ + error@),
{
    output::user_error("fork_failed", &text::cat("could not start the command: ", error))
}

/// No command ever changes the dependencies of an app that is running, and no
/// two commands of an app run at once.
pub proof fn law_jobs_keep_out_of_the_way(
    app: Seq<char>,
    app_type: Option<Seq<char>>,
    kind_raw: Seq<char>,
    script: Seq<char>,
    args_raw: Seq<char>,
    app_is_up: bool,
    job_is_running: bool,
)
    requires
        job_refusal(app, app_type, kind_raw, script, args_raw, app_is_up, job_is_running) is None,
    ensures
        !job_is_running,
        kind_of(kind_raw) is Some,
        kind_of(kind_raw)->0.rewrites() ==> !app_is_up,
        kind_of(kind_raw) == Some(Kind::Run) ==> commands::is_script_name(script),
{
}

// ---------------------------------------------------------------------------
// Interrupting
// ---------------------------------------------------------------------------

/// What is interrupted: the process group of a command, as `kill` takes it, and
/// the process that leads it.
#[derive(Debug, Clone, Copy, PartialEq, Eq, Structural)]
pub struct StopTarget {
    pub group: i32,
    pub pid: u32,
}

/// What a pid in a state file stands for. One that no process can have stands
/// for 0.
pub open spec fn target_of(pid: nat) -> StopTarget {
    StopTarget {
        group: if pid <= i32::MAX {
            (-(pid as int)) as i32
        } else {
            0
        },
        pid: if pid <= u32::MAX {
            pid as u32
        } else {
            0
        },
    }
}

/// The answer when there is nothing to interrupt.
pub open spec fn no_job() -> output::ResponseV {
    output::refused("no_job"@, "no command is running"@)
}

/// What is interrupted when a job is stopped.
pub open spec fn stop_outcome(job: Option<JsonV>) -> Result<StopTarget, output::ResponseV> {
    match job {
        None => Err(no_job()),
        Some(j) => if !says_running(j) {
            Err(no_job())
        } else {
            match json::number_member(j, "pid"@) {
                None => Err(
                    output::refused("no_job"@, "the running command has no process to stop"@),
                ),
                Some(p) => Ok(target_of(p)),
            }
        },
    }
}

/// What is interrupted when a job is stopped, by its state.
pub fn stop_target(job: Option<&Json>) -> (r: Result<StopTarget, Response>)
    ensures
        ({
            let j = match job {
                Some(j) => Some(j@),
                None => None,
            };
            match r {
                Ok(t) => stop_outcome(j) == Ok::<_, output::ResponseV>(t),
                Err(e) => stop_outcome(j) == Err::<StopTarget, _>(e@),
            }
        }),
{
    let j = match job {
        Some(j) => j,
        None => {
            return Err(output::user_error("no_job", "no command is running"));
        },
    };
    if !is_running(j) {
        return Err(output::user_error("no_job", "no command is running"));
    }
    match j.get_number("pid") {
        None => Err(output::user_error("no_job", "the running command has no process to stop")),
        Some(p) => {
            let group: i32 = if p <= 0x7fff_ffff {
                -(p as i32)
            } else {
                0
            };
            let pid: u32 = if p <= 0xffff_ffff {
                p as u32
            } else {
                0
            };
            Ok(StopTarget { group, pid })
        },
    }
}

/// A command that is to be interrupted: its processes, and what its state says.
pub struct StopJob {
    pub target: StopTarget,
    pub job: Json,
}

/// Interrupts the running command of an app: says which processes are told.
///
/// They get `SIGINT`, which npm and build tools know how to take, and only if
/// they insist `SIGKILL`. The signal goes to the group: npm delegates, and
/// killing only the leader would leave its children running.
pub fn cmd_stop_job(app: &str, known: bool, state_text: Option<&str>) -> (r: Result<
    StopJob,
    Response,
>)
    ensures
        ({
            let job = commands::read_json(state::opt_view(state_text));
            match r {
                Ok(s) => known && stop_outcome(job) == Ok::<_, output::ResponseV>(s.target)
                    && job == Some(s.job@),
                Err(e) => if known {
                    stop_outcome(job) == Err::<StopTarget, _>(e@)
                } else {
                    e@ == usage::no_such_app(app@)
                },
            }
        }),
{
    if !known {
        return Err(usage::app_not_found(app));
    }
    let job = match state_text {
        Some(t) => json::parse(t),
        None => None,
    };
    match job {
        None => match stop_target(None) {
            Ok(t) => Ok(StopJob { target: t, job: Json::Null }),
            Err(e) => Err(e),
        },
        Some(j) => match stop_target(Some(&j)) {
            Ok(t) => Ok(StopJob { target: t, job: j }),
            Err(e) => Err(e),
        },
    }
}

/// What comes of a look at a command that was interrupted.
#[derive(Debug, Clone, Copy, PartialEq, Eq, Structural)]
pub enum StopJobStep {
    Wait,
    Kill,
    Done,
}

/// What comes of the look number `looks` at a command that was interrupted.
pub fn stop_job_step(alive: bool, looks: u32) -> (r: StopJobStep)
    ensures
        r == (if !alive {
            StopJobStep::Done
        } else if looks < STOP_POLLS {
            StopJobStep::Wait
        } else {
            StopJobStep::Kill
        }),
{
    if !alive {
        StopJobStep::Done
    } else if looks < STOP_POLLS {
        StopJobStep::Wait
    } else {
        StopJobStep::Kill
    }
}

/// The answer when a command was interrupted.
pub fn job_stopped(debug: Option<Json>) -> (r: Response)
    ensures
        r@ == output::accepted(
            output::debugged(seq![("stopped"@, JsonV::Bool(true))], output::debug_view(debug)),
        ),
{
    let mut m = Members::new();
    m.put_bool("stopped", true);
    assert(m@ =~= seq![("stopped"@, JsonV::Bool(true))]);
    output::success(output::with_debug(m, debug))
}

// ---------------------------------------------------------------------------
// Looking
// ---------------------------------------------------------------------------

/// What is shown of a job: its state with its output, without escape sequences.
pub open spec fn shown_job(job: Option<JsonV>, tail: Seq<Seq<char>>) -> JsonV {
    match job {
        Some(JsonV::Obj(ms)) => JsonV::Obj(
            json::with_member(
                ms,
                "lines"@,
                JsonV::List(output::text_views(logs::all_plain(tail))),
            ),
        ),
        Some(other) => other,
        None => JsonV::Null,
    }
}

/// Shows a job that has been read, if there is one.
pub fn job_report(job: Option<Json>, tail: &Vec<String>, debug: Option<Json>) -> (r: Response)
    ensures
        r@ == output::accepted(
            output::debugged(
                seq![("job"@, shown_job(json::json_view(job), text::views(tail@)))],
                output::debug_view(debug),
            ),
        ),
{
    let ghost want = shown_job(json::json_view(job), text::views(tail@));
    let shown = match job {
        Some(j) => j.set("lines", output::strings(&logs::strip_all(tail))),
        None => Json::Null,
    };
    let mut m = Members::new();
    m.put("job", shown);
    assert(m@ =~= seq![("job"@, want)]);
    output::success(output::with_debug(m, debug))
}

/// Shows the last npm command of an app with its output: `state_text` is what
/// its state file holds and `tail` the end of its log. This is how a page finds
/// a command again that is still running.
pub fn cmd_job_status(
    app: &str,
    known: bool,
    state_text: Option<&str>,
    tail: &Vec<String>,
    debug: Option<Json>,
) -> (r: Response)
    ensures
        r@ == (if !known {
            usage::no_such_app(app@)
        } else {
            output::accepted(
                output::debugged(
                    seq![
                        (
                            "job"@,
                            shown_job(
                                commands::read_json(state::opt_view(state_text)),
                                text::views(tail@),
                            ),
                        ),
                    ],
                    output::debug_view(debug),
                ),
            )
        }),
{
    if !known {
        return usage::app_not_found(app);
    }
    let job = match state_text {
        Some(t) => json::parse(t),
        None => None,
    };
    job_report(job, tail, debug)
}

/// A command is run for a `node` app, when it is one of the four, its script has a
/// name that can be one, its arguments are acceptable and nothing else is at work:
/// no other command, and for all but `run` not the app either.
pub proof fn law_jobs_are_accepted_exactly_when_they_may_run(
    app: Seq<char>,
    app_type: Option<Seq<char>>,
    kind_raw: Seq<char>,
    script: Seq<char>,
    args_raw: Seq<char>,
    app_is_up: bool,
    job_is_running: bool,
)
    ensures
        job_refusal(app, app_type, kind_raw, script, args_raw, app_is_up, job_is_running) is None
            <==> {
            &&& app_type == Some("node"@)
            &&& kind_raw == "install"@ || kind_raw == "update"@ || kind_raw == "ci"@ || kind_raw
                == "run"@
            &&& kind_raw == "run"@ ==> commands::is_script_name(script)
            &&& kind_raw != "run"@ ==> !app_is_up
            &&& commands::arguments(args_raw) is Ok
            &&& !job_is_running
        },
        job_refusal(app, app_type, kind_raw, script, args_raw, app_is_up, job_is_running)
            matches Some(r) ==> r.exit == 1,
{
    reveal_strlit("install");
    reveal_strlit("update");
    reveal_strlit("ci");
    reveal_strlit("run");
    assert("install"@.len() == 7 && "update"@.len() == 6 && "ci"@.len() == 2 && "run"@.len() == 3);
}

/// Each reason for which a command is not run has its own code.
pub proof fn law_refused_jobs_say_why(
    app: Seq<char>,
    app_type: Seq<char>,
    kind_raw: Seq<char>,
    script: Seq<char>,
    args_raw: Seq<char>,
    app_is_up: bool,
    job_is_running: bool,
)
    ensures
        job_refusal(app, None, kind_raw, script, args_raw, app_is_up, job_is_running) == Some(
            output::refused("app_not_found"@, "app '"@ + app + "' not found"@),
        ),
        app_type != "node"@ ==> job_refusal(
            app,
            Some(app_type),
            kind_raw,
            script,
            args_raw,
            app_is_up,
            job_is_running,
        ) == Some(output::refused("not_node"@, "only Node.js apps run npm commands"@)),
        !commands::is_script_name(script) ==> job_refusal(
            app,
            Some("node"@),
            "run"@,
            script,
            args_raw,
            app_is_up,
            job_is_running,
        ) == Some(output::refused("invalid_script"@, "script name is not acceptable"@)),
        commands::is_script_name(script) && commands::arguments(args_raw) is Ok ==> job_refusal(
            app,
            Some("node"@),
            "run"@,
            script,
            args_raw,
            app_is_up,
            job_is_running,
        ) == (if job_is_running {
            Some(output::refused("job_running"@, "another command is already running"@))
        } else {
            None
        }),
        commands::arguments(args_raw) is Ok && app_is_up ==> job_refusal(
            app,
            Some("node"@),
            "ci"@,
            script,
            args_raw,
            app_is_up,
            job_is_running,
        ) == Some(
            output::refused(
                "app_running"@,
                "stop the application before changing its dependencies"@,
            ),
        ),
        commands::arguments(args_raw) matches Err(m) ==> job_refusal(
            app,
            Some("node"@),
            "update"@,
            script,
            args_raw,
            app_is_up,
            job_is_running,
        ) == Some(output::refused("invalid_arguments"@, m)),
{
    reveal_strlit("install");
    reveal_strlit("update");
    reveal_strlit("ci");
    reveal_strlit("run");
    assert("install"@.len() == 7 && "update"@.len() == 6 && "ci"@.len() == 2 && "run"@.len() == 3);
}

/// A script is run by its name, with what was typed behind `--` where anything was.
pub proof fn law_scripts_run_by_name(script: Seq<char>, args: Seq<Seq<char>>)
    ensures
        npm_args(Kind::Run, script, Seq::empty()) == seq![
            "run"@,
            script,
            "--no-audit"@,
            "--no-fund"@,
        ],
        args.len() > 0 ==> npm_args(Kind::Run, script, args) == seq![
            "run"@,
            script,
            "--no-audit"@,
            "--no-fund"@,
            "--"@,
        ] + args,
        npm_args(Kind::Install, script, args)[0] == "install"@,
        npm_args(Kind::Update, script, args)[0] == "update"@,
        npm_args(Kind::Ci, script, args)[0] == "ci"@,
        label_of(Kind::Run, script) == "npm run "@ + script,
        label_of(Kind::Install, script) == "npm "@ + "install"@,
        label_of(Kind::Update, script) == "npm "@ + "update"@,
        label_of(Kind::Ci, script) == "npm "@ + "ci"@,
{
}

/// npm is the one beside the interpreter, and runs in the directory of the app,
/// which is its home too.
pub proof fn law_npm_comes_with_the_interpreter(
    dir: Seq<char>,
    node_bin: Seq<char>,
    cwd: Seq<char>,
    kind: Kind,
    script: Seq<char>,
    args: Seq<Seq<char>>,
)
    requires
        state::parent_of(node_bin) == Some(dir),
    ensures
        ({
            let r = npm_command(cwd, node_bin, kind, script, args);
            &&& r.program == path::under(dir, "npm"@)
            &&& r.args == npm_args(kind, script, args)
            &&& r.current_dir == Some(cwd)
            &&& start::setting(r.env, "HOME"@) == Some(cwd)
            &&& start::setting(r.env, "PATH"@) == Some(dir + ":/usr/bin:/bin"@)
        }),
{
    let r = npm_command(cwd, node_bin, kind, script, args);
    reveal_strlit("HOME");
    reveal_strlit("PATH");
    reveal_strlit("NO_COLOR");
    reveal_strlit("npm_config_progress");
    assert("HOME"@.len() == 4 && "PATH"@.len() == 4 && "NO_COLOR"@.len() == 8
        && "npm_config_progress"@.len() == 19);
    assert("HOME"@[0] == 'H' && "PATH"@[0] == 'P');
    let e3 = r.env.drop_last();
    let e2 = e3.drop_last();
    let e1 = e2.drop_last();
    assert(r.env.last().0 == "npm_config_progress"@);
    assert(e3.last().0 == "NO_COLOR"@);
    assert(e2.last() == ("HOME"@, Some(cwd)));
    assert(e1.last() == ("PATH"@, Some(dir + ":/usr/bin:/bin"@)));
    reveal_with_fuel(start::setting, 5);
}

/// A job is stopped by its whole group: the process that its state names, negated.
/// Without a job that runs, or a process of it, there is nothing to stop.
pub proof fn law_running_jobs_are_stopped_by_group(
    command: Seq<char>,
    started_at: nat,
    finished_at: nat,
    pid: u32,
    code: i32,
    timed_out: bool,
)
    requires
        pid <= i32::MAX,
    ensures
        stop_outcome(Some(running_view(command, started_at, Some(pid)))) matches Ok(t) && t.group
            == -(pid as int) && t.pid == pid,
        stop_outcome(Some(running_view(command, started_at, None))) matches Err(r) && r.exit == 1,
        stop_outcome(
            Some(finished_view(command, started_at, finished_at, code, timed_out)),
        ) == Err::<StopTarget, output::ResponseV>(
            output::refused("no_job"@, "no command is running"@),
        ),
        stop_outcome(None) == Err::<StopTarget, output::ResponseV>(
            output::refused("no_job"@, "no command is running"@),
        ),
{
    law_state_tells_whether_a_job_runs(
        command,
        started_at,
        finished_at,
        Some(pid),
        code,
        timed_out,
        JsonV::Null,
    );
    law_state_tells_whether_a_job_runs(
        command,
        started_at,
        finished_at,
        None,
        code,
        timed_out,
        JsonV::Null,
    );
    reveal_strlit("status");
    reveal_strlit("command");
    reveal_strlit("started_at");
    reveal_strlit("pid");
    assert("status"@.len() == 6 && "command"@.len() == 7 && "started_at"@.len() == 10 && "pid"@.len()
        == 3);
    let before = seq![
        ("status"@, JsonV::Str("running"@)),
        ("command"@, JsonV::Str(command)),
        ("started_at"@, JsonV::Num(started_at)),
    ];
    json::law_members_are_found_by_key(before, "pid"@, JsonV::Num(pid as nat), Seq::empty());
    let with_pid = before.push(("pid"@, JsonV::Num(pid as nat)));
    assert(with_pid + Seq::<(Seq<char>, JsonV)>::empty() =~= with_pid);
}

/// A command that ran out of time ended so whatever it returned; otherwise it went
/// well when it returned 0.
pub proof fn law_endings_are_told_apart(code: i32)
    ensures
        ended(code, true) == "timeout"@,
        ended(0, false) == "ok"@,
        code != 0 ==> ended(code, false) == "failed"@,
{
}

/// A job is shown as its state says, with the lines of its output put in.
pub proof fn law_shown_jobs_keep_their_state(
    ms: Seq<(Seq<char>, JsonV)>,
    tail: Seq<Seq<char>>,
    key: Seq<char>,
)
    ensures
        json::member(shown_job(Some(JsonV::Obj(ms)), tail), "lines"@) == Some(
            JsonV::List(output::text_views(logs::all_plain(tail))),
        ),
        key != "lines"@ ==> json::member(shown_job(Some(JsonV::Obj(ms)), tail), key)
            == json::member(JsonV::Obj(ms), key),
        shown_job(None, tail) == JsonV::Null,
{
    json::law_setting_a_member_leaves_the_others(
        ms,
        "lines"@,
        JsonV::List(output::text_views(logs::all_plain(tail))),
        key,
    );
}

/// The state of a job is root's, and the account's group may read it.
pub proof fn law_job_states_stay_roots(file: Seq<char>, content: Seq<char>, gid: int)
    ensures
        ({
            let r = state_kept(file, content, gid);
            &&& r.len() == 3
            &&& r[0].must && r[0].change == effect::ChangeV::Write(file, content)
            &&& r[1].change == effect::ChangeV::SetMode(file, 416)
            &&& r[2].change == effect::ChangeV::Own(file, 0, gid)
        }),
{
}

/// A state file that cannot be read says that no command is running, and one that
/// can says what its state says.
pub proof fn law_unreadable_states_say_nothing(text: Seq<char>)
    ensures
        !text_says_running(None),
        json::parsed(text) is None ==> !text_says_running(Some(text)),
        json::parsed(text) matches Some(job) ==> (text_says_running(Some(text)) <==> json::text_member(
            job,
            "status"@,
        ) == Some("running"@)),
{
}

/// A process that its state names is stopped by its number, and its group where the
/// number can be negated; what no process can have stands for 0.
pub proof fn law_targets_in_numbers(pid: nat)
    ensures
        pid <= 0x7fff_ffff ==> target_of(pid).group == -(pid as int),
        pid > 0x7fff_ffff ==> target_of(pid).group == 0,
        pid <= 0xffff_ffff ==> target_of(pid).pid == pid,
        pid > 0xffff_ffff ==> target_of(pid).pid == 0,
{
}

/// npm prints neither colours nor its progress.
pub proof fn law_npm_prints_plainly(
    node_bin: Seq<char>,
    cwd: Seq<char>,
    kind: Kind,
    script: Seq<char>,
    args: Seq<Seq<char>>,
)
    ensures
        ({
            let env = npm_command(cwd, node_bin, kind, script, args).env;
            &&& env.len() == 4
            &&& env.contains(("NO_COLOR"@, Some("1"@)))
            &&& env.contains(("npm_config_progress"@, Some("false"@)))
        }),
        state::parent_of(node_bin) is None ==> npm_command(
            cwd,
            node_bin,
            kind,
            script,
            args,
        ).program == path::under("/usr/local/bin"@, "npm"@),
{
    let env = npm_command(cwd, node_bin, kind, script, args).env;
    assert(env[2] == ("NO_COLOR"@, Some("1"@)));
    assert(env[3] == ("npm_config_progress"@, Some("false"@)));
}

} // verus!
