//! Restoring the apps that were running before the last reboot.
//!
//! An app carries a `.enabled` marker while it is meant to be running; one that
//! was stopped has none and stays stopped.

use vstd::prelude::*;

use crate::app::status;
use crate::sys::output;
use crate::sys::output::{Json, JsonV, Members, Response};
use crate::sys::state;
use crate::text;

verus! {

/// An app of an account, by both names.
pub open spec fn full_name(username: Seq<char>, name: Seq<char>) -> Seq<char> {
    username + "/"@ + name
}

/// An app of an account, as `user/name`.
pub fn named(username: &str, name: &str) -> (r: String)
    ensures
        r@ == full_name(username@, name@),
{
    let mut full = username.to_string();
    full.append("/");
    full.append(name);
    full
}

/// A line of the boot log.
pub fn log_line(now: u64, line: &str) -> (r: String)
    ensures
        r@ == "["@ + text::decimal(now as nat) + "] "@ + line@ + "\n"@,
{
    let mut out = "[".to_string();
    out.append(&text::show_u64(now));
    out.append("] ");
    out.append(line);
    out.append("\n");
    out
}

/// The line that the log of a boot begins with.
pub fn scanning_line() -> (r: String)
    ensures
        r@ == "boot-recover: scanning "@ + state::STATE_BASE@,
{
    text::cat("boot-recover: scanning ", state::STATE_BASE)
}

/// The line that the log of a boot ends with.
pub const DONE_LINE: &'static str = "boot-recover: done";

/// Whether an app is still alive, judged from its recorded pid.
///
/// This runs as root, so the pid cannot be held against the caller's; after a
/// reboot the recorded one is stale anyway, which is what has to be noticed.
pub fn already_running(pid_file: Option<&str>, alive: bool) -> (r: bool)
    ensures
        r == (status::pid_in(state::opt_view(pid_file)) is Some && alive),
{
    status::recorded_pid(pid_file).is_some() && alive
}

/// What is done for an app at boot: the stale pid file to remove, the line to
/// log, and whether it is started.
pub struct BootStep {
    pub stale_pid_file: Option<String>,
    pub line: Option<String>,
    pub start: bool,
}

/// What is done for an app at boot. `pid_file` is the content of its pid file
/// and `alive` whether that process lives.
pub fn boot_step(
    state_dir: &str,
    username: &str,
    name: &str,
    enabled: bool,
    pid_file: Option<&str>,
    alive: bool,
) -> (r: BootStep)
    ensures
        ({
            let runs = status::pid_in(state::opt_view(pid_file)) is Some && alive;
            let full = full_name(username@, name@);
            &&& r.start == (enabled && !runs)
            &&& r.stale_pid_file is Some <==> r.start
            &&& r.stale_pid_file matches Some(f) ==> f@ == state::run_file(
                state_dir@,
                name@,
                ".pid"@,
            )
            &&& match r.line {
                None => !enabled,
                Some(l) => enabled && l@ == (if runs {
                    "skip: "@ + full + " already running"@
                } else {
                    "start: "@ + full
                }),
            }
        }),
{
    if !enabled {
        return BootStep { stale_pid_file: None, line: None, start: false };
    }
    let full = named(username, name);
    if already_running(pid_file, alive) {
        let mut line = "skip: ".to_string();
        line.append(&full);
        line.append(" already running");
        return BootStep { stale_pid_file: None, line: Some(line), start: false };
    }
    BootStep {
        stale_pid_file: Some(state::run_file_path(state_dir, name, ".pid")),
        line: Some(text::cat("start: ", &full)),
        start: true,
    }
}

/// An app that was started at boot, and whether it came up.
pub struct Recovered {
    pub username: String,
    pub name: String,
    pub came_up: bool,
}

/// The line to log for an app that was started at boot.
pub fn outcome_line(app: &Recovered) -> (r: String)
    ensures
        r@ == (if app.came_up {
            "ok: "@
        } else {
            "fail: "@
        }) + full_name(app.username@, app.name@),
{
    let full = named(&app.username, &app.name);
    if app.came_up {
        text::cat("ok: ", &full)
    } else {
        text::cat("fail: ", &full)
    }
}

/// The apps among these that came up.
pub open spec fn restored(apps: Seq<Recovered>) -> Seq<Seq<char>>
    decreases apps.len(),
{
    if apps.len() == 0 {
        Seq::empty()
    } else {
        let a = apps.last();
        if a.came_up {
            restored(apps.drop_last()).push(full_name(a.username@, a.name@))
        } else {
            restored(apps.drop_last())
        }
    }
}

/// The apps that were started and came up, as `user/name`.
pub fn recover_all(apps: &Vec<Recovered>) -> (r: Vec<String>)
    ensures
        text::views(r@) == restored(apps@),
{
    let mut out: Vec<String> = Vec::new();
    let mut i: usize = 0;
    assert(text::views(out@) =~= restored(apps@.take(0)));
    while i < apps.len()
        invariant
            i <= apps@.len(),
            text::views(out@) == restored(apps@.take(i as int)),
        decreases apps@.len() - i,
    {
        let ghost before = text::views(out@);
        assert(apps@.take(i + 1).drop_last() =~= apps@.take(i as int));
        if apps[i].came_up {
            let full = named(&apps[i].username, &apps[i].name);
            out.push(full);
            assert(text::views(out@) =~= before.push(full@));
        }
        i = i + 1;
    }
    assert(apps@.take(i as int) =~= apps@);
    out
}

/// How many apps, and which.
pub open spec fn counted(key: Seq<char>, apps: Seq<Seq<char>>) -> Seq<(Seq<char>, JsonV)> {
    seq![(key, JsonV::Num(apps.len())), ("apps"@, JsonV::List(output::text_views(apps)))]
}

/// How many apps, and which, as members of an answer.
pub fn count_apps(key: &str, apps: &Vec<String>) -> (r: Members)
    ensures
        r@ == counted(key@, text::views(apps@)),
{
    let ghost shown = JsonV::List(output::text_views(text::views(apps@)));
    let mut m = Members::new();
    m.put_number(key, apps.len() as u64);
    m.put("apps", output::strings(apps));
    assert(text::views(apps@).len() == apps@.len());
    assert(m@ =~= counted(key@, text::views(apps@)));
    m
}

/// Reports the apps that were restored.
pub fn cmd_boot_recover(started: &Vec<String>, debug: Option<Json>) -> (r: Response)
    ensures
        r@ == output::accepted(
            output::debugged(
                counted("started"@, text::views(started@)),
                output::debug_view(debug),
            ),
        ),
{
    output::success(output::with_debug(count_apps("started", started), debug))
}

/// An app is reported as restored when it came up, by its account and its name.
pub proof fn law_apps_that_came_up_are_restored(apps: Seq<Recovered>, a: Recovered)
    ensures
        restored(Seq::empty()).len() == 0,
        a.came_up ==> restored(apps.push(a)) == restored(apps).push(
            a.username@.push('/') + a.name@,
        ),
        !a.came_up ==> restored(apps.push(a)) == restored(apps),
{
    reveal_strlit("/");
    assert(apps.push(a).drop_last() =~= apps);
    assert(a.username@ + "/"@ + a.name@ =~= a.username@.push('/') + a.name@);
}

/// As many apps are reported as are named.
pub proof fn law_reported_apps_are_counted(key: Seq<char>, apps: Seq<Seq<char>>)
    ensures
        counted(key, apps) == seq![
            (key, JsonV::Num(apps.len())),
            ("apps"@, JsonV::List(output::text_views(apps))),
        ],
        output::text_views(apps).len() == apps.len(),
        forall|i: int|
            0 <= i < apps.len() ==> #[trigger] output::text_views(apps)[i] == JsonV::Str(apps[i]),
{
}

} // verus!
