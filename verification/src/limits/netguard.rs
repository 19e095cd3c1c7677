//! Enforces the rule against externally reachable ports for apps that are
//! already running.
//!
//! A start checks this once, while the app starts. That is not enough: a child
//! of the app can bind a port at any moment afterwards. The sweep looks at every
//! process in the app's cgroup. Loopback is allowed: an app talking to itself
//! bypasses nothing.

use vstd::prelude::*;

use crate::app::boot;
use crate::app::status;
use crate::sys::kv;
use crate::sys::output;
use crate::sys::output::{Json, Response};
use crate::sys::state;
use crate::sys::state::AppMeta;
use crate::text;

verus! {

/// Grace period for an app to shut down before it is killed, in seconds.
pub const STOP_TIMEOUT_SECS: u64 = 5;

/// Time between two looks at an app that is to shut down, in milliseconds.
pub const STOP_POLL_MILLIS: u64 = 100;

/// An app as a sweep finds it: whether its metadata can be loaded, the
/// processes of its cgroup, and whether one of them bound an externally
/// reachable port.
pub struct Swept {
    pub name: String,
    pub loaded: bool,
    pub pids: Vec<u32>,
    pub external: bool,
}

/// Whether a sweep stops an app.
pub open spec fn offends(app: Swept) -> bool {
    app.loaded && app.pids@.len() > 0 && app.external
}

/// Whether a sweep stops an app.
pub fn is_offending(app: &Swept) -> (r: bool)
    ensures
        r == offends(*app),
{
    app.loaded && app.pids.len() > 0 && app.external
}

/// The apps that a sweep stops.
pub open spec fn offenders(apps: Seq<Swept>) -> Seq<Seq<char>>
    decreases apps.len(),
{
    if apps.len() == 0 {
        Seq::empty()
    } else if offends(apps.last()) {
        offenders(apps.drop_last()).push(apps.last().name@)
    } else {
        offenders(apps.drop_last())
    }
}

/// Checks every app of an account: the names of those that have to be stopped.
pub fn sweep_account(apps: &Vec<Swept>) -> (r: Vec<String>)
    ensures
        text::views(r@) == offenders(apps@),
{
    let mut out: Vec<String> = Vec::new();
    let mut i: usize = 0;
    assert(text::views(out@) =~= offenders(apps@.take(0)));
    while i < apps.len()
        invariant
            i <= apps@.len(),
            text::views(out@) == offenders(apps@.take(i as int)),
        decreases apps@.len() - i,
    {
        let ghost before = text::views(out@);
        assert(apps@.take(i + 1).drop_last() =~= apps@.take(i as int));
        if is_offending(&apps[i]) {
            let name = apps[i].name.clone();
            out.push(name);
            assert(text::views(out@) =~= before.push(name@));
        }
        i = i + 1;
    }
    assert(apps@.take(i as int) =~= apps@);
    out
}

/// An account as a sweep finds it.
pub struct SweptAccount {
    pub username: String,
    pub apps: Vec<Swept>,
}

/// These apps of an account, as `user/name`.
pub open spec fn full_names(username: Seq<char>, names: Seq<Seq<char>>) -> Seq<Seq<char>> {
    Seq::new(names.len(), |i: int| boot::full_name(username, names[i]))
}

/// All the apps that a sweep of the server stops.
pub open spec fn all_offenders(accounts: Seq<SweptAccount>) -> Seq<Seq<char>>
    decreases accounts.len(),
{
    if accounts.len() == 0 {
        Seq::empty()
    } else {
        let a = accounts.last();
        all_offenders(accounts.drop_last()) + full_names(a.username@, offenders(a.apps@))
    }
}

fn add_full_names(username: &str, names: &Vec<String>, out: &mut Vec<String>)
    ensures
        text::views(final(out)@) == text::views(old(out)@) + full_names(
            username@,
            text::views(names@),
        ),
{
    let ghost before = text::views(out@);
    let ghost want = full_names(username@, text::views(names@));
    let mut i: usize = 0;
    assert(before + want.take(0) =~= before);
    while i < names.len()
        invariant
            want == full_names(username@, text::views(names@)),
            i <= names@.len(),
            text::views(out@) == before + want.take(i as int),
        decreases names@.len() - i,
    {
        let ghost so_far = text::views(out@);
        let full = boot::named(username, &names[i]);
        assert(full@ == want[i as int]);
        out.push(full);
        assert(text::views(out@) =~= so_far.push(full@));
        assert(so_far.push(full@) =~= before + want.take(i + 1));
        i = i + 1;
    }
    assert(want.take(i as int) =~= want);
}

/// Sweeps every account on the server: the apps to stop, as `user/name`.
pub fn sweep_all_accounts(accounts: &Vec<SweptAccount>) -> (r: Vec<String>)
    ensures
        text::views(r@) == all_offenders(accounts@),
{
    let mut out: Vec<String> = Vec::new();
    let mut i: usize = 0;
    assert(text::views(out@) =~= all_offenders(accounts@.take(0)));
    while i < accounts.len()
        invariant
            i <= accounts@.len(),
            text::views(out@) == all_offenders(accounts@.take(i as int)),
        decreases accounts@.len() - i,
    {
        assert(accounts@.take(i + 1).drop_last() =~= accounts@.take(i as int));
        let names = sweep_account(&accounts[i].apps);
        add_full_names(&accounts[i].username, &names, &mut out);
        i = i + 1;
    }
    assert(accounts@.take(i as int) =~= accounts@);
    out
}

/// How an app is brought down as root: the marker that routes requests to it
/// goes first, then all of these processes are told to end, and behind them the
/// files go.
pub struct GuardPlan {
    pub marker: String,
    pub targets: Vec<u32>,
    pub cleanup: Vec<String>,
}

/// The files of an app that was brought down. `.enabled` goes only when it is
/// down for good: that is what brings an app back.
pub open spec fn remains(
    state_dir: Seq<char>,
    name: Seq<char>,
    socket: Seq<char>,
    drop_enabled: bool,
) -> Seq<Seq<char>> {
    let files = seq![
        socket,
        state::run_file(state_dir, name, ".pid"@),
        state::run_file(state_dir, name, ".meta"@),
    ];
    if drop_enabled {
        files.push(state::run_file(state_dir, name, ".enabled"@))
    } else {
        files
    }
}

/// How an offending app is stopped, with everything it spawned.
///
/// The processes of the cgroup are told directly, which reaches the child that
/// opened the port.
pub fn stop_offending_app(
    state_dir: &str,
    name: &str,
    meta: &AppMeta,
    pids: Vec<u32>,
    recorded: Option<&str>,
    isolated: bool,
    drop_enabled: bool,
) -> (r: GuardPlan)
    ensures
        r.marker@ == state::marker_path(state_dir@, meta.host@),
        r.targets@ == pids@,
        text::views(r.cleanup@) == remains(
            state_dir@,
            name@,
            state::active_socket(state_dir@, meta@, state::opt_view(recorded), isolated),
            drop_enabled,
        ),
{
    let socket = state::active_socket_path(state_dir, meta, recorded, isolated);
    let ghost at = socket@;
    let mut cleanup: Vec<String> = Vec::new();
    cleanup.push(socket);
    cleanup.push(state::run_file_path(state_dir, name, ".pid"));
    cleanup.push(state::run_file_path(state_dir, name, ".meta"));
    if drop_enabled {
        cleanup.push(state::run_file_path(state_dir, name, ".enabled"));
    }
    assert(text::views(cleanup@) =~= remains(state_dir@, name@, at, drop_enabled));
    GuardPlan { marker: state::marker_file(state_dir, &meta.host), targets: pids, cleanup }
}

/// Whether the wait for an app to shut down is over; what still lives is then
/// killed.
pub fn stop_is_over(any_alive: bool, time_is_up: bool) -> (r: bool)
    ensures
        r == (!any_alive || time_is_up),
{
    !any_alive || time_is_up
}

/// Which processes are told to end for the app with this pid: it and what is
/// below it, when it began as the app's `.meta` records, or nothing is recorded;
/// none when the process is gone or another one took over its pid.
pub open spec fn tree_targets(
    pid: u32,
    descendants: Seq<u32>,
    meta: Seq<char>,
    began: Option<nat>,
) -> Seq<u32> {
    if status::recorded_start(meta) == 0 || began == Some(status::recorded_start(meta)) {
        seq![pid] + descendants
    } else {
        Seq::empty()
    }
}

/// How an app and its whole process tree are stopped as root, for an app that
/// comes straight back up; nothing where no pid is recorded. What is left of the
/// app is removed whether or not its process is still there. `began` is the start
/// time of the process with the recorded pid, where there is one, and `recorded`
/// the content of the app's `.meta`.
pub fn stop_app_tree(
    state_dir: &str,
    name: &str,
    meta: &AppMeta,
    pid_file: Option<&str>,
    began: Option<u64>,
    descendants: &Vec<u32>,
    recorded: Option<&str>,
    isolated: bool,
) -> (r: Option<GuardPlan>)
    ensures
        ({
            let pid = status::pid_in(state::opt_view(pid_file));
            match r {
                None => pid is None,
                Some(p) => {
                    &&& pid is Some
                    &&& p.targets@ == tree_targets(
                        pid->0 as u32,
                        descendants@,
                        status::text_or_empty(state::opt_view(recorded)),
                        state::nat_of(began),
                    )
                    &&& p.marker@ == state::marker_path(state_dir@, meta.host@)
                    &&& text::views(p.cleanup@) == remains(
                        state_dir@,
                        name@,
                        state::active_socket(
                            state_dir@,
                            meta@,
                            state::opt_view(recorded),
                            isolated,
                        ),
                        false,
                    )
                },
            }
        }),
{
    let pid = match status::recorded_pid(pid_file) {
        Some(p) => p,
        None => {
            return None;
        },
    };
    let saved = status::saved_start(recorded);
    let same = match began {
        Some(t) => t == saved,
        None => false,
    };
    if saved > 0 && !same {
        let none: Vec<u32> = Vec::new();
        return Some(stop_offending_app(state_dir, name, meta, none, recorded, isolated, false));
    }
    let mut pids: Vec<u32> = Vec::new();
    pids.push(pid);
    let mut i: usize = 0;
    assert(seq![pid] + descendants@.take(0) =~= seq![pid]);
    while i < descendants.len()
        invariant
            i <= descendants@.len(),
            pids@ =~= seq![pid] + descendants@.take(i as int),
        decreases descendants@.len() - i,
    {
        pids.push(descendants[i]);
        i = i + 1;
    }
    assert(descendants@.take(i as int) =~= descendants@);
    Some(stop_offending_app(state_dir, name, meta, pids, recorded, isolated, false))
}

/// Where a start time was recorded, no process is told to end unless it began
/// then: one that took over the pid is left alone, with what is below it.
pub proof fn law_only_the_recorded_process_is_told(
    pid: u32,
    descendants: Seq<u32>,
    meta: Seq<char>,
    began: Option<nat>,
)
    requires
        status::recorded_start(meta) > 0,
    ensures
        tree_targets(pid, descendants, meta, began).len() > 0 ==> began == Some(
            status::recorded_start(meta),
        ),
{
}

/// Reports what a sweep stopped.
pub fn report(stopped: &Vec<String>, debug: Option<Json>) -> (r: Response)
    ensures
        r@ == output::accepted(
            output::debugged(
                boot::counted("stopped"@, text::views(stopped@)),
                output::debug_view(debug),
            ),
        ),
{
    output::success(output::with_debug(boot::count_apps("stopped", stopped), debug))
}

/// A sweep stops exactly the apps with an externally reachable port: no other
/// one is ever named.
pub proof fn law_only_offenders_are_stopped(apps: Seq<Swept>, name: Seq<char>)
    ensures
        offenders(apps).contains(name) <==> exists|i: int|
            0 <= i < apps.len() && offends(#[trigger] apps[i]) && apps[i].name@ == name,
    decreases apps.len(),
{
    if apps.len() > 0 {
        let front = apps.drop_last();
        law_only_offenders_are_stopped(front, name);
        if offenders(apps).contains(name) {
            let k = choose|k: int| 0 <= k < offenders(apps).len() && offenders(apps)[k] == name;
            if k < offenders(front).len() {
                assert(offenders(front)[k] == name);
                assert(offenders(front).contains(name));
                let i = choose|i: int|
                    0 <= i < front.len() && offends(#[trigger] front[i]) && front[i].name@ == name;
                assert(apps[i] == front[i]);
            } else {
                assert(offends(apps[apps.len() - 1]));
            }
        }
        if exists|i: int|
            0 <= i < apps.len() && offends(#[trigger] apps[i]) && apps[i].name@ == name {
            let i = choose|i: int|
                0 <= i < apps.len() && offends(#[trigger] apps[i]) && apps[i].name@ == name;
            if i < front.len() {
                assert(front[i] == apps[i]);
                let k = choose|k: int|
                    0 <= k < offenders(front).len() && offenders(front)[k] == name;
                assert(offenders(apps)[k] == name);
            } else {
                assert(offenders(apps).last() == name);
            }
        }
    }
}

/// A sweep names an app exactly when its metadata is known, it has processes, and
/// one of them is bound to a port reachable from off the host.
pub proof fn law_sweep_stops_apps_with_reachable_ports(apps: Seq<Swept>, name: Seq<char>)
    ensures
        offenders(apps).contains(name) <==> exists|i: int|
            0 <= i < apps.len() && (#[trigger] apps[i]).name@ == name && apps[i].loaded
                && apps[i].pids@.len() > 0 && apps[i].external,
{
    law_only_offenders_are_stopped(apps, name);
    if offenders(apps).contains(name) {
        let i = choose|i: int|
            0 <= i < apps.len() && offends(#[trigger] apps[i]) && apps[i].name@ == name;
        assert(apps[i].name@ == name);
    }
    if exists|i: int|
        0 <= i < apps.len() && (#[trigger] apps[i]).name@ == name && apps[i].loaded
            && apps[i].pids@.len() > 0 && apps[i].external {
        let i = choose|i: int|
            0 <= i < apps.len() && (#[trigger] apps[i]).name@ == name && apps[i].loaded
                && apps[i].pids@.len() > 0 && apps[i].external;
        assert(offends(apps[i]));
    }
}

/// A sweep of the server reports what it stopped in every account, by both names.
pub proof fn law_sweep_reports_every_account(accounts: Seq<SweptAccount>, a: int, name: Seq<char>)
    requires
        0 <= a < accounts.len(),
        offenders(accounts[a].apps@).contains(name),
    ensures
        all_offenders(accounts).contains(accounts[a].username@ + "/"@ + name),
    decreases accounts.len(),
{
    let front = all_offenders(accounts.drop_last());
    let last = accounts.last();
    let back = full_names(last.username@, offenders(last.apps@));
    let full = accounts[a].username@ + "/"@ + name;
    if a < accounts.len() - 1 {
        law_sweep_reports_every_account(accounts.drop_last(), a, name);
        let k = choose|k: int| 0 <= k < front.len() && front[k] == full;
        assert(all_offenders(accounts)[k] == full);
    } else {
        let os = offenders(last.apps@);
        let k = choose|k: int| 0 <= k < os.len() && os[k] == name;
        assert(back[k] == full);
        assert(all_offenders(accounts)[front.len() + k] == full);
    }
}

/// What is left of an app that was brought down goes: its socket, its pid and what
/// was recorded of its run. What brings it back goes only when it is down for good.
pub proof fn law_remains_of_an_app(
    state_dir: Seq<char>,
    name: Seq<char>,
    socket: Seq<char>,
    drop_enabled: bool,
)
    requires
        state_dir.len() > 0,
        state_dir.last() != '/',
        name.len() > 0,
        name[0] != '/',
    ensures
        remains(state_dir, name, socket, drop_enabled).contains(socket),
        remains(state_dir, name, socket, drop_enabled).contains(
            state_dir + "/.run/"@ + name + ".pid"@,
        ),
        remains(state_dir, name, socket, drop_enabled).contains(
            state_dir + "/.run/"@ + name + ".meta"@,
        ),
        drop_enabled ==> remains(state_dir, name, socket, drop_enabled).contains(
            state_dir + "/.run/"@ + name + ".enabled"@,
        ),
        remains(state_dir, name, socket, drop_enabled).len() == (if drop_enabled {
            4nat
        } else {
            3
        }),
{
    let r = remains(state_dir, name, socket, drop_enabled);
    state::law_run_files_lie_in_the_run_directory(state_dir, name, ".pid"@);
    state::law_run_files_lie_in_the_run_directory(state_dir, name, ".meta"@);
    state::law_run_files_lie_in_the_run_directory(state_dir, name, ".enabled"@);
    assert(r[0] == socket);
    assert(r[1] == state_dir + "/.run/"@ + name + ".pid"@);
    assert(r[2] == state_dir + "/.run/"@ + name + ".meta"@);
    if drop_enabled {
        assert(r[3] == state_dir + "/.run/"@ + name + ".enabled"@);
    }
}

/// Where the app's `.meta` records a start time, its process is told to end, with
/// all below it, exactly when it began then; where it records none, it is told in
/// any case.
pub proof fn law_tree_is_told_when_it_is_the_apps_own(
    above: Seq<char>,
    t: nat,
    pid: u32,
    descendants: Seq<u32>,
    began: Option<nat>,
)
    requires
        above.len() > 0 ==> above.last() == '\n',
        0 < t <= u64::MAX,
    ensures
        tree_targets(
            pid,
            descendants,
            above + "starttime="@ + text::decimal(t).push('\n'),
            began,
        ) == (if began == Some(t) {
            seq![pid] + descendants
        } else {
            Seq::empty()
        }),
        tree_targets(pid, descendants, Seq::empty(), began) == seq![pid] + descendants,
{
    status::law_recorded_start_is_read(above, t);
    kv::law_line_without_a_pair_says_nothing(Seq::empty(), Seq::empty());
    kv::law_values_are_looked_up(kv::of_text(Seq::empty()), "starttime"@, 0, u64::MAX as nat);
    assert(kv::of_text(Seq::empty()).remove("starttime"@) =~= kv::of_text(Seq::empty()));
}

} // verus!
