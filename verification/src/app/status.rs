//! Whether an app is running, and how one is stopped.

use vstd::prelude::*;

use crate::command::CommandLine;
use crate::command;
use crate::sys::kv;
use crate::sys::proc;
use crate::sys::state;
use crate::sys::state::{AppMeta, PLUGIN_PATH};
use crate::text;

verus! {

/// How long to wait between two looks at a process that is to end, in
/// milliseconds.
pub const STOP_POLL_MILLIS: u64 = 200;

/// Whether an app is running, under which pid, and since when.
#[derive(Debug, Clone, Copy, PartialEq, Eq, Structural)]
pub struct AppStatus {
    pub pid: Option<u32>,
    pub started_at: Option<u64>,
}

/// What an app that is not running has.
pub open spec fn stopped() -> AppStatus {
    AppStatus { pid: None, started_at: None }
}

impl AppStatus {
    /// An app with a pid is running.
    pub open spec fn is_up(self) -> bool {
        self.pid is Some
    }

    pub fn running(self) -> (r: bool)
        ensures
            r == self.is_up(),
    {
        self.pid.is_some()
    }

    pub open spec fn name(self) -> Seq<char> {
        if self.is_up() {
            "RUNNING"@
        } else {
            "STOPPED"@
        }
    }

    /// `RUNNING` or `STOPPED`.
    pub fn label(self) -> (r: &'static str)
        ensures
            r@ == self.name(),
    {
        if self.pid.is_some() {
            "RUNNING"
        } else {
            "STOPPED"
        }
    }
}

fn not_running() -> (r: AppStatus)
    ensures
        r == stopped(),
{
    AppStatus { pid: None, started_at: None }
}

/// The pid that a pid file records.
pub open spec fn pid_in(pid_file: Option<Seq<char>>) -> Option<nat> {
    match pid_file {
        Some(c) => text::number(text::trimmed(c), u32::MAX as nat),
        None => None,
    }
}

/// The pid that a pid file records.
pub fn recorded_pid(pid_file: Option<&str>) -> (r: Option<u32>)
    ensures
        r is Some <==> pid_in(state::opt_view(pid_file)) is Some,
        r matches Some(n) ==> pid_in(state::opt_view(pid_file)) == Some(n as nat),
{
    match pid_file {
        Some(c) => text::parse_u32(&text::trim(c)),
        None => None,
    }
}

/// The uid that a process has, from its `status`.
pub open spec fn owner_of(status: Option<Seq<char>>) -> Option<nat> {
    match status {
        Some(c) => proc::labelled(c, "Uid:"@, u32::MAX as nat),
        None => None,
    }
}

/// When a process began, from its `stat`.
pub open spec fn start_of(stat: Option<Seq<char>>) -> Option<nat> {
    match stat {
        Some(c) => proc::stat_number(c, proc::PROC_STAT_STARTTIME as int, u64::MAX as nat),
        None => None,
    }
}

/// The start time that a `.meta` file recorded; 0 when it recorded none that
/// can be read.
pub open spec fn recorded_start(meta: Seq<char>) -> nat {
    match kv::number_of(kv::of_text(meta), "starttime"@, u64::MAX as nat) {
        Some(n) => n,
        None => 0,
    }
}

/// Whether the process with the recorded pid is the app's own: it belongs to
/// the account, and it began when the app did, where that was recorded.
pub open spec fn is_own_process(
    uid: int,
    status: Option<Seq<char>>,
    meta: Seq<char>,
    stat: Option<Seq<char>>,
) -> bool {
    &&& owner_of(status) == Some(uid as nat)
    &&& recorded_start(meta) > 0 ==> start_of(stat) == Some(recorded_start(meta))
}

pub open spec fn text_or_empty(s: Option<Seq<char>>) -> Seq<char> {
    match s {
        Some(t) => t,
        None => Seq::empty(),
    }
}

/// The start time that the content of a `.meta` file records; 0 when it records
/// none.
pub fn saved_start(meta: Option<&str>) -> (r: u64)
    ensures
        r == recorded_start(text_or_empty(state::opt_view(meta))),
{
    let m = match meta {
        Some(c) => kv::parse_kv(c),
        None => {
            let empty = String::new();
            assert(empty@ =~= Seq::<char>::empty());
            kv::parse_kv(&empty)
        },
    };
    match m.get_u64("starttime") {
        Some(n) => n,
        None => 0,
    }
}

/// The status of an app, validating its pid against `/proc/{pid}/status` (uid
/// match) and `.meta` (no reuse of the pid by another process).
///
/// `pid_file` and `meta` are the contents of the app's files; `status` and
/// `stat` are what `/proc` says of the recorded pid. Each is there as far as it
/// could be read.
pub fn get_status(
    pid_file: Option<&str>,
    uid: u32,
    status: Option<&str>,
    meta: Option<&str>,
    stat: Option<&str>,
) -> (r: AppStatus)
    requires
        stat matches Some(s) ==> proc::is_parted_stat(s@),
    ensures
        ({
            let pid = pid_in(state::opt_view(pid_file));
            let m = text_or_empty(state::opt_view(meta));
            if pid is Some && is_own_process(
                uid as int,
                state::opt_view(status),
                m,
                state::opt_view(stat),
            ) {
                &&& r.pid matches Some(n) && pid == Some(n as nat)
                &&& state::nat_of(r.started_at) == kv::number_of(
                    kv::of_text(m),
                    "started_at"@,
                    u64::MAX as nat,
                )
            } else {
                r == stopped()
            }
        }),
{
    let pid: u32 = match recorded_pid(pid_file) {
        Some(p) => p,
        None => {
            return not_running();
        },
    };
    let owner = match status {
        Some(s) => proc::read_proc_uid(s),
        None => None,
    };
    let own = match owner {
        Some(u) => u == uid,
        None => false,
    };
    if !own {
        return not_running();
    }
    let m = match meta {
        Some(c) => kv::parse_kv(c),
        None => {
            let empty = String::new();
            assert(empty@ =~= Seq::<char>::empty());
            kv::parse_kv(&empty)
        },
    };
    let saved: u64 = match m.get_u64("starttime") {
        Some(n) => n,
        None => 0,
    };
    if saved > 0 {
        let began = match stat {
            Some(s) => proc::read_proc_starttime(s),
            None => None,
        };
        let same = match began {
            Some(t) => t == saved,
            None => false,
        };
        if !same {
            return not_running();
        }
    }
    AppStatus { pid: Some(pid), started_at: m.get_u64("started_at") }
}

/// A process of another account is never reported as the app, whatever the pid
/// file says.
pub proof fn law_foreign_process_is_not_the_app(
    uid: int,
    status: Option<Seq<char>>,
    meta: Seq<char>,
    stat: Option<Seq<char>>,
)
    requires
        owner_of(status) != Some(uid as nat),
    ensures
        !is_own_process(uid, status, meta, stat),
{
}

/// A process that took over the pid is not the app: it began at another time.
pub proof fn law_reused_pid_is_not_the_app(
    uid: int,
    status: Option<Seq<char>>,
    meta: Seq<char>,
    stat: Option<Seq<char>>,
)
    requires
        recorded_start(meta) > 0,
        start_of(stat) != Some(recorded_start(meta)),
    ensures
        !is_own_process(uid, status, meta, stat),
{
}

/// Lightweight status check used where the caller is root, whose uid never
/// matches. `alive` says whether the recorded pid is a process.
pub fn admin_get_status(pid_file: Option<&str>, alive: bool, meta: Option<&str>) -> (r: AppStatus)
    ensures
        ({
            let pid = pid_in(state::opt_view(pid_file));
            if pid is Some && alive {
                &&& r.pid matches Some(n) && pid == Some(n as nat)
                &&& state::nat_of(r.started_at) == (match meta {
                    Some(c) => kv::number_of(kv::of_text(c@), "started_at"@, u64::MAX as nat),
                    None => None,
                })
            } else {
                r == stopped()
            }
        }),
{
    match recorded_pid(pid_file) {
        None => not_running(),
        Some(pid) => {
            if !alive {
                return not_running();
            }
            let started_at = match meta {
                Some(c) => {
                    let m = kv::parse_kv(c);
                    m.get_u64("started_at")
                },
                None => None,
            };
            AppStatus { pid: Some(pid), started_at }
        },
    }
}

// ---------------------------------------------------------------------------
// Stopping
// ---------------------------------------------------------------------------

/// How an app is stopped: the proxy marker is removed first, so that nothing is
/// routed to a dying process; then every target is told to end and given time;
/// then what is left of the run is removed.
pub struct StopPlan {
    pub marker: String,
    pub targets: Vec<u32>,
    pub cleanup: Vec<String>,
}

/// The files that a stopped app leaves behind.
pub open spec fn leftovers(
    state_dir: Seq<char>,
    name: Seq<char>,
    socket: Seq<char>,
) -> Seq<Seq<char>> {
    seq![
        socket,
        state::run_file(state_dir, name, ".pid"@),
        state::run_file(state_dir, name, ".meta"@),
    ]
}

fn leftover_files(state_dir: &str, name: &str, socket: String) -> (r: Vec<String>)
    ensures
        text::views(r@) == leftovers(state_dir@, name@, socket@),
{
    let mut out: Vec<String> = Vec::new();
    out.push(socket);
    out.push(state::run_file_path(state_dir, name, ".pid"));
    out.push(state::run_file_path(state_dir, name, ".meta"));
    assert(text::views(out@) =~= leftovers(state_dir@, name@, socket@));
    out
}

/// How to stop an app, or `None` when it is not running. `descendants` are the
/// processes below the app's own: a sandbox does not pass signals on, so they
/// have to be told too. `recorded` is the content of the app's `.meta`.
pub fn stop_internal(
    state_dir: &str,
    name: &str,
    meta: &AppMeta,
    status: AppStatus,
    descendants: &Vec<u32>,
    recorded: Option<&str>,
    isolated: bool,
) -> (r: Option<StopPlan>)
    ensures
        r is Some <==> status.is_up(),
        r matches Some(p) ==> {
            &&& p.marker@ == state::marker_path(state_dir@, meta.host@)
            &&& p.targets@ == seq![status.pid->0] + descendants@
            &&& text::views(p.cleanup@) == leftovers(
                state_dir@,
                name@,
                state::active_socket(state_dir@, meta@, state::opt_view(recorded), isolated),
            )
        },
{
    match status.pid {
        None => None,
        Some(pid) => {
            let mut targets: Vec<u32> = Vec::new();
            targets.push(pid);
            let mut i: usize = 0;
            assert(descendants@.take(0) =~= Seq::<u32>::empty());
            while i < descendants.len()
                invariant
                    i <= descendants@.len(),
                    targets@ =~= seq![pid] + descendants@.take(i as int),
                decreases descendants@.len() - i,
            {
                targets.push(descendants[i]);
                i = i + 1;
            }
            assert(descendants@.take(i as int) =~= descendants@);
            let socket = state::active_socket_path(state_dir, meta, recorded, isolated);
            Some(
                StopPlan {
                    marker: state::marker_file(state_dir, &meta.host),
                    targets,
                    cleanup: leftover_files(state_dir, name, socket),
                },
            )
        },
    }
}

/// What to do next with an app that was told to end.
#[derive(Debug, Clone, Copy, PartialEq, Eq, Structural)]
pub enum StopStep {
    /// Wait and look again.
    Wait,
    /// Kill what is left, and then clean up.
    Kill,
    /// Everything has ended: clean up.
    CleanUp,
}

/// What to do next with an app that was told to end, after each wait: whether
/// any of its processes is alive still, and whether its time is up.
pub fn stop_step(any_alive: bool, time_is_up: bool) -> (r: StopStep)
    ensures
        r == (if !any_alive {
            StopStep::CleanUp
        } else if time_is_up {
            StopStep::Kill
        } else {
            StopStep::Wait
        }),
{
    if !any_alive {
        StopStep::CleanUp
    } else if time_is_up {
        StopStep::Kill
    } else {
        StopStep::Wait
    }
}

/// The command that starts one app by running the installed binary again, as
/// `username`. The installed path is the one the installer owns.
pub fn start_app_detached(username: &str, name: &str) -> (r: CommandLine)
    ensures
        r@ == (command::CommandV {
            program: PLUGIN_PATH@ + "/bin/core-selynt"@,
            args: seq!["start"@, name@],
            env: seq![("USERNAME"@, Some(username@))],
            current_dir: None,
        }),
{
    let program = text::cat(PLUGIN_PATH, "/bin/core-selynt");
    let mut cmd = CommandLine::new(&program);
    cmd.arg("start");
    cmd.arg(name);
    cmd.env("USERNAME", username);
    assert(cmd@.args =~= seq!["start"@, name@]);
    assert(cmd@.env =~= seq![("USERNAME"@, Some(username@))]);
    cmd
}

proof fn lemma_decimal_stays(n: nat)
    ensures
        !text::decimal(n).contains('\n'),
        text::decimal(n).len() > 0,
        text::decimal(n).last() != '\r',
        !text::is_space(text::decimal(n)[0]),
        !text::is_space(text::decimal(n).last()),
        forall|i: int| 0 <= i < text::decimal(n).len() ==> !text::is_space(
            #[trigger] text::decimal(n)[i],
        ),
{
    text::law_numbers_read_back(n, n);
    let d = text::decimal(n);
    assert forall|i: int| 0 <= i < d.len() implies !text::is_space(#[trigger] d[i]) && d[i] != '\n'
        && d[i] != '\r' by {
        assert('0' <= d[i] <= '9');
    }
}

/// The start time that a run records is the one that is read from its file, and the
/// pid that is written to a pid file is the one that is read from that.
pub proof fn law_recorded_start_is_read(above: Seq<char>, t: nat)
    requires
        above.len() > 0 ==> above.last() == '\n',
    ensures
        t <= u64::MAX ==> recorded_start(above + "starttime="@ + text::decimal(t).push('\n')) == t,
        t <= u32::MAX ==> pid_in(Some(text::decimal(t).push('\n'))) == Some(t),
        pid_in(None) is None,
        recorded_start(Seq::empty()) == 0,
{
    let key = "starttime"@;
    reveal_strlit("starttime");
    reveal_strlit("starttime=");
    lemma_decimal_stays(t);
    let d = text::decimal(t);
    let none = Seq::<char>::empty();
    assert(none + key + none =~= key);
    assert(above + "starttime="@ + d.push('\n') =~= above + key.push('=') + d.push('\n'));
    kv::law_line_states_its_pair(above, none, key, none, d);
    kv::law_values_are_looked_up(kv::of_text(above), key, t, u64::MAX as nat);
    assert(none + d + seq!['\n'] =~= d.push('\n'));
    text::law_trimming_takes_white_space(none, d, seq!['\n']);
    text::law_numbers_read_back(t, u32::MAX as nat);
    kv::law_line_without_a_pair_says_nothing(none, none);
}

/// A process is the app's own when its `status` gives the uid of the account, and
/// its `stat` the recorded start time, where one is recorded.
pub proof fn law_own_process_has_uid_and_start(
    uid: nat,
    above: Seq<char>,
    owner: nat,
    below: Seq<char>,
    saved: nat,
    head: Seq<char>,
    fields: Seq<char>,
)
    requires
        uid <= u32::MAX,
        owner <= u32::MAX,
        saved <= u64::MAX,
        above.len() > 0 ==> above.last() == '\n',
        forall|i: int|
            0 <= i < text::lines(above).len() ==> !"Uid:"@.is_prefix_of(
                #[trigger] text::lines(above)[i],
            ),
        !fields.contains(')'),
    ensures
        is_own_process(
            uid as int,
            Some(above + ("Uid:\t"@ + text::decimal(owner)).push('\n') + below),
            "starttime="@ + text::decimal(saved).push('\n'),
            Some(head.push(')').push(' ') + fields),
        ) <==> owner == uid && (saved > 0 ==> (text::words(fields).len() > 19 && text::number(
            text::words(fields)[19],
            u64::MAX as nat,
        ) == Some(saved))),
        !is_own_process(uid as int, None, Seq::empty(), None),
{
    let label = "Uid:"@;
    reveal_strlit("Uid:");
    reveal_strlit("Uid:\t");
    lemma_decimal_stays(owner);
    let d = text::decimal(owner);
    let rest = seq!['\t'] + d;
    assert("Uid:\t"@ + d =~= label + rest);
    let line = label + rest;
    assert forall|i: int| 0 <= i < line.len() implies line[i] != '\n' by {
        if i >= 5 {
            assert(line[i] == d[i - 5]);
            assert(d.contains(d[i - 5]));
        }
    }
    assert(line.last() == d.last());
    proc::law_first_labelled_line_counts(above, label, rest, below, u32::MAX as nat);
    text::law_words_skip_white_space('\t', d);
    let none = Seq::<char>::empty();
    assert(d + none =~= d);
    text::law_words_end_at_white_space(d, none);
    text::law_words_skip_white_space(' ', none);
    text::law_numbers_read_back(owner, u32::MAX as nat);
    law_recorded_start_is_read(none, saved);
    assert(none + "starttime="@ + text::decimal(saved).push('\n') =~= "starttime="@
        + text::decimal(saved).push('\n'));
    proc::law_stat_fields_stand_behind_the_name(head, ' ', fields);
}

} // verus!
