//! Regenerates the OpenLiteSpeed proxy handlers for every live app.
//!
//! An app serves over a Unix socket, and OpenLiteSpeed only reaches it through
//! an `extProcessor` naming that socket. The whole set is rewritten from the
//! apps that are actually up, and the web server is reloaded when it changed.

use vstd::prelude::*;

use crate::command;
use crate::command::CommandLine;
use crate::effect;
use crate::effect::{Change, Steps};
use crate::limits::usage;
use crate::limits::usage::Sibling;
use crate::limits::policy;
use crate::path;
use crate::sys::output;
use crate::sys::output::{Json, JsonV, Members, Response};
use crate::sys::state;
use crate::text;
use crate::webserver::ols;

verus! {

/// The file that a run of the sync holds a lock on.
pub const LOCK_FILE: &'static str = "/var/lib/selynt_panel/.sync.lock";

/// The file that the handlers are written to.
pub const HANDLER_FILE: &'static str = "selynt_extprocessors.conf";

/// Whether a host name is safe to write into the configuration: it becomes part
/// of a handler name and of a path.
pub open spec fn is_safe_host(host: Seq<char>) -> bool {
    host.len() > 0 && state::all_name_chars(host)
}

pub fn host_is_safe(host: &str) -> (r: bool)
    ensures
        r == is_safe_host(host@),
{
    !host.is_empty() && state::only_name_chars(host)
}

/// An app that is registered: its host, whether its proxy marker is there, and
/// its socket and whether that is there.
pub struct RoutedApp {
    pub host: String,
    pub marked: bool,
    pub socket: String,
    pub socket_exists: bool,
}

/// An app that is up and reachable.
pub struct LiveApp {
    pub host: String,
    pub socket: String,
}

pub open spec fn live_views(v: Seq<LiveApp>) -> Seq<(Seq<char>, Seq<char>)> {
    Seq::new(v.len(), |i: int| (v[i].host@, v[i].socket@))
}

/// Whether an app gets handlers: the marker says that it should be routed, and
/// the socket that it can be. A handler pointing at a missing socket makes the
/// web server answer with an error instead of falling through.
pub open spec fn is_live(app: RoutedApp) -> bool {
    is_safe_host(app.host@) && app.marked && app.socket_exists
}

/// The apps that get handlers, by host and socket.
pub open spec fn live(apps: Seq<RoutedApp>) -> Seq<(Seq<char>, Seq<char>)>
    decreases apps.len(),
{
    if apps.len() == 0 {
        Seq::empty()
    } else if is_live(apps.last()) {
        live(apps.drop_last()).push((apps.last().host@, apps.last().socket@))
    } else {
        live(apps.drop_last())
    }
}

/// Every app currently serving.
pub fn collect_live_apps(apps: &Vec<RoutedApp>) -> (r: Vec<LiveApp>)
    ensures
        live_views(r@) == live(apps@),
{
    let mut out: Vec<LiveApp> = Vec::new();
    let mut i: usize = 0;
    assert(live_views(out@) =~= live(apps@.take(0)));
    while i < apps.len()
        invariant
            i <= apps@.len(),
            live_views(out@) == live(apps@.take(i as int)),
        decreases apps@.len() - i,
    {
        let ghost before = live_views(out@);
        assert(apps@.take(i + 1).drop_last() =~= apps@.take(i as int));
        if host_is_safe(&apps[i].host) && apps[i].marked && apps[i].socket_exists {
            let app = LiveApp { host: apps[i].host.clone(), socket: apps[i].socket.clone() };
            let ghost shown = (app.host@, app.socket@);
            out.push(app);
            assert(live_views(out@) =~= before.push(shown));
        }
        i = i + 1;
    }
    assert(apps@.take(i as int) =~= apps@);
    out
}

/// The handler block for one app on one port. Its name is the one that the
/// vhost templates refer to.
pub open spec fn handler(host: Seq<char>, socket: Seq<char>, port: nat) -> Seq<char> {
    "extProcessor selynt_proxy-"@ + host + "-"@ + text::decimal(port)
        + " {\n  type                    proxy\n  address                 uds://"@ + socket
        + "\n  maxConns                35\n  initTimeout             60\n  retryTimeout            0\n  persistConn             1\n  respBuffer              0\n  autoStart               0\n  instances               1\n  priority                0\n}\n\n"@
}

/// Renders the handler block for one app on one port.
pub fn render_handler(app: &LiveApp, port: u16) -> (r: String)
    ensures
        r@ == handler(app.host@, app.socket@, port as nat),
{
    let mut out = "extProcessor selynt_proxy-".to_string();
    out.append(&app.host);
    out.append("-");
    out.append(&text::show_u32(port as u32));
    out.append(" {\n  type                    proxy\n  address                 uds://");
    out.append(&app.socket);
    out.append(
        "\n  maxConns                35\n  initTimeout             60\n  retryTimeout            0\n  persistConn             1\n  respBuffer              0\n  autoStart               0\n  instances               1\n  priority                0\n}\n\n",
    );
    out
}

/// The handlers of an app, one for each port that the templates generate.
pub open spec fn handlers_of(host: Seq<char>, socket: Seq<char>) -> Seq<char> {
    handler(host, socket, 80) + handler(host, socket, 443)
}

/// The handlers of these apps.
pub open spec fn handlers(apps: Seq<(Seq<char>, Seq<char>)>) -> Seq<char>
    decreases apps.len(),
{
    if apps.len() == 0 {
        Seq::empty()
    } else {
        handlers(apps.drop_last()) + handlers_of(apps.last().0, apps.last().1)
    }
}

/// The lines that head the file.
pub open spec fn header(now: nat) -> Seq<Seq<char>> {
    seq![
        "# Selynt Panel extProcessors — generated at "@ + text::decimal(now),
        "# DO NOT EDIT — generated automatically"@,
        ""@,
    ]
}

/// What the file holds for these apps.
pub open spec fn config(now: nat, apps: Seq<(Seq<char>, Seq<char>)>) -> Seq<char> {
    text::closed_lines(header(now)) + handlers(apps)
}

/// What the file holds for these apps.
pub fn render_config(now: u64, apps: &Vec<LiveApp>) -> (r: String)
    ensures
        r@ == config(now as nat, live_views(apps@)),
{
    let mut head: Vec<String> = Vec::new();
    head.push(text::cat("# Selynt Panel extProcessors — generated at ", &text::show_u64(now)));
    head.push("# DO NOT EDIT — generated automatically".to_string());
    head.push("".to_string());
    assert(text::views(head@) =~= header(now as nat));
    let mut content = text::close_lines(&head);
    let ghost top = content@;
    let ghost vs = live_views(apps@);
    let mut i: usize = 0;
    assert(top + handlers(vs.take(0)) =~= top);
    while i < apps.len()
        invariant
            vs == live_views(apps@),
            i <= apps@.len(),
            content@ == top + handlers(vs.take(i as int)),
        decreases apps@.len() - i,
    {
        assert(vs.take(i + 1).drop_last() =~= vs.take(i as int));
        assert(vs.take(i + 1).last() == (apps@[i as int].host@, apps@[i as int].socket@));
        let ghost before = content@;
        content.append(&render_handler(&apps[i], 80));
        content.append(&render_handler(&apps[i], 443));
        assert(content@ =~= top + handlers(vs.take(i + 1)));
        i = i + 1;
    }
    assert(vs.take(i as int) =~= vs);
    content
}

pub open spec fn is_comment(line: Seq<char>) -> bool {
    line.len() > 0 && line[0] == '#'
}

/// The lines that are no comments.
pub open spec fn uncommented(ls: Seq<Seq<char>>) -> Seq<Seq<char>>
    decreases ls.len(),
{
    if ls.len() == 0 {
        Seq::empty()
    } else if is_comment(ls.last()) {
        uncommented(ls.drop_last())
    } else {
        uncommented(ls.drop_last()).push(ls.last())
    }
}

/// The handlers in a file, without the header.
pub open spec fn stripped(content: Seq<char>) -> Seq<char> {
    text::joined(uncommented(text::lines(content)), "\n"@)
}

/// The handler blocks, without the header. That carries a timestamp, so whole
/// files would always differ.
pub fn strip_header(content: &str) -> (r: String)
    ensures
        r@ == stripped(content@),
{
    let ls = text::split_lines(content);
    let ghost vs = text::views(ls@);
    let mut kept: Vec<String> = Vec::new();
    let mut i: usize = 0;
    assert(text::views(kept@) =~= uncommented(vs.take(0)));
    while i < ls.len()
        invariant
            vs == text::views(ls@),
            i <= ls@.len(),
            text::views(kept@) == uncommented(vs.take(i as int)),
        decreases ls@.len() - i,
    {
        let ghost before = text::views(kept@);
        assert(vs.take(i + 1).drop_last() =~= vs.take(i as int));
        assert(vs.take(i + 1).last() == ls@[i as int]@);
        let cs = text::chars(&ls[i]);
        if !(cs.len() > 0 && cs[0] == '#') {
            let line = ls[i].clone();
            kept.push(line);
            assert(text::views(kept@) =~= before.push(line@));
        }
        i = i + 1;
    }
    assert(vs.take(i as int) =~= vs);
    text::join(&kept, "\n")
}

/// Whether the file has to be written: its handlers differ from what it holds.
/// Writing it unchanged would restart the web server for nothing.
pub fn needs_writing(current: Option<&str>, content: &str) -> (r: bool)
    ensures
        r == (match current {
            Some(c) => stripped(c@) != stripped(content@),
            None => true,
        }),
{
    match current {
        Some(c) => !text::same(&strip_header(c), &strip_header(content)),
        None => true,
    }
}

proof fn lemma_uncommented_join(a: Seq<Seq<char>>, b: Seq<Seq<char>>)
    ensures
        uncommented(a + b) == uncommented(a) + uncommented(b),
    decreases b.len(),
{
    if b.len() > 0 {
        lemma_uncommented_join(a, b.drop_last());
        assert((a + b).drop_last() =~= a + b.drop_last());
        assert(uncommented(a + b) =~= uncommented(a) + uncommented(b));
    } else {
        assert(a + b =~= a);
        assert(uncommented(a + b) =~= uncommented(a) + uncommented(b));
    }
}

proof fn lemma_header(now: nat)
    ensures
        forall|i: int| 0 <= i < header(now).len() ==> text::is_plain_line(#[trigger] header(now)[i]),
        uncommented(header(now)) == seq![""@],
{
    let top = "# Selynt Panel extProcessors — generated at "@;
    let note = "# DO NOT EDIT — generated automatically"@;
    reveal_strlit("# Selynt Panel extProcessors — generated at ");
    reveal_strlit("# DO NOT EDIT — generated automatically");
    reveal_strlit("");
    text::lemma_decimal_number(now, now);
    let d = text::decimal(now);
    let ls = header(now);
    assert(text::is_plain_line(ls[0])) by {
        assert forall|i: int| 0 <= i < ls[0].len() implies ls[0][i] != '\n' by {
            if i < top.len() {
                assert(ls[0][i] == top[i]);
            } else {
                assert(ls[0][i] == d[i - top.len()]);
                assert(text::is_digit(d[i - top.len()]));
            }
        }
        assert(ls[0].last() == d[d.len() - 1]);
        assert(text::is_digit(d[d.len() - 1]));
    }
    assert(text::is_plain_line(note));
    assert(text::is_plain_line(""@));
    assert(is_comment(ls[0])) by {
        assert(ls[0][0] == top[0]);
    }
    assert(is_comment(note));
    assert(!is_comment(""@));
    let two = ls.drop_last();
    let one = two.drop_last();
    assert(one.drop_last() =~= Seq::<Seq<char>>::empty());
    assert(one.last() == ls[0] && two.last() == ls[1] && ls.last() == ls[2]);
    assert(uncommented(one.drop_last()) =~= Seq::<Seq<char>>::empty());
    assert(uncommented(one) =~= Seq::<Seq<char>>::empty());
    assert(uncommented(two) =~= Seq::<Seq<char>>::empty());
    assert(uncommented(ls) =~= seq![""@]);
}

/// The moment at which a file was generated is no difference: as long as the
/// apps stay the same, the file is left alone.
pub proof fn law_time_alone_changes_nothing(
    then: nat,
    now: nat,
    apps: Seq<(Seq<char>, Seq<char>)>,
)
    ensures
        stripped(config(then, apps)) == stripped(config(now, apps)),
{
    lemma_header(then);
    lemma_header(now);
    text::lemma_lines_before(header(then), handlers(apps));
    text::lemma_lines_before(header(now), handlers(apps));
    lemma_uncommented_join(header(then), text::lines(handlers(apps)));
    lemma_uncommented_join(header(now), text::lines(handlers(apps)));
}

/// The file that the handlers are written to. Without an OpenLiteSpeed it is
/// where a newer one would look.
pub fn config_file(new: bool, old: bool) -> (r: String)
    ensures
        r@ == path::under(
            if !new && old {
                ols::CONF_OLD@
            } else {
                ols::CONF_NEW@
            },
            HANDLER_FILE@,
        ),
{
    match ols::conf_dir(new, old) {
        Some(d) => path::join(d, HANDLER_FILE),
        None => path::join(ols::CONF_NEW, HANDLER_FILE),
    }
}

/// The commands that have OpenLiteSpeed pick up the new configuration: the
/// second where the first fails.
pub fn reload_web_server() -> (r: (CommandLine, CommandLine))
    ensures
        r.0@ == (command::CommandV {
            program: "systemctl"@,
            args: seq!["restart"@, "lsws"@],
            env: Seq::empty(),
            current_dir: None,
        }),
        r.1@ == (command::CommandV {
            program: "lswsctrl"@,
            args: seq!["restart"@],
            env: Seq::empty(),
            current_dir: None,
        }),
{
    let mut first = CommandLine::new("systemctl");
    first.arg("restart");
    first.arg("lsws");
    assert(first@.args =~= seq!["restart"@, "lsws"@]);
    let mut second = CommandLine::new("lswsctrl");
    second.arg("restart");
    assert(second@.args =~= seq!["restart"@]);
    (first, second)
}

/// The account that the web server reads its configuration as, where it exists.
pub const CONF_USER: &'static str = "lsadm";

/// Writing the handlers: the file is made ready under another name, so that the
/// web server never reads a part of it, and belongs to the account that reads
/// it, or else to root.
pub open spec fn config_written(
    file: Seq<char>,
    content: Seq<char>,
    reader: Option<(u32, u32)>,
) -> Seq<effect::StepV> {
    let tmp = file + ".tmp"@;
    let (uid, gid) = match reader {
        Some(ids) => ids,
        None => (0u32, 0u32),
    };
    seq![
        effect::needed(effect::ChangeV::Write(tmp, content)),
        effect::needed(effect::ChangeV::SetMode(tmp, 0o640)),
        effect::tried(effect::ChangeV::Own(tmp, uid as int, gid as int)),
        effect::needed(effect::ChangeV::Rename(tmp, file)),
    ]
}

/// Writes the handlers. `reader` is the uid and gid of [`CONF_USER`].
pub fn write_config(file: &str, content: String, reader: Option<(u32, u32)>) -> (r: Steps)
    ensures
        r@ == config_written(file@, content@, reader),
{
    let tmp = text::cat(file, ".tmp");
    let (uid, gid) = match reader {
        Some(ids) => ids,
        None => (0, 0),
    };
    let ghost shown = content@;
    let mut steps = Steps::new();
    steps.need(Change::Write(tmp.clone(), content));
    steps.need(Change::SetMode(tmp.clone(), 0o640));
    steps.try_to(Change::Own(tmp.clone(), uid, gid));
    steps.need(Change::Rename(tmp, file.to_string()));
    assert(steps@ =~= config_written(file@, shown, reader));
    steps
}

/// Where a sync is.
#[derive(Debug, Clone, Copy, PartialEq, Eq, Structural)]
pub enum SyncStep {
    /// The lock is taken, unless another run holds it.
    Lock,
    /// The allowances of the accounts are applied. They do not depend on the
    /// routes, and a web server that refuses to reload must not freeze them.
    Limits,
    /// The handlers are held against what the file has.
    Compare,
    Write,
    Reload,
    /// The marker that asked for the sync is removed.
    Clear,
    Done,
    /// Left to the next run.
    Skipped,
}

/// What comes after a step of the sync.
pub open spec fn after_sync(step: SyncStep, yes: bool) -> SyncStep {
    match step {
        SyncStep::Lock => if yes {
            SyncStep::Limits
        } else {
            SyncStep::Skipped
        },
        SyncStep::Limits => SyncStep::Compare,
        SyncStep::Compare => if yes {
            SyncStep::Write
        } else {
            SyncStep::Clear
        },
        SyncStep::Write => if yes {
            SyncStep::Reload
        } else {
            SyncStep::Skipped
        },
        SyncStep::Reload => if yes {
            SyncStep::Clear
        } else {
            SyncStep::Skipped
        },
        SyncStep::Clear => SyncStep::Done,
        SyncStep::Done => SyncStep::Done,
        SyncStep::Skipped => SyncStep::Skipped,
    }
}

/// Regenerates the handlers and reloads the web server: what comes after a step.
/// `yes` says whether the step succeeded, and of the comparison whether the file
/// has to be written.
pub fn sync(step: SyncStep, yes: bool) -> (r: SyncStep)
    ensures
        r == after_sync(step, yes),
{
    match step {
        SyncStep::Lock => if yes {
            SyncStep::Limits
        } else {
            SyncStep::Skipped
        },
        SyncStep::Limits => SyncStep::Compare,
        SyncStep::Compare => if yes {
            SyncStep::Write
        } else {
            SyncStep::Clear
        },
        SyncStep::Write => if yes {
            SyncStep::Reload
        } else {
            SyncStep::Skipped
        },
        SyncStep::Reload => if yes {
            SyncStep::Clear
        } else {
            SyncStep::Skipped
        },
        SyncStep::Clear => SyncStep::Done,
        SyncStep::Done => SyncStep::Done,
        SyncStep::Skipped => SyncStep::Skipped,
    }
}

/// How many apps were written, by a sync that came to its end.
pub fn synced(step: SyncStep, apps: usize) -> (r: Option<usize>)
    ensures
        r == (if step == SyncStep::Done {
            Some(apps)
        } else {
            None
        }),
{
    match step {
        SyncStep::Done => Some(apps),
        _ => None,
    }
}

/// Where a sync is after all of these answers.
pub open spec fn sync_run(answers: Seq<bool>) -> SyncStep
    decreases answers.len(),
{
    if answers.len() == 0 {
        SyncStep::Lock
    } else {
        after_sync(sync_run(answers.drop_last()), answers.last())
    }
}

proof fn lemma_sync_run(answers: Seq<bool>)
    ensures
        ({
            let unneeded = answers.len() >= 3 && answers[0] && !answers[2];
            let live = answers.len() >= 5 && answers[0] && answers[2] && answers[3] && answers[4];
            match sync_run(answers) {
                SyncStep::Lock => answers.len() == 0,
                SyncStep::Limits => answers.len() == 1 && answers[0],
                SyncStep::Compare => answers.len() == 2 && answers[0],
                SyncStep::Write => answers.len() == 3 && answers[0] && answers[2],
                SyncStep::Reload => answers.len() == 4 && answers[0] && answers[2] && answers[3],
                SyncStep::Clear => unneeded || live,
                SyncStep::Done => unneeded || live,
                SyncStep::Skipped => true,
            }
        }),
    decreases answers.len(),
{
    if answers.len() > 0 {
        lemma_sync_run(answers.drop_last());
    }
}

/// The marker that asked for a sync is removed only by a run that held the lock
/// and found or brought the configuration into place and live: the handlers
/// were those of the file already, or they were written and the web server has
/// read them. A configuration it never read does not apply.
pub proof fn law_marker_outlives_what_is_not_live(answers: Seq<bool>)
    requires
        sync_run(answers) == SyncStep::Clear || sync_run(answers) == SyncStep::Done,
    ensures
        answers[0],
        answers[2] ==> answers[3] && answers[4],
{
    lemma_sync_run(answers);
}

/// The commands that apply an account's allowance: the ceiling of its slice and
/// the limits of its running apps. An admin can change the allowance without
/// the panel being involved.
pub fn reapply_account_limits(
    can_run_scopes: bool,
    username: &str,
    account: Option<u64>,
    apps: &Vec<Sibling>,
) -> (r: Vec<CommandLine>)
    requires
        usage::workable(account),
        apps@.len() < usize::MAX,
    ensures
        usage::command_views(r@) == (if can_run_scopes {
            seq![
                usage::set_property(
                    policy::slice_unit(username@),
                    seq![usage::slice_property(account)],
                ),
            ] + usage::reapplied(username@, account, apps@, ""@, ""@, apps@.len())
        } else {
            Seq::empty()
        }),
{
    let mut out: Vec<CommandLine> = Vec::new();
    if let Some(c) = usage::ensure_slice_cap(can_run_scopes, username, account) {
        out.push(c);
    }
    let ghost first = usage::command_views(out@);
    let mut more = usage::reapply_app_limits(can_run_scopes, username, account, apps);
    let ghost rest = usage::command_views(more@);
    out.append(&mut more);
    assert(usage::command_views(out@) =~= first + rest);
    out
}

/// Reports a sync. One that was skipped is no failure: another run holds the
/// lock, or the next one tries again.
pub fn cmd_sync_proxy(outcome: Option<usize>, debug: Option<Json>) -> (r: Response)
    ensures
        r@ == output::accepted(
            output::debugged(
                match outcome {
                    Some(n) => seq![("apps"@, JsonV::Num(n as nat))],
                    None => seq![("apps"@, JsonV::Num(0)), ("skipped"@, JsonV::Bool(true))],
                },
                output::debug_view(debug),
            ),
        ),
{
    let mut m = Members::new();
    match outcome {
        Some(n) => {
            m.put_number("apps", n as u64);
            assert(m@ =~= seq![("apps"@, JsonV::Num(n as nat))]);
        },
        None => {
            m.put_number("apps", 0);
            m.put_bool("skipped", true);
            assert(m@ =~= seq![("apps"@, JsonV::Num(0)), ("skipped"@, JsonV::Bool(true))]);
        },
    }
    output::success(output::with_debug(m, debug))
}

/// Whether a text is made of whole lines, none of which is a comment or ends in a
/// carriage return.
spec fn is_clean(s: Seq<char>) -> bool {
    &&& s.len() > 0 ==> s[0] != '#' && s.last() == '\n'
    &&& forall|i: int|
        0 <= i < s.len() && #[trigger] s[i] == '\n' ==> (i > 0 ==> s[i - 1] != '\r') && (i + 1
            < s.len() ==> s[i + 1] != '#')
}

proof fn lemma_clean_join(a: Seq<char>, b: Seq<char>)
    requires
        is_clean(a),
        is_clean(b),
    ensures
        is_clean(a + b),
{
    let s = a + b;
    if a.len() == 0 {
        assert(s =~= b);
    } else if b.len() == 0 {
        assert(s =~= a);
    } else {
        assert(s[0] == a[0] && s.last() == b.last());
        assert forall|i: int| 0 <= i < s.len() && #[trigger] s[i] == '\n' implies (i > 0 ==> s[i - 1]
            != '\r') && (i + 1 < s.len() ==> s[i + 1] != '#') by {
            if i < a.len() {
                assert(s[i] == a[i]);
                if i + 1 < a.len() {
                    assert(s[i + 1] == a[i + 1]);
                } else {
                    assert(s[i + 1] == b[0]);
                }
                if i > 0 {
                    assert(s[i - 1] == a[i - 1]);
                }
            } else {
                assert(s[i] == b[i - a.len()]);
                if i > a.len() {
                    assert(s[i - 1] == b[i - a.len() - 1]);
                } else {
                    assert(s[i - 1] == a.last());
                }
                if i + 1 < s.len() {
                    assert(s[i + 1] == b[i + 1 - a.len()]);
                }
            }
        }
    }
}

/// Nothing is lost of clean lines: none is left out, and put together they are
/// the text they came from.
proof fn lemma_clean_lines(s: Seq<char>)
    requires
        is_clean(s),
    ensures
        uncommented(text::lines(s)) == text::lines(s),
        text::closed_lines(text::lines(s)) == s,
    decreases s.len(),
{
    if s.len() == 0 {
        assert(text::lines(s) =~= Seq::<Seq<char>>::empty());
        assert(text::closed_lines(text::lines(s)) =~= s);
        assert(uncommented(text::lines(s)) =~= text::lines(s));
    } else {
        let i = text::first_at(s, '\n');
        text::lemma_first_at(s, '\n');
        assert(s[s.len() - 1] == '\n');
        assert(i < s.len());
        let l = s.take(i);
        let rest = s.skip(i + 1);
        assert(s =~= l.push('\n') + rest);
        assert(s[i] == '\n');
        assert(l.len() > 0 ==> l.last() == s[i - 1]);
        assert forall|j: int| 0 <= j < l.len() implies l[j] != '\n' by {
            assert(l[j] == s[j]);
        }
        text::law_line_ends_at_its_feed(l, rest);
        assert(is_clean(rest)) by {
            if rest.len() > 0 {
                assert(rest[0] == s[i + 1]);
                assert(rest.last() == s.last());
            }
            assert forall|j: int| 0 <= j < rest.len() && #[trigger] rest[j] == '\n' implies (j > 0
                ==> rest[j - 1] != '\r') && (j + 1 < rest.len() ==> rest[j + 1] != '#') by {
                assert(s[i + 1 + j] == '\n');
                if j > 0 {
                    assert(rest[j - 1] == s[i + j]);
                }
                if j + 1 < rest.len() {
                    assert(rest[j + 1] == s[i + 2 + j]);
                }
            }
        }
        lemma_clean_lines(rest);
        let more = text::lines(rest);
        assert(text::lines(s) =~= seq![l] + more);
        lemma_uncommented_join(seq![l], more);
        assert(!is_comment(l)) by {
            if l.len() > 0 {
                assert(l[0] == s[0]);
            }
        }
        assert(seq![l].drop_last() =~= Seq::<Seq<char>>::empty());
        assert(uncommented(Seq::<Seq<char>>::empty()) =~= Seq::<Seq<char>>::empty());
        assert(seq![l].last() == l);
        assert(uncommented(seq![l]) =~= seq![l]);
        text::lemma_closed_lines_join(seq![l], more);
        assert(text::closed_lines(seq![l].drop_last()) =~= Seq::<char>::empty());
        assert(text::closed_lines(seq![l]) =~= l.push('\n'));
    }
}

/// A host or socket that stays on its line.
spec fn stays(s: Seq<char>) -> bool {
    !s.contains('\n') && (s.len() > 0 ==> s.last() != '\r')
}

proof fn lemma_handler_is_clean(host: Seq<char>, socket: Seq<char>, port: nat)
    requires
        stays(host),
        stays(socket),
    ensures
        is_clean(handler(host, socket, port)),
{
    let a = "extProcessor selynt_proxy-"@;
    let b = " {\n  type                    proxy\n  address                 uds://"@;
    let c = "\n  maxConns                35\n  initTimeout             60\n  retryTimeout            0\n  persistConn             1\n  respBuffer              0\n  autoStart               0\n  instances               1\n  priority                0\n}\n\n"@;
    reveal_strlit("extProcessor selynt_proxy-");
    reveal_strlit("-");
    reveal_strlit(" {\n  type                    proxy\n  address                 uds://");
    reveal_strlit(
        "\n  maxConns                35\n  initTimeout             60\n  retryTimeout            0\n  persistConn             1\n  respBuffer              0\n  autoStart               0\n  instances               1\n  priority                0\n}\n\n",
    );
    text::law_numbers_read_back(port, port);
    let d = text::decimal(port);
    let s = handler(host, socket, port);
    let n1 = a.len() as int;
    let n2 = n1 + host.len();
    let n3 = n2 + 1;
    let n4 = n3 + d.len();
    let n5 = n4 + b.len();
    let n6 = n5 + socket.len();
    assert forall|i: int| 0 <= i < a.len() implies #[trigger] a[i] != '#' && a[i] != '\r' && a[i]
        != '\n' by {}
    assert forall|i: int| 0 <= i < b.len() implies #[trigger] b[i] != '#' && b[i] != '\r' by {}
    assert forall|i: int| 0 <= i < c.len() implies #[trigger] c[i] != '#' && c[i] != '\r' by {}
    assert forall|i: int| 0 <= i < s.len() implies #[trigger] s[i] == (if i < n1 {
        a[i]
    } else if i < n2 {
        host[i - n1]
    } else if i < n3 {
        '-'
    } else if i < n4 {
        d[i - n3]
    } else if i < n5 {
        b[i - n4]
    } else if i < n6 {
        socket[i - n5]
    } else {
        c[i - n6]
    }) by {}
    assert(s[0] == a[0]);
    assert(s.last() == c[c.len() - 1]);
    assert forall|i: int| 0 <= i < s.len() && #[trigger] s[i] == '\n' implies (i > 0 ==> s[i - 1]
        != '\r') && (i + 1 < s.len() ==> s[i + 1] != '#') by {
        if n1 <= i < n2 {
            assert(host.contains(host[i - n1]));
        } else if n5 <= i < n6 {
            assert(socket.contains(socket[i - n5]));
        } else if i == n6 {
            if socket.len() > 0 {
                assert(s[i - 1] == socket.last());
            } else {
                assert(s[i - 1] == b[b.len() - 1]);
            }
        } else if n4 <= i < n5 {
            assert(i != n5 - 1) by {
                assert(b[b.len() - 1] == '/');
            }
        }
    }
}

proof fn lemma_handlers_are_clean(apps: Seq<(Seq<char>, Seq<char>)>)
    requires
        forall|i: int| 0 <= i < apps.len() ==> stays((#[trigger] apps[i]).0) && stays(apps[i].1),
    ensures
        is_clean(handlers(apps)),
    decreases apps.len(),
{
    if apps.len() > 0 {
        let front = apps.drop_last();
        assert forall|i: int| 0 <= i < front.len() implies stays((#[trigger] front[i]).0) && stays(
            front[i].1,
        ) by {
            assert(front[i] == apps[i]);
        }
        lemma_handlers_are_clean(front);
        let last = apps[apps.len() - 1];
        assert(stays(last.0) && stays(last.1));
        lemma_handler_is_clean(last.0, last.1, 80);
        lemma_handler_is_clean(last.0, last.1, 443);
        lemma_clean_join(handler(last.0, last.1, 80), handler(last.0, last.1, 443));
        lemma_clean_join(handlers(front), handlers_of(last.0, last.1));
    }
}

/// What is compared of a file is everything below its heading, as it stands there:
/// all of the handlers, line by line. So a file is left alone only where its
/// handlers are the ones that would be written. Hosts and sockets are on a line of
/// their own, as far as they hold no line ending.
pub proof fn law_comparison_forgets_only_the_heading(
    then: nat,
    old_apps: Seq<(Seq<char>, Seq<char>)>,
    now: nat,
    apps: Seq<(Seq<char>, Seq<char>)>,
)
    requires
        forall|i: int|
            0 <= i < apps.len() ==> !(#[trigger] apps[i]).0.contains('\n') && !apps[i].1.contains(
                '\n',
            ) && (apps[i].0.len() > 0 ==> apps[i].0.last() != '\r') && (apps[i].1.len() > 0
                ==> apps[i].1.last() != '\r'),
        forall|i: int|
            0 <= i < old_apps.len() ==> !(#[trigger] old_apps[i]).0.contains('\n')
                && !old_apps[i].1.contains('\n') && (old_apps[i].0.len() > 0
                ==> old_apps[i].0.last() != '\r') && (old_apps[i].1.len() > 0
                ==> old_apps[i].1.last() != '\r'),
    ensures
        stripped(config(now, apps)).push('\n') == seq!['\n'] + handlers(apps),
        stripped(config(then, old_apps)) == stripped(config(now, apps)) ==> handlers(old_apps)
            == handlers(apps),
{
    lemma_compared(then, old_apps);
    lemma_compared(now, apps);
    if stripped(config(then, old_apps)) == stripped(config(now, apps)) {
        let a = seq!['\n'] + handlers(old_apps);
        let b = seq!['\n'] + handlers(apps);
        assert(a.skip(1) =~= handlers(old_apps));
        assert(b.skip(1) =~= handlers(apps));
    }
}

proof fn lemma_compared(now: nat, apps: Seq<(Seq<char>, Seq<char>)>)
    requires
        forall|i: int| 0 <= i < apps.len() ==> stays((#[trigger] apps[i]).0) && stays(apps[i].1),
    ensures
        stripped(config(now, apps)).push('\n') == seq!['\n'] + handlers(apps),
{
    let s = handlers(apps);
    lemma_header(now);
    text::lemma_lines_before(header(now), s);
    lemma_uncommented_join(header(now), text::lines(s));
    lemma_handlers_are_clean(apps);
    lemma_clean_lines(s);
    let ls = seq![""@] + text::lines(s);
    assert(uncommented(text::lines(config(now, apps))) =~= ls);
    text::law_joined_lines_lack_the_last_feed(ls);
    reveal_strlit("\n");
    reveal_strlit("");
    assert(text::joined(ls, "\n"@) + "\n"@ =~= text::joined(ls, "\n"@).push('\n'));
    text::lemma_closed_lines_join(seq![""@], text::lines(s));
    assert(seq![""@].drop_last() =~= Seq::<Seq<char>>::empty());
    assert(text::closed_lines(seq![""@].drop_last()) =~= Seq::<char>::empty());
    assert(text::closed_lines(seq![""@]) =~= seq!['\n']);
}

/// A handler begins with its name, which is made of the host and the port, and
/// names the socket as its address, on a line of its own.
pub proof fn law_handler_names_host_port_and_socket(host: Seq<char>, socket: Seq<char>, port: nat)
    ensures
        ("extProcessor selynt_proxy-"@ + host + "-"@ + text::decimal(port) + " {\n"@).is_prefix_of(
            handler(host, socket, port),
        ),
        text::occurs(
            handler(host, socket, port),
            "\n  type                    proxy\n  address                 uds://"@ + socket
                + "\n"@,
        ),
        "}\n\n"@.is_suffix_of(handler(host, socket, port)),
{
    reveal_strlit(" {\n  type                    proxy\n  address                 uds://");
    reveal_strlit("\n  type                    proxy\n  address                 uds://");
    reveal_strlit(" {\n");
    reveal_strlit("\n");
    reveal_strlit("}\n\n");
    reveal_strlit(
        "\n  maxConns                35\n  initTimeout             60\n  retryTimeout            0\n  persistConn             1\n  respBuffer              0\n  autoStart               0\n  instances               1\n  priority                0\n}\n\n",
    );
    let h = handler(host, socket, port);
    let top = "extProcessor selynt_proxy-"@ + host + "-"@ + text::decimal(port);
    let head = top + " {\n"@;
    assert(h.take(head.len() as int) =~= head);
    let p = "\n  type                    proxy\n  address                 uds://"@ + socket + "\n"@;
    let at = (top.len() + 2) as int;
    assert(h.subrange(at, at + p.len()) =~= p);
    assert(text::occurs_at(h, p, at));
    assert(h.skip(h.len() - 3) =~= "}\n\n"@);
}

/// Every app has a handler for each of the two ports.
pub proof fn law_every_app_has_both_handlers(apps: Seq<(Seq<char>, Seq<char>)>, i: int)
    requires
        0 <= i < apps.len(),
    ensures
        text::occurs(handlers(apps), handler(apps[i].0, apps[i].1, 80)),
        text::occurs(handlers(apps), handler(apps[i].0, apps[i].1, 443)),
    decreases apps.len(),
{
    let front = apps.drop_last();
    let all = handlers(apps);
    let a = handler(apps[i].0, apps[i].1, 80);
    let b = handler(apps[i].0, apps[i].1, 443);
    if i < front.len() {
        law_every_app_has_both_handlers(front, i);
        let x = choose|x: int| #[trigger] text::occurs_at(handlers(front), a, x);
        assert(all.subrange(x, x + a.len()) =~= handlers(front).subrange(x, x + a.len()));
        assert(text::occurs_at(all, a, x));
        let y = choose|y: int| #[trigger] text::occurs_at(handlers(front), b, y);
        assert(all.subrange(y, y + b.len()) =~= handlers(front).subrange(y, y + b.len()));
        assert(text::occurs_at(all, b, y));
    } else {
        let x = handlers(front).len() as int;
        assert(all.subrange(x, x + a.len()) =~= a);
        assert(text::occurs_at(all, a, x));
        let y = x + a.len();
        assert(all.subrange(y, y + b.len()) =~= b);
        assert(text::occurs_at(all, b, y));
    }
}

/// An app gets handlers exactly when it is marked, its socket is there, and its
/// host is a plain name: letters, digits, dots, underscores and hyphens.
pub proof fn law_live_apps_are_marked_and_reachable(
    apps: Seq<RoutedApp>,
    host: Seq<char>,
    socket: Seq<char>,
)
    ensures
        live(apps).contains((host, socket)) <==> exists|i: int|
            {
                &&& 0 <= i < apps.len()
                &&& (#[trigger] apps[i]).host@ == host
                &&& apps[i].socket@ == socket
                &&& apps[i].marked
                &&& apps[i].socket_exists
                &&& host.len() > 0
                &&& forall|j: int|
                    0 <= j < host.len() ==> {
                        ||| 'a' <= #[trigger] host[j] <= 'z'
                        ||| 'A' <= host[j] <= 'Z'
                        ||| '0' <= host[j] <= '9'
                        ||| host[j] == '.' || host[j] == '_' || host[j] == '-'
                    }
            },
    decreases apps.len(),
{
    let pair = (host, socket);
    let safe = host.len() > 0 && forall|j: int|
        0 <= j < host.len() ==> {
            ||| 'a' <= #[trigger] host[j] <= 'z'
            ||| 'A' <= host[j] <= 'Z'
            ||| '0' <= host[j] <= '9'
            ||| host[j] == '.' || host[j] == '_' || host[j] == '-'
        };
    assert(safe == is_safe_host(host)) by {
        if is_safe_host(host) {
            assert forall|j: int| 0 <= j < host.len() implies {
                ||| 'a' <= #[trigger] host[j] <= 'z'
                ||| 'A' <= host[j] <= 'Z'
                ||| '0' <= host[j] <= '9'
                ||| host[j] == '.' || host[j] == '_' || host[j] == '-'
            } by {
                assert(state::is_name_char(host[j]));
            }
        }
    }
    if apps.len() > 0 {
        let front = apps.drop_last();
        law_live_apps_are_marked_and_reachable(front, host, socket);
        let n = apps.len() - 1;
        let before = live(front);
        if live(apps).contains(pair) {
            let k = choose|k: int| 0 <= k < live(apps).len() && live(apps)[k] == pair;
            if k < before.len() {
                assert(before[k] == pair);
                assert(before.contains(pair));
                let i = choose|i: int|
                    0 <= i < front.len() && (#[trigger] front[i]).host@ == host
                        && front[i].socket@ == socket && front[i].marked && front[i].socket_exists;
                assert(apps[i] == front[i]);
            } else {
                assert(apps[n].host@ == host);
            }
        }
        if exists|i: int|
            0 <= i < apps.len() && (#[trigger] apps[i]).host@ == host && apps[i].socket@ == socket
                && apps[i].marked && apps[i].socket_exists && safe {
            let i = choose|i: int|
                0 <= i < apps.len() && (#[trigger] apps[i]).host@ == host && apps[i].socket@
                    == socket && apps[i].marked && apps[i].socket_exists && safe;
            if i < n {
                assert(front[i] == apps[i]);
                let k = choose|k: int| 0 <= k < before.len() && before[k] == pair;
                assert(live(apps)[k] == pair);
            } else {
                assert(is_live(apps[n]));
                assert(live(apps)[before.len() as int] == pair);
            }
        }
    }
}

/// A comment is a line that begins with `#`; comments are forgotten, and no other
/// line is.
pub proof fn law_comments_begin_with_a_hash(ls: Seq<Seq<char>>, line: Seq<char>)
    ensures
        uncommented(Seq::empty()).len() == 0,
        line.len() > 0 && line[0] == '#' ==> uncommented(ls.push(line)) == uncommented(ls),
        line.len() == 0 || line[0] != '#' ==> uncommented(ls.push(line)) == uncommented(ls).push(
            line,
        ),
{
    assert(ls.push(line).drop_last() =~= ls);
}

/// The file of handlers appears whole: it is written beside its place, given to the
/// account that reads it, and moved there last.
pub proof fn law_handlers_appear_whole(
    file: Seq<char>,
    content: Seq<char>,
    uid: u32,
    gid: u32,
)
    ensures
        ({
            let r = config_written(file, content, Some((uid, gid)));
            let tmp = file + ".tmp"@;
            &&& r.len() == 4
            &&& r[0].must && r[0].change == effect::ChangeV::Write(tmp, content)
            &&& r[1].must && r[1].change == effect::ChangeV::SetMode(tmp, 416)
            &&& r[2].change == effect::ChangeV::Own(tmp, uid as int, gid as int)
            &&& r[3].must && r[3].change == effect::ChangeV::Rename(tmp, file)
        }),
        config_written(file, content, None) == config_written(file, content, Some((0u32, 0u32))),
{
}

/// A sync that finds a change writes and reloads before it is done; one that finds
/// none is done without either. Without the lock it does nothing.
pub proof fn law_syncs_write_only_changes()
    ensures
        sync_run(seq![false]) == SyncStep::Skipped,
        sync_run(seq![true, true, false, true]) == SyncStep::Done,
        sync_run(seq![true, true, true, true, true, true]) == SyncStep::Done,
        sync_run(seq![true, true, true, false]) == SyncStep::Skipped,
        sync_run(seq![true, true, true, true, false]) == SyncStep::Skipped,
        forall|yes: bool| #[trigger] after_sync(SyncStep::Limits, yes) == SyncStep::Compare,
        forall|yes: bool| #[trigger] after_sync(SyncStep::Clear, yes) == SyncStep::Done,
        forall|yes: bool| #[trigger] after_sync(SyncStep::Skipped, yes) == SyncStep::Skipped,
        forall|yes: bool| #[trigger] after_sync(SyncStep::Done, yes) == SyncStep::Done,
{
    let a = seq![true];
    let b = seq![true, true];
    let c0 = seq![true, true, false];
    let c1 = seq![true, true, true];
    let d = seq![true, true, true, true];
    let e = seq![true, true, true, true, true];
    let none = Seq::<bool>::empty();
    assert(sync_run(none) == SyncStep::Lock);
    assert(seq![false].drop_last() =~= none);
    assert(a.drop_last() =~= none);
    assert(b.drop_last() =~= a);
    assert(c0.drop_last() =~= b);
    assert(c1.drop_last() =~= b);
    assert(seq![true, true, false, true].drop_last() =~= c0);
    assert(d.drop_last() =~= c1);
    assert(seq![true, true, true, false].drop_last() =~= c1);
    assert(e.drop_last() =~= d);
    assert(seq![true, true, true, true, false].drop_last() =~= d);
    assert(seq![true, true, true, true, true, true].drop_last() =~= e);
    assert(sync_run(a) == SyncStep::Limits);
    assert(sync_run(b) == SyncStep::Compare);
    assert(sync_run(c0) == SyncStep::Clear);
    assert(sync_run(c1) == SyncStep::Write);
    assert(sync_run(d) == SyncStep::Reload);
    assert(sync_run(e) == SyncStep::Clear);
}

} // verus!
