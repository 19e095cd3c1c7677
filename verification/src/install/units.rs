//! The systemd units the panel installs, and their lifecycle.
//!
//! They are part of the program: each names what root executes, and as files of
//! their own they would be a second place where that instruction could be
//! rewritten. The list here is the installer's list.

use vstd::prelude::*;

use crate::command;
use crate::command::CommandLine;
use crate::effect;
use crate::effect::{Change, Steps};
use crate::limits::usage;
use crate::path;
use crate::sys::state::PLUGIN_PATH;
use crate::text;

verus! {

/// Where systemd looks for units installed by packages and administrators.
pub const SYSTEMD_DIR: &'static str = "/etc/systemd/system";

/// Restores apps that were running before a reboot.
pub const PANEL_SERVICE: &'static str = "[Unit]
Description=Selynt Panel — restaurar aplicações após reinício
After=network-online.target directadmin.service lsws.service
Wants=network-online.target

[Service]
Type=oneshot
ExecStart={BIN} boot-recover
RemainAfterExit=no
User=root

# The apps this unit starts must outlive it. systemd kills a oneshot service's
# whole cgroup once it exits, which is why nothing survived a reboot before:
# every app came back up and died moments later. `KillMode=process` limits that
# to the main process.
KillMode=process

[Install]
WantedBy=multi-user.target
";

/// Stops apps that bound a port reachable from outside the host.
pub const NETGUARD_SERVICE: &'static str = "[Unit]
Description=Selynt Panel — parar aplicações com porta exposta
After=network.target

[Service]
Type=oneshot
ExecStart={BIN} netguard --all-accounts
User=root

# The sweep only reads /proc and signals offending processes; it must never take
# the panel's own apps down with it when it exits.
KillMode=process
";

pub const NETGUARD_TIMER: &'static str = "[Unit]
Description=Selynt Panel — verificação periódica de portas expostas

[Timer]
# A sweep costs a few milliseconds, so it can run far more often than a cron
# minute would allow.
OnBootSec=60s
OnUnitActiveSec=15s
AccuracySec=1s

[Install]
WantedBy=timers.target
";

/// Rewrites the proxy configuration when the set of live apps changes.
pub const PROXYSYNC_SERVICE: &'static str = "[Unit]
Description=Selynt Panel — sincronizar rotas do servidor web
After=network.target

[Service]
Type=oneshot
ExecStart={BIN} sync-proxy
User=root

# Rewrites a config file and reloads the web server; it must not take the
# panel's own apps down with it when it exits.
KillMode=process
";

pub const PROXYSYNC_TIMER: &'static str = "[Unit]
Description=Selynt Panel — verificação de rotas pendentes

[Timer]
# The sync only does work when there is something to sync, so a short interval
# costs a stat(). Anything longer leaves an app unreachable after it starts.
OnBootSec=30s
OnUnitActiveSec=5s
AccuracySec=1s

[Install]
WantedBy=timers.target
";

/// A unit and how it should be enabled.
pub struct Unit {
    pub name: &'static str,
    pub content: &'static str,
    /// Units enabled to run at boot rather than on a timer.
    pub enable: bool,
    /// Started immediately as well as enabled: timers, which have nothing to
    /// wait for.
    pub start_now: bool,
}

/// Everything the panel installs.
pub open spec fn unit_list() -> Seq<Unit> {
    seq![
        Unit {
            name: "selynt-panel.service",
            content: PANEL_SERVICE,
            enable: true,
            start_now: false,
        },
        Unit {
            name: "selynt-netguard.service",
            content: NETGUARD_SERVICE,
            enable: false,
            start_now: false,
        },
        Unit {
            name: "selynt-netguard.timer",
            content: NETGUARD_TIMER,
            enable: true,
            start_now: true,
        },
        Unit {
            name: "selynt-proxysync.service",
            content: PROXYSYNC_SERVICE,
            enable: false,
            start_now: false,
        },
        Unit {
            name: "selynt-proxysync.timer",
            content: PROXYSYNC_TIMER,
            enable: true,
            start_now: true,
        },
    ]
}

/// Everything the panel installs. Adding a unit here is all it takes.
pub fn units() -> (r: Vec<Unit>)
    ensures
        r@ == unit_list(),
{
    let mut out: Vec<Unit> = Vec::new();
    out.push(
        Unit {
            name: "selynt-panel.service",
            content: PANEL_SERVICE,
            enable: true,
            start_now: false,
        },
    );
    out.push(
        Unit {
            name: "selynt-netguard.service",
            content: NETGUARD_SERVICE,
            enable: false,
            start_now: false,
        },
    );
    out.push(
        Unit {
            name: "selynt-netguard.timer",
            content: NETGUARD_TIMER,
            enable: true,
            start_now: true,
        },
    );
    out.push(
        Unit {
            name: "selynt-proxysync.service",
            content: PROXYSYNC_SERVICE,
            enable: false,
            start_now: false,
        },
    );
    out.push(
        Unit {
            name: "selynt-proxysync.timer",
            content: PROXYSYNC_TIMER,
            enable: true,
            start_now: true,
        },
    );
    assert(out@ =~= unit_list());
    out
}

/// Whether units can be written and managed on this host: the directory of
/// units is there, and systemd runs.
pub fn units_supported(unit_dir: bool, systemd_runs: bool) -> (r: bool)
    ensures
        r == (unit_dir && systemd_runs),
{
    unit_dir && systemd_runs
}

/// A unit with the installed binary in its place.
pub open spec fn rendered(content: Seq<char>) -> Seq<char> {
    text::replaced(content, "{BIN}"@, PLUGIN_PATH@ + "/bin/core-selynt"@)
}

/// A unit with the installed binary in its place.
pub fn render(content: &str) -> (r: String)
    ensures
        r@ == rendered(content@),
{
    proof {
        reveal_strlit("{BIN}");
    }
    text::replace(content, "{BIN}", &text::cat(PLUGIN_PATH, "/bin/core-selynt"))
}

/// The file of a unit.
pub open spec fn unit_file(name: Seq<char>) -> Seq<char> {
    path::under(SYSTEMD_DIR@, name)
}

/// Writing a unit.
pub open spec fn unit_written(u: Unit) -> Seq<effect::StepV> {
    seq![
        effect::needed(effect::ChangeV::Write(unit_file(u.name@), rendered(u.content@))),
        effect::needed(effect::ChangeV::SetMode(unit_file(u.name@), 0o644)),
    ]
}

/// Writes a unit. One that cannot be written is passed over.
pub fn write_unit(u: &Unit) -> (r: Steps)
    ensures
        r@ == unit_written(*u),
{
    let file = path::join(SYSTEMD_DIR, u.name);
    let mut steps = Steps::new();
    steps.need(Change::Write(file.clone(), render(u.content)));
    steps.need(Change::SetMode(file, 0o644));
    assert(steps@ =~= unit_written(*u));
    steps
}

/// A call of `systemctl`.
pub open spec fn systemctl(args: Seq<Seq<char>>) -> command::CommandV {
    command::CommandV { program: "systemctl"@, args, env: Seq::empty(), current_dir: None }
}

/// The calls that enable the first `n` units.
pub open spec fn enabling(n: nat) -> Seq<command::CommandV>
    decreases n,
{
    if n == 0 {
        seq![systemctl(seq!["daemon-reload"@])]
    } else {
        let u = unit_list()[n - 1];
        let before = enabling((n - 1) as nat);
        if !u.enable {
            before
        } else if u.start_now {
            before.push(systemctl(seq!["enable"@, "--now"@, u.name@]))
        } else {
            before.push(systemctl(seq!["enable"@, u.name@]))
        }
    }
}

/// Has systemd re-read its directory, after units were written or removed.
pub fn reload() -> (r: CommandLine)
    ensures
        r@ == systemctl(seq!["daemon-reload"@]),
{
    let mut cmd = CommandLine::new("systemctl");
    cmd.arg("daemon-reload");
    assert(cmd@.args =~= seq!["daemon-reload"@]);
    cmd
}

/// The calls that follow the writing of the units: systemd re-reads its
/// directory once, and the units that should run are enabled.
pub fn install() -> (r: Vec<CommandLine>)
    ensures
        usage::command_views(r@) == enabling(5),
{
    let all = units();
    let mut out: Vec<CommandLine> = Vec::new();
    out.push(reload());
    assert(usage::command_views(out@) =~= enabling(0));
    let mut i: usize = 0;
    while i < all.len()
        invariant
            all@ == unit_list(),
            i <= all@.len(),
            usage::command_views(out@) == enabling(i as nat),
        decreases all@.len() - i,
    {
        let ghost before = usage::command_views(out@);
        assert(unit_list()[i as int] == all@[i as int]);
        if all[i].enable {
            let mut cmd = CommandLine::new("systemctl");
            cmd.arg("enable");
            if all[i].start_now {
                cmd.arg("--now");
                cmd.arg(all[i].name);
                assert(cmd@.args =~= seq!["enable"@, "--now"@, all@[i as int].name@]);
            } else {
                cmd.arg(all[i].name);
                assert(cmd@.args =~= seq!["enable"@, all@[i as int].name@]);
            }
            let ghost shown = cmd@;
            out.push(cmd);
            assert(usage::command_views(out@) =~= before.push(shown));
        }
        i = i + 1;
    }
    out
}

/// How a unit is removed: disabled and stopped first, since a timer left
/// running would keep invoking a binary that is being uninstalled, and then its
/// file.
pub fn remove(u: &Unit) -> (r: (CommandLine, String))
    ensures
        r.0@ == systemctl(seq!["disable"@, "--now"@, u.name@]),
        r.1@ == unit_file(u.name@),
{
    let mut cmd = CommandLine::new("systemctl");
    cmd.arg("disable");
    cmd.arg("--now");
    cmd.arg(u.name);
    assert(cmd@.args =~= seq!["disable"@, "--now"@, u.name@]);
    (cmd, path::join(SYSTEMD_DIR, u.name))
}

/// Only timers and the boot service are enabled, and only timers are started at
/// once: a periodic service is driven by its timer.
pub proof fn law_only_timers_and_the_boot_service_run(i: int)
    requires
        0 <= i < unit_list().len(),
    ensures
        unit_list()[i].enable ==> ".timer"@.is_suffix_of(unit_list()[i].name@)
            || unit_list()[i].name@ == "selynt-panel.service"@,
        unit_list()[i].start_now ==> ".timer"@.is_suffix_of(unit_list()[i].name@),
{
    reveal_strlit(".timer");
    reveal_strlit("selynt-netguard.timer");
    reveal_strlit("selynt-proxysync.timer");
    assert("selynt-netguard.timer"@.subrange(15, 21) =~= ".timer"@);
    assert("selynt-proxysync.timer"@.subrange(16, 22) =~= ".timer"@);
}

/// A unit is written with the path of the installed binary in place of its mark, and
/// nothing else of it is changed.
pub proof fn law_units_name_the_installed_binary(a: Seq<char>, b: Seq<char>)
    requires
        !a.contains('{'),
        !b.contains('{'),
    ensures
        rendered(a + "{BIN}"@ + b) == a + ("/usr/local/directadmin/plugins/selynt_panel"@
            + "/bin/core-selynt"@) + b,
        rendered(b) == b,
{
    reveal_strlit("{BIN}");
    let p = "{BIN}"@;
    assert forall|i: int| 0 <= i < a.len() implies !p.is_prefix_of(#[trigger] (a + p + b).skip(i)) by {
        assert((a + p + b).skip(i)[0] == a[i]);
        assert(a.contains(a[i]));
        assert(p[0] == '{');
    }
    assert forall|i: int| 0 <= i < b.len() implies !p.is_prefix_of(#[trigger] b.skip(i)) by {
        assert(b.skip(i)[0] == b[i]);
        assert(b.contains(b[i]));
        assert(p[0] == '{');
    }
    let w = PLUGIN_PATH@ + "/bin/core-selynt"@;
    text::law_replacing_leaves_the_rest(a, p, b, w);
    text::law_nothing_to_replace(b, p, w);
}

/// A unit is written where systemd looks for it, for everybody to read.
pub proof fn law_units_are_written_for_systemd(u: Unit)
    ensures
        ({
            let file = path::under("/etc/systemd/system"@, u.name@);
            unit_written(u) == seq![
                effect::StepV {
                    change: effect::ChangeV::Write(file, rendered(u.content@)),
                    must: true,
                },
                effect::StepV { change: effect::ChangeV::SetMode(file, 420), must: true },
            ]
        }),
{
}

/// systemd reads its units anew before any is enabled; then those that are to be are
/// enabled, timers at once.
pub proof fn law_units_are_read_before_they_are_enabled()
    ensures
        enabling(5) == seq![
            systemctl(seq!["daemon-reload"@]),
            systemctl(seq!["enable"@, "selynt-panel.service"@]),
            systemctl(seq!["enable"@, "--now"@, "selynt-netguard.timer"@]),
            systemctl(seq!["enable"@, "--now"@, "selynt-proxysync.timer"@]),
        ],
        systemctl(Seq::empty()).program == "systemctl"@,
{
    reveal_with_fuel(enabling, 6);
    let us = unit_list();
    assert(us[0].name@ == "selynt-panel.service"@ && us[0].enable && !us[0].start_now);
    assert(!us[1].enable && us[2].enable && us[2].start_now && !us[3].enable && us[4].enable
        && us[4].start_now);
    assert(enabling(0) =~= seq![systemctl(seq!["daemon-reload"@])]);
}

} // verus!
