//! Per-account isolation, built on mount and PID namespaces.
//!
//! An account's apps run as the same user, so by default they can read each
//! other's files and signal each other's processes. Isolated, each runs where
//! the neighbours do not exist — still as the account.

use vstd::prelude::*;

use crate::command;
use crate::command::CommandLine;
use crate::sys::output;
use crate::sys::output::Response;
use crate::sys::state;
use crate::sys::state::PLUGIN_PATH;
use crate::text;

verus! {

/// Read-only system paths an app needs to run at all: the interpreter, shared
/// libraries and the resolver's configuration.
pub open spec fn system_paths() -> Seq<Seq<char>> {
    seq!["/usr"@, "/bin"@, "/sbin"@, "/lib"@, "/lib64"@, "/etc"@]
}

pub fn system_path_list() -> (r: Vec<String>)
    ensures
        text::views(r@) == system_paths(),
{
    let mut out: Vec<String> = Vec::new();
    out.push("/usr".to_string());
    out.push("/bin".to_string());
    out.push("/sbin".to_string());
    out.push("/lib".to_string());
    out.push("/lib64".to_string());
    out.push("/etc".to_string());
    assert(text::views(out@) =~= system_paths());
    out
}

/// The bubblewrap shipped with the panel. The system's own lags, and the sandbox
/// has to behave the same on every server.
pub fn bwrap_bin() -> (r: String)
    ensures
        r@ == PLUGIN_PATH@ + "/bin/bwrap"@,
{
    let mut out = PLUGIN_PATH.to_string();
    out.append("/bin/bwrap");
    out
}

/// `user.max_user_namespaces` at 0 means the kernel refuses to create one.
pub open spec fn namespaces_allowed(max_user_namespaces: Option<Seq<char>>) -> bool {
    match max_user_namespaces {
        Some(v) => match text::number(text::trimmed(v), u64::MAX as nat) {
            Some(n) => n > 0,
            None => false,
        },
        None => false,
    }
}

/// Whether the kernel lets an account create namespaces, from the content of
/// `/proc/sys/user/max_user_namespaces`.
pub fn user_namespaces_enabled(max_user_namespaces: Option<&str>) -> (r: bool)
    ensures
        r == namespaces_allowed(state::opt_view(max_user_namespaces)),
{
    match max_user_namespaces {
        Some(v) => match text::parse_u64(&text::trim(v)) {
            Some(n) => n > 0,
            None => false,
        },
        None => false,
    }
}

/// Whether this host can isolate apps: the bundled binary is there and the
/// kernel lets namespaces be made.
pub fn available(bwrap: bool, userns: bool) -> (r: bool)
    ensures
        r == (bwrap && userns),
{
    bwrap && userns
}

/// Why isolation is unavailable, as a key that the panel translates.
pub open spec fn missing_piece(bwrap: bool, userns: bool) -> Seq<char> {
    if !bwrap {
        "errors.sandbox_no_bwrap"@
    } else if !userns {
        "errors.sandbox_no_userns"@
    } else {
        "errors.sandbox_unavailable"@
    }
}

/// Why isolation is unavailable, for a message the account will actually read.
pub fn unavailable_reason(bwrap: bool, userns: bool) -> (r: &'static str)
    ensures
        r@ == missing_piece(bwrap, userns),
{
    if !bwrap {
        "errors.sandbox_no_bwrap"
    } else if !userns {
        "errors.sandbox_no_userns"
    } else {
        "errors.sandbox_unavailable"
    }
}

/// A mount of `p` at the same place inside.
pub open spec fn bind(kind: Seq<char>, p: Seq<char>) -> Seq<Seq<char>> {
    seq![kind, p, p]
}

/// Read-only mounts of these paths.
pub open spec fn read_only(paths: Seq<Seq<char>>) -> Seq<Seq<char>>
    decreases paths.len(),
{
    if paths.len() == 0 {
        Seq::empty()
    } else {
        read_only(paths.drop_last()) + bind("--ro-bind"@, paths.last())
    }
}

/// Mounts of these directories that can be written to.
pub open spec fn writable(dirs: Seq<Seq<char>>) -> Seq<Seq<char>>
    decreases dirs.len(),
{
    if dirs.len() == 0 {
        Seq::empty()
    } else {
        writable(dirs.drop_last()) + bind("--bind"@, dirs.last())
    }
}

/// Fresh `/proc`, `/dev` and `/tmp`, and a process namespace of its own.
pub open spec fn fresh_parts() -> Seq<Seq<char>> {
    seq![
        "--proc"@,
        "/proc"@,
        "--dev"@,
        "/dev"@,
        "--tmpfs"@,
        "/tmp"@,
        "--unshare-pid"@,
    ]
}

/// The arguments that set the sandbox up: the system's paths to read, these
/// directories to write to, and nothing else of the host.
pub open spec fn confinement(system: Seq<Seq<char>>, dirs: Seq<Seq<char>>) -> Seq<Seq<char>> {
    read_only(system) + writable(dirs) + fresh_parts()
}

/// `cmd` confined by this bubblewrap.
pub open spec fn confined(
    bwrap: Seq<char>,
    cmd: command::CommandV,
    system: Seq<Seq<char>>,
    dirs: Seq<Seq<char>>,
) -> command::CommandV {
    command::running(
        command::CommandV {
            program: bwrap,
            args: confinement(system, dirs),
            env: Seq::empty(),
            current_dir: None,
        },
        cmd,
    )
}

fn confine(bwrap: &str, cmd: &CommandLine, system: &Vec<String>, dirs: &Vec<String>) -> (r:
    CommandLine)
    ensures
        r@ == confined(bwrap@, cmd@, text::views(system@), text::views(dirs@)),
{
    let ghost sv = text::views(system@);
    let ghost dv = text::views(dirs@);
    let mut run = CommandLine::new(bwrap);
    let ghost bare = run@;
    let mut i: usize = 0;
    assert(read_only(sv.take(0)) =~= Seq::<Seq<char>>::empty());
    while i < system.len()
        invariant
            sv == text::views(system@),
            i <= system@.len(),
            run@ == (command::CommandV { args: read_only(sv.take(i as int)), ..bare }),
        decreases system@.len() - i,
    {
        let ghost before = run@.args;
        assert(sv.take(i + 1).drop_last() =~= sv.take(i as int));
        assert(sv.take(i + 1).last() == system@[i as int]@);
        run.arg("--ro-bind");
        run.arg(&system[i]);
        run.arg(&system[i]);
        assert(run@.args =~= before + bind("--ro-bind"@, system@[i as int]@));
        i = i + 1;
    }
    assert(sv.take(i as int) =~= sv);
    let ghost reading = read_only(sv);
    let mut j: usize = 0;
    assert(writable(dv.take(0)) =~= Seq::<Seq<char>>::empty());
    assert(reading + writable(dv.take(0)) =~= reading);
    while j < dirs.len()
        invariant
            dv == text::views(dirs@),
            j <= dirs@.len(),
            run@ == (command::CommandV { args: reading + writable(dv.take(j as int)), ..bare }),
        decreases dirs@.len() - j,
    {
        let ghost before = run@.args;
        assert(dv.take(j + 1).drop_last() =~= dv.take(j as int));
        assert(dv.take(j + 1).last() == dirs@[j as int]@);
        run.arg("--bind");
        run.arg(&dirs[j]);
        run.arg(&dirs[j]);
        assert(run@.args =~= reading + (writable(dv.take(j as int)) + bind(
            "--bind"@,
            dirs@[j as int]@,
        )));
        j = j + 1;
    }
    assert(dv.take(j as int) =~= dv);
    let ghost before = run@.args;
    run.arg("--proc");
    run.arg("/proc");
    run.arg("--dev");
    run.arg("/dev");
    // A private /tmp keeps one app's temporary files away from the others.
    run.arg("--tmpfs");
    run.arg("/tmp");
    // No `--die-with-parent`: the app is detached and outlives whatever started
    // it. The systemd scope is what bounds its lifetime.
    run.arg("--unshare-pid");
    assert(run@.args =~= before + fresh_parts());
    run.run(cmd);
    run
}

/// Wraps an app's command so that it sees only its own directory and the one
/// its socket lives in. `system` are the system paths that exist.
pub fn wrap_with(
    bwrap: &str,
    cmd: &CommandLine,
    app_dir: &str,
    socket_dir: &str,
    system: &Vec<String>,
) -> (r: CommandLine)
    ensures
        r@ == confined(bwrap@, cmd@, text::views(system@), seq![app_dir@, socket_dir@]),
{
    let mut dirs: Vec<String> = Vec::new();
    dirs.push(app_dir.to_string());
    dirs.push(socket_dir.to_string());
    assert(text::views(dirs@) =~= seq![app_dir@, socket_dir@]);
    confine(bwrap, cmd, system, &dirs)
}

/// Wraps a command of an app that serves nothing, such as an npm command, so
/// that it sees only the app's own directory.
pub fn wrap_command_with(
    bwrap: &str,
    cmd: &CommandLine,
    app_dir: &str,
    system: &Vec<String>,
) -> (r: CommandLine)
    ensures
        r@ == confined(bwrap@, cmd@, text::views(system@), seq![app_dir@]),
{
    let mut dirs: Vec<String> = Vec::new();
    dirs.push(app_dir.to_string());
    assert(text::views(dirs@) =~= seq![app_dir@]);
    confine(bwrap, cmd, system, &dirs)
}

/// The answer when there is nothing to confine a command with.
pub open spec fn no_sandbox(userns: bool) -> output::ResponseV {
    output::broken("sandbox_unavailable"@, missing_piece(false, userns))
}

fn sandbox_missing(userns: bool) -> (r: Response)
    ensures
        r@ == no_sandbox(userns),
{
    output::system_error("sandbox_unavailable", unavailable_reason(false, userns))
}

/// Wraps an app's command, or refuses when the bundled bubblewrap is missing.
///
/// Refuses instead of returning the command as it is: a missing binary is a
/// broken install, and a bare command would run outside the sandbox with nobody
/// the wiser.
pub fn wrap(
    bwrap: Option<&str>,
    userns: bool,
    cmd: &CommandLine,
    app_dir: &str,
    socket_dir: &str,
    system: &Vec<String>,
) -> (r: Result<CommandLine, Response>)
    ensures
        match r {
            Ok(c) => bwrap is Some && c@ == confined(
                bwrap->0@,
                cmd@,
                text::views(system@),
                seq![app_dir@, socket_dir@],
            ),
            Err(e) => bwrap is None && e@ == no_sandbox(userns),
        },
{
    match bwrap {
        Some(b) => Ok(wrap_with(b, cmd, app_dir, socket_dir, system)),
        None => Err(sandbox_missing(userns)),
    }
}

/// Wraps a command of an app that serves nothing, or refuses when the bundled
/// bubblewrap is missing.
pub fn wrap_command(
    bwrap: Option<&str>,
    userns: bool,
    cmd: &CommandLine,
    app_dir: &str,
    system: &Vec<String>,
) -> (r: Result<CommandLine, Response>)
    ensures
        match r {
            Ok(c) => bwrap is Some && c@ == confined(
                bwrap->0@,
                cmd@,
                text::views(system@),
                seq![app_dir@],
            ),
            Err(e) => bwrap is None && e@ == no_sandbox(userns),
        },
{
    match bwrap {
        Some(b) => Ok(wrap_command_with(b, cmd, app_dir, system)),
        None => Err(sandbox_missing(userns)),
    }
}

/// A confined command still runs what it was asked to run: its program and its
/// arguments stand last and in order, and its environment is kept.
pub proof fn law_confinement_keeps_the_command(
    bwrap: Seq<char>,
    cmd: command::CommandV,
    system: Seq<Seq<char>>,
    dirs: Seq<Seq<char>>,
)
    ensures
        confined(bwrap, cmd, system, dirs).args == confinement(system, dirs) + (seq![cmd.program]
            + cmd.args),
        confined(bwrap, cmd, system, dirs).env == cmd.env,
{
    assert(confined(bwrap, cmd, system, dirs).args =~= confinement(system, dirs) + (seq![
        cmd.program,
    ] + cmd.args));
    assert(confined(bwrap, cmd, system, dirs).env =~= cmd.env);
}

/// What can be written to inside is exactly the directories that were named:
/// every `--bind` of the sandbox is one of them.
pub proof fn law_only_named_directories_are_writable(
    system: Seq<Seq<char>>,
    dirs: Seq<Seq<char>>,
    i: int,
)
    requires
        0 <= i < confinement(system, dirs).len(),
        confinement(system, dirs)[i] == "--bind"@,
        !system.contains("--bind"@),
        !dirs.contains("--bind"@),
    ensures
        i + 2 < confinement(system, dirs).len(),
        confinement(system, dirs)[i + 1] == confinement(system, dirs)[i + 2],
        dirs.contains(confinement(system, dirs)[i + 1]),
{
    reveal_strlit("--bind");
    reveal_strlit("--ro-bind");
    reveal_strlit("--proc");
    reveal_strlit("/proc");
    reveal_strlit("--dev");
    reveal_strlit("/dev");
    reveal_strlit("--tmpfs");
    reveal_strlit("/tmp");
    reveal_strlit("--unshare-pid");
    lemma_read_only(system);
    lemma_writable(dirs);
    let r = read_only(system);
    let w = writable(dirs);
    let f = fresh_parts();
    let b = "--bind"@;
    assert("--ro-bind"@.len() != b.len());
    assert("--proc"@[2] != b[2]);
    assert("/proc"@.len() != b.len());
    assert("--dev"@.len() != b.len());
    assert("/dev"@.len() != b.len());
    assert("--tmpfs"@.len() != b.len());
    assert("/tmp"@.len() != b.len());
    assert("--unshare-pid"@.len() != b.len());
    if i < r.len() {
        assert(r[i] == b);
    } else if i >= r.len() + w.len() {
        assert(f[i - r.len() - w.len()] == b);
    } else {
        let k = i - r.len();
        assert(w[k] == b);
        assert(k + 2 < w.len());
        assert(confinement(system, dirs)[i + 1] == w[k + 1]);
        assert(confinement(system, dirs)[i + 2] == w[k + 2]);
    }
}

proof fn lemma_read_only(paths: Seq<Seq<char>>)
    ensures
        forall|i: int| 0 <= i < read_only(paths).len() ==> #[trigger] read_only(paths)[i]
            == "--ro-bind"@ || paths.contains(read_only(paths)[i]),
    decreases paths.len(),
{
    if paths.len() > 0 {
        let front = paths.drop_last();
        lemma_read_only(front);
        let a = read_only(front);
        assert forall|i: int| 0 <= i < read_only(paths).len() implies #[trigger] read_only(paths)[i]
            == "--ro-bind"@ || paths.contains(read_only(paths)[i]) by {
            if i < a.len() {
                assert(read_only(paths)[i] == a[i]);
                if front.contains(a[i]) {
                    let k = choose|k: int| 0 <= k < front.len() && front[k] == a[i];
                    assert(paths[k] == a[i]);
                }
            } else {
                assert(paths[paths.len() - 1] == paths.last());
            }
        }
    }
}

proof fn lemma_writable(dirs: Seq<Seq<char>>)
    requires
        !dirs.contains("--bind"@),
    ensures
        forall|i: int| 0 <= i < writable(dirs).len() && #[trigger] writable(dirs)[i] == "--bind"@
            ==> i + 2 < writable(dirs).len() && writable(dirs)[i + 1] == writable(dirs)[i + 2]
            && dirs.contains(writable(dirs)[i + 1]),
    decreases dirs.len(),
{
    if dirs.len() > 0 {
        let front = dirs.drop_last();
        assert forall|d: Seq<char>| front.contains(d) implies dirs.contains(d) by {
            let k = choose|k: int| 0 <= k < front.len() && front[k] == d;
            assert(dirs[k] == d);
        }
        lemma_writable(front);
        let a = writable(front);
        assert(dirs[dirs.len() - 1] == dirs.last());
        assert(dirs.contains(dirs.last()));
        assert forall|i: int|
            0 <= i < writable(dirs).len() && #[trigger] writable(dirs)[i] == "--bind"@ implies i + 2
            < writable(dirs).len() && writable(dirs)[i + 1] == writable(dirs)[i + 2]
            && dirs.contains(writable(dirs)[i + 1]) by {
            if i < a.len() {
                assert(writable(dirs)[i] == a[i]);
                assert(writable(dirs)[i + 1] == a[i + 1]);
                assert(writable(dirs)[i + 2] == a[i + 2]);
            } else if i == a.len() {
                assert(writable(dirs)[i + 1] == dirs.last());
                assert(writable(dirs)[i + 2] == dirs.last());
            } else {
                assert(writable(dirs)[i] == dirs.last());
            }
        }
    }
}

proof fn lemma_writable_has(dirs: Seq<Seq<char>>, i: int) -> (k: int)
    requires
        0 <= i < dirs.len(),
    ensures
        0 <= k && k + 2 < writable(dirs).len(),
        writable(dirs)[k] == "--bind"@,
        writable(dirs)[k + 1] == dirs[i],
        writable(dirs)[k + 2] == dirs[i],
    decreases dirs.len(),
{
    let front = writable(dirs.drop_last());
    if i < dirs.len() - 1 {
        lemma_writable_has(dirs.drop_last(), i)
    } else {
        front.len() as int
    }
}

proof fn lemma_read_only_has(paths: Seq<Seq<char>>, i: int) -> (k: int)
    requires
        0 <= i < paths.len(),
    ensures
        0 <= k && k + 2 < read_only(paths).len(),
        read_only(paths)[k] == "--ro-bind"@,
        read_only(paths)[k + 1] == paths[i],
        read_only(paths)[k + 2] == paths[i],
    decreases paths.len(),
{
    let front = read_only(paths.drop_last());
    if i < paths.len() - 1 {
        lemma_read_only_has(paths.drop_last(), i)
    } else {
        front.len() as int
    }
}

/// A confined command sees the directories it is given, at their own places: those
/// it may write to bound to be written, those of the system bound to be read.
pub proof fn law_named_directories_are_bound(
    bwrap: Seq<char>,
    cmd: command::CommandV,
    system: Seq<Seq<char>>,
    dirs: Seq<Seq<char>>,
    i: int,
)
    ensures
        0 <= i < dirs.len() ==> exists|k: int|
            {
                let args = confined(bwrap, cmd, system, dirs).args;
                &&& 0 <= k && k + 2 < args.len()
                &&& #[trigger] confined(bwrap, cmd, system, dirs).args[k] == "--bind"@
                &&& args[k + 1] == dirs[i]
                &&& args[k + 2] == dirs[i]
            },
        0 <= i < system.len() ==> exists|k: int|
            {
                let args = confined(bwrap, cmd, system, dirs).args;
                &&& 0 <= k && k + 2 < args.len()
                &&& #[trigger] confined(bwrap, cmd, system, dirs).args[k] == "--ro-bind"@
                &&& args[k + 1] == system[i]
                &&& args[k + 2] == system[i]
            },
{
    let args = confined(bwrap, cmd, system, dirs).args;
    let n = read_only(system).len();
    if 0 <= i < dirs.len() {
        let k = lemma_writable_has(dirs, i);
        assert(args[n + k] == writable(dirs)[k]);
        assert(args[n + k + 1] == writable(dirs)[k + 1]);
        assert(args[n + k + 2] == writable(dirs)[k + 2]);
    }
    if 0 <= i < system.len() {
        let k = lemma_read_only_has(system, i);
        assert(args[k] == read_only(system)[k]);
        assert(args[k + 1] == read_only(system)[k + 1]);
        assert(args[k + 2] == read_only(system)[k + 2]);
    }
}

/// A confined command has a process list, devices and temporary files of its own,
/// and is run by the sandbox: it comes last, in its own environment.
pub proof fn law_confined_commands_share_no_processes(
    bwrap: Seq<char>,
    cmd: command::CommandV,
    system: Seq<Seq<char>>,
    dirs: Seq<Seq<char>>,
)
    ensures
        ({
            let r = confined(bwrap, cmd, system, dirs);
            let own = r.args.take(r.args.len() - cmd.args.len() - 1);
            let n = own.len();
            &&& r.program == bwrap
            &&& r.env == cmd.env
            &&& r.args == own.push(cmd.program) + cmd.args
            &&& n >= 7
            &&& own.skip(n - 7) == seq![
                "--proc"@,
                "/proc"@,
                "--dev"@,
                "/dev"@,
                "--tmpfs"@,
                "/tmp"@,
                "--unshare-pid"@,
            ]
        }),
{
    let r = confined(bwrap, cmd, system, dirs);
    let own = r.args.take(r.args.len() - cmd.args.len() - 1);
    assert(own =~= confinement(system, dirs));
    assert(r.args =~= own.push(cmd.program) + cmd.args);
    assert(r.env =~= cmd.env);
    assert(own.skip(own.len() - 7) =~= fresh_parts());
}

/// Namespaces are allowed when the kernel lets there be at least one.
pub proof fn law_namespaces_need_a_number(n: nat)
    requires
        n <= u64::MAX,
    ensures
        namespaces_allowed(Some(text::decimal(n).push('\n'))) == (n > 0),
        !namespaces_allowed(None),
        !namespaces_allowed(Some(Seq::empty())),
{
    text::law_numbers_read_back(n, u64::MAX as nat);
    let d = text::decimal(n);
    assert(d[0] <= '9' && d[d.len() - 1] <= '9' && '0' <= d[0] && '0' <= d[d.len() - 1]);
    text::law_trimming_takes_white_space(Seq::empty(), d, seq!['\n']);
    assert(Seq::<char>::empty() + d + seq!['\n'] =~= d.push('\n'));
    text::law_trimming_takes_white_space(Seq::empty(), Seq::empty(), Seq::empty());
    let none = Seq::<char>::empty();
    assert(none + none + none =~= none);
    text::law_numbers_begin_with_a_digit('0', none, u64::MAX as nat);
}

/// What a host lacks for isolation is named: bubblewrap first, then the namespaces.
pub proof fn law_missing_pieces_are_named(userns: bool)
    ensures
        missing_piece(false, userns) == "errors.sandbox_no_bwrap"@,
        missing_piece(true, false) == "errors.sandbox_no_userns"@,
        missing_piece(true, true) == "errors.sandbox_unavailable"@,
        no_sandbox(userns) == output::broken(
            "sandbox_unavailable"@,
            "errors.sandbox_no_bwrap"@,
        ),
        system_paths() == seq!["/usr"@, "/bin"@, "/sbin"@, "/lib"@, "/lib64"@, "/etc"@],
{
}

} // verus!
