//! The commands of the program, who may give them, and on whose state they act.

use vstd::prelude::*;

use crate::app::commands::Domain;
use crate::command;
use crate::runtime::kind;
use crate::runtime::kind::Runtime;
use crate::sys::output;
use crate::sys::output::{Json, JsonV, Members, Response};
use crate::sys::state;
use crate::sys::state::{DA_USERS_BASE, STATE_BASE};
use crate::text;

verus! {

/// A command.
pub enum Commands {
    List,
    Status { name: String },
    Start { name: String },
    Stop { name: String, timeout: u64 },
    Restart { name: String },
    Add {
        name: String,
        app_type: AppType,
        cwd: Option<String>,
        entry: String,
        host: String,
        domain: Option<String>,
        subdomain: Option<String>,
        node_version: Option<String>,
        env_vars: Vec<String>,
    },
    Remove { name: String, delete_dir: bool },
    SetNodeVersion { name: String, node_version: String },
    Logs { name: String, lines: usize, stderr: bool },
    Stats { name: String },
    BootRecover,
    Teardown,
    Setup,
    SyncProxy,
    StatusIsolated,
    SetIsolated { isolated: bool },
    Netguard { all_accounts: bool },
    SetMemoryMax { name: String, megabytes: u64 },
    Domains { domain: Option<String> },
    SetLocale { locale: String },
    Admin { command: AdminCommands },
}

/// A command for administrators.
pub enum AdminCommands {
    Version,
    List,
    DetectNodes,
    SaveNodeVersions { indices: Vec<usize> },
    SaveDefaultIsolated { isolated: bool },
    Diagnose,
    SetLocale { locale: String },
}

/// The kind of a new app.
#[derive(Debug, Clone, Copy, PartialEq, Eq, Structural)]
pub enum AppType {
    Node,
    Rust,
}

impl AppType {
    pub open spec fn kind(self) -> Runtime {
        match self {
            AppType::Node => Runtime::Node,
            AppType::Rust => Runtime::Rust,
        }
    }

    pub fn runtime(self) -> (r: Runtime)
        ensures
            r == self.kind(),
    {
        match self {
            AppType::Node => Runtime::Node,
            AppType::Rust => Runtime::Rust,
        }
    }

    pub fn as_str(self) -> (r: &'static str)
        ensures
            r@ == kind::identifier(self.kind()),
    {
        self.runtime().as_str()
    }
}

/// Maintenance that covers the whole server rather than one account.
#[derive(Debug, Clone, Copy, PartialEq, Eq, Structural)]
pub enum ServerWide {
    /// Bring back apps that were running before the last reboot.
    BootRecover,
    /// Stop apps of any account bound to an externally reachable port.
    NetguardAll,
    /// Rewrite the web server's proxy handlers from the live apps.
    SyncProxy,
    /// Record the accounts, prepare the state directory and wire up the proxy.
    Setup,
    /// Stop every app and undo the server-side configuration.
    Teardown,
}

/// The maintenance that a command asks for, if it does.
pub open spec fn maintenance(c: Commands) -> Option<ServerWide> {
    match c {
        Commands::BootRecover => Some(ServerWide::BootRecover),
        Commands::Netguard { all_accounts } => if all_accounts {
            Some(ServerWide::NetguardAll)
        } else {
            None
        },
        Commands::SyncProxy => Some(ServerWide::SyncProxy),
        Commands::Setup => Some(ServerWide::Setup),
        Commands::Teardown => Some(ServerWide::Teardown),
        _ => None,
    }
}

/// Classifies a command as server-wide, if it is one.
pub fn server_wide_command(c: &Commands) -> (r: Option<ServerWide>)
    ensures
        r == maintenance(*c),
{
    match c {
        Commands::BootRecover => Some(ServerWide::BootRecover),
        Commands::Netguard { all_accounts } => if *all_accounts {
            Some(ServerWide::NetguardAll)
        } else {
            None
        },
        Commands::SyncProxy => Some(ServerWide::SyncProxy),
        Commands::Setup => Some(ServerWide::Setup),
        Commands::Teardown => Some(ServerWide::Teardown),
        _ => None,
    }
}

// ---------------------------------------------------------------------------
// Who may
// ---------------------------------------------------------------------------

/// Whether maintenance is allowed. There are three levels: the routing may be
/// brought up to date by anybody, since it follows from what the panel wrote;
/// the installation is root's alone; the rest is for root and the accounts the
/// panel itself runs as.
pub open spec fn is_allowed(w: ServerWide, is_root: bool, is_privileged: bool) -> bool {
    match w {
        ServerWide::SyncProxy => true,
        ServerWide::Setup => is_root,
        ServerWide::Teardown => is_root,
        ServerWide::BootRecover => is_privileged,
        ServerWide::NetguardAll => is_privileged,
    }
}

/// The answer to maintenance that is not allowed.
pub open spec fn not_allowed(w: ServerWide) -> output::ResponseV {
    if w == ServerWide::Setup || w == ServerWide::Teardown {
        output::broken("root_required"@, "installing or removing the plugin requires root"@)
    } else {
        output::broken(
            "admin_required"@,
            "server-wide maintenance requires root or the panel web user"@,
        )
    }
}

/// Refuses maintenance that the caller may not ask for.
///
/// The web server's own account is trusted to act on behalf of a customer, but
/// not to take the panel apart: otherwise anything that reached that account
/// could uninstall it.
pub fn authorize_server_wide(w: ServerWide, is_root: bool, is_privileged: bool) -> (r: Result<
    (),
    Response,
>)
    ensures
        match r {
            Ok(_) => is_allowed(w, is_root, is_privileged),
            Err(e) => !is_allowed(w, is_root, is_privileged) && e@ == not_allowed(w),
        },
{
    let allowed = match w {
        ServerWide::SyncProxy => true,
        ServerWide::Setup => is_root,
        ServerWide::Teardown => is_root,
        ServerWide::BootRecover => is_privileged,
        ServerWide::NetguardAll => is_privileged,
    };
    if allowed {
        return Ok(());
    }
    match w {
        ServerWide::Setup | ServerWide::Teardown => Err(
            output::system_error(
                "root_required",
                "installing or removing the plugin requires root",
            ),
        ),
        _ => Err(
            output::system_error(
                "admin_required",
                "server-wide maintenance requires root or the panel web user",
            ),
        ),
    }
}

/// Refuses an administrator's command from anybody else: those show every
/// account's apps and do privileged work.
pub fn authorize_admin(c: &Commands, is_privileged: bool) -> (r: Result<(), Response>)
    ensures
        match r {
            Ok(_) => !(*c is Admin) || is_privileged,
            Err(e) => *c is Admin && !is_privileged && e@ == output::broken(
                "admin_required"@,
                "administrative commands require root or the panel web user"@,
            ),
        },
{
    match c {
        Commands::Admin { .. } => if is_privileged {
            Ok(())
        } else {
            Err(
                output::system_error(
                    "admin_required",
                    "administrative commands require root or the panel web user",
                ),
            )
        },
        _ => Ok(()),
    }
}

/// Refuses to run without root's rights.
pub fn require_root(euid: u32) -> (r: Result<(), Response>)
    ensures
        match r {
            Ok(_) => euid == 0,
            Err(e) => euid != 0 && e@ == output::broken(
                "root_required"@,
                "core_selynt must be setuid root (euid=0)"@,
            ),
        },
{
    if euid == 0 {
        Ok(())
    } else {
        Err(output::system_error("root_required", "core_selynt must be setuid root (euid=0)"))
    }
}

/// Being trusted to act for customers is not enough to install or remove the
/// panel, and nobody else may do server-wide maintenance beyond the routing.
pub proof fn law_installing_requires_more_than_being_privileged(w: ServerWide, is_privileged: bool)
    ensures
        !is_allowed(ServerWide::Setup, false, is_privileged),
        !is_allowed(ServerWide::Teardown, false, is_privileged),
        is_allowed(w, false, false) ==> w == ServerWide::SyncProxy,
{
}

// ---------------------------------------------------------------------------
// On what
// ---------------------------------------------------------------------------

/// The state directory that is acted on: the account's own, unless a privileged
/// caller names another one of the panel's.
pub open spec fn state_dir_of(username: Seq<char>, is_privileged: bool, named: Option<Seq<char>>) ->
    Seq<char> {
    let own = STATE_BASE@ + "/"@ + username;
    match named {
        Some(p) if is_privileged && (STATE_BASE@ + "/"@).is_prefix_of(p) && !text::occurs(
            p,
            ".."@,
        ) => p,
        _ => own,
    }
}

/// Resolves the state directory for `username`; `named` is what
/// `SELYNT_STATE_DIR` says.
///
/// That is honoured only for privileged callers: the directory of another
/// account has the right prefix too, so that anybody could act on somebody
/// else's apps.
pub fn resolve_state_dir(username: &str, is_privileged: bool, named: Option<&str>) -> (r: String)
    ensures
        r@ == state_dir_of(username@, is_privileged, state::opt_view(named)),
{
    let base = text::cat(STATE_BASE, "/");
    let own = text::cat(&base, username);
    if !is_privileged {
        return own;
    }
    match named {
        Some(p) => if text::starts_with(p, &base) && !text::contains(p, "..") {
            p.to_string()
        } else {
            own
        },
        None => own,
    }
}

/// An ordinary caller never acts on the state of another account, and nobody
/// acts outside the panel's own directory.
pub proof fn law_state_stays_with_its_account(
    username: Seq<char>,
    is_privileged: bool,
    named: Option<Seq<char>>,
)
    ensures
        !is_privileged ==> state_dir_of(username, is_privileged, named) == STATE_BASE@ + "/"@
            + username,
        (STATE_BASE@ + "/"@).is_prefix_of(state_dir_of(username, is_privileged, named)),
{
    let base = STATE_BASE@ + "/"@;
    assert((base + username).subrange(0, base.len() as int) =~= base);
}

/// The lines that say something, trimmed.
pub open spec fn entries_of(ls: Seq<Seq<char>>) -> Seq<Seq<char>>
    decreases ls.len(),
{
    if ls.len() == 0 {
        Seq::empty()
    } else {
        let t = text::trimmed(ls.last());
        if t.len() > 0 {
            entries_of(ls.drop_last()).push(t)
        } else {
            entries_of(ls.drop_last())
        }
    }
}

/// The entries of a list file; none where there is no such file.
pub open spec fn listed(content: Option<Seq<char>>) -> Seq<Seq<char>> {
    match content {
        Some(c) => entries_of(text::lines(c)),
        None => Seq::empty(),
    }
}

/// The entries that are asked for.
pub open spec fn filtered(all: Seq<Seq<char>>, only: Option<Seq<char>>) -> Seq<Seq<char>>
    decreases all.len(),
{
    match only {
        None => all,
        Some(f) => if all.len() == 0 {
            Seq::empty()
        } else if all.last() == f {
            filtered(all.drop_last(), only).push(f)
        } else {
            filtered(all.drop_last(), only)
        },
    }
}

/// The entries of a list file, such as the one of an account's domains or of a
/// domain's subdomains.
pub fn read_list(content: Option<&str>) -> (r: Vec<String>)
    ensures
        text::views(r@) == listed(state::opt_view(content)),
{
    let mut out: Vec<String> = Vec::new();
    let c = match content {
        Some(c) => c,
        None => {
            assert(text::views(out@) =~= Seq::<Seq<char>>::empty());
            return out;
        },
    };
    let ls = text::split_lines(c);
    let ghost vs = text::views(ls@);
    let mut i: usize = 0;
    assert(text::views(out@) =~= entries_of(vs.take(0)));
    while i < ls.len()
        invariant
            vs == text::views(ls@),
            i <= ls@.len(),
            text::views(out@) == entries_of(vs.take(i as int)),
        decreases ls@.len() - i,
    {
        let ghost before = text::views(out@);
        assert(vs.take(i + 1).drop_last() =~= vs.take(i as int));
        assert(vs.take(i + 1).last() == ls@[i as int]@);
        let t = text::trim(&ls[i]);
        if !t.as_str().is_empty() {
            out.push(t);
            assert(text::views(out@) =~= before.push(t@));
        }
        i = i + 1;
    }
    assert(vs.take(i as int) =~= vs);
    out
}

/// The domains of an account, from its list of them; `only` asks for one.
pub fn domain_names(content: Option<&str>, only: Option<&str>) -> (r: Vec<String>)
    ensures
        text::views(r@) == filtered(listed(state::opt_view(content)), state::opt_view(only)),
{
    let all = read_list(content);
    let f = match only {
        Some(f) => f,
        None => {
            return all;
        },
    };
    let ghost vs = text::views(all@);
    let mut out: Vec<String> = Vec::new();
    let mut i: usize = 0;
    assert(text::views(out@) =~= filtered(vs.take(0), Some(f@)));
    while i < all.len()
        invariant
            vs == text::views(all@),
            i <= all@.len(),
            text::views(out@) == filtered(vs.take(i as int), Some(f@)),
        decreases all@.len() - i,
    {
        let ghost before = text::views(out@);
        assert(vs.take(i + 1).drop_last() =~= vs.take(i as int));
        assert(vs.take(i + 1).last() == all@[i as int]@);
        if text::same(&all[i], f) {
            let name = all[i].clone();
            out.push(name);
            assert(text::views(out@) =~= before.push(name@));
        }
        i = i + 1;
    }
    assert(vs.take(i as int) =~= vs);
    out
}

/// The file that lists the domains of an account.
pub fn domains_list_file(username: &str) -> (r: String)
    ensures
        r@ == DA_USERS_BASE@ + "/"@ + username@ + "/domains.list"@,
{
    let mut p = DA_USERS_BASE.to_string();
    p.append("/");
    p.append(username);
    p.append("/domains.list");
    p
}

/// The file that lists the subdomains of a domain.
pub fn subdomains_file(username: &str, domain: &str) -> (r: String)
    ensures
        r@ == DA_USERS_BASE@ + "/"@ + username@ + "/domains/"@ + domain@ + ".subdomains"@,
{
    let mut p = DA_USERS_BASE.to_string();
    p.append("/");
    p.append(username);
    p.append("/domains/");
    p.append(domain);
    p.append(".subdomains");
    p
}

/// A domain with the subdomains that its list holds.
pub fn read_domain(name: String, subdomains: Option<&str>) -> (r: Domain)
    ensures
        r.name@ == name@,
        text::views(r.subdomains@) == listed(state::opt_view(subdomains)),
{
    Domain { name, subdomains: read_list(subdomains) }
}

// ---------------------------------------------------------------------------
// Answers
// ---------------------------------------------------------------------------

/// What debug mode adds to an answer.
pub open spec fn debug_base(user: Seq<char>, home: Seq<char>, state_dir: Option<Seq<char>>) -> JsonV {
    JsonV::Obj(
        seq![
            ("user"@, JsonV::Str(user)),
            ("home"@, JsonV::Str(home)),
            (
                "state_dir"@,
                JsonV::Str(
                    match state_dir {
                        Some(d) => d,
                        None => Seq::empty(),
                    },
                ),
            ),
        ],
    )
}

/// What debug mode adds to an answer, where it is on.
pub fn build_debug_base(enabled: bool, user: &str, home: &str, state_dir: Option<&str>) -> (r: Option<
    Json,
>)
    ensures
        output::debug_view(r) == (if enabled {
            Some(debug_base(user@, home@, state::opt_view(state_dir)))
        } else {
            None
        }),
{
    if !enabled {
        return None;
    }
    let dir = match state_dir {
        Some(d) => d.to_string(),
        None => {
            let none = String::new();
            assert(none@ =~= Seq::<char>::empty());
            none
        },
    };
    let mut m = Members::new();
    m.put_text("user", user);
    m.put_text("home", home);
    m.put_text("state_dir", &dir);
    assert(m@ =~= debug_base(user@, home@, state::opt_view(state_dir))->Obj_0);
    Some(m.object())
}

/// What debug mode adds to the answer of maintenance, which acts on no account.
pub fn server_debug_base(enabled: bool) -> (r: Option<Json>)
    ensures
        output::debug_view(r) == (if enabled {
            Some(JsonV::Obj(seq![("scope"@, JsonV::Str("server"@))]))
        } else {
            None
        }),
{
    if !enabled {
        return None;
    }
    let mut m = Members::new();
    m.put_text("scope", "server");
    assert(m@ =~= seq![("scope"@, JsonV::Str("server"@))]);
    Some(m.object())
}

/// Answers with what was produced while still root.
pub fn emit_prelude_result(outcome: Result<Members, (String, String)>, debug: Option<Json>) -> (r:
    Response)
    ensures
        r@ == (match outcome {
            Ok(m) => output::accepted(output::debugged(m@, output::debug_view(debug))),
            Err(e) => output::refused(e.0@, e.1@),
        }),
{
    match outcome {
        Ok(m) => output::success(output::with_debug(m, debug)),
        Err(e) => output::user_error(&e.0, &e.1),
    }
}

/// Answers with the version of the program, and nothing else.
pub fn version_answer(version: &str) -> (r: Response)
    ensures
        r@ == output::accepted(seq![("version"@, JsonV::Str(version@))]),
{
    let mut m = Members::new();
    m.put_text("version", version);
    assert(m@ =~= seq![("version"@, JsonV::Str(version@))]);
    output::success(m)
}

/// Who may ask for which maintenance: anybody for the routing, root alone for
/// installing and removing, and root and the panel's accounts for the rest.
pub proof fn law_maintenance_is_allowed_by_level(is_root: bool, is_privileged: bool)
    ensures
        is_allowed(ServerWide::SyncProxy, is_root, is_privileged),
        is_allowed(ServerWide::Setup, is_root, is_privileged) <==> is_root,
        is_allowed(ServerWide::Teardown, is_root, is_privileged) <==> is_root,
        is_allowed(ServerWide::BootRecover, is_root, is_privileged) <==> is_privileged,
        is_allowed(ServerWide::NetguardAll, is_root, is_privileged) <==> is_privileged,
        not_allowed(ServerWide::Setup) == output::broken(
            "root_required"@,
            "installing or removing the plugin requires root"@,
        ),
        not_allowed(ServerWide::Teardown) == not_allowed(ServerWide::Setup),
        not_allowed(ServerWide::BootRecover) == output::broken(
            "admin_required"@,
            "server-wide maintenance requires root or the panel web user"@,
        ),
        not_allowed(ServerWide::NetguardAll) == not_allowed(ServerWide::BootRecover),
{
}

/// Which commands are maintenance, and which: a sweep is only when it is of all
/// accounts.
pub proof fn law_maintenance_commands(c: Commands)
    ensures
        c is BootRecover ==> maintenance(c) == Some(ServerWide::BootRecover),
        c is SyncProxy ==> maintenance(c) == Some(ServerWide::SyncProxy),
        c is Setup ==> maintenance(c) == Some(ServerWide::Setup),
        c is Teardown ==> maintenance(c) == Some(ServerWide::Teardown),
        c matches Commands::Netguard { all_accounts } ==> maintenance(c) == (if all_accounts {
            Some(ServerWide::NetguardAll)
        } else {
            None
        }),
        !(c is BootRecover) && !(c is SyncProxy) && !(c is Setup) && !(c is Teardown) && !(
        c is Netguard) ==> maintenance(c) is None,
{
}

/// A privileged caller may name another state directory of the panel's; one that
/// leads out of there is not taken.
pub proof fn law_named_state_directories_stay_inside(username: Seq<char>, rest: Seq<char>)
    ensures
        !text::occurs("/var/lib/selynt_panel"@ + "/"@ + rest, ".."@) ==> state_dir_of(
            username,
            true,
            Some("/var/lib/selynt_panel"@ + "/"@ + rest),
        ) == "/var/lib/selynt_panel"@ + "/"@ + rest,
        text::occurs(rest, ".."@) ==> state_dir_of(username, true, Some(rest))
            == "/var/lib/selynt_panel"@ + "/"@ + username,
        !("/var/lib/selynt_panel"@ + "/"@).is_prefix_of(rest) ==> state_dir_of(
            username,
            true,
            Some(rest),
        ) == "/var/lib/selynt_panel"@ + "/"@ + username,
{
    let base = "/var/lib/selynt_panel"@ + "/"@;
    let p = base + rest;
    assert(p.take(base.len() as int) =~= base);
    assert(base.is_prefix_of(p));
}

/// A list file has one entry to a line, white space around it left out, and empty
/// lines say nothing.
pub proof fn law_list_files_have_an_entry_a_line(above: Seq<char>, line: Seq<char>)
    requires
        above.len() > 0 ==> above.last() == '\n',
        !line.contains('\n'),
        line.len() > 0 ==> line.last() != '\r',
    ensures
        listed(None).len() == 0,
        listed(Some(Seq::empty())).len() == 0,
        listed(Some(above + line.push('\n'))) == (if text::trimmed(line).len() > 0 {
            listed(Some(above)).push(text::trimmed(line))
        } else {
            listed(Some(above))
        }),
{
    let b = line.push('\n');
    text::law_lines_of_parts(above, b);
    let none = Seq::<char>::empty();
    assert(b + none =~= b);
    text::law_line_ends_at_its_feed(line, none);
    text::law_last_line_needs_no_feed(none);
    assert(text::lines(b) =~= seq![line]);
    assert(text::lines(above + b) =~= text::lines(above).push(line));
    assert(text::lines(above + b).drop_last() =~= text::lines(above));
    assert(entries_of(Seq::<Seq<char>>::empty()).len() == 0);
}

/// Only what is asked for is left, as often as it is there; without a filter
/// everything is.
pub proof fn law_filter_leaves_what_is_asked_for(all: Seq<Seq<char>>, f: Seq<char>, e: Seq<char>)
    ensures
        filtered(all, None) == all,
        filtered(Seq::empty(), Some(f)).len() == 0,
        filtered(all.push(f), Some(f)) == filtered(all, Some(f)).push(f),
        e != f ==> filtered(all.push(e), Some(f)) == filtered(all, Some(f)),
{
    assert(all.push(f).drop_last() =~= all);
    assert(all.push(e).drop_last() =~= all);
}

} // verus!
