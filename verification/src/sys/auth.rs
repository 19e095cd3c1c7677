//! Who the caller is, and what they are allowed to act on.
//!
//! Authority comes from the real uid and from DirectAdmin's account database,
//! never from `USERNAME`, which the caller supplies. Three levels: any account
//! acts on its own apps, [`caller_is_privileged`] acts on behalf of one,
//! [`caller_is_root`] installs.

use vstd::prelude::*;

use crate::sys::output;
use crate::sys::output::Response;
use crate::sys::proc;
use crate::sys::state;
use crate::sys::state::{DA_USERS_BASE, PLUGIN_PATH};
use crate::text;

verus! {

/// Files under the plugin's directory that name the accounts DirectAdmin and
/// the web server run as.
pub const DA_USER_FILE: &'static str = "etc/da_user";

pub const DA_CGI_USER_FILE: &'static str = "etc/da_cgi_user";

pub const OLS_WEB_USER_FILE: &'static str = "etc/ols_web_user";

pub open spec fn service_files() -> Seq<Seq<char>> {
    seq![DA_USER_FILE@, DA_CGI_USER_FILE@, OLS_WEB_USER_FILE@]
}

/// The files that name service accounts, relative to the plugin's directory.
pub fn service_account_files() -> (r: Vec<String>)
    ensures
        text::views(r@) == service_files(),
{
    let mut out: Vec<String> = Vec::new();
    out.push(DA_USER_FILE.to_string());
    out.push(DA_CGI_USER_FILE.to_string());
    out.push(OLS_WEB_USER_FILE.to_string());
    assert(text::views(out@) =~= service_files());
    out
}

/// A file of the plugin.
pub fn plugin_file(relative: &str) -> (r: String)
    ensures
        r@ == PLUGIN_PATH@ + "/"@ + relative@,
{
    let mut out = PLUGIN_PATH.to_string();
    out.append("/");
    out.append(relative);
    out
}

/// The file in which DirectAdmin keeps what it knows of an account.
pub open spec fn user_conf(username: Seq<char>) -> Seq<char> {
    DA_USERS_BASE@ + "/"@ + username + "/user.conf"@
}

/// Path to a DirectAdmin account's `user.conf`.
pub fn da_user_conf(username: &str) -> (r: String)
    ensures
        r@ == user_conf(username@),
{
    let mut out = DA_USERS_BASE.to_string();
    out.append("/");
    out.append(username);
    out.append("/user.conf");
    out
}

pub open spec fn trimmed_lines(content: Seq<char>) -> Seq<Seq<char>> {
    let ls = text::lines(content);
    Seq::new(ls.len(), |i: int| text::trimmed(ls[i]))
}

/// The type that a `user.conf` gives the account: what the first line that
/// states one says.
pub open spec fn usertype(conf: Seq<char>) -> Option<Seq<char>> {
    match proc::first_after(trimmed_lines(conf), "usertype="@) {
        Some(v) => Some(text::trimmed(v)),
        None => None,
    }
}

/// Extracts `usertype=` from a `user.conf` body.
pub fn parse_usertype(conf: &str) -> (r: Option<String>)
    ensures
        r is Some <==> usertype(conf@) is Some,
        r matches Some(t) ==> usertype(conf@) == Some(t@),
{
    let ls = text::split_lines(conf);
    let ghost vs = trimmed_lines(conf@);
    let mut i: usize = 0;
    assert(vs.skip(0) =~= vs);
    while i < ls.len()
        invariant
            text::views(ls@) == text::lines(conf@),
            vs == trimmed_lines(conf@),
            i <= ls@.len(),
            proc::first_after(vs, "usertype="@) == proc::first_after(
                vs.skip(i as int),
                "usertype="@,
            ),
        decreases ls@.len() - i,
    {
        assert(text::views(ls@)[i as int] == ls@[i as int]@);
        assert(vs.skip(i as int)[0] == text::trimmed(ls@[i as int]@));
        let line = text::trim(&ls[i]);
        if let Some(v) = text::strip_prefix(&line, "usertype=") {
            return Some(text::trim(&v));
        }
        assert(vs.skip(i as int).skip(1) =~= vs.skip(i + 1));
        i = i + 1;
    }
    None
}

/// The types of account that may act on other accounts.
pub open spec fn is_privileged_type(t: Option<Seq<char>>) -> bool {
    t == Some("admin"@) || t == Some("reseller"@)
}

/// True when a DirectAdmin `usertype` may act on other accounts.
pub fn usertype_is_privileged(usertype: Option<&str>) -> (r: bool)
    ensures
        r == is_privileged_type(state::opt_view(usertype)),
{
    match usertype {
        Some(t) => text::same(t, "admin") || text::same(t, "reseller"),
        None => false,
    }
}

/// The type of an account. A name that is not one of the panel's names has
/// none: the name becomes part of a path.
pub open spec fn account_type(username: Seq<char>, conf: Option<Seq<char>>) -> Option<Seq<char>> {
    if state::is_name(username) && conf is Some {
        usertype(conf->0)
    } else {
        None
    }
}

/// The type of an account, from the content of its `user.conf` where that could
/// be read.
pub fn da_usertype(username: &str, conf: Option<&str>) -> (r: Option<String>)
    ensures
        r is Some <==> account_type(username@, state::opt_view(conf)) is Some,
        r matches Some(t) ==> account_type(username@, state::opt_view(conf)) == Some(t@),
{
    if !state::validate_name(username) {
        return None;
    }
    match conf {
        Some(c) => parse_usertype(c),
        None => None,
    }
}

/// Whether the caller may install, reconfigure or remove the plugin.
///
/// Stricter than [`caller_is_privileged`]: the web server and DirectAdmin's CGI
/// account act on behalf of an account, but must not be able to take the panel
/// apart.
pub fn caller_is_root(uid: u32) -> (r: bool)
    ensures
        r == (uid == 0),
{
    uid == 0
}

/// Whether one of these file contents names the account.
pub open spec fn names_account(contents: Seq<Seq<char>>, caller: Seq<char>) -> bool {
    exists|i: int|
        0 <= i < contents.len() && text::trimmed(#[trigger] contents[i]) == caller && caller.len()
            > 0
}

fn is_service_account(contents: &Vec<String>, caller: &str) -> (r: bool)
    ensures
        r == names_account(text::views(contents@), caller@),
{
    let ghost cs = text::views(contents@);
    let mut i: usize = 0;
    while i < contents.len()
        invariant
            cs == text::views(contents@),
            i <= contents@.len(),
            forall|j: int|
                0 <= j < i ==> !(text::trimmed(#[trigger] cs[j]) == caller@ && caller@.len() > 0),
        decreases contents@.len() - i,
    {
        assert(cs[i as int] == contents@[i as int]@);
        let t = text::trim(&contents[i]);
        if !t.as_str().is_empty() && text::same(&t, caller) {
            return true;
        }
        i = i + 1;
    }
    false
}

/// Who may act on other accounts: root, an account of a privileged type, and a
/// service account. A caller without an account may not.
pub open spec fn privileged(
    uid: int,
    caller: Option<Seq<char>>,
    conf: Option<Seq<char>>,
    services: Seq<Seq<char>>,
) -> bool {
    uid == 0 || (caller is Some && (is_privileged_type(account_type(caller->0, conf))
        || names_account(services, caller->0)))
}

/// Whether the caller may act on other accounts and run `admin` commands.
///
/// `caller` is the account name of the real uid, `conf` the content of that
/// account's `user.conf`, `services` the contents of the files that name
/// service accounts, each as far as it could be read.
pub fn caller_is_privileged(
    uid: u32,
    caller: Option<&str>,
    conf: Option<&str>,
    services: &Vec<String>,
) -> (r: bool)
    ensures
        r == privileged(
            uid as int,
            state::opt_view(caller),
            state::opt_view(conf),
            text::views(services@),
        ),
{
    if uid == 0 {
        return true;
    }
    match caller {
        None => false,
        Some(name) => {
            if let Some(t) = da_usertype(name, conf) {
                if usertype_is_privileged(Some(&t)) {
                    return true;
                }
            }
            is_service_account(services, name)
        },
    }
}

/// A customer's account is never privileged: with a type that is not one of
/// the two, and a name that no service file gives, only root's uid helps.
pub proof fn law_plain_users_are_not_privileged(
    uid: int,
    caller: Seq<char>,
    conf: Seq<char>,
    services: Seq<Seq<char>>,
)
    requires
        uid != 0,
        usertype(conf) == Some("user"@),
        !names_account(services, caller),
    ensures
        !privileged(uid, Some(caller), Some(conf), services),
{
    reveal_strlit("user");
    reveal_strlit("admin");
    reveal_strlit("reseller");
    assert("user"@.len() != "admin"@.len());
    assert("user"@.len() != "reseller"@.len());
}

/// Whoever may install may also act on other accounts.
pub proof fn law_root_is_privileged(
    caller: Option<Seq<char>>,
    conf: Option<Seq<char>>,
    services: Seq<Seq<char>>,
)
    ensures
        privileged(0, caller, conf, services),
{
}

/// Why no account can be acted on.
#[derive(Debug)]
pub enum TargetError {
    /// The caller's uid has no account.
    NoAccount,
    /// The caller may act only as themselves.
    Refused { requested: String, own: String, uid: u32 },
    /// Root has to say for which account to act.
    NotNamed,
}

/// The account that an invocation acts on, or what is wrong.
pub enum Target {
    Account(Seq<char>),
    NoAccount,
    Refused(Seq<char>, Seq<char>, int),
    NotNamed,
}

pub open spec fn target_view(r: Result<String, TargetError>) -> Target {
    match r {
        Ok(name) => Target::Account(name@),
        Err(TargetError::NoAccount) => Target::NoAccount,
        Err(TargetError::Refused { requested, own, uid }) => Target::Refused(
            requested@,
            own@,
            uid as int,
        ),
        Err(TargetError::NotNamed) => Target::NotNamed,
    }
}

/// A trusted caller may name any account; everyone else acts only as
/// themselves. With no account named, the caller acts as themselves, which root
/// cannot.
pub open spec fn target(
    requested: Option<Seq<char>>,
    uid: int,
    caller: Option<Seq<char>>,
    trusted: bool,
) -> Target {
    match (requested, caller) {
        (Some(name), _) if trusted => Target::Account(name),
        (_, None) => Target::NoAccount,
        (Some(name), Some(own)) => if name == own {
            Target::Account(own)
        } else {
            Target::Refused(name, own, uid)
        },
        (None, Some(own)) => if uid == 0 {
            Target::NotNamed
        } else {
            Target::Account(own)
        },
    }
}

/// Resolves the account this invocation may act on.
///
/// `requested` is `USERNAME`, `caller` the account name of the real uid.
pub fn resolve_target_user(
    requested: Option<&str>,
    uid: u32,
    caller: Option<&str>,
    trusted: bool,
) -> (r: Result<String, TargetError>)
    ensures
        target_view(r) == target(
            state::opt_view(requested),
            uid as int,
            state::opt_view(caller),
            trusted,
        ),
{
    if let Some(name) = requested {
        if trusted {
            return Ok(name.to_string());
        }
    }
    match caller {
        None => Err(TargetError::NoAccount),
        Some(own) => match requested {
            Some(name) => {
                if text::same(name, own) {
                    Ok(own.to_string())
                } else {
                    Err(
                        TargetError::Refused {
                            requested: name.to_string(),
                            own: own.to_string(),
                            uid,
                        },
                    )
                }
            },
            None => {
                if uid == 0 {
                    Err(TargetError::NotNamed)
                } else {
                    Ok(own.to_string())
                }
            },
        },
    }
}

/// Without privilege, `USERNAME` cannot lead to another account.
pub proof fn law_unprivileged_callers_act_as_themselves(
    requested: Option<Seq<char>>,
    uid: int,
    caller: Seq<char>,
    name: Seq<char>,
)
    requires
        target(requested, uid, Some(caller), false) == Target::Account(name),
    ensures
        name == caller,
{
}

/// What is wrong, in words.
pub open spec fn target_error_text(e: Target) -> Seq<char> {
    match e {
        Target::Refused(requested, own, uid) => "refusing to act as "@ + text::debug_form(requested)
            + ": caller is "@ + text::debug_form(own) + " (uid "@ + text::decimal(uid as nat)
            + ")"@,
        Target::NotNamed => "USERNAME env not set (required when running as root)"@,
        _ => "caller uid has no account in /etc/passwd"@,
    }
}

impl TargetError {
    pub fn message(&self) -> (r: String)
        ensures
            r@ == target_error_text(target_view(Err(*self))),
    {
        match self {
            TargetError::NoAccount => "caller uid has no account in /etc/passwd".to_string(),
            TargetError::NotNamed => {
                "USERNAME env not set (required when running as root)".to_string()
            },
            TargetError::Refused { requested, own, uid } => {
                let mut out = "refusing to act as ".to_string();
                out.append(&text::quoted(requested));
                out.append(": caller is ");
                out.append(&text::quoted(own));
                out.append(" (uid ");
                out.append(&text::show_u32(*uid));
                out.append(")");
                out
            },
        }
    }
}

// ---------------------------------------------------------------------------
// Giving up root
// ---------------------------------------------------------------------------

/// The steps by which the process becomes the account, in order.
#[derive(Debug, Clone, Copy, PartialEq, Eq, Structural)]
pub enum DropStep {
    /// Take the account's supplementary groups.
    Groups,
    /// Take its group.
    Gid,
    /// Take its uid.
    Uid,
    /// Look at the ids that the process has now.
    Look,
    /// Rule out gaining privileges again.
    NoNewPrivs,
    Done,
}

/// Why the process did not become the account.
#[derive(Debug, Clone, Copy, PartialEq, Eq, Structural)]
pub enum DropError {
    Groups,
    Gid,
    Uid,
    StillRootUid,
    StillRootGid,
    NoNewPrivs,
}

/// The ids of a process.
#[derive(Debug, Clone, Copy, PartialEq, Eq, Structural)]
pub struct Ids {
    pub uid: u32,
    pub euid: u32,
    pub gid: u32,
    pub egid: u32,
}

/// What comes after a step: the next one, or the error that the step ends in.
pub open spec fn after_drop(step: DropStep, ok: bool, ids: Ids) -> Result<DropStep, DropError> {
    match step {
        DropStep::Groups => if ok {
            Ok(DropStep::Gid)
        } else {
            Err(DropError::Groups)
        },
        DropStep::Gid => if ok {
            Ok(DropStep::Uid)
        } else {
            Err(DropError::Gid)
        },
        DropStep::Uid => if ok {
            Ok(DropStep::Look)
        } else {
            Err(DropError::Uid)
        },
        DropStep::Look => if ids.euid == 0 || ids.uid == 0 {
            Err(DropError::StillRootUid)
        } else if ids.egid == 0 || ids.gid == 0 {
            Err(DropError::StillRootGid)
        } else {
            Ok(DropStep::NoNewPrivs)
        },
        DropStep::NoNewPrivs => if ok {
            Ok(DropStep::Done)
        } else {
            Err(DropError::NoNewPrivs)
        },
        DropStep::Done => Ok(DropStep::Done),
    }
}

/// What comes after a step of giving up root, given how the step went and the
/// ids the process has now.
pub fn drop_privileges(step: DropStep, ok: bool, ids: Ids) -> (r: Result<DropStep, DropError>)
    ensures
        r == after_drop(step, ok, ids),
{
    match step {
        DropStep::Groups => if ok {
            Ok(DropStep::Gid)
        } else {
            Err(DropError::Groups)
        },
        DropStep::Gid => if ok {
            Ok(DropStep::Uid)
        } else {
            Err(DropError::Gid)
        },
        DropStep::Uid => if ok {
            Ok(DropStep::Look)
        } else {
            Err(DropError::Uid)
        },
        DropStep::Look => {
            if ids.euid == 0 || ids.uid == 0 {
                Err(DropError::StillRootUid)
            } else if ids.egid == 0 || ids.gid == 0 {
                Err(DropError::StillRootGid)
            } else {
                Ok(DropStep::NoNewPrivs)
            }
        },
        DropStep::NoNewPrivs => if ok {
            Ok(DropStep::Done)
        } else {
            Err(DropError::NoNewPrivs)
        },
        DropStep::Done => Ok(DropStep::Done),
    }
}

/// What went wrong when root was to be given up: `cause` is what the system said
/// of the step that failed.
pub open spec fn drop_text(
    e: DropError,
    username: Seq<char>,
    uid: u32,
    gid: u32,
    cause: Seq<char>,
) -> Seq<char> {
    match e {
        DropError::Groups => "initgroups("@ + username + ") failed: "@ + cause,
        DropError::Gid => "setgid("@ + text::decimal(gid as nat) + ") failed: "@ + cause,
        DropError::Uid => "setuid("@ + text::decimal(uid as nat) + ") failed: "@ + cause,
        DropError::StillRootUid => "privilege drop failed — still root (uid)"@,
        DropError::StillRootGid => "privilege drop failed — still root (gid)"@,
        DropError::NoNewPrivs => "prctl(PR_SET_NO_NEW_PRIVS) failed: "@ + cause,
    }
}

/// The answer when root could not be given up.
pub fn drop_failed(e: DropError, username: &str, uid: u32, gid: u32, cause: &str) -> (r: Response)
    ensures
        r@ == output::broken(
            "privilege_drop_failed"@,
            drop_text(e, username@, uid, gid, cause@),
        ),
{
    let mut message = String::new();
    assert(message@ =~= Seq::<char>::empty());
    match e {
        DropError::Groups => {
            message = "initgroups(".to_string();
            message.append(username);
            message.append(") failed: ");
            message.append(cause);
        },
        DropError::Gid => {
            message = "setgid(".to_string();
            message.append(&text::show_u32(gid));
            message.append(") failed: ");
            message.append(cause);
        },
        DropError::Uid => {
            message = "setuid(".to_string();
            message.append(&text::show_u32(uid));
            message.append(") failed: ");
            message.append(cause);
        },
        DropError::StillRootUid => {
            message = "privilege drop failed — still root (uid)".to_string();
        },
        DropError::StillRootGid => {
            message = "privilege drop failed — still root (gid)".to_string();
        },
        DropError::NoNewPrivs => {
            message = "prctl(PR_SET_NO_NEW_PRIVS) failed: ".to_string();
            message.append(cause);
        },
    }
    output::system_error("privilege_drop_failed", &message)
}

/// The answer when the account to act on could not be resolved.
pub fn target_failed(message: &str) -> (r: Response)
    ensures
        r@ == output::broken("user_resolve_failed"@, message@),
{
    output::system_error("user_resolve_failed", message)
}

/// What is said of an account that does not exist.
pub fn no_such_account(username: &str) -> (r: String)
    ensures
        r@ == "user "@ + text::debug_form(username@) + " not found in /etc/passwd"@,
{
    let mut message = "user ".to_string();
    message.append(&text::quoted(username));
    message.append(" not found in /etc/passwd");
    message
}

/// The state after a run of steps from the first one.
pub open spec fn drop_run(events: Seq<(bool, Ids)>) -> Result<DropStep, DropError>
    decreases events.len(),
{
    if events.len() == 0 {
        Ok(DropStep::Groups)
    } else {
        match drop_run(events.drop_last()) {
            Ok(step) => after_drop(step, events.last().0, events.last().1),
            Err(e) => Err(e),
        }
    }
}

/// A process that has given up root took every step, in order, and had no id of
/// root's when it looked.
pub proof fn law_done_means_root_is_gone(events: Seq<(bool, Ids)>)
    requires
        drop_run(events) == Ok::<DropStep, DropError>(DropStep::Done),
    ensures
        events.len() >= 5,
        events[0].0 && events[1].0 && events[2].0 && events[4].0,
        events[3].1.uid != 0 && events[3].1.euid != 0,
        events[3].1.gid != 0 && events[3].1.egid != 0,
{
    lemma_drop_run(events);
}

proof fn lemma_drop_run(events: Seq<(bool, Ids)>)
    ensures
        match drop_run(events) {
            Ok(DropStep::Groups) => events.len() == 0,
            Ok(DropStep::Gid) => events.len() == 1 && events[0].0,
            Ok(DropStep::Uid) => events.len() == 2 && events[0].0 && events[1].0,
            Ok(DropStep::Look) => events.len() == 3 && events[0].0 && events[1].0 && events[2].0,
            Ok(DropStep::NoNewPrivs) => events.len() == 4 && events[0].0 && events[1].0
                && events[2].0 && no_root(events[3].1),
            Ok(DropStep::Done) => events.len() >= 5 && events[0].0 && events[1].0 && events[2].0
                && no_root(events[3].1) && events[4].0,
            Err(_) => true,
        },
    decreases events.len(),
{
    if events.len() > 0 {
        lemma_drop_run(events.drop_last());
    }
}

pub open spec fn no_root(ids: Ids) -> bool {
    ids.uid != 0 && ids.euid != 0 && ids.gid != 0 && ids.egid != 0
}

proof fn lemma_trimmed_lines_join(a: Seq<char>, b: Seq<char>)
    requires
        a.len() > 0 ==> a.last() == '\n',
    ensures
        trimmed_lines(a + b) == trimmed_lines(a) + trimmed_lines(b),
{
    text::law_lines_of_parts(a, b);
    assert(trimmed_lines(a + b) =~= trimmed_lines(a) + trimmed_lines(b));
}

/// The type of an account is what the first `usertype` of its file says, and makes
/// it privileged when it is `admin` or `reseller`.
pub proof fn law_type_of_an_account_is_what_its_file_says(
    uid: int,
    caller: Seq<char>,
    above: Seq<char>,
    t: Seq<char>,
    below: Seq<char>,
    services: Seq<Seq<char>>,
)
    requires
        uid != 0,
        above.len() > 0 ==> above.last() == '\n',
        forall|i: int|
            0 <= i < trimmed_lines(above).len() ==> !"usertype="@.is_prefix_of(
                #[trigger] trimmed_lines(above)[i],
            ),
        t.len() > 0,
        !t.contains('\n'),
        !text::is_space(t[0]) && !text::is_space(t.last()),
    ensures
        usertype(above + ("usertype="@ + t).push('\n') + below) == Some(t),
        privileged(
            uid,
            Some(caller),
            Some(above + ("usertype="@ + t).push('\n') + below),
            services,
        ) <==> (state::is_name(caller) && (t == "admin"@ || t == "reseller"@)) || names_account(
            services,
            caller,
        ),
{
    let label = "usertype="@;
    reveal_strlit("usertype=");
    let line = label + t;
    let rest = line.push('\n') + below;
    assert(above + line.push('\n') + below =~= above + rest);
    lemma_trimmed_lines_join(above, rest);
    assert forall|i: int| 0 <= i < line.len() implies line[i] != '\n' by {
        if i >= 9 {
            assert(line[i] == t[i - 9]);
            assert(t.contains(t[i - 9]));
        }
    }
    assert(line.last() == t.last());
    text::law_line_ends_at_its_feed(line, below);
    let none = Seq::<char>::empty();
    assert(none + line + none =~= line);
    assert(line[0] == 'u');
    text::law_trimming_takes_white_space(none, line, none);
    assert(none + t + none =~= t);
    text::law_trimming_takes_white_space(none, t, none);
    assert(trimmed_lines(rest) =~= seq![line] + trimmed_lines(below));
    assert(line.take(9) =~= label);
    assert(label.is_prefix_of(line));
    assert(line.skip(9) =~= t);
    proc::lemma_first_after(trimmed_lines(above), line, trimmed_lines(below), label);
}

/// A service account is one that a file of the plugin names, with white space
/// around the name or without; a file that is empty names nobody.
pub proof fn law_service_files_name_one_account(
    uid: int,
    contents: Seq<Seq<char>>,
    i: int,
    left: Seq<char>,
    caller: Seq<char>,
    right: Seq<char>,
)
    requires
        0 <= i < contents.len(),
        contents[i] == left + caller + right,
        forall|k: int| 0 <= k < left.len() ==> text::is_space(#[trigger] left[k]),
        forall|k: int| 0 <= k < right.len() ==> text::is_space(#[trigger] right[k]),
        caller.len() > 0 ==> !text::is_space(caller[0]) && !text::is_space(caller.last()),
    ensures
        caller.len() > 0 ==> names_account(contents, caller) && privileged(
            uid,
            Some(caller),
            None,
            contents,
        ),
        !names_account(contents, Seq::empty()),
        !names_account(Seq::empty(), caller),
{
    text::law_trimming_takes_white_space(left, caller, right);
}

/// A trusted caller acts as whoever they name. Others act as themselves, and are
/// refused where they name somebody else. Root has to name somebody, and who has no
/// account acts as nobody unless they are trusted and name somebody.
pub proof fn law_callers_act_as_whom_they_may(
    name: Seq<char>,
    own: Seq<char>,
    uid: int,
    trusted: bool,
)
    ensures
        target(Some(name), uid, Some(own), true) == Target::Account(name),
        target(Some(name), uid, None, true) == Target::Account(name),
        target(Some(own), uid, Some(own), trusted) == Target::Account(own),
        name != own ==> target(Some(name), uid, Some(own), false) == Target::Refused(
            name,
            own,
            uid,
        ),
        target(None, 0, Some(own), trusted) == Target::NotNamed,
        uid != 0 ==> target(None, uid, Some(own), trusted) == Target::Account(own),
        target(None, uid, None, trusted) == Target::NoAccount,
        target(Some(name), uid, None, false) == Target::NoAccount,
{
}

/// Root is given up group by group: the supplementary groups first, then the group,
/// then the user, while there still is the right to. Then it is looked whether it
/// is gone, and only then is the way back closed.
pub proof fn law_root_is_given_up_in_order(e: Seq<(bool, Ids)>)
    requires
        e.len() == 5,
    ensures
        drop_run(e.take(0)) == Ok::<DropStep, DropError>(DropStep::Groups),
        drop_run(e.take(1)) == (if e[0].0 {
            Ok::<DropStep, DropError>(DropStep::Gid)
        } else {
            Err(DropError::Groups)
        }),
        e[0].0 && e[1].0 ==> drop_run(e.take(2)) == Ok::<DropStep, DropError>(DropStep::Uid),
        e[0].0 && !e[1].0 ==> drop_run(e) == Err::<DropStep, DropError>(DropError::Gid),
        e[0].0 && e[1].0 && !e[2].0 ==> drop_run(e) == Err::<DropStep, DropError>(DropError::Uid),
        e[0].0 && e[1].0 && e[2].0 && (e[3].1.uid == 0 || e[3].1.euid == 0) ==> drop_run(e)
            == Err::<DropStep, DropError>(DropError::StillRootUid),
        e[0].0 && e[1].0 && e[2].0 && e[3].1.uid != 0 && e[3].1.euid != 0 && (e[3].1.gid == 0
            || e[3].1.egid == 0) ==> drop_run(e) == Err::<DropStep, DropError>(
            DropError::StillRootGid,
        ),
        e[0].0 && e[1].0 && e[2].0 && e[3].1.uid != 0 && e[3].1.euid != 0 && e[3].1.gid != 0
            && e[3].1.egid != 0 ==> drop_run(e) == (if e[4].0 {
            Ok::<DropStep, DropError>(DropStep::Done)
        } else {
            Err(DropError::NoNewPrivs)
        }),
{
    let e4 = e.drop_last();
    let e3 = e4.drop_last();
    let e2 = e3.drop_last();
    let e1 = e2.drop_last();
    let e0 = e1.drop_last();
    assert(e0 =~= e.take(0));
    assert(e1 =~= e.take(1));
    assert(e2 =~= e.take(2));
    assert(e1.last() == e[0] && e2.last() == e[1] && e3.last() == e[2] && e4.last() == e[3]
        && e.last() == e[4]);
    reveal_with_fuel(drop_run, 6);
}

/// What is said to a caller who may not act: whom they named and who they are.
pub proof fn law_refused_callers_are_told_why(
    name: Seq<char>,
    own: Seq<char>,
    uid: u32,
)
    ensures
        target_error_text(Target::Refused(name, own, uid as int)) == "refusing to act as "@
            + text::debug_form(name) + ": caller is "@ + text::debug_form(own) + " (uid "@
            + text::decimal(uid as nat) + ")"@,
        target_error_text(Target::NotNamed)
            == "USERNAME env not set (required when running as root)"@,
        target_error_text(Target::NoAccount) == "caller uid has no account in /etc/passwd"@,
        user_conf(own) == "/usr/local/directadmin/data/users"@ + "/"@ + own + "/user.conf"@,
        service_files() == seq!["etc/da_user"@, "etc/da_cgi_user"@, "etc/ols_web_user"@],
{
}

/// A caller without an account is nobody, unless they are root.
pub proof fn law_callers_without_an_account_are_not_trusted(
    uid: int,
    conf: Option<Seq<char>>,
    services: Seq<Seq<char>>,
)
    ensures
        privileged(uid, None, conf, services) <==> uid == 0,
{
}

/// Each step at which root can fail to be given up is told by its own words.
pub proof fn law_failed_drops_say_at_which_step(
    username: Seq<char>,
    uid: u32,
    gid: u32,
    cause: Seq<char>,
)
    ensures
        drop_text(DropError::Groups, username, uid, gid, cause) == "initgroups("@ + username
            + ") failed: "@ + cause,
        drop_text(DropError::Gid, username, uid, gid, cause) == "setgid("@ + text::decimal(
            gid as nat,
        ) + ") failed: "@ + cause,
        drop_text(DropError::Uid, username, uid, gid, cause) == "setuid("@ + text::decimal(
            uid as nat,
        ) + ") failed: "@ + cause,
        drop_text(DropError::StillRootUid, username, uid, gid, cause)
            == "privilege drop failed — still root (uid)"@,
        drop_text(DropError::StillRootGid, username, uid, gid, cause)
            == "privilege drop failed — still root (gid)"@,
        drop_text(DropError::NoNewPrivs, username, uid, gid, cause)
            == "prctl(PR_SET_NO_NEW_PRIVS) failed: "@ + cause,
{
}

} // verus!
