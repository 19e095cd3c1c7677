//! The panel's own state: where it lives, which accounts and apps it knows, and
//! what it remembers of each app.

use vstd::prelude::*;

use crate::effect;
use crate::effect::{Change, Steps};
use crate::order;
use crate::path;
use crate::sys::kv;
use crate::sys::output;
use crate::sys::output::Response;
use crate::text;

verus! {

pub const PLUGIN_PATH: &'static str = "/usr/local/directadmin/plugins/selynt_panel";

pub const DA_USERS_BASE: &'static str = "/usr/local/directadmin/data/users";

/// Where DirectAdmin keeps the vhost templates it generates configs from.
pub const DA_TEMPLATES: &'static str = "/usr/local/directadmin/data/templates";

/// Root of the panel's per-account state.
pub const STATE_BASE: &'static str = "/var/lib/selynt_panel";

/// Set when the proxy config no longer matches the live apps.
pub const SYNC_MARKER: &'static str = "/var/lib/selynt_panel/.sync_needed";

/// The longest name an app or an account can have, in bytes.
pub const MAX_NAME_BYTES: usize = 64;

// ---------------------------------------------------------------------------
// Names
// ---------------------------------------------------------------------------

pub open spec fn is_name_char(c: char) -> bool {
    text::is_alnum(c) || c == '.' || c == '_' || c == '-'
}

pub open spec fn all_name_chars(s: Seq<char>) -> bool {
    forall|i: int| 0 <= i < s.len() ==> is_name_char(#[trigger] s[i])
}

/// The names that `^[A-Za-z0-9._-]{1,64}$` matches.
pub open spec fn is_name(s: Seq<char>) -> bool {
    0 < s.len() <= MAX_NAME_BYTES && all_name_chars(s)
}

/// Whether every character of `s` may stand in a name.
pub fn only_name_chars(s: &str) -> (r: bool)
    ensures
        r == all_name_chars(s@),
{
    let cs = text::chars(s);
    let mut i: usize = 0;
    while i < cs.len()
        invariant
            cs@ == s@,
            i <= cs@.len(),
            forall|j: int| 0 <= j < i ==> is_name_char(#[trigger] s@[j]),
        decreases cs@.len() - i,
    {
        let c: char = cs[i];
        assert(c == s@[i as int]);
        if !(text::is_ascii_alnum(c) || c == '.' || c == '_' || c == '-') {
            return false;
        }
        i = i + 1;
    }
    true
}

/// Validates an app name against `^[A-Za-z0-9._-]{1,64}$`.
pub fn validate_name(name: &str) -> (r: bool)
    ensures
        r == is_name(name@),
{
    let cs = text::chars(name);
    cs.len() > 0 && cs.len() <= MAX_NAME_BYTES && only_name_chars(name)
}

/// A name is one path component: it holds no separator, no line ending and no
/// null byte.
pub proof fn law_name_is_one_component(s: Seq<char>)
    requires
        is_name(s),
    ensures
        !s.contains('/'),
        !s.contains('\n'),
        !s.contains('\r'),
        !s.contains('\0'),
        text::pieces(s, '/') == seq![s],
{
    assert forall|c: char| s.contains(c) implies is_name_char(c) by {
        let i = choose|i: int| 0 <= i < s.len() && s[i] == c;
        assert(is_name_char(s[i]));
    }
    text::lemma_first_at(s, '/');
}

// ---------------------------------------------------------------------------
// Files of an app
// ---------------------------------------------------------------------------

pub open spec fn run_dir(state_dir: Seq<char>) -> Seq<char> {
    path::under(state_dir, ".run"@)
}

/// The file of an app in the run directory with this ending.
pub open spec fn run_file(state_dir: Seq<char>, name: Seq<char>, ending: Seq<char>) -> Seq<char> {
    path::under(run_dir(state_dir), name + ending)
}

/// The file of an app in the run directory with this ending, such as `.pid`.
pub fn run_file_path(state_dir: &str, name: &str, ending: &str) -> (r: String)
    ensures
        r@ == run_file(state_dir@, name@, ending@),
{
    let run = path::join(state_dir, ".run");
    let file = text::cat(name, ending);
    path::join(&run, &file)
}

/// The marker that tells the proxy to route to this host.
pub open spec fn marker_path(state_dir: Seq<char>, host: Seq<char>) -> Seq<char> {
    path::under(path::under(state_dir, ".proxy"@), host)
}

pub fn marker_file(state_dir: &str, host: &str) -> (r: String)
    ensures
        r@ == marker_path(state_dir@, host@),
{
    let proxy = path::join(state_dir, ".proxy");
    path::join(&proxy, host)
}

/// What the panel remembers of an app.
#[derive(Debug)]
pub struct AppMeta {
    pub name: String,
    pub app_type: String,
    pub cwd: String,
    pub entry: String,
    pub host: String,
    /// The domain and subdomain the app was created under. The panel derives an
    /// app's address from `host`; these record what it was registered as.
    pub domain: String,
    pub subdomain: String,
    pub node_version: String,
    pub created_at: Option<u64>,
    /// Per-app memory cap in bytes. `None` means "auto": the app shares
    /// whatever is left of the account's allowance with the other auto apps.
    pub memory_max: Option<u64>,
}

#[verifier::ext_equal]
pub struct AppMetaV {
    pub name: Seq<char>,
    pub app_type: Seq<char>,
    pub cwd: Seq<char>,
    pub entry: Seq<char>,
    pub host: Seq<char>,
    pub domain: Seq<char>,
    pub subdomain: Seq<char>,
    pub node_version: Seq<char>,
    pub created_at: Option<nat>,
    pub memory_max: Option<nat>,
}

pub open spec fn nat_of(n: Option<u64>) -> Option<nat> {
    match n {
        Some(k) => Some(k as nat),
        None => None,
    }
}

impl View for AppMeta {
    type V = AppMetaV;

    open spec fn view(&self) -> AppMetaV {
        AppMetaV {
            name: self.name@,
            app_type: self.app_type@,
            cwd: self.cwd@,
            entry: self.entry@,
            host: self.host@,
            domain: self.domain@,
            subdomain: self.subdomain@,
            node_version: self.node_version@,
            created_at: nat_of(self.created_at),
            memory_max: nat_of(self.memory_max),
        }
    }
}

/// A cap of nothing is no cap.
pub open spec fn positive(n: Option<nat>) -> Option<nat> {
    match n {
        Some(k) => if k > 0 {
            Some(k)
        } else {
            None
        },
        None => None,
    }
}

/// What the pairs of an app's file say of the app.
pub open spec fn meta_of(name: Seq<char>, m: Map<Seq<char>, Seq<char>>) -> AppMetaV {
    AppMetaV {
        name,
        app_type: kv::value_or_empty(m, "type"@),
        cwd: kv::value_or_empty(m, "cwd"@),
        entry: kv::value_or_empty(m, "entry"@),
        host: kv::value_or_empty(m, "host"@),
        domain: kv::value_or_empty(m, "domain"@),
        subdomain: kv::value_or_empty(m, "subdomain"@),
        node_version: kv::value_or_empty(m, "node_version"@),
        created_at: kv::number_of(m, "created_at"@, u64::MAX as nat),
        memory_max: positive(kv::number_of(m, "memory_max"@, u64::MAX as nat)),
    }
}

/// Why an app cannot be loaded.
#[derive(Debug, Clone, Copy, PartialEq, Eq, Structural)]
pub enum MetaError {
    /// There is no such app, or its file cannot be read.
    NotFound,
    /// The file belongs to this account rather than to root.
    Untrusted(u32),
}

/// What the panel remembers of the app `name`, from its file: the file's owner
/// and its content, as far as each could be read.
///
/// The run directory has to stay writable for the account, so an app can still
/// drop a file in it. Only root writes `.app` files, so one with another owner
/// was forged and is refused.
pub fn load_app_meta(name: &str, owner: Option<u32>, content: Option<&str>) -> (r: Result<
    AppMeta,
    MetaError,
>)
    ensures
        match r {
            Ok(meta) => owner == Some(0u32) && content is Some && meta@ == meta_of(
                name@,
                kv::of_text(content->0@),
            ),
            Err(MetaError::Untrusted(uid)) => owner == Some(uid) && uid != 0,
            Err(MetaError::NotFound) => owner is None || (owner == Some(0u32) && content is None),
        },
{
    match owner {
        None => Err(MetaError::NotFound),
        Some(uid) => {
            if uid != 0 {
                return Err(MetaError::Untrusted(uid));
            }
            match content {
                None => Err(MetaError::NotFound),
                Some(c) => {
                    let m = kv::parse_kv(c);
                    let memory_max = match m.get_u64("memory_max") {
                        Some(n) => if n > 0 {
                            Some(n)
                        } else {
                            None
                        },
                        None => None,
                    };
                    Ok(
                        AppMeta {
                            name: name.to_string(),
                            app_type: m.get_or_empty("type"),
                            cwd: m.get_or_empty("cwd"),
                            entry: m.get_or_empty("entry"),
                            host: m.get_or_empty("host"),
                            domain: m.get_or_empty("domain"),
                            subdomain: m.get_or_empty("subdomain"),
                            node_version: m.get_or_empty("node_version"),
                            created_at: m.get_u64("created_at"),
                            memory_max,
                        },
                    )
                },
            }
        },
    }
}

/// Why an app could not be loaded, in words.
pub open spec fn meta_error_text(e: MetaError, name: Seq<char>) -> Seq<char> {
    match e {
        MetaError::NotFound => "app '"@ + name + "' not found"@,
        MetaError::Untrusted(uid) => "app '"@ + name + "' has untrusted metadata (owner uid "@
            + text::decimal(uid as nat) + ", expected root)"@,
    }
}

impl MetaError {
    pub fn message(self, name: &str) -> (r: String)
        ensures
            r@ == meta_error_text(self, name@),
    {
        let mut out = "app '".to_string();
        out.append(name);
        match self {
            MetaError::NotFound => {
                out.append("' not found");
            },
            MetaError::Untrusted(uid) => {
                out.append("' has untrusted metadata (owner uid ");
                out.append(&text::show_u32(uid));
                out.append(", expected root)");
            },
        }
        out
    }
}

// ---------------------------------------------------------------------------
// Apps and accounts
// ---------------------------------------------------------------------------

/// An entry of a run directory: its name, and its owner where that is known.
pub struct RunEntry {
    pub file_name: String,
    pub owner: Option<u32>,
}

/// The name of the app that an entry registers: the stem of an `.app` file that
/// belongs to root.
pub open spec fn registers(e: RunEntry) -> Option<Seq<char>> {
    if path::extension_of(e.file_name@) == Some("app"@) && e.owner == Some(0u32) {
        Some(path::stem_of(e.file_name@))
    } else {
        None
    }
}

/// The names of the apps that these entries register, as they come.
pub open spec fn registered(es: Seq<RunEntry>) -> Seq<Seq<char>>
    decreases es.len(),
{
    if es.len() == 0 {
        Seq::empty()
    } else {
        match registers(es.last()) {
            Some(name) => registered(es.drop_last()).push(name),
            None => registered(es.drop_last()),
        }
    }
}

/// The apps that a run directory registers, in dictionary order.
pub fn list_app_names(entries: &Vec<RunEntry>) -> (r: Vec<String>)
    ensures
        order::sorted_texts(registered(entries@), text::views(r@)),
{
    let mut names: Vec<String> = Vec::new();
    let mut i: usize = 0;
    assert(text::views(names@) =~= registered(entries@.take(0)));
    while i < entries.len()
        invariant
            i <= entries@.len(),
            text::views(names@) == registered(entries@.take(i as int)),
        decreases entries@.len() - i,
    {
        let ghost next = entries@.take(i + 1);
        let ghost before = text::views(names@);
        assert(next.drop_last() =~= entries@.take(i as int));
        let root_owned = match entries[i].owner {
            Some(uid) => uid == 0,
            None => false,
        };
        if root_owned {
            if let Some(stem) = path::stem_with_extension(&entries[i].file_name, "app") {
                names.push(stem);
                assert(text::views(names@) =~= before.push(stem@));
            }
        }
        i = i + 1;
    }
    assert(entries@.take(i as int) =~= entries@);
    order::sort_texts(&names)
}

/// An entry of the state base: its name, whether it has a run directory, and
/// whether a system account by that name exists.
pub struct StateEntry {
    pub name: String,
    pub has_run_dir: bool,
    pub user_exists: bool,
}

/// Whether an entry of the state base is an account of the panel. The base also
/// holds dotfiles, and a directory can outlive the account it belonged to.
pub open spec fn is_account(e: StateEntry) -> bool {
    !(e.name@.len() > 0 && e.name@[0] == '.') && e.has_run_dir && e.user_exists
}

pub open spec fn accounts(es: Seq<StateEntry>) -> Seq<Seq<char>>
    decreases es.len(),
{
    if es.len() == 0 {
        Seq::empty()
    } else if is_account(es.last()) {
        accounts(es.drop_last()).push(es.last().name@)
    } else {
        accounts(es.drop_last())
    }
}

/// Every account with panel state, in dictionary order.
pub fn list_accounts(entries: &Vec<StateEntry>) -> (r: Vec<String>)
    ensures
        order::sorted_texts(accounts(entries@), text::views(r@)),
{
    let mut names: Vec<String> = Vec::new();
    let mut i: usize = 0;
    assert(text::views(names@) =~= accounts(entries@.take(0)));
    while i < entries.len()
        invariant
            i <= entries@.len(),
            text::views(names@) == accounts(entries@.take(i as int)),
        decreases entries@.len() - i,
    {
        let ghost next = entries@.take(i + 1);
        let ghost before = text::views(names@);
        assert(next.drop_last() =~= entries@.take(i as int));
        let cs = text::chars(&entries[i].name);
        let hidden = cs.len() > 0 && cs[0] == '.';
        if !hidden && entries[i].has_run_dir && entries[i].user_exists {
            let name = entries[i].name.clone();
            names.push(name);
            assert(text::views(names@) =~= before.push(name@));
        }
        i = i + 1;
    }
    assert(entries@.take(i as int) =~= entries@);
    order::sort_texts(&names)
}

/// The state directory of an account.
pub fn account_dir(user: &str) -> (r: String)
    ensures
        r@ == path::under(STATE_BASE@, user@),
{
    path::join(STATE_BASE, user)
}

// ---------------------------------------------------------------------------
// Isolation and sockets
// ---------------------------------------------------------------------------

/// Whether the content of a switch file means "on".
pub open spec fn says_on(content: Seq<char>) -> bool {
    text::trimmed(content) == seq!['1']
}

fn switch_is_on(content: &str) -> (r: bool)
    ensures
        r == says_on(content@),
{
    let t = text::trim(content);
    let cs = text::chars(&t);
    let r = cs.len() == 1 && cs[0] == '1';
    assert(r ==> t@ =~= seq!['1']);
    r
}

/// Whether an account with this switch of its own, on a server with this
/// default, runs its apps isolated.
pub open spec fn isolated(own: Option<Seq<char>>, default: Option<Seq<char>>) -> bool {
    match own {
        Some(v) => says_on(v),
        None => match default {
            Some(v) => says_on(v),
            None => false,
        },
    }
}

pub open spec fn opt_view(s: Option<&str>) -> Option<Seq<char>> {
    match s {
        Some(t) => Some(t@),
        None => None,
    }
}

/// Whether this account runs its apps isolated from each other.
///
/// Isolation is a property of the account, not of a single app. A namespace
/// confines what the process inside it can see; it does not change the uid, so
/// a sibling outside could still read an isolated app's files. With no choice
/// recorded for the account, the server-wide default decides.
pub fn account_is_isolated(own: Option<&str>, default: Option<&str>) -> (r: bool)
    ensures
        r == isolated(opt_view(own), opt_view(default)),
{
    match own {
        Some(v) => switch_is_on(v),
        None => match default {
            Some(v) => switch_is_on(v),
            None => false,
        },
    }
}

/// Where an app's Unix socket lives. Isolated, each app has a directory of its
/// own, which alone is bound into its sandbox.
pub open spec fn socket_path(
    state_dir: Seq<char>,
    name: Seq<char>,
    host: Seq<char>,
    isolated: bool,
) -> Seq<char> {
    let sockets = path::under(state_dir, ".sockets"@);
    if isolated {
        path::under(path::under(sockets, name), host)
    } else {
        path::under(sockets, host)
    }
}

/// Where an app's Unix socket lives.
pub fn socket_path_for(state_dir: &str, meta: &AppMeta, isolated: bool) -> (r: String)
    ensures
        r@ == socket_path(state_dir@, meta.name@, meta.host@, isolated),
{
    let sockets = path::join(state_dir, ".sockets");
    if isolated {
        let own = path::join(&sockets, &meta.name);
        path::join(&own, &meta.host)
    } else {
        path::join(&sockets, &meta.host)
    }
}

/// The socket a running app actually has: the one recorded when it started, or
/// the configured one when nothing was recorded.
pub open spec fn active_socket(
    state_dir: Seq<char>,
    meta: AppMetaV,
    recorded: Option<Seq<char>>,
    isolated: bool,
) -> Seq<char> {
    let configured = socket_path(state_dir, meta.name, meta.host, isolated);
    match recorded {
        Some(content) => match kv::value_of(kv::of_text(content), "socket"@) {
            Some(p) => p,
            None => configured,
        },
        None => configured,
    }
}

/// The socket path a running app actually has, from the content of its `.meta`
/// file.
///
/// Not the same as `socket_path_for` once the isolation mode changes: the path
/// moves, but a running app keeps the one it launched with. Stops and cleanups
/// must act on this one.
pub fn active_socket_path(
    state_dir: &str,
    meta: &AppMeta,
    recorded: Option<&str>,
    isolated: bool,
) -> (r: String)
    ensures
        r@ == active_socket(state_dir@, meta@, opt_view(recorded), isolated),
{
    if let Some(content) = recorded {
        let m = kv::parse_kv(content);
        if let Some(p) = m.get("socket") {
            return p;
        }
    }
    socket_path_for(state_dir, meta, isolated)
}

/// Two isolated apps of an account never share a directory for their sockets.
pub proof fn law_isolated_sockets_are_apart(state_dir: Seq<char>, a: Seq<char>, b: Seq<char>)
    requires
        is_name(a),
        is_name(b),
        a != b,
    ensures
        path::under(path::under(state_dir, ".sockets"@), a) != path::under(
            path::under(state_dir, ".sockets"@),
            b,
        ),
{
    let base = path::under(state_dir, ".sockets"@);
    law_name_is_one_component(a);
    law_name_is_one_component(b);
    assert(a[0] != '/') by {
        assert(is_name_char(a[0]));
    }
    assert(b[0] != '/') by {
        assert(is_name_char(b[0]));
    }
    let head = if base.len() == 0 || base.last() == '/' {
        base
    } else {
        base.push('/')
    };
    if head + a == head + b {
        assert(a =~= (head + a).skip(head.len() as int));
        assert(b =~= (head + b).skip(head.len() as int));
    }
}

/// The account that the web server runs as, for its access to sockets. Root may
/// name one in the environment; otherwise the file that the installer wrote
/// says it. Nobody else can choose who is granted access.
pub fn get_web_user(uid: u32, env: Option<&str>, file: Option<&str>) -> (r: String)
    ensures
        r@ == (if uid == 0 && env is Some {
            env->0@
        } else {
            match file {
                Some(c) => text::trimmed(c@),
                None => Seq::empty(),
            }
        }),
{
    if uid == 0 {
        if let Some(u) = env {
            return u.to_string();
        }
    }
    match file {
        Some(c) => text::trim(c),
        None => String::new(),
    }
}

// ---------------------------------------------------------------------------
// Preparing directories
// ---------------------------------------------------------------------------

/// The directories of an account's state, the base one first.
pub open spec fn state_dirs(state_dir: Seq<char>) -> Seq<Seq<char>> {
    seq![
        state_dir,
        path::under(state_dir, ".run"@),
        path::under(state_dir, ".sockets"@),
        path::under(state_dir, ".proxy"@),
    ]
}

pub fn state_directories(state_dir: &str) -> (r: Vec<String>)
    ensures
        text::views(r@) == state_dirs(state_dir@),
{
    let mut out: Vec<String> = Vec::new();
    out.push(state_dir.to_string());
    out.push(path::join(state_dir, ".run"));
    out.push(path::join(state_dir, ".sockets"));
    out.push(path::join(state_dir, ".proxy"));
    assert(text::views(out@) =~= state_dirs(state_dir@));
    out
}

/// Creating the directories that are not there, each with mode 0700.
pub open spec fn missing_dirs(dirs: Seq<Seq<char>>, present: Seq<bool>) -> Seq<effect::StepV>
    decreases dirs.len(),
{
    if dirs.len() == 0 {
        Seq::empty()
    } else {
        let before = missing_dirs(dirs.drop_last(), present);
        if present[dirs.len() - 1] {
            before
        } else {
            before.push(effect::needed(effect::ChangeV::MakeDir(dirs.last()))).push(
                effect::needed(effect::ChangeV::SetMode(dirs.last(), 0o700)),
            )
        }
    }
}

/// Preparing the state directory of an account: its directories, the base made
/// traversable for the web server, and the whole tree the account's own, apart
/// from the run directory.
///
/// The run directory is root's, with the sticky bit and group write: the
/// account creates its own files there and cannot remove or replace those of
/// root, which say what to execute.
pub open spec fn prepared_state(
    state_dir: Seq<char>,
    parent: Option<Seq<char>>,
    uid: int,
    gid: int,
    present: Seq<bool>,
) -> Seq<effect::StepV> {
    let made = missing_dirs(state_dirs(state_dir), present);
    let opened = match parent {
        Some(p) => made.push(effect::tried(effect::ChangeV::SetMode(p, 0o711))),
        None => made,
    };
    opened.push(effect::needed(effect::ChangeV::OwnTree(state_dir, uid, gid))).push(
        effect::needed(effect::ChangeV::Own(run_dir(state_dir), 0, gid)),
    ).push(effect::needed(effect::ChangeV::SetMode(run_dir(state_dir), 0o1770)))
}

/// The directory that a path lies in, if it lies in one.
pub open spec fn parent_of(s: Seq<char>) -> Option<Seq<char>> {
    let cs = path::components(s);
    if cs.len() > 0 && cs.last() != seq!['/'] {
        Some(path::assembled(cs.drop_last()))
    } else {
        None
    }
}

/// The directory that a path lies in, as `Path::parent`.
pub fn parent_dir(s: &str) -> (r: Option<String>)
    ensures
        r is Some <==> parent_of(s@) is Some,
        r matches Some(p) ==> parent_of(s@) == Some(p@),
{
    let cs = path::split(s);
    let n: usize = cs.len();
    if n == 0 {
        return None;
    }
    proof {
        reveal_strlit("/");
        assert("/"@ =~= seq!['/']);
        assert(text::views(cs@).last() == cs@[n - 1]@);
        assert(text::views(cs@).take(n - 1) =~= text::views(cs@).drop_last());
    }
    if text::same(&cs[n - 1], "/") {
        None
    } else {
        Some(path::assemble(&cs, n - 1))
    }
}

/// Creates the state dir and operational subdirs, then hands the tree to the
/// account. `present` says which of [`state_directories`] exist.
pub fn init_state_dir(state_dir: &str, uid: u32, gid: u32, present: &Vec<bool>) -> (r: Steps)
    requires
        present@.len() == state_dirs(state_dir@).len(),
    ensures
        r@ == prepared_state(
            state_dir@,
            parent_of(state_dir@),
            uid as int,
            gid as int,
            present@,
        ),
{
    let dirs = state_directories(state_dir);
    let ghost ds = text::views(dirs@);
    let mut steps = Steps::new();
    let mut i: usize = 0;
    assert(missing_dirs(ds.take(0), present@) =~= Seq::<effect::StepV>::empty());
    while i < dirs.len()
        invariant
            ds == text::views(dirs@),
            i <= dirs@.len(),
            dirs@.len() == present@.len(),
            steps@ == missing_dirs(ds.take(i as int), present@),
        decreases dirs@.len() - i,
    {
        assert(ds.take(i + 1).drop_last() =~= ds.take(i as int));
        assert(ds.take(i + 1).last() == dirs@[i as int]@);
        if !present[i] {
            steps.need(Change::MakeDir(dirs[i].clone()));
            steps.need(Change::SetMode(dirs[i].clone(), 0o700));
        }
        i = i + 1;
    }
    assert(ds.take(i as int) =~= ds);
    if let Some(p) = parent_dir(state_dir) {
        steps.try_to(Change::SetMode(p, 0o711));
    }
    steps.need(Change::OwnTree(state_dir.to_string(), uid, gid));
    let run = path::join(state_dir, ".run");
    steps.need(Change::Own(run.clone(), 0, gid));
    steps.need(Change::SetMode(run, 0o1770));
    steps
}

/// The answer when the state directory could not be prepared.
pub fn init_failed(error: &str, uid: u32, state_dir: &str) -> (r: Response)
    ensures
        r@ == output::broken(
            "init_failed"@,
            error@ + " (uid="@ + text::decimal(uid as nat) + ", state_dir="@ + state_dir@ + ")"@,
        ),
{
    let mut message = error.to_string();
    message.append(" (uid=");
    message.append(&text::show_u32(uid));
    message.append(", state_dir=");
    message.append(state_dir);
    message.append(")");
    output::system_error("init_failed", &message)
}

/// Preparing the log directory of an app: there, the account's own, closed to
/// others, and every log file in it the account's own too.
pub open spec fn prepared_logs(
    cwd: Seq<char>,
    uid: int,
    gid: int,
    present: bool,
    files: Seq<Seq<char>>,
) -> Seq<effect::StepV> {
    let logs = path::under(cwd, "logs"@);
    let made = if present {
        Seq::empty()
    } else {
        seq![effect::needed(effect::ChangeV::MakeDir(logs))]
    };
    made.push(effect::needed(effect::ChangeV::Own(logs, uid, gid))).push(
        effect::needed(effect::ChangeV::SetMode(logs, 0o750)),
    ) + Seq::new(files.len(), |i: int| effect::tried(effect::ChangeV::Own(files[i], uid, gid)))
}

/// Creates `{cwd}/logs/` owned by the account. `files` are the files in it.
pub fn init_app_logs_dir(
    cwd: &str,
    uid: u32,
    gid: u32,
    present: bool,
    files: &Vec<String>,
) -> (r: Steps)
    ensures
        r@ == prepared_logs(cwd@, uid as int, gid as int, present, text::views(files@)),
{
    let logs = path::join(cwd, "logs");
    let ghost fs = text::views(files@);
    let mut steps = Steps::new();
    if !present {
        steps.need(Change::MakeDir(logs.clone()));
    }
    steps.need(Change::Own(logs.clone(), uid, gid));
    steps.need(Change::SetMode(logs, 0o750));
    let ghost head = steps@;
    let mut i: usize = 0;
    while i < files.len()
        invariant
            fs == text::views(files@),
            i <= files@.len(),
            steps@ == head + Seq::new(
                i as nat,
                |k: int| effect::tried(effect::ChangeV::Own(fs[k], uid as int, gid as int)),
            ),
        decreases files@.len() - i,
    {
        steps.try_to(Change::Own(files[i].clone(), uid, gid));
        assert(steps@ =~= head + Seq::new(
            (i + 1) as nat,
            |k: int| effect::tried(effect::ChangeV::Own(fs[k], uid as int, gid as int)),
        ));
        i = i + 1;
    }
    assert(steps@ =~= prepared_logs(cwd@, uid as int, gid as int, present, fs));
    steps
}

/// Whether a path stays root's when a state tree is handed to an account: the
/// run directory.
pub fn stays_with_root(p: &str) -> (r: bool)
    ensures
        r == (path::last_name(path::components(p@)) == Some(".run"@)),
{
    let cs = path::split(p);
    let n: usize = cs.len();
    proof {
        reveal_strlit(".run");
        assert(".run"@[1] == 'r');
    }
    if n == 0 {
        false
    } else {
        assert(text::views(cs@).last() == cs@[n - 1]@);
        text::same(&cs[n - 1], ".run")
    }
}

/// The file that a new content is written to before it replaces the one at `p`:
/// a hidden neighbour.
pub open spec fn neighbour(p: Seq<char>) -> Seq<char> {
    let cs = path::components(p);
    match path::last_name(cs) {
        Some(name) => path::under(path::assembled(cs.drop_last()), "."@ + name + ".tmp"@),
        None => path::under(p, ".tmp.tmp"@),
    }
}

/// The temporary file of an atomic write.
pub fn temp_path(p: &str) -> (r: String)
    ensures
        r@ == neighbour(p@),
{
    let cs = path::split(p);
    let n: usize = cs.len();
    proof {
        reveal_strlit("/");
        reveal_strlit(".");
        reveal_strlit("..");
        assert("/"@ =~= seq!['/']);
        assert("."@ =~= seq!['.']);
        assert(".."@ =~= seq!['.', '.']);
    }
    if n > 0 {
        assert(text::views(cs@).last() == cs@[n - 1]@);
        assert(text::views(cs@).take(n - 1) =~= text::views(cs@).drop_last());
        if !text::same(&cs[n - 1], "/") && !text::same(&cs[n - 1], ".") && !text::same(
            &cs[n - 1],
            "..",
        ) {
            let dir = path::assemble(&cs, n - 1);
            let mut name = ".".to_string();
            name.append(&cs[n - 1]);
            name.append(".tmp");
            return path::join(&dir, &name);
        }
    }
    path::join(p, ".tmp.tmp")
}

/// Names are made of letters, digits, dots, underscores and hyphens, and are from
/// one to 64 of them long.
pub proof fn law_names_are_short_and_plain(s: Seq<char>)
    ensures
        is_name(s) <==> 1 <= s.len() <= 64 && forall|i: int|
            0 <= i < s.len() ==> {
                ||| 'a' <= #[trigger] s[i] <= 'z'
                ||| 'A' <= s[i] <= 'Z'
                ||| '0' <= s[i] <= '9'
                ||| s[i] == '.' || s[i] == '_' || s[i] == '-'
            },
{
    if is_name(s) {
        assert forall|i: int| 0 <= i < s.len() implies {
            ||| 'a' <= #[trigger] s[i] <= 'z'
            ||| 'A' <= s[i] <= 'Z'
            ||| '0' <= s[i] <= '9'
            ||| s[i] == '.' || s[i] == '_' || s[i] == '-'
        } by {
            assert(is_name_char(s[i]));
        }
    }
}

/// The files of an app's run lie in `.run`, under its name.
pub proof fn law_run_files_lie_in_the_run_directory(
    state_dir: Seq<char>,
    name: Seq<char>,
    ending: Seq<char>,
)
    requires
        state_dir.len() > 0,
        state_dir.last() != '/',
        name.len() > 0,
        name[0] != '/',
    ensures
        run_file(state_dir, name, ending) == state_dir + "/.run/"@ + name + ending,
{
    reveal_strlit(".run");
    reveal_strlit("/.run/");
    let r = run_dir(state_dir);
    assert(r =~= state_dir.push('/') + ".run"@);
    assert(r.last() == 'n');
    assert((name + ending)[0] == name[0]);
    assert(r.push('/') + (name + ending) =~= state_dir + "/.run/"@ + name + ending);
}

/// Sockets lie in `.sockets`, by host; isolated, in a directory of the app's own
/// in there. What tells the proxy to route to a host lies in `.proxy`.
pub proof fn law_sockets_and_markers_go_by_host(
    state_dir: Seq<char>,
    name: Seq<char>,
    host: Seq<char>,
)
    requires
        state_dir.len() > 0,
        state_dir.last() != '/',
        name.len() > 0,
        name[0] != '/',
        name.last() != '/',
        host.len() > 0,
        host[0] != '/',
    ensures
        socket_path(state_dir, name, host, false) == state_dir + "/.sockets/"@ + host,
        socket_path(state_dir, name, host, true) == state_dir + "/.sockets/"@ + name + "/"@ + host,
        marker_path(state_dir, host) == state_dir + "/.proxy/"@ + host,
{
    reveal_strlit(".sockets");
    reveal_strlit("/.sockets/");
    reveal_strlit(".proxy");
    reveal_strlit("/.proxy/");
    reveal_strlit("/");
    let s = path::under(state_dir, ".sockets"@);
    assert(s =~= state_dir.push('/') + ".sockets"@);
    assert(s.last() == 's');
    assert(s.push('/') + host =~= state_dir + "/.sockets/"@ + host);
    let own = s.push('/') + name;
    assert(own.last() == name.last());
    assert(own.push('/') + host =~= state_dir + "/.sockets/"@ + name + "/"@ + host);
    let m = path::under(state_dir, ".proxy"@);
    assert(m =~= state_dir.push('/') + ".proxy"@);
    assert(m.last() == 'y');
    assert(m.push('/') + host =~= state_dir + "/.proxy/"@ + host);
}

/// Only root's `.app` files register an app, under the name before the ending.
pub proof fn law_only_roots_files_register(e: RunEntry, stem: Seq<char>, ext: Seq<char>)
    requires
        e.file_name@ == stem.push('.') + ext,
        stem.len() > 0,
        !ext.contains('.'),
    ensures
        registers(e) == (if ext == "app"@ && e.owner == Some(0u32) {
            Some(stem)
        } else {
            None
        }),
{
    path::law_extension_is_behind_the_last_dot(stem, ext);
}

/// The apps that entries register are those that some entry registers.
pub proof fn law_registered_apps_have_an_entry(es: Seq<RunEntry>, name: Seq<char>)
    ensures
        registered(es).contains(name) <==> exists|i: int|
            0 <= i < es.len() && registers(#[trigger] es[i]) == Some(name),
    decreases es.len(),
{
    if es.len() > 0 {
        let front = es.drop_last();
        law_registered_apps_have_an_entry(front, name);
        let before = registered(front);
        if registered(es).contains(name) {
            let k = choose|k: int| 0 <= k < registered(es).len() && registered(es)[k] == name;
            if k < before.len() {
                assert(before[k] == name);
                let i = choose|i: int|
                    0 <= i < front.len() && registers(#[trigger] front[i]) == Some(name);
                assert(es[i] == front[i]);
            } else {
                assert(registers(es[es.len() - 1]) == Some(name));
            }
        }
        if exists|i: int| 0 <= i < es.len() && registers(#[trigger] es[i]) == Some(name) {
            let i = choose|i: int| 0 <= i < es.len() && registers(#[trigger] es[i]) == Some(name);
            if i < front.len() {
                assert(front[i] == es[i]);
                let k = choose|k: int| 0 <= k < before.len() && before[k] == name;
                assert(registered(es)[k] == name);
            } else {
                assert(registered(es)[before.len() as int] == name);
            }
        }
    }
}

/// The accounts of the panel are the entries of the state base that have a run
/// directory and a user, and do not begin with a dot.
pub proof fn law_accounts_have_a_user(es: Seq<StateEntry>, name: Seq<char>)
    ensures
        accounts(es).contains(name) <==> exists|i: int|
            0 <= i < es.len() && (#[trigger] es[i]).name@ == name && es[i].has_run_dir
                && es[i].user_exists && (name.len() > 0 ==> name[0] != '.'),
    decreases es.len(),
{
    if es.len() > 0 {
        let front = es.drop_last();
        law_accounts_have_a_user(front, name);
        let before = accounts(front);
        let n = es.len() - 1;
        if accounts(es).contains(name) {
            let k = choose|k: int| 0 <= k < accounts(es).len() && accounts(es)[k] == name;
            if k < before.len() {
                assert(before[k] == name);
                let i = choose|i: int|
                    0 <= i < front.len() && (#[trigger] front[i]).name@ == name
                        && front[i].has_run_dir && front[i].user_exists && (name.len() > 0
                        ==> name[0] != '.');
                assert(es[i] == front[i]);
            } else {
                assert(es[n].name@ == name);
            }
        }
        if exists|i: int|
            0 <= i < es.len() && (#[trigger] es[i]).name@ == name && es[i].has_run_dir
                && es[i].user_exists && (name.len() > 0 ==> name[0] != '.') {
            let i = choose|i: int|
                0 <= i < es.len() && (#[trigger] es[i]).name@ == name && es[i].has_run_dir
                    && es[i].user_exists && (name.len() > 0 ==> name[0] != '.');
            if i < n {
                assert(front[i] == es[i]);
                let k = choose|k: int| 0 <= k < before.len() && before[k] == name;
                assert(accounts(es)[k] == name);
            } else {
                assert(is_account(es[n]));
                assert(accounts(es)[before.len() as int] == name);
            }
        }
    }
}

/// A switch is on when its file says 1, with white space around it or without. The
/// account's own switch counts before the server's default, and without either it
/// is off.
pub proof fn law_switch_is_on_when_it_says_one(
    left: Seq<char>,
    t: Seq<char>,
    right: Seq<char>,
    default: Option<Seq<char>>,
)
    requires
        forall|i: int| 0 <= i < left.len() ==> text::is_space(#[trigger] left[i]),
        forall|i: int| 0 <= i < right.len() ==> text::is_space(#[trigger] right[i]),
        t.len() > 0 ==> !text::is_space(t[0]) && !text::is_space(t.last()),
    ensures
        isolated(Some(left + t + right), default) == (t == seq!['1']),
        isolated(None, Some(left + t + right)) == (t == seq!['1']),
        !isolated(None, None),
{
    text::law_trimming_takes_white_space(left, t, right);
}

/// A running app's socket is the one that was recorded when it started, wherever
/// the configured one would be.
pub proof fn law_recorded_socket_counts(
    state_dir: Seq<char>,
    meta: AppMetaV,
    above: Seq<char>,
    socket: Seq<char>,
    isolated: bool,
)
    requires
        above.len() > 0 ==> above.last() == '\n',
        !socket.contains('\n'),
        socket.len() > 0 ==> socket.last() != '\r',
    ensures
        active_socket(
            state_dir,
            meta,
            Some(above + "socket="@ + socket.push('\n')),
            isolated,
        ) == socket,
        active_socket(state_dir, meta, None, isolated) == socket_path(
            state_dir,
            meta.name,
            meta.host,
            isolated,
        ),
{
    let key = "socket"@;
    reveal_strlit("socket");
    reveal_strlit("socket=");
    let none = Seq::<char>::empty();
    assert(none + key + none =~= key);
    assert(above + "socket="@ + socket.push('\n') =~= above + key.push('=') + socket.push('\n'));
    kv::law_line_states_its_pair(above, none, key, none, socket);
}

/// The run directory of an account ends up root's own, for the account's group to
/// add to and not to remove from, and everything else in its state the account's.
pub proof fn law_run_directory_stays_roots(
    state_dir: Seq<char>,
    parent: Option<Seq<char>>,
    uid: int,
    gid: int,
    present: Seq<bool>,
)
    requires
        state_dir.len() > 0,
        state_dir.last() != '/',
    ensures
        ({
            let steps = prepared_state(state_dir, parent, uid, gid, present);
            let n = steps.len();
            &&& n >= 3
            &&& steps[n - 3] == effect::needed(effect::ChangeV::OwnTree(state_dir, uid, gid))
            &&& steps[n - 2] == effect::needed(
                effect::ChangeV::Own(state_dir + "/.run"@, 0, gid),
            )
            &&& steps[n - 1] == effect::needed(
                effect::ChangeV::SetMode(state_dir + "/.run"@, 0o1770),
            )
        }),
{
    reveal_strlit(".run");
    reveal_strlit("/.run");
    assert(run_dir(state_dir) =~= state_dir + "/.run"@);
}

/// A cap of nothing is no cap, and any other is the app's.
pub proof fn law_caps_of_nothing_are_none(name: Seq<char>, m: Map<Seq<char>, Seq<char>>)
    ensures
        ({
            let n = kv::number_of(m, "memory_max"@, u64::MAX as nat);
            &&& n == Some(0nat) || n is None ==> meta_of(name, m).memory_max is None
            &&& n is Some && n->0 > 0 ==> meta_of(name, m).memory_max == Some(n->0)
        }),
{
}

/// Why an app cannot be loaded, in words.
pub proof fn law_unloadable_apps_say_why(name: Seq<char>, uid: u32)
    ensures
        meta_error_text(MetaError::NotFound, name) == "app '"@ + name + "' not found"@,
        meta_error_text(MetaError::Untrusted(uid), name) == "app '"@ + name
            + "' has untrusted metadata (owner uid "@ + text::decimal(uid as nat)
            + ", expected root)"@,
{
}

/// The directories of an account's state that are not there are made, and closed to
/// everybody but their owner; those that are there are left alone.
pub proof fn law_missing_directories_are_made(
    dirs: Seq<Seq<char>>,
    dir: Seq<char>,
    present: Seq<bool>,
)
    ensures
        missing_dirs(Seq::empty(), present).len() == 0,
        present[dirs.len() as int] ==> missing_dirs(dirs.push(dir), present) == missing_dirs(
            dirs,
            present,
        ),
        !present[dirs.len() as int] ==> missing_dirs(dirs.push(dir), present) == missing_dirs(
            dirs,
            present,
        ) + seq![
            effect::StepV { change: effect::ChangeV::MakeDir(dir), must: true },
            effect::StepV { change: effect::ChangeV::SetMode(dir, 448), must: true },
        ],
{
    assert(dirs.push(dir).drop_last() =~= dirs);
    let before = missing_dirs(dirs, present);
    let a = effect::StepV { change: effect::ChangeV::MakeDir(dir), must: true };
    let b = effect::StepV { change: effect::ChangeV::SetMode(dir, 448), must: true };
    assert(before.push(a).push(b) =~= before + seq![a, b]);
}

/// The logs of an app are its account's: the directory, which others cannot enter,
/// and every file in it.
pub proof fn law_logs_are_the_accounts(
    cwd: Seq<char>,
    uid: int,
    gid: int,
    present: bool,
    files: Seq<Seq<char>>,
    i: int,
)
    ensures
        ({
            let r = prepared_logs(cwd, uid, gid, present, files);
            let logs = path::under(cwd, "logs"@);
            let k = if present {
                0int
            } else {
                1
            };
            &&& r.len() == k + 2 + files.len()
            &&& !present ==> r[0].must && r[0].change == effect::ChangeV::MakeDir(logs)
            &&& r[k].must && r[k].change == effect::ChangeV::Own(logs, uid, gid)
            &&& r[k + 1].must && r[k + 1].change == effect::ChangeV::SetMode(logs, 488)
            &&& 0 <= i < files.len() ==> r[k + 2 + i].change == effect::ChangeV::Own(
                files[i],
                uid,
                gid,
            )
        }),
{
}

/// A new content is written beside the file that it replaces, under a hidden name.
pub proof fn law_neighbours_are_hidden(dir: Seq<char>, name: Seq<char>)
    requires
        name.len() > 0,
        !name.contains('/'),
        name != seq!['.'],
        name != seq!['.', '.'],
    ensures
        neighbour(path::under(dir, name)) == path::under(
            path::assembled(path::components(dir)),
            seq!['.'] + name + ".tmp"@,
        ),
{
    reveal_strlit(".");
    path::law_joined_name_is_one_more_component(dir, name);
    let cs = path::components(dir);
    assert(cs.push(name).drop_last() =~= cs);
    assert(name != seq!['/']) by {
        if name == seq!['/'] {
            assert(name.contains(name[0]));
        }
    }
    assert("."@ =~= seq!['.']);
}

/// The state of an account has four directories.
pub proof fn law_state_has_four_directories(state_dir: Seq<char>)
    requires
        state_dir.len() > 0,
        state_dir.last() != '/',
    ensures
        state_dirs(state_dir) == seq![
            state_dir,
            state_dir + "/.run"@,
            state_dir + "/.sockets"@,
            state_dir + "/.proxy"@,
        ],
{
    reveal_strlit(".run");
    reveal_strlit(".sockets");
    reveal_strlit(".proxy");
    reveal_strlit("/.run");
    reveal_strlit("/.sockets");
    reveal_strlit("/.proxy");
    assert(path::under(state_dir, ".run"@) =~= state_dir + "/.run"@);
    assert(path::under(state_dir, ".sockets"@) =~= state_dir + "/.sockets"@);
    assert(path::under(state_dir, ".proxy"@) =~= state_dir + "/.proxy"@);
}

} // verus!
