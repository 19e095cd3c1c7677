//! Health checks for the plugin's install. Nothing is executed and nothing is
//! modified: the checks judge what was read.
//!
//! They report state, never prose: each names a message of the panel's
//! dictionary and the value it may show.

use vstd::prelude::*;

use crate::command;
use crate::count;
use crate::install::tree;
use crate::path;
use crate::runtime::detect;
use crate::runtime::detect::Rejected;
use crate::sys::output;
use crate::sys::output::{Json, JsonV, Members};
use crate::sys::state::PLUGIN_PATH;
use crate::text;
use crate::webserver::proxysync;

verus! {

/// Outcome of a single check.
#[derive(Debug, Clone, Copy, PartialEq, Eq, Structural)]
pub enum Level {
    Pass,
    Warn,
    Fail,
}

pub open spec fn level_name(l: Level) -> Seq<char> {
    match l {
        Level::Pass => "pass"@,
        Level::Warn => "warn"@,
        Level::Fail => "fail"@,
    }
}

impl Level {
    pub fn as_str(self) -> (r: &'static str)
        ensures
            r@ == level_name(self),
    {
        match self {
            Level::Pass => "pass",
            Level::Warn => "warn",
            Level::Fail => "fail",
        }
    }
}

/// One check: how it went, where it belongs, the message, and the value that
/// the message may show.
pub struct Check {
    pub level: Level,
    pub group: String,
    pub key: String,
    pub arg: Option<String>,
}

pub struct CheckV {
    pub level: Level,
    pub group: Seq<char>,
    pub key: Seq<char>,
    pub arg: Option<Seq<char>>,
}

pub open spec fn check(level: Level, group: Seq<char>, key: Seq<char>, arg: Option<Seq<char>>) ->
    CheckV {
    CheckV { level, group, key, arg }
}

impl View for Check {
    type V = CheckV;

    open spec fn view(&self) -> CheckV {
        CheckV {
            level: self.level,
            group: self.group@,
            key: self.key@,
            arg: command::opt(self.arg),
        }
    }
}

/// The checks so far.
pub struct Report {
    pub items: Vec<Check>,
}

impl View for Report {
    type V = Seq<CheckV>;

    open spec fn view(&self) -> Seq<CheckV> {
        Seq::new(self.items@.len(), |i: int| self.items@[i]@)
    }
}

/// Which of these checks went this way.
pub open spec fn at_level(cs: Seq<CheckV>, level: Level) -> Seq<bool> {
    Seq::new(cs.len(), |i: int| cs[i].level == level)
}

impl Report {
    pub fn new() -> (r: Report)
        ensures
            r@ == Seq::<CheckV>::empty(),
    {
        let r = Report { items: Vec::new() };
        assert(r@ =~= Seq::<CheckV>::empty());
        r
    }

    /// Records one check.
    pub fn add(&mut self, level: Level, group: &str, key: &str, arg: Option<String>)
        ensures
            final(self)@ == old(self)@.push(check(level, group@, key@, command::opt(arg))),
    {
        let ghost before = self@;
        self.items.push(
            Check { level, group: group.to_string(), key: key.to_string(), arg },
        );
        assert(self@ =~= before.push(check(level, group@, key@, command::opt(arg))));
    }

    /// How many checks went this way.
    pub fn count(&self, level: Level) -> (r: usize)
        ensures
            r as nat == count::trues(at_level(self@, level)),
    {
        let mut marks: Vec<bool> = Vec::new();
        let mut i: usize = 0;
        while i < self.items.len()
            invariant
                i <= self.items@.len(),
                marks@.len() == i,
                forall|j: int|
                    0 <= j < i ==> #[trigger] marks@[j] == (self.items@[j].level == level),
            decreases self.items@.len() - i,
        {
            marks.push(self.items[i].level == level);
            i = i + 1;
        }
        assert(marks@ =~= at_level(self@, level));
        count::count_true(&marks)
    }
}

/// The summary accounts for every check, once.
pub proof fn law_summary_is_complete(cs: Seq<CheckV>)
    ensures
        count::trues(at_level(cs, Level::Pass)) + count::trues(at_level(cs, Level::Warn))
            + count::trues(at_level(cs, Level::Fail)) == cs.len(),
    decreases cs.len(),
{
    if cs.len() > 0 {
        let front = cs.drop_last();
        law_summary_is_complete(front);
        assert(at_level(cs, Level::Pass).drop_last() =~= at_level(front, Level::Pass));
        assert(at_level(cs, Level::Warn).drop_last() =~= at_level(front, Level::Warn));
        assert(at_level(cs, Level::Fail).drop_last() =~= at_level(front, Level::Fail));
    }
}

// ---------------------------------------------------------------------------
// The install
// ---------------------------------------------------------------------------

/// A file's mode and owner.
#[derive(Debug, Clone, Copy, PartialEq, Eq, Structural)]
pub struct FileFacts {
    pub mode: u32,
    pub uid: u32,
}

/// What is said of the binary.
pub open spec fn binary_check(f: Option<FileFacts>) -> CheckV {
    match f {
        None => check(Level::Fail, "install"@, "binary_missing"@, None),
        Some(m) => if m.mode & 0o7777 == 0o4755 && m.uid == 0 {
            check(Level::Pass, "install"@, "binary_ok"@, None)
        } else {
            check(Level::Fail, "install"@, "binary_perms"@, None)
        },
    }
}

pub fn check_binary(r: &mut Report, f: Option<FileFacts>)
    ensures
        final(r)@ == old(r)@.push(binary_check(f)),
{
    match f {
        None => r.add(Level::Fail, "install", "binary_missing", None),
        Some(m) => {
            if tree::mode_of(m.mode) == 0o4755 && m.uid == 0 {
                r.add(Level::Pass, "install", "binary_ok", None);
            } else {
                r.add(Level::Fail, "install", "binary_perms", None);
            }
        },
    }
}

/// A file of the plugin's tree, with its owner and mode as far as they could be
/// read.
pub struct TreeFile {
    pub path: String,
    pub uid: Option<u32>,
    pub mode: Option<u32>,
}

/// Whether a file is judged: the binary has a check of its own, and DirectAdmin
/// rewrites `plugin.conf` and owns it.
pub open spec fn is_judged(p: Seq<char>) -> bool {
    &&& path::components(p) != path::components(path::under(PLUGIN_PATH@, "bin/core-selynt"@))
    &&& path::components(p) != path::components(path::under(PLUGIN_PATH@, "plugin.conf"@))
}

pub open spec fn is_foreign(f: TreeFile) -> bool {
    is_judged(f.path@) && (f.uid matches Some(u) && u != 0)
}

pub open spec fn has_wrong_mode(f: TreeFile) -> bool {
    is_judged(f.path@) && (f.mode matches Some(m) && m & 0o7777 != tree::wanted_mode(f.path@))
}

pub open spec fn foreign_marks(fs: Seq<TreeFile>) -> Seq<bool> {
    Seq::new(fs.len(), |i: int| is_foreign(fs[i]))
}

pub open spec fn mode_marks(fs: Seq<TreeFile>) -> Seq<bool> {
    Seq::new(fs.len(), |i: int| has_wrong_mode(fs[i]))
}

/// What is said of a count that should be 0.
pub open spec fn count_check(
    n: nat,
    level: Level,
    ok: Seq<char>,
    bad: Seq<char>,
) -> CheckV {
    if n == 0 {
        check(Level::Pass, "install"@, ok, None)
    } else {
        check(level, "install"@, bad, Some(text::decimal(n)))
    }
}

/// What is said of the owners and modes of the plugin's files.
pub open spec fn ownership_checks(fs: Seq<TreeFile>) -> Seq<CheckV> {
    seq![
        count_check(
            count::trues(foreign_marks(fs)),
            Level::Fail,
            "ownership_ok"@,
            "ownership_bad"@,
        ),
        count_check(
            count::trues(mode_marks(fs)),
            Level::Warn,
            "permissions_ok"@,
            "permissions_bad"@,
        ),
    ]
}

fn judged(p: &str) -> (r: bool)
    ensures
        r == is_judged(p@),
{
    !path::same(p, &path::join(PLUGIN_PATH, "bin/core-selynt")) && !path::same(
        p,
        &path::join(PLUGIN_PATH, "plugin.conf"),
    )
}

fn foreign(f: &TreeFile) -> (r: bool)
    ensures
        r == is_foreign(*f),
{
    match f.uid {
        Some(u) => u != 0 && judged(&f.path),
        None => false,
    }
}

fn wrong_mode(f: &TreeFile) -> (r: bool)
    ensures
        r == has_wrong_mode(*f),
{
    match f.mode {
        Some(m) => tree::mode_of(m) != tree::expected_mode(&f.path) && judged(&f.path),
        None => false,
    }
}

fn add_count(r: &mut Report, n: usize, level: Level, ok: &str, bad: &str)
    ensures
        final(r)@ == old(r)@.push(count_check(n as nat, level, ok@, bad@)),
{
    if n == 0 {
        r.add(Level::Pass, "install", ok, None);
    } else {
        r.add(level, "install", bad, Some(text::show_usize(n)));
    }
}

pub fn check_ownership_and_modes(r: &mut Report, files: &Vec<TreeFile>)
    ensures
        final(r)@ == old(r)@ + ownership_checks(files@),
{
    let ghost before = r@;
    let mut owners: Vec<bool> = Vec::new();
    let mut modes: Vec<bool> = Vec::new();
    let mut i: usize = 0;
    while i < files.len()
        invariant
            i <= files@.len(),
            owners@.len() == i,
            modes@.len() == i,
            forall|j: int| 0 <= j < i ==> #[trigger] owners@[j] == is_foreign(files@[j]),
            forall|j: int| 0 <= j < i ==> #[trigger] modes@[j] == has_wrong_mode(files@[j]),
        decreases files@.len() - i,
    {
        owners.push(foreign(&files[i]));
        modes.push(wrong_mode(&files[i]));
        i = i + 1;
    }
    assert(owners@ =~= foreign_marks(files@));
    assert(modes@ =~= mode_marks(files@));
    let foreign_count: usize = count::count_true(&owners);
    let mode_count: usize = count::count_true(&modes);
    add_count(r, foreign_count, Level::Fail, "ownership_ok", "ownership_bad");
    add_count(r, mode_count, Level::Warn, "permissions_ok", "permissions_bad");
    assert(r@ =~= before + ownership_checks(files@));
}

/// Whether one of the files that tell who may act is missing or empty.
pub open spec fn lacks_identity(contents: Seq<Option<String>>) -> bool {
    exists|i: int|
        0 <= i < contents.len() && (match #[trigger] contents[i] {
            Some(c) => text::trimmed(c@).len() == 0,
            None => true,
        })
}

/// What is said of the files that tell who may act. One check for all: what
/// matters is whether the panel can authorise its own requests.
pub open spec fn identity_check(contents: Seq<Option<String>>) -> CheckV {
    if lacks_identity(contents) {
        check(Level::Warn, "install"@, "identity_bad"@, None)
    } else {
        check(Level::Pass, "install"@, "identity_ok"@, None)
    }
}

fn is_blank(content: &Option<String>) -> (r: bool)
    ensures
        r == (match content {
            Some(c) => text::trimmed(c@).len() == 0,
            None => true,
        }),
{
    match content {
        Some(c) => {
            let t = text::trim(c);
            let cs = text::chars(&t);
            cs.len() == 0
        },
        None => true,
    }
}

/// The files, below the plugin's directory, that tell who may act.
pub fn identity_files() -> (r: Vec<String>)
    ensures
        text::views(r@) == seq!["etc/da_user"@, "etc/da_cgi_user"@, "etc/ols_web_user"@],
{
    let mut out: Vec<String> = Vec::new();
    out.push("etc/da_user".to_string());
    out.push("etc/da_cgi_user".to_string());
    out.push("etc/ols_web_user".to_string());
    assert(text::views(out@) =~= seq!["etc/da_user"@, "etc/da_cgi_user"@, "etc/ols_web_user"@]);
    out
}

pub fn check_identity_files(r: &mut Report, contents: &Vec<Option<String>>)
    ensures
        final(r)@ == old(r)@.push(identity_check(contents@)),
{
    let mut i: usize = 0;
    while i < contents.len()
        invariant
            r@ == old(r)@,
            i <= contents@.len(),
            forall|j: int|
                0 <= j < i ==> !(match #[trigger] contents@[j] {
                    Some(c) => text::trimmed(c@).len() == 0,
                    None => true,
                }),
        decreases contents@.len() - i,
    {
        if is_blank(&contents[i]) {
            assert(lacks_identity(contents@));
            r.add(Level::Warn, "install", "identity_bad", None);
            return;
        }
        i = i + 1;
    }
    r.add(Level::Pass, "install", "identity_ok", None);
}

// ---------------------------------------------------------------------------
// The state of the accounts
// ---------------------------------------------------------------------------

/// A file in the run directory of an account: its path, its name, and its
/// owner.
pub struct RunFile {
    pub path: String,
    pub name: String,
    pub uid: Option<u32>,
}

/// The files in the run directory of an account.
pub struct AccountRun {
    pub files: Vec<RunFile>,
}

pub open spec fn is_app_file(f: RunFile) -> bool {
    path::extension_of(f.name@) == Some("app"@)
}

/// The apps among these files, by path and whether root owns them.
pub open spec fn app_files(fs: Seq<RunFile>) -> Seq<(Seq<char>, bool)>
    decreases fs.len(),
{
    if fs.len() == 0 {
        Seq::empty()
    } else if is_app_file(fs.last()) {
        app_files(fs.drop_last()).push((fs.last().path@, fs.last().uid == Some(0u32)))
    } else {
        app_files(fs.drop_last())
    }
}

/// The apps of all these accounts.
pub open spec fn all_app_files(accounts: Seq<AccountRun>) -> Seq<(Seq<char>, bool)>
    decreases accounts.len(),
{
    if accounts.len() == 0 {
        Seq::empty()
    } else {
        all_app_files(accounts.drop_last()) + app_files(accounts.last().files@)
    }
}

/// A warning for each app that root does not own: the panel refuses its
/// metadata, so it is invisible with no other clue as to why.
pub open spec fn unowned_checks(apps: Seq<(Seq<char>, bool)>) -> Seq<CheckV>
    decreases apps.len(),
{
    if apps.len() == 0 {
        Seq::empty()
    } else if apps.last().1 {
        unowned_checks(apps.drop_last())
    } else {
        unowned_checks(apps.drop_last()).push(
            check(Level::Warn, "state"@, "app_not_owned"@, Some(apps.last().0)),
        )
    }
}

/// An account and the mode of its state directory, where it could be read.
pub struct AccountMode {
    pub user: String,
    pub mode: Option<u32>,
}

/// Whether everybody can traverse the state directory of an account.
pub open spec fn is_widened(a: AccountMode) -> bool {
    a.mode matches Some(m) && m & 0o001 != 0
}

/// The accounts whose state directory everybody can traverse.
pub open spec fn widened(accounts: Seq<AccountMode>) -> Seq<Seq<char>>
    decreases accounts.len(),
{
    if accounts.len() == 0 {
        Seq::empty()
    } else if is_widened(accounts.last()) {
        widened(accounts.drop_last()).push(accounts.last().user@)
    } else {
        widened(accounts.drop_last())
    }
}

/// What is said of the boundary between accounts: it is drawn by access lists,
/// unless the tool for them is missing or was of no use on this file system.
pub open spec fn acl_check(has_setfacl: bool, accounts: Seq<AccountMode>) -> CheckV {
    if !has_setfacl {
        check(Level::Warn, "state"@, "acl_missing"@, None)
    } else if widened(accounts).len() == 0 {
        check(Level::Pass, "state"@, "acl_ok"@, None)
    } else {
        check(
            Level::Warn,
            "state"@,
            "acl_fallback_used"@,
            Some(text::joined(widened(accounts), ", "@)),
        )
    }
}

/// What is said of the state directory.
pub open spec fn state_checks(
    state: Option<Seq<AccountRun>>,
    has_setfacl: bool,
    accounts: Seq<AccountMode>,
) -> Seq<CheckV> {
    match state {
        None => seq![check(Level::Fail, "state"@, "state_missing"@, None)],
        Some(runs) => {
            let apps = all_app_files(runs);
            (seq![
                check(Level::Pass, "state"@, "state_ok"@, None),
                check(
                    Level::Pass,
                    "state"@,
                    "registered"@,
                    Some(text::decimal(apps.len()) + "|"@ + text::decimal(runs.len())),
                ),
            ] + unowned_checks(apps)).push(acl_check(has_setfacl, accounts))
        },
    }
}

/// An app's file, and whether root owns it.
pub struct AppFile {
    pub path: String,
    pub owned: bool,
}

pub open spec fn app_file_views(v: Seq<AppFile>) -> Seq<(Seq<char>, bool)> {
    Seq::new(v.len(), |i: int| (v[i].path@, v[i].owned))
}

fn add_app_files(fs: &Vec<RunFile>, out: &mut Vec<AppFile>)
    ensures
        app_file_views(final(out)@) == app_file_views(old(out)@) + app_files(fs@),
{
    let ghost before = app_file_views(out@);
    let mut i: usize = 0;
    assert(before + app_files(fs@.take(0)) =~= before);
    while i < fs.len()
        invariant
            i <= fs@.len(),
            app_file_views(out@) == before + app_files(fs@.take(i as int)),
        decreases fs@.len() - i,
    {
        assert(fs@.take(i + 1).drop_last() =~= fs@.take(i as int));
        let ghost so_far = app_files(fs@.take(i as int));
        if path::stem_with_extension(&fs[i].name, "app").is_some() {
            let owned = match fs[i].uid {
                Some(u) => u == 0,
                None => false,
            };
            let f = AppFile { path: fs[i].path.clone(), owned };
            let ghost shown = (f.path@, f.owned);
            let ghost had = app_file_views(out@);
            out.push(f);
            assert(app_file_views(out@) =~= had.push(shown));
            assert(had.push(shown) =~= before + so_far.push(shown));
        }
        i = i + 1;
    }
    assert(fs@.take(i as int) =~= fs@);
}

fn collect_app_files(runs: &Vec<AccountRun>) -> (r: Vec<AppFile>)
    ensures
        app_file_views(r@) == all_app_files(runs@),
{
    let mut out: Vec<AppFile> = Vec::new();
    let mut i: usize = 0;
    assert(app_file_views(out@) =~= all_app_files(runs@.take(0)));
    while i < runs.len()
        invariant
            i <= runs@.len(),
            app_file_views(out@) == all_app_files(runs@.take(i as int)),
        decreases runs@.len() - i,
    {
        assert(runs@.take(i + 1).drop_last() =~= runs@.take(i as int));
        add_app_files(&runs[i].files, &mut out);
        i = i + 1;
    }
    assert(runs@.take(i as int) =~= runs@);
    out
}

fn warn_of_unowned(r: &mut Report, apps: &Vec<AppFile>)
    ensures
        final(r)@ == old(r)@ + unowned_checks(app_file_views(apps@)),
{
    let ghost before = r@;
    let ghost vs = app_file_views(apps@);
    let mut i: usize = 0;
    assert(before + unowned_checks(vs.take(0)) =~= before);
    while i < apps.len()
        invariant
            vs == app_file_views(apps@),
            i <= apps@.len(),
            r@ == before + unowned_checks(vs.take(i as int)),
        decreases apps@.len() - i,
    {
        assert(vs.take(i + 1).drop_last() =~= vs.take(i as int));
        assert(vs.take(i + 1).last() == (apps@[i as int].path@, apps@[i as int].owned));
        let ghost so_far = unowned_checks(vs.take(i as int));
        if !apps[i].owned {
            r.add(Level::Warn, "state", "app_not_owned", Some(apps[i].path.clone()));
            assert(r@ =~= before + so_far.push(
                check(Level::Warn, "state"@, "app_not_owned"@, Some(vs[i as int].0)),
            ));
        }
        i = i + 1;
    }
    assert(vs.take(i as int) =~= vs);
}

/// Where the tool that sets access lists may be.
pub const SETFACL: &'static str = "/usr/bin/setfacl";

pub const SETFACL_OLD: &'static str = "/bin/setfacl";

/// Checks that the boundary between accounts is drawn by access lists and not by
/// mode bits, which cannot name one account.
pub fn check_acl_support(r: &mut Report, has_setfacl: bool, accounts: &Vec<AccountMode>)
    ensures
        final(r)@ == old(r)@.push(acl_check(has_setfacl, accounts@)),
{
    if !has_setfacl {
        r.add(Level::Warn, "state", "acl_missing", None);
        return;
    }
    let mut wide: Vec<String> = Vec::new();
    let mut i: usize = 0;
    assert(text::views(wide@) =~= widened(accounts@.take(0)));
    while i < accounts.len()
        invariant
            r@ == old(r)@,
            i <= accounts@.len(),
            text::views(wide@) == widened(accounts@.take(i as int)),
        decreases accounts@.len() - i,
    {
        let ghost before = text::views(wide@);
        assert(accounts@.take(i + 1).drop_last() =~= accounts@.take(i as int));
        if let Some(m) = accounts[i].mode {
            if m & 0o001 != 0 {
                let user = accounts[i].user.clone();
                wide.push(user);
                assert(text::views(wide@) =~= before.push(user@));
            }
        }
        i = i + 1;
    }
    assert(accounts@.take(i as int) =~= accounts@);
    assert(text::views(wide@).len() == wide@.len());
    if wide.len() == 0 {
        r.add(Level::Pass, "state", "acl_ok", None);
    } else {
        r.add(Level::Warn, "state", "acl_fallback_used", Some(text::join(&wide, ", ")));
    }
}

/// Checks the state directory: `state` holds the run directories of the
/// accounts, where the directory is there at all.
pub fn check_state_dir(
    r: &mut Report,
    state: &Option<Vec<AccountRun>>,
    has_setfacl: bool,
    accounts: &Vec<AccountMode>,
)
    ensures
        final(r)@ == old(r)@ + state_checks(
            match state {
                Some(runs) => Some(runs@),
                None => None,
            },
            has_setfacl,
            accounts@,
        ),
{
    let ghost before = r@;
    match state {
        None => {
            r.add(Level::Fail, "state", "state_missing", None);
            assert(r@ =~= before + seq![check(Level::Fail, "state"@, "state_missing"@, None)]);
        },
        Some(runs) => {
            r.add(Level::Pass, "state", "state_ok", None);
            let apps = collect_app_files(runs);
            let ghost all = all_app_files(runs@);
            assert(all.len() == apps@.len());
            let mut arg = text::show_usize(apps.len());
            arg.append("|");
            arg.append(&text::show_usize(runs.len()));
            r.add(Level::Pass, "state", "registered", Some(arg));
            warn_of_unowned(r, &apps);
            check_acl_support(r, has_setfacl, accounts);
            assert(r@ =~= before + state_checks(Some(runs@), has_setfacl, accounts@));
        },
    }
}

// ---------------------------------------------------------------------------
// The proxy
// ---------------------------------------------------------------------------

/// What was read of the web server's configuration: whether it is there, the
/// file of handlers, the main file, and the vhosts of the accounts where those
/// could be listed.
pub struct ProxyFacts {
    pub found: bool,
    pub handlers: Option<String>,
    pub main: Option<String>,
    pub vhosts: Option<Vec<Option<String>>>,
}

pub open spec fn is_handler_line(l: Seq<char>) -> bool {
    "extProcessor"@.is_prefix_of(text::trimmed_start(l))
}

pub open spec fn handler_marks(ls: Seq<Seq<char>>) -> Seq<bool> {
    Seq::new(ls.len(), |i: int| is_handler_line(ls[i]))
}

/// What is said of the file of handlers.
pub open spec fn handlers_check(content: Option<Seq<char>>) -> CheckV {
    match content {
        Some(c) => {
            let n = count::trues(handler_marks(text::lines(c)));
            if n > 0 {
                check(Level::Pass, "proxy"@, "extproc_ok"@, Some(text::decimal(n)))
            } else {
                check(Level::Warn, "proxy"@, "extproc_empty"@, None)
            }
        },
        None => check(Level::Warn, "proxy"@, "extproc_missing"@, None),
    }
}

/// What is said of the main file: without the line that includes the handlers
/// every proxied app fails while it looks healthy from every other angle.
pub open spec fn include_check(main: Option<Seq<char>>) -> CheckV {
    match main {
        Some(m) => if text::occurs(m, proxysync::HANDLER_FILE@) {
            check(Level::Pass, "proxy"@, "include_ok"@, None)
        } else {
            check(Level::Fail, "proxy"@, "include_missing"@, None)
        },
        None => check(Level::Warn, "proxy"@, "main_conf_unreadable"@, None),
    }
}

pub open spec fn read_marks(vs: Seq<Option<String>>) -> Seq<bool> {
    Seq::new(vs.len(), |i: int| vs[i] is Some)
}

pub open spec fn proxied_marks(vs: Seq<Option<String>>) -> Seq<bool> {
    Seq::new(
        vs.len(),
        |i: int| vs[i] matches Some(c) && text::occurs(c@, "selynt_proxy"@),
    )
}

/// What is said of the vhosts: one routes to the panel once DirectAdmin has
/// rebuilt it from the templates. Nothing where none could be read.
pub open spec fn vhost_checks(vhosts: Option<Seq<Option<String>>>) -> Seq<CheckV> {
    match vhosts {
        None => Seq::empty(),
        Some(vs) => {
            let checked = count::trues(read_marks(vs));
            let proxied = count::trues(proxied_marks(vs));
            if checked == 0 {
                Seq::empty()
            } else if proxied > 0 {
                seq![
                    check(
                        Level::Pass,
                        "proxy"@,
                        "vhosts_ok"@,
                        Some(text::decimal(proxied) + "|"@ + text::decimal(checked)),
                    ),
                ]
            } else {
                seq![
                    check(
                        Level::Warn,
                        "proxy"@,
                        "vhosts_unpatched"@,
                        Some(text::decimal(checked)),
                    ),
                ]
            }
        },
    }
}

/// What is said of the proxy. Without a web server there is nothing to hold it
/// against.
pub open spec fn proxy_checks(p: ProxyFacts) -> Seq<CheckV> {
    if !p.found {
        Seq::empty()
    } else {
        seq![
            handlers_check(command::opt(p.handlers)),
            include_check(command::opt(p.main)),
        ] + vhost_checks(
            match p.vhosts {
                Some(vs) => Some(vs@),
                None => None,
            },
        )
    }
}

fn count_handlers(content: &str) -> (n: usize)
    ensures
        n as nat == count::trues(handler_marks(text::lines(content@))),
{
    let ls = text::split_lines(content);
    let ghost vs = text::views(ls@);
    let mut marks: Vec<bool> = Vec::new();
    let mut i: usize = 0;
    while i < ls.len()
        invariant
            vs == text::views(ls@),
            i <= ls@.len(),
            marks@.len() == i,
            forall|j: int| 0 <= j < i ==> #[trigger] marks@[j] == is_handler_line(vs[j]),
        decreases ls@.len() - i,
    {
        assert(vs[i as int] == ls@[i as int]@);
        marks.push(text::starts_with(&text::trim_start(&ls[i]), "extProcessor"));
        i = i + 1;
    }
    assert(marks@ =~= handler_marks(vs));
    count::count_true(&marks)
}

fn check_handlers(r: &mut Report, content: &Option<String>)
    ensures
        final(r)@ == old(r)@.push(handlers_check(command::opt(*content))),
{
    match content {
        Some(c) => {
            let n: usize = count_handlers(c);
            if n > 0 {
                r.add(Level::Pass, "proxy", "extproc_ok", Some(text::show_usize(n)));
            } else {
                r.add(Level::Warn, "proxy", "extproc_empty", None);
            }
        },
        None => r.add(Level::Warn, "proxy", "extproc_missing", None),
    }
}

fn check_include(r: &mut Report, main: &Option<String>)
    ensures
        final(r)@ == old(r)@.push(include_check(command::opt(*main))),
{
    match main {
        Some(m) => {
            if text::contains(m, proxysync::HANDLER_FILE) {
                r.add(Level::Pass, "proxy", "include_ok", None);
            } else {
                r.add(Level::Fail, "proxy", "include_missing", None);
            }
        },
        None => r.add(Level::Warn, "proxy", "main_conf_unreadable", None),
    }
}

fn check_vhosts(r: &mut Report, vhosts: &Vec<Option<String>>)
    ensures
        final(r)@ == old(r)@ + vhost_checks(Some(vhosts@)),
{
    let ghost before = r@;
    let mut read: Vec<bool> = Vec::new();
    let mut proxied: Vec<bool> = Vec::new();
    let mut i: usize = 0;
    while i < vhosts.len()
        invariant
            r@ == before,
            i <= vhosts@.len(),
            read@.len() == i,
            proxied@.len() == i,
            forall|j: int| 0 <= j < i ==> #[trigger] read@[j] == (vhosts@[j] is Some),
            forall|j: int|
                0 <= j < i ==> #[trigger] proxied@[j] == (vhosts@[j] matches Some(c)
                    && text::occurs(c@, "selynt_proxy"@)),
        decreases vhosts@.len() - i,
    {
        match &vhosts[i] {
            Some(c) => {
                read.push(true);
                proxied.push(text::contains(c, "selynt_proxy"));
            },
            None => {
                read.push(false);
                proxied.push(false);
            },
        }
        i = i + 1;
    }
    assert(read@ =~= read_marks(vhosts@));
    assert(proxied@ =~= proxied_marks(vhosts@));
    let checked: usize = count::count_true(&read);
    let with_proxy: usize = count::count_true(&proxied);
    if checked > 0 {
        if with_proxy > 0 {
            let mut arg = text::show_usize(with_proxy);
            arg.append("|");
            arg.append(&text::show_usize(checked));
            r.add(Level::Pass, "proxy", "vhosts_ok", Some(arg));
        } else {
            r.add(Level::Warn, "proxy", "vhosts_unpatched", Some(text::show_usize(checked)));
        }
    }
    assert(r@ =~= before + vhost_checks(Some(vhosts@)));
}

/// Checks that the proxy handlers the panel generates are actually in place.
///
/// An app can be running, with its socket ready, and still be unreachable
/// because no vhost routes to it; nothing in the app's own state shows that.
pub fn check_proxy_config(r: &mut Report, p: &ProxyFacts)
    ensures
        final(r)@ == old(r)@ + proxy_checks(*p),
{
    let ghost before = r@;
    if !p.found {
        assert(r@ =~= before + proxy_checks(*p));
        return;
    }
    check_handlers(r, &p.handlers);
    check_include(r, &p.main);
    let ghost mid = r@;
    match &p.vhosts {
        Some(vs) => {
            check_vhosts(r, vs);
        },
        None => {
            assert(r@ =~= mid + vhost_checks(None));
        },
    }
    assert(r@ =~= before + proxy_checks(*p));
}

/// What is said of the templates.
pub open spec fn templates_check(five: bool, seven: bool) -> CheckV {
    if five && seven {
        check(Level::Pass, "proxy"@, "templates_ok"@, None)
    } else {
        check(Level::Fail, "proxy"@, "templates_missing"@, None)
    }
}

pub fn check_templates(r: &mut Report, five: bool, seven: bool)
    ensures
        final(r)@ == old(r)@.push(templates_check(five, seven)),
{
    if five && seven {
        r.add(Level::Pass, "proxy", "templates_ok", None);
    } else {
        r.add(Level::Fail, "proxy", "templates_missing", None);
    }
}

// ---------------------------------------------------------------------------
// Boot and runtimes
// ---------------------------------------------------------------------------

/// What is said of the service that restores apps at boot.
pub open spec fn boot_check(unit: bool) -> CheckV {
    if unit {
        check(Level::Pass, "boot"@, "service_ok"@, None)
    } else {
        check(Level::Warn, "boot"@, "service_missing"@, None)
    }
}

pub fn check_boot_service(r: &mut Report, unit: bool)
    ensures
        final(r)@ == old(r)@.push(boot_check(unit)),
{
    if unit {
        r.add(Level::Pass, "boot", "service_ok", None);
    } else {
        r.add(Level::Warn, "boot", "service_missing", None);
    }
}

pub open spec fn filled_marks(ls: Seq<Seq<char>>) -> Seq<bool> {
    Seq::new(ls.len(), |i: int| text::trimmed(ls[i]).len() > 0)
}

/// What is said of the runtimes that were chosen.
pub open spec fn runtimes_check(content: Option<Seq<char>>) -> CheckV {
    match content {
        Some(c) if text::trimmed(c).len() > 0 => check(
            Level::Pass,
            "runtime"@,
            "node_ok"@,
            Some(text::decimal(count::trues(filled_marks(text::lines(c))))),
        ),
        _ => check(Level::Warn, "runtime"@, "node_none"@, None),
    }
}

/// A warning for a runtime that is there but was refused.
pub open spec fn rejected_check(v: (Seq<char>, Seq<char>)) -> CheckV {
    check(
        Level::Warn,
        "runtime"@,
        if v.1 == "unsafe_ownership"@ {
            "node_unsafe_owner"@
        } else {
            "node_untrusted_path"@
        },
        Some(v.0),
    )
}

/// What is said of the runtimes.
pub open spec fn runtime_checks(
    content: Option<Seq<char>>,
    rejected: Seq<(Seq<char>, Seq<char>)>,
) -> Seq<CheckV> {
    seq![runtimes_check(content)] + Seq::new(
        rejected.len(),
        |i: int| rejected_check(rejected[i]),
    )
}

fn count_filled(content: &str) -> (n: usize)
    ensures
        n as nat == count::trues(filled_marks(text::lines(content@))),
{
    let ls = text::split_lines(content);
    let ghost vs = text::views(ls@);
    let mut marks: Vec<bool> = Vec::new();
    let mut i: usize = 0;
    while i < ls.len()
        invariant
            vs == text::views(ls@),
            i <= ls@.len(),
            marks@.len() == i,
            forall|j: int| 0 <= j < i ==> #[trigger] marks@[j] == (text::trimmed(vs[j]).len() > 0),
        decreases ls@.len() - i,
    {
        assert(vs[i as int] == ls@[i as int]@);
        let t = text::trim(&ls[i]);
        marks.push(!t.as_str().is_empty());
        i = i + 1;
    }
    assert(marks@ =~= filled_marks(vs));
    count::count_true(&marks)
}

/// Checks the runtimes that were chosen, and tells of those that were refused:
/// they are invisible otherwise.
pub fn check_runtimes(r: &mut Report, node_versions: &Option<String>, rejected: &Vec<Rejected>)
    ensures
        final(r)@ == old(r)@ + runtime_checks(
            command::opt(*node_versions),
            detect::rejected_views(rejected@),
        ),
{
    let ghost before = r@;
    let ghost vs = detect::rejected_views(rejected@);
    let some = !is_blank(node_versions);
    match node_versions {
        Some(c) if some => {
            let n: usize = count_filled(c);
            r.add(Level::Pass, "runtime", "node_ok", Some(text::show_usize(n)));
        },
        _ => r.add(Level::Warn, "runtime", "node_none", None),
    }
    let ghost first = before.push(runtimes_check(command::opt(*node_versions)));
    let ghost more = Seq::new(vs.len(), |i: int| rejected_check(vs[i]));
    assert(r@ == first);
    let mut i: usize = 0;
    assert(first + more.take(0) =~= first);
    while i < rejected.len()
        invariant
            vs == detect::rejected_views(rejected@),
            more == Seq::new(vs.len(), |i: int| rejected_check(vs[i])),
            i <= rejected@.len(),
            r@ == first + more.take(i as int),
        decreases rejected@.len() - i,
    {
        assert(vs[i as int] == (rejected@[i as int].path@, rejected@[i as int].reason@));
        let key = if text::same(&rejected[i].reason, "unsafe_ownership") {
            "node_unsafe_owner"
        } else {
            "node_untrusted_path"
        };
        r.add(Level::Warn, "runtime", key, Some(rejected[i].path.clone()));
        assert(r@ =~= first + more.take(i + 1));
        i = i + 1;
    }
    assert(more.take(i as int) =~= more);
    assert(r@ =~= before + runtime_checks(command::opt(*node_versions), vs));
}

// ---------------------------------------------------------------------------
// The report
// ---------------------------------------------------------------------------

/// Everything that the checks look at.
pub struct Facts {
    pub binary: Option<FileFacts>,
    pub files: Vec<TreeFile>,
    pub identity: Vec<Option<String>>,
    pub state: Option<Vec<AccountRun>>,
    pub has_setfacl: bool,
    pub accounts: Vec<AccountMode>,
    pub template_five: bool,
    pub template_seven: bool,
    pub proxy: ProxyFacts,
    pub boot_unit: bool,
    pub node_versions: Option<String>,
    pub rejected: Vec<Rejected>,
}

/// All the checks, in order.
pub open spec fn all_checks(f: Facts) -> Seq<CheckV> {
    (seq![binary_check(f.binary)] + ownership_checks(f.files@)).push(identity_check(f.identity@))
        + state_checks(
        match f.state {
            Some(runs) => Some(runs@),
            None => None,
        },
        f.has_setfacl,
        f.accounts@,
    ) + (seq![templates_check(f.template_five, f.template_seven)] + proxy_checks(f.proxy)).push(
        boot_check(f.boot_unit),
    ) + runtime_checks(command::opt(f.node_versions), detect::rejected_views(f.rejected@))
}

/// How a check is shown.
pub open spec fn check_view(c: CheckV) -> JsonV {
    JsonV::Obj(
        seq![
            ("level"@, JsonV::Str(level_name(c.level))),
            ("group"@, JsonV::Str(c.group)),
            ("key"@, JsonV::Str(c.key)),
            ("arg"@, output::optional_text_view(c.arg)),
        ],
    )
}

/// How the checks are shown, with a summary.
pub open spec fn report_view(cs: Seq<CheckV>) -> Seq<(Seq<char>, JsonV)> {
    seq![
        ("checks"@, JsonV::List(Seq::new(cs.len(), |i: int| check_view(cs[i])))),
        (
            "summary"@,
            JsonV::Obj(
                seq![
                    ("pass"@, JsonV::Num(count::trues(at_level(cs, Level::Pass)))),
                    ("warn"@, JsonV::Num(count::trues(at_level(cs, Level::Warn)))),
                    ("fail"@, JsonV::Num(count::trues(at_level(cs, Level::Fail)))),
                ],
            ),
        ),
    ]
}

fn check_json(c: &Check) -> (r: Json)
    ensures
        r@ == check_view(c@),
{
    let arg = match &c.arg {
        Some(a) => output::string(a),
        None => Json::Null,
    };
    let mut m = Members::new();
    m.put_text("level", c.level.as_str());
    m.put_text("group", &c.group);
    m.put_text("key", &c.key);
    m.put("arg", arg);
    assert(m@ =~= check_view(c@)->Obj_0);
    m.object()
}

/// The checks as they are shown.
pub fn show_report(r: &Report) -> (m: Members)
    ensures
        m@ == report_view(r@),
{
    let ghost cs = r@;
    let ghost want = Seq::new(cs.len(), |i: int| check_view(cs[i]));
    let mut out: Vec<Json> = Vec::new();
    let mut i: usize = 0;
    while i < r.items.len()
        invariant
            cs == r@,
            want == Seq::new(cs.len(), |i: int| check_view(cs[i])),
            i <= r.items@.len(),
            out@.len() == i,
            forall|j: int| 0 <= j < i ==> (#[trigger] out@[j])@ == want[j],
        decreases r.items@.len() - i,
    {
        out.push(check_json(&r.items[i]));
        i = i + 1;
    }
    assert(output::json_views(out@) =~= want);
    let mut summary = Members::new();
    summary.put_number("pass", r.count(Level::Pass) as u64);
    summary.put_number("warn", r.count(Level::Warn) as u64);
    summary.put_number("fail", r.count(Level::Fail) as u64);
    assert(summary@ =~= seq![
        ("pass"@, JsonV::Num(count::trues(at_level(cs, Level::Pass)))),
        ("warn"@, JsonV::Num(count::trues(at_level(cs, Level::Warn)))),
        ("fail"@, JsonV::Num(count::trues(at_level(cs, Level::Fail)))),
    ]);
    let mut m = Members::new();
    m.put("checks", output::list(out));
    m.put("summary", summary.object());
    assert(m@ =~= report_view(cs));
    m
}

/// Runs every check and returns the report plus a summary.
pub fn run_diagnostic(f: &Facts) -> (m: Members)
    ensures
        m@ == report_view(all_checks(*f)),
{
    let mut r = Report::new();
    check_binary(&mut r, f.binary);
    check_ownership_and_modes(&mut r, &f.files);
    check_identity_files(&mut r, &f.identity);
    check_state_dir(&mut r, &f.state, f.has_setfacl, &f.accounts);
    check_templates(&mut r, f.template_five, f.template_seven);
    check_proxy_config(&mut r, &f.proxy);
    check_boot_service(&mut r, f.boot_unit);
    check_runtimes(&mut r, &f.node_versions, &f.rejected);
    assert(r@ =~= all_checks(*f));
    show_report(&r)
}

/// The binary is as it should be when it is root's, setuid, and writable by root
/// alone.
pub proof fn law_sound_binaries_are_setuid_roots(mode: u32, uid: u32)
    ensures
        binary_check(None) == (CheckV {
            level: Level::Fail,
            group: "install"@,
            key: "binary_missing"@,
            arg: None,
        }),
        uid == 0 && mode & 0o7777 == 0o4755 ==> binary_check(Some(FileFacts { mode, uid })) == (
        CheckV { level: Level::Pass, group: "install"@, key: "binary_ok"@, arg: None }),
        uid != 0 || mode & 0o4000 == 0 || mode & 0o022 != 0 ==> binary_check(
            Some(FileFacts { mode, uid }),
        ) == (CheckV { level: Level::Fail, group: "install"@, key: "binary_perms"@, arg: None }),
{
    assert(mode & 0o4000 == 0 || mode & 0o022 != 0 ==> mode & 0o7777 != 0o4755) by (bit_vector);
}

/// Files that are not root's are counted, and so are those with another mode than
/// expected; none of either is what should be.
pub proof fn law_files_out_of_place_are_counted(fs: Seq<TreeFile>, f: TreeFile)
    ensures
        ({
            let judged = is_judged(f.path@);
            let foreign = judged && f.uid is Some && f.uid->0 != 0;
            let wrong = judged && f.mode is Some && f.mode->0 & 0o7777 != tree::wanted_mode(
                f.path@,
            );
            &&& count::trues(foreign_marks(fs.push(f))) == count::trues(foreign_marks(fs)) + (
            if foreign {
                1nat
            } else {
                0
            })
            &&& count::trues(mode_marks(fs.push(f))) == count::trues(mode_marks(fs)) + (if wrong {
                1nat
            } else {
                0
            })
        }),
        ({
            let r = ownership_checks(fs);
            let n = count::trues(foreign_marks(fs));
            let m = count::trues(mode_marks(fs));
            &&& r.len() == 2
            &&& n == 0 ==> r[0].level == Level::Pass && r[0].key == "ownership_ok"@
            &&& n > 0 ==> r[0].level == Level::Fail && r[0].key == "ownership_bad"@ && r[0].arg
                == Some(text::decimal(n))
            &&& m == 0 ==> r[1].level == Level::Pass && r[1].key == "permissions_ok"@
            &&& m > 0 ==> r[1].level == Level::Warn && r[1].key == "permissions_bad"@ && r[1].arg
                == Some(text::decimal(m))
        }),
{
    count::law_each_that_holds_counts_once(foreign_marks(fs), is_foreign(f));
    count::law_each_that_holds_counts_once(mode_marks(fs), has_wrong_mode(f));
    assert(foreign_marks(fs.push(f)) =~= foreign_marks(fs).push(is_foreign(f)));
    assert(mode_marks(fs.push(f)) =~= mode_marks(fs).push(has_wrong_mode(f)));
}

/// One file that is missing or empty is enough to warn of those that tell who may
/// act.
pub proof fn law_missing_identities_are_warned_of(contents: Seq<Option<String>>, i: int)
    ensures
        0 <= i < contents.len() && (contents[i] is None || text::trimmed(contents[i]->0@).len() == 0)
            ==> identity_check(contents) == (CheckV {
            level: Level::Warn,
            group: "install"@,
            key: "identity_bad"@,
            arg: None,
        }),
        (forall|k: int|
            0 <= k < contents.len() ==> (#[trigger] contents[k]) is Some && text::trimmed(
                contents[k]->0@,
            ).len() > 0) ==> identity_check(contents) == (CheckV {
            level: Level::Pass,
            group: "install"@,
            key: "identity_ok"@,
            arg: None,
        }),
{
}

/// An app is a file that ends in `.app`; one that is not root's is warned of by its
/// path.
pub proof fn law_apps_that_are_not_roots_are_warned_of(
    fs: Seq<RunFile>,
    f: RunFile,
    apps: Seq<(Seq<char>, bool)>,
    p: Seq<char>,
)
    ensures
        app_files(Seq::empty()).len() == 0,
        path::extension_of(f.name@) == Some("app"@) ==> app_files(fs.push(f)) == app_files(fs).push(
            (f.path@, f.uid == Some(0u32)),
        ),
        path::extension_of(f.name@) != Some("app"@) ==> app_files(fs.push(f)) == app_files(fs),
        unowned_checks(Seq::empty()).len() == 0,
        unowned_checks(apps.push((p, true))) == unowned_checks(apps),
        unowned_checks(apps.push((p, false))) == unowned_checks(apps).push(
            CheckV {
                level: Level::Warn,
                group: "state"@,
                key: "app_not_owned"@,
                arg: Some(p),
            },
        ),
{
    assert(fs.push(f).drop_last() =~= fs);
    assert(apps.push((p, true)).drop_last() =~= apps);
    assert(apps.push((p, false)).drop_last() =~= apps);
}

/// The apps of all accounts are those of each, one account after the other.
pub proof fn law_apps_of_all_accounts(accounts: Seq<AccountRun>, a: AccountRun)
    ensures
        all_app_files(Seq::empty()).len() == 0,
        all_app_files(accounts.push(a)) == all_app_files(accounts) + app_files(a.files@),
{
    assert(accounts.push(a).drop_last() =~= accounts);
}

/// An account whose state everybody can go through is named; where there is none,
/// the boundary holds.
pub proof fn law_opened_accounts_are_named(accounts: Seq<AccountMode>, a: AccountMode, m: u32)
    ensures
        widened(Seq::empty()).len() == 0,
        a.mode == Some(m) && m & 1 != 0 ==> widened(accounts.push(a)) == widened(accounts).push(
            a.user@,
        ),
        a.mode is None || (a.mode == Some(m) && m & 1 == 0) ==> widened(accounts.push(a)) == widened(
            accounts,
        ),
        acl_check(false, accounts).key == "acl_missing"@ && acl_check(false, accounts).level
            == Level::Warn,
        widened(accounts).len() == 0 ==> acl_check(true, accounts).key == "acl_ok"@ && acl_check(
            true,
            accounts,
        ).level == Level::Pass,
        widened(accounts).len() > 0 ==> acl_check(true, accounts) == (CheckV {
            level: Level::Warn,
            group: "state"@,
            key: "acl_fallback_used"@,
            arg: Some(text::joined(widened(accounts), ", "@)),
        }),
{
    assert(accounts.push(a).drop_last() =~= accounts);
}

/// The state directory is judged when it is there: how many apps and accounts it
/// has, which of them are not root's, and the boundary between the accounts.
pub proof fn law_state_is_judged_when_there(
    runs: Seq<AccountRun>,
    has_setfacl: bool,
    accounts: Seq<AccountMode>,
)
    ensures
        state_checks(None, has_setfacl, accounts) == seq![
            CheckV { level: Level::Fail, group: "state"@, key: "state_missing"@, arg: None },
        ],
        ({
            let apps = all_app_files(runs);
            state_checks(Some(runs), has_setfacl, accounts) == seq![
                CheckV { level: Level::Pass, group: "state"@, key: "state_ok"@, arg: None },
                CheckV {
                    level: Level::Pass,
                    group: "state"@,
                    key: "registered"@,
                    arg: Some(text::decimal(apps.len()) + "|"@ + text::decimal(runs.len())),
                },
            ] + unowned_checks(apps) + seq![acl_check(has_setfacl, accounts)]
        }),
{
}

/// The handlers are counted by the lines that begin one; a file without any is
/// warned of, and so is no file.
pub proof fn law_handlers_are_counted(ls: Seq<Seq<char>>, spaces: Seq<char>, rest: Seq<char>)
    requires
        forall|i: int| 0 <= i < spaces.len() ==> #[trigger] spaces[i] == ' ',
    ensures
        count::trues(handler_marks(Seq::empty())) == 0,
        count::trues(handler_marks(ls.push(spaces + "extProcessor"@ + rest))) == count::trues(
            handler_marks(ls),
        ) + 1,
        count::trues(handler_marks(ls.push(seq!['#'] + rest))) == count::trues(handler_marks(ls)),
        handlers_check(None).key == "extproc_missing"@ && handlers_check(None).level == Level::Warn,
{
    reveal_strlit("extProcessor");
    let line = spaces + "extProcessor"@ + rest;
    lemma_spaces_before(spaces, "extProcessor"@ + rest);
    assert(line =~= spaces + ("extProcessor"@ + rest));
    let t = "extProcessor"@ + rest;
    assert(t[0] == 'e');
    text::law_ascii_white_space('e');
    text::law_ascii_white_space('#');
    assert(text::trimmed_start(t) == t);
    assert(t.take(12) =~= "extProcessor"@);
    assert("extProcessor"@.is_prefix_of(t));
    assert(is_handler_line(line));
    let c = seq!['#'] + rest;
    assert(c[0] == '#');
    assert(text::trimmed_start(c) == c);
    assert("extProcessor"@[0] == 'e');
    assert(!is_handler_line(c));
    count::law_each_that_holds_counts_once(handler_marks(ls), true);
    count::law_each_that_holds_counts_once(handler_marks(ls), false);
    assert(handler_marks(ls.push(line)) =~= handler_marks(ls).push(true));
    assert(handler_marks(ls.push(c)) =~= handler_marks(ls).push(false));
    assert(handler_marks(Seq::empty()) =~= Seq::<bool>::empty());
}

proof fn lemma_spaces_before(spaces: Seq<char>, t: Seq<char>)
    requires
        forall|i: int| 0 <= i < spaces.len() ==> #[trigger] spaces[i] == ' ',
    ensures
        text::trimmed_start(spaces + t) == text::trimmed_start(t),
    decreases spaces.len(),
{
    let s = spaces + t;
    if spaces.len() == 0 {
        assert(s =~= t);
    } else {
        text::law_ascii_white_space(' ');
        assert(s[0] == spaces[0]);
        assert(s.skip(1) =~= spaces.skip(1) + t);
        lemma_spaces_before(spaces.skip(1), t);
    }
}

/// The proxy is wired up when the main file names the file of handlers, wherever.
pub proof fn law_included_handlers_are_found(a: Seq<char>, b: Seq<char>, main: Seq<char>)
    ensures
        include_check(Some(a + "selynt_extprocessors.conf"@ + b)) == (CheckV {
            level: Level::Pass,
            group: "proxy"@,
            key: "include_ok"@,
            arg: None,
        }),
        !text::occurs(main, "selynt_extprocessors.conf"@) ==> include_check(Some(main)) == (CheckV {
            level: Level::Fail,
            group: "proxy"@,
            key: "include_missing"@,
            arg: None,
        }),
        include_check(None).level == Level::Warn,
{
    let m = a + "selynt_extprocessors.conf"@ + b;
    text::law_occurring_is_standing_between(m, "selynt_extprocessors.conf"@);
}

/// Of the vhosts that can be read those count that route to the panel; nothing is
/// said where none can be read.
pub proof fn law_routed_vhosts_are_counted(vs: Seq<Option<String>>)
    ensures
        vhost_checks(None).len() == 0,
        ({
            let read = count::trues(read_marks(vs));
            let routed = count::trues(proxied_marks(vs));
            &&& read == 0 ==> vhost_checks(Some(vs)).len() == 0
            &&& read > 0 && routed > 0 ==> vhost_checks(Some(vs)) == seq![
                CheckV {
                    level: Level::Pass,
                    group: "proxy"@,
                    key: "vhosts_ok"@,
                    arg: Some(text::decimal(routed) + "|"@ + text::decimal(read)),
                },
            ]
            &&& read > 0 && routed == 0 ==> vhost_checks(Some(vs)) == seq![
                CheckV {
                    level: Level::Warn,
                    group: "proxy"@,
                    key: "vhosts_unpatched"@,
                    arg: Some(text::decimal(read)),
                },
            ]
        }),
        forall|i: int|
            0 <= i < vs.len() ==> (#[trigger] read_marks(vs)[i] <==> vs[i] is Some),
        forall|i: int|
            0 <= i < vs.len() ==> (#[trigger] proxied_marks(vs)[i] <==> vs[i] is Some
                && text::occurs(vs[i]->0@, "selynt_proxy"@)),
{
}

/// Both templates have to be there, and the unit that starts the apps at boot.
pub proof fn law_templates_and_boot_are_checked(five: bool, seven: bool, unit: bool)
    ensures
        templates_check(five, seven).level == (if five && seven {
            Level::Pass
        } else {
            Level::Fail
        }),
        templates_check(five, seven).key == (if five && seven {
            "templates_ok"@
        } else {
            "templates_missing"@
        }),
        boot_check(unit).level == (if unit {
            Level::Pass
        } else {
            Level::Warn
        }),
        boot_check(unit).key == (if unit {
            "service_ok"@
        } else {
            "service_missing"@
        }),
{
}

/// The runtimes that were chosen are counted by the lines that say something, and
/// one that was refused is warned of with its path.
pub proof fn law_chosen_runtimes_are_counted(c: Seq<char>, p: Seq<char>)
    ensures
        text::trimmed(c).len() > 0 ==> runtimes_check(Some(c)) == (CheckV {
            level: Level::Pass,
            group: "runtime"@,
            key: "node_ok"@,
            arg: Some(text::decimal(count::trues(filled_marks(text::lines(c))))),
        }),
        text::trimmed(c).len() == 0 ==> runtimes_check(Some(c)) == runtimes_check(None),
        runtimes_check(None) == (CheckV {
            level: Level::Warn,
            group: "runtime"@,
            key: "node_none"@,
            arg: None,
        }),
        rejected_check((p, "unsafe_ownership"@)) == (CheckV {
            level: Level::Warn,
            group: "runtime"@,
            key: "node_unsafe_owner"@,
            arg: Some(p),
        }),
        rejected_check((p, "untrusted_path"@)) == (CheckV {
            level: Level::Warn,
            group: "runtime"@,
            key: "node_untrusted_path"@,
            arg: Some(p),
        }),
{
    reveal_strlit("unsafe_ownership");
    reveal_strlit("untrusted_path");
    assert("unsafe_ownership"@.len() == 16 && "untrusted_path"@.len() == 14);
}

/// Every check of every part is in the report, part after part, and the report says
/// how many there are of each kind.
pub proof fn law_every_part_is_reported(f: Facts, cs: Seq<CheckV>)
    ensures
        all_checks(f).len() == 6 + state_checks(
            match f.state {
                Some(runs) => Some(runs@),
                None => None,
            },
            f.has_setfacl,
            f.accounts@,
        ).len() + proxy_checks(f.proxy).len() + 1 + f.rejected@.len(),
        all_checks(f)[0] == binary_check(f.binary),
        all_checks(f)[3] == identity_check(f.identity@),
        report_view(cs).len() == 2,
        report_view(cs)[0].0 == "checks"@,
        report_view(cs)[1] == (
            "summary"@,
            JsonV::Obj(
                seq![
                    ("pass"@, JsonV::Num(count::trues(at_level(cs, Level::Pass)))),
                    ("warn"@, JsonV::Num(count::trues(at_level(cs, Level::Warn)))),
                    ("fail"@, JsonV::Num(count::trues(at_level(cs, Level::Fail)))),
                ],
            ),
        ),
        level_name(Level::Pass) == "pass"@,
        level_name(Level::Warn) == "warn"@,
        level_name(Level::Fail) == "fail"@,
{
}

/// A check is shown by its level, group, key and what it is about.
pub proof fn law_checks_are_shown_in_full(c: CheckV, s: Seq<char>)
    ensures
        check_view(c) matches JsonV::Obj(ms) && ms.len() == 4 && ms[0] == (
            "level"@,
            JsonV::Str(level_name(c.level)),
        ) && ms[1] == ("group"@, JsonV::Str(c.group)) && ms[2] == ("key"@, JsonV::Str(c.key))
            && ms[3].0 == "arg"@ && (c.arg matches Some(a) ==> ms[3].1 == JsonV::Str(a)) && (
        c.arg is None ==> ms[3].1 == JsonV::Null),
        is_judged(s) <==> path::components(s) != path::components(
            path::under("/usr/local/directadmin/plugins/selynt_panel"@, "bin/core-selynt"@),
        ) && path::components(s) != path::components(
            path::under("/usr/local/directadmin/plugins/selynt_panel"@, "plugin.conf"@),
        ),
{
}

/// The proxy is judged where there is a web server: its handlers, the line that
/// brings them in, and the vhosts.
pub proof fn law_proxy_is_judged_with_a_web_server(
    p: ProxyFacts,
    content: Option<Seq<char>>,
    rejected: Seq<(Seq<char>, Seq<char>)>,
    i: int,
)
    ensures
        !p.found ==> proxy_checks(p).len() == 0,
        p.found ==> proxy_checks(p).len() >= 2 && proxy_checks(p)[0] == handlers_check(
            command::opt(p.handlers),
        ) && proxy_checks(p)[1] == include_check(command::opt(p.main)),
        p.found && p.vhosts is None ==> proxy_checks(p).len() == 2,
        p.found ==> (p.vhosts matches Some(vs) ==> proxy_checks(p).skip(2) == vhost_checks(
            Some(vs@),
        )),
        runtime_checks(content, rejected).len() == 1 + rejected.len(),
        runtime_checks(content, rejected)[0] == runtimes_check(content),
        0 <= i < rejected.len() ==> runtime_checks(content, rejected)[i + 1] == rejected_check(
            rejected[i],
        ),
{
    if p.found && p.vhosts is Some {
        assert(proxy_checks(p).skip(2) =~= vhost_checks(Some(p.vhosts->0@)));
    }
}

} // verus!
