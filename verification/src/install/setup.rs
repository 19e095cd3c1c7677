//! Everything the plugin has to put in place before it can work.
//!
//! The accounts recorded here decide who may act on whose apps: too narrow and
//! every action is refused, too broad and an account the panel does not control
//! is trusted.

use vstd::prelude::*;

use crate::command;
use crate::effect;
use crate::effect::{Change, Steps};
use crate::install::tree;
use crate::install::tree::Entry;
use crate::path;
use crate::sys::output;
use crate::sys::output::{Json, JsonV, Members, Response};
use crate::sys::state::{PLUGIN_PATH, STATE_BASE};
use crate::text;
use crate::webserver::ols::Outcome;

verus! {

/// The account that DirectAdmin runs as on a normal install.
pub const USUAL_DA_USER: &'static str = "diradmin";

/// Finds the account `DirectAdmin` runs as: the usual one where it exists, and
/// else the owner of its binary, where that has a name.
pub fn detect_da_user(usual_exists: bool, binary_owner: Option<&str>) -> (r: String)
    ensures
        r@ == (match binary_owner {
            Some(o) if !usual_exists => o@,
            _ => USUAL_DA_USER@,
        }),
{
    if usual_exists {
        return USUAL_DA_USER.to_string();
    }
    match binary_owner {
        Some(o) => o.to_string(),
        None => USUAL_DA_USER.to_string(),
    }
}

/// A process: its command line, the account it runs as, and the name of that.
pub struct Process {
    pub cmdline: String,
    pub uid: Option<u32>,
    pub account: Option<String>,
}

/// Whether a process is the handler that serves plugin pages, running as an
/// account with a name that is not root.
pub open spec fn is_handler(p: Process) -> bool {
    &&& text::occurs(p.cmdline@, "directadmin"@)
    &&& text::occurs(p.cmdline@, "legacy-handler"@)
    &&& p.uid is Some
    &&& p.uid != Some(0u32)
    &&& p.account is Some
}

/// The account of the first handler among these processes.
pub open spec fn handler_account(ps: Seq<Process>) -> Option<Seq<char>>
    decreases ps.len(),
{
    if ps.len() == 0 {
        None
    } else if is_handler(ps[0]) {
        Some(ps[0].account->0@)
    } else {
        handler_account(ps.skip(1))
    }
}

/// Finds the account plugin pages run as, by looking at the handler process.
///
/// Guessing is worse than looking: the caller is held against this, and a wrong
/// value makes every action fail.
pub fn detect_cgi_user(processes: &Vec<Process>, nobody_exists: bool) -> (r: Option<String>)
    ensures
        command::opt(r) == (match handler_account(processes@) {
            Some(a) => Some(a),
            None => if nobody_exists {
                Some("nobody"@)
            } else {
                None
            },
        }),
{
    let mut i: usize = 0;
    assert(processes@.skip(0) =~= processes@);
    while i < processes.len()
        invariant
            i <= processes@.len(),
            handler_account(processes@) == handler_account(processes@.skip(i as int)),
        decreases processes@.len() - i,
    {
        let p = &processes[i];
        assert(processes@.skip(i as int)[0] == processes@[i as int]);
        if text::contains(&p.cmdline, "directadmin") && text::contains(
            &p.cmdline,
            "legacy-handler",
        ) {
            if let Some(uid) = p.uid {
                if uid != 0 {
                    if let Some(account) = &p.account {
                        return Some(account.clone());
                    }
                }
            }
        }
        assert(processes@.skip(i as int).skip(1) =~= processes@.skip(i + 1));
        i = i + 1;
    }
    if nobody_exists {
        Some("nobody".to_string())
    } else {
        None
    }
}

/// Accounts the panel needs to know about, resolved from the running system.
pub struct Identities {
    /// The account `DirectAdmin` itself runs as.
    pub da_user: String,
    pub da_uid: Option<u32>,
    /// The account `DirectAdmin` executes plugin pages as, which is not the web
    /// server's.
    pub cgi_user: Option<String>,
}

/// Writing one of the settings of the plugin.
pub open spec fn etc_written(name: Seq<char>, value: Seq<char>) -> Seq<effect::StepV> {
    let etc = path::under(PLUGIN_PATH@, "etc"@);
    let file = path::under(etc, name);
    seq![
        effect::needed(effect::ChangeV::MakeDir(etc)),
        effect::needed(effect::ChangeV::Write(file, value + "\n"@)),
        effect::needed(effect::ChangeV::SetMode(file, 0o644)),
    ]
}

fn add_etc(steps: &mut Steps, name: &str, value: &str)
    ensures
        final(steps)@ == old(steps)@ + etc_written(name@, value@),
{
    let ghost before = steps@;
    let etc = path::join(PLUGIN_PATH, "etc");
    let file = path::join(&etc, name);
    steps.need(Change::MakeDir(etc));
    steps.need(Change::Write(file.clone(), text::cat(value, "\n")));
    steps.need(Change::SetMode(file, 0o644));
    assert(steps@ =~= before + etc_written(name@, value@));
}

/// Writes one of the settings of the plugin.
pub fn write_etc(name: &str, value: &str) -> (r: Steps)
    ensures
        r@ == etc_written(name@, value@),
{
    let mut steps = Steps::new();
    let ghost before = steps@;
    add_etc(&mut steps, name, value);
    assert(before + etc_written(name@, value@) =~= etc_written(name@, value@));
    steps
}

/// A uid as it is recorded; nothing where there is none.
pub open spec fn uid_text(uid: Option<u32>) -> Seq<char> {
    match uid {
        Some(u) => text::decimal(u as nat),
        None => Seq::empty(),
    }
}

/// Recording the accounts.
pub open spec fn accounts_recorded(
    da_user: Seq<char>,
    da_uid: Option<u32>,
    cgi_user: Option<Seq<char>>,
) -> Seq<effect::StepV> {
    etc_written("da_user"@, da_user) + etc_written("da_uid"@, uid_text(da_uid)) + (match cgi_user {
        Some(c) => etc_written("da_cgi_user"@, c),
        None => Seq::empty(),
    })
}

/// Records the accounts, where the rest of the program looks for them.
pub fn record_identities(ids: &Identities) -> (r: Steps)
    ensures
        r@ == accounts_recorded(ids.da_user@, ids.da_uid, command::opt(ids.cgi_user)),
{
    let uid = match ids.da_uid {
        Some(u) => text::show_u32(u),
        None => {
            let none = String::new();
            assert(none@ =~= Seq::<char>::empty());
            none
        },
    };
    let mut steps = Steps::new();
    add_etc(&mut steps, "da_user", &ids.da_user);
    add_etc(&mut steps, "da_uid", &uid);
    if let Some(c) = &ids.cgi_user {
        add_etc(&mut steps, "da_cgi_user", c);
    }
    assert(steps@ =~= accounts_recorded(ids.da_user@, ids.da_uid, command::opt(ids.cgi_user)));
    steps
}

/// Creating the state directory.
pub open spec fn state_base_made(owner: Option<u32>) -> Seq<effect::StepV> {
    let made = seq![effect::needed(effect::ChangeV::MakeDir(STATE_BASE@))];
    let owned = match owner {
        Some(u) => made.push(
            effect::tried(effect::ChangeV::Own(STATE_BASE@, u as int, u as int)),
        ),
        None => made,
    };
    owned.push(effect::needed(effect::ChangeV::SetMode(STATE_BASE@, 0o711)))
}

/// Creates the state directory the accounts' apps live under. The web server
/// has to traverse it to reach each account's socket, but must not be able to
/// list who exists.
pub fn prepare_state_dir(owner: Option<u32>) -> (r: Steps)
    ensures
        r@ == state_base_made(owner),
{
    let mut steps = Steps::new();
    steps.need(Change::MakeDir(STATE_BASE.to_string()));
    if let Some(u) = owner {
        steps.try_to(Change::Own(STATE_BASE.to_string(), u, u));
    }
    steps.need(Change::SetMode(STATE_BASE.to_string(), 0o711));
    assert(steps@ =~= state_base_made(owner));
    steps
}

/// What is owned in an entry: directories before what they hold, and never a
/// link, through which the change would land on its target.
pub open spec fn owned_of(e: Entry) -> Seq<Seq<char>>
    decreases e,
{
    match e {
        Entry::Dir { path, entries } => seq![path@] + owned_in(entries@),
        Entry::File { path } => seq![path@],
        Entry::Other { path } => Seq::empty(),
    }
}

pub open spec fn owned_in(es: Seq<Entry>) -> Seq<Seq<char>>
    decreases es,
{
    if es.len() == 0 {
        Seq::empty()
    } else {
        owned_in(es.drop_last()) + owned_of(es.last())
    }
}

fn add_owned(e: &Entry, out: &mut Vec<String>)
    ensures
        text::views(final(out)@) == text::views(old(out)@) + owned_of(*e),
    decreases e,
{
    let ghost before = text::views(out@);
    match e {
        Entry::Dir { path, entries } => {
            out.push(path.clone());
            let ghost own = seq![path@];
            assert(text::views(out@) =~= before + own);
            let mut i: usize = 0;
            assert(before + (own + owned_in(entries@.take(0))) =~= before + own);
            while i < entries.len()
                invariant
                    e matches Entry::Dir { path: p, entries: es } && es == *entries,
                    own == seq![path@],
                    i <= entries@.len(),
                    text::views(out@) == before + (own + owned_in(entries@.take(i as int))),
                decreases entries@.len() - i,
            {
                assert(entries@.take(i + 1).drop_last() =~= entries@.take(i as int));
                assert(entries@.take(i + 1).last() == entries@[i as int]);
                let ghost so_far = owned_in(entries@.take(i as int));
                add_owned(&entries[i], out);
                assert(text::views(out@) =~= before + (own + (so_far + owned_of(
                    entries@[i as int],
                ))));
                i = i + 1;
            }
            assert(entries@.take(i as int) =~= entries@);
        },
        Entry::File { path } => {
            out.push(path.clone());
            assert(text::views(out@) =~= before + owned_of(*e));
        },
        Entry::Other { path } => {
            assert(text::views(out@) =~= before + owned_of(*e));
        },
    }
}

/// Giving these to root.
pub open spec fn given_to_root(paths: Seq<Seq<char>>) -> Seq<effect::StepV> {
    Seq::new(paths.len(), |i: int| effect::needed(effect::ChangeV::Own(paths[i], 0, 0)))
}

/// Gives every file and directory of a tree to root.
pub fn chown_tree(root: &Entry) -> (r: Steps)
    ensures
        r@ == given_to_root(owned_of(*root)),
{
    let mut all: Vec<String> = Vec::new();
    let ghost before = text::views(all@);
    add_owned(root, &mut all);
    assert(before + owned_of(*root) =~= owned_of(*root));
    let ghost ps = owned_of(*root);
    let mut steps = Steps::new();
    let mut i: usize = 0;
    while i < all.len()
        invariant
            ps == text::views(all@),
            i <= all@.len(),
            steps@ == given_to_root(ps.take(i as int)),
        decreases all@.len() - i,
    {
        assert(ps[i as int] == all@[i as int]@);
        steps.need(Change::Own(all[i].clone(), 0, 0));
        assert(steps@ =~= given_to_root(ps.take(i + 1)));
        i = i + 1;
    }
    assert(ps.take(i as int) =~= ps);
    steps
}

/// The modes of a tree: directories can be traversed, and each file has the
/// mode that is expected of it.
pub open spec fn modes_applied(dirs: Seq<Seq<char>>, files: Seq<Seq<char>>) -> Seq<effect::StepV> {
    Seq::new(dirs.len(), |i: int| effect::tried(effect::ChangeV::SetMode(dirs[i], 0o755)))
        + Seq::new(
        files.len(),
        |i: int|
            effect::tried(effect::ChangeV::SetMode(files[i], tree::wanted_mode(files[i]) as int)),
    )
}

fn apply_modes(root: &Entry) -> (r: Steps)
    ensures
        r@ == modes_applied(tree::dirs_of(*root), tree::files_of(*root)),
{
    let dirs = tree::walk_dirs(root);
    let files = tree::walk(root);
    let ghost ds = text::views(dirs@);
    let ghost fs = text::views(files@);
    let ghost first = Seq::new(
        ds.len(),
        |i: int| effect::tried(effect::ChangeV::SetMode(ds[i], 0o755)),
    );
    let ghost second = Seq::new(
        fs.len(),
        |i: int| effect::tried(effect::ChangeV::SetMode(fs[i], tree::wanted_mode(fs[i]) as int)),
    );
    let mut steps = Steps::new();
    let mut i: usize = 0;
    assert(steps@ =~= first.take(0));
    while i < dirs.len()
        invariant
            ds == text::views(dirs@),
            first == Seq::new(
                ds.len(),
                |i: int| effect::tried(effect::ChangeV::SetMode(ds[i], 0o755)),
            ),
            i <= dirs@.len(),
            steps@ == first.take(i as int),
        decreases dirs@.len() - i,
    {
        assert(ds[i as int] == dirs@[i as int]@);
        steps.try_to(Change::SetMode(dirs[i].clone(), 0o755));
        assert(steps@ =~= first.take(i + 1));
        i = i + 1;
    }
    assert(first.take(i as int) =~= first);
    let mut j: usize = 0;
    assert(steps@ =~= first + second.take(0));
    while j < files.len()
        invariant
            fs == text::views(files@),
            second == Seq::new(
                fs.len(),
                |i: int|
                    effect::tried(
                        effect::ChangeV::SetMode(fs[i], tree::wanted_mode(fs[i]) as int),
                    ),
            ),
            j <= files@.len(),
            steps@ == first + second.take(j as int),
        decreases files@.len() - j,
    {
        assert(fs[j as int] == files@[j as int]@);
        steps.try_to(Change::SetMode(files[j].clone(), tree::expected_mode(&files[j])));
        assert(steps@ =~= first + second.take(j + 1));
        j = j + 1;
    }
    assert(second.take(j as int) =~= second);
    steps
}

/// The binary as it has to be: root's, with its setuid bit.
pub open spec fn binary_armed() -> Seq<effect::StepV> {
    let bin = path::under(PLUGIN_PATH@, "bin/core-selynt"@);
    seq![
        effect::needed(effect::ChangeV::Own(bin, 0, 0)),
        effect::needed(effect::ChangeV::SetMode(bin, 0o4755)),
    ]
}

/// How the plugin's tree is reclaimed: everything to root, then the expected
/// modes, and last the binary, since a change of owner clears the setuid bit.
pub struct Reclaim {
    pub owner: Steps,
    pub modes: Steps,
    pub binary: Steps,
}

/// Reclaims ownership of the plugin's tree and applies the expected modes. What
/// cannot be given its mode is counted; `has_binary` says whether the binary is
/// there.
pub fn apply_ownership(root: &Entry, has_binary: bool) -> (r: Reclaim)
    ensures
        r.owner@ == given_to_root(owned_of(*root)),
        r.modes@ == modes_applied(tree::dirs_of(*root), tree::files_of(*root)),
        r.binary@ == (if has_binary {
            binary_armed()
        } else {
            Seq::empty()
        }),
{
    let mut binary = Steps::new();
    if has_binary {
        let bin = path::join(PLUGIN_PATH, "bin/core-selynt");
        binary.need(Change::Own(bin.clone(), 0, 0));
        binary.need(Change::SetMode(bin, 0o4755));
        assert(binary@ =~= binary_armed());
    }
    Reclaim { owner: chown_tree(root), modes: apply_modes(root), binary }
}

/// The error when some modes could not be set: a tree left with wrong modes
/// looks like a working install and is none.
pub fn mode_failure(failed: usize) -> (r: Option<String>)
    ensures
        match r {
            Some(m) => failed > 0 && m@ == text::decimal(failed as nat)
                + " path(s) could not be set to their expected mode"@,
            None => failed == 0,
        },
{
    if failed == 0 {
        return None;
    }
    let mut message = text::show_usize(failed);
    message.append(" path(s) could not be set to their expected mode");
    Some(message)
}

/// Where a setup is.
#[derive(Debug, Clone, Copy, PartialEq, Eq, Structural)]
pub enum SetupStep {
    /// The accounts are recorded.
    Record,
    /// The state directory is created.
    StateDir,
    /// The plugin's tree is given to root.
    Own,
    /// Its files get the modes they should have.
    Modes,
    /// The binary gets its setuid bit, which a change of owner would clear.
    Arm,
    /// The web server is wired up, which needs the state directory.
    WebServer,
    /// The units are installed, which name the binary.
    Units,
    Done,
}

/// What comes after a step of a setup, or the code of the error that ends it. A
/// server without a web server to wire up is still set up.
pub open spec fn after_setup(step: SetupStep, failed: bool) -> Result<SetupStep, Seq<char>> {
    match step {
        SetupStep::Record => if failed {
            Err("write_failed"@)
        } else {
            Ok(SetupStep::StateDir)
        },
        SetupStep::StateDir => if failed {
            Err("state_dir_failed"@)
        } else {
            Ok(SetupStep::Own)
        },
        SetupStep::Own => if failed {
            Err("ownership_failed"@)
        } else {
            Ok(SetupStep::Modes)
        },
        SetupStep::Modes => if failed {
            Err("ownership_failed"@)
        } else {
            Ok(SetupStep::Arm)
        },
        SetupStep::Arm => if failed {
            Err("ownership_failed"@)
        } else {
            Ok(SetupStep::WebServer)
        },
        SetupStep::WebServer => Ok(SetupStep::Units),
        SetupStep::Units => Ok(SetupStep::Done),
        SetupStep::Done => Ok(SetupStep::Done),
    }
}

/// What comes after a step of a setup, given the error that the step ended in.
pub fn setup_step(step: SetupStep, error: Option<String>) -> (r: Result<
    SetupStep,
    (String, String),
>)
    ensures
        match r {
            Ok(next) => after_setup(step, error is Some) == Ok::<SetupStep, Seq<char>>(next),
            Err(e) => error is Some && after_setup(step, true) == Err::<SetupStep, Seq<char>>(e.0@)
                && e.1@ == error->0@,
        },
{
    let (next, code) = match step {
        SetupStep::Record => (SetupStep::StateDir, "write_failed"),
        SetupStep::StateDir => (SetupStep::Own, "state_dir_failed"),
        SetupStep::Own => (SetupStep::Modes, "ownership_failed"),
        SetupStep::Modes => (SetupStep::Arm, "ownership_failed"),
        SetupStep::Arm => (SetupStep::WebServer, "ownership_failed"),
        SetupStep::WebServer => {
            return Ok(SetupStep::Units);
        },
        SetupStep::Units => {
            return Ok(SetupStep::Done);
        },
        SetupStep::Done => {
            return Ok(SetupStep::Done);
        },
    };
    match error {
        Some(e) => Err((code.to_string(), e)),
        None => Ok(next),
    }
}

/// Where a setup is after its steps went like this.
pub open spec fn setup_run(failures: Seq<bool>) -> Result<SetupStep, Seq<char>>
    decreases failures.len(),
{
    if failures.len() == 0 {
        Ok(SetupStep::Record)
    } else {
        match setup_run(failures.drop_last()) {
            Ok(step) => after_setup(step, failures.last()),
            Err(e) => Err(e),
        }
    }
}

proof fn lemma_setup_run(failures: Seq<bool>)
    ensures
        ({
            let n = failures.len();
            let owned = n >= 5 && !failures[0] && !failures[1] && !failures[2] && !failures[3]
                && !failures[4];
            match setup_run(failures) {
                Ok(SetupStep::Record) => n == 0,
                Ok(SetupStep::StateDir) => n == 1 && !failures[0],
                Ok(SetupStep::Own) => n == 2 && !failures[0] && !failures[1],
                Ok(SetupStep::Modes) => n == 3 && !failures[0] && !failures[1] && !failures[2],
                Ok(SetupStep::Arm) => n == 4 && !failures[0] && !failures[1] && !failures[2]
                    && !failures[3],
                Ok(SetupStep::WebServer) => owned,
                Ok(SetupStep::Units) => owned,
                Ok(SetupStep::Done) => owned,
                Err(_) => true,
            }
        }),
    decreases failures.len(),
{
    if failures.len() > 0 {
        lemma_setup_run(failures.drop_last());
    }
}

/// Nothing is told to run the binary before it is in place: the web server is
/// wired up and the units are installed only once the accounts are recorded and
/// the plugin's tree, the binary last, has been reclaimed without a failure.
pub proof fn law_units_wait_for_the_binary(failures: Seq<bool>, i: int)
    requires
        setup_run(failures) == Ok::<SetupStep, Seq<char>>(SetupStep::WebServer) || setup_run(
            failures,
        ) == Ok::<SetupStep, Seq<char>>(SetupStep::Units) || setup_run(failures) == Ok::<
            SetupStep,
            Seq<char>,
        >(SetupStep::Done),
        0 <= i < 5,
    ensures
        failures.len() >= 5,
        !failures[i],
{
    lemma_setup_run(failures);
}

/// What is said of the web server: what was done, or why nothing was. A server
/// without one still records its accounts.
pub open spec fn ols_view(ols: Result<Outcome, (String, String)>) -> JsonV {
    JsonV::Obj(
        match ols {
            Ok(o) => seq![
                ("ok"@, JsonV::Bool(true)),
                ("web_user"@, output::optional_text_view(command::opt(o.web_user))),
                ("vhosts_rebuilt"@, JsonV::Bool(o.vhosts_rebuilt)),
            ],
            Err(e) => seq![
                ("ok"@, JsonV::Bool(false)),
                ("error"@, JsonV::Str(e.0@)),
                ("message"@, JsonV::Str(e.1@)),
            ],
        },
    )
}

/// What a setup says when it is done.
pub open spec fn setup_view(
    da_user: Seq<char>,
    da_uid: Option<u32>,
    cgi_user: Option<Seq<char>>,
    ols: Result<Outcome, (String, String)>,
    units: nat,
) -> Seq<(Seq<char>, JsonV)> {
    seq![
        ("da_user"@, JsonV::Str(da_user)),
        (
            "da_uid"@,
            match da_uid {
                Some(u) => JsonV::Num(u as nat),
                None => JsonV::Null,
            },
        ),
        ("cgi_user"@, output::optional_text_view(cgi_user)),
        ("ols"@, ols_view(ols)),
        ("units"@, JsonV::Num(units)),
    ]
}

fn optional_string(s: &Option<String>) -> (r: Json)
    ensures
        r@ == output::optional_text_view(command::opt(*s)),
{
    match s {
        Some(t) => output::string(t),
        None => Json::Null,
    }
}

fn ols_json(ols: &Result<Outcome, (String, String)>) -> (r: Json)
    ensures
        r@ == ols_view(*ols),
{
    let mut m = Members::new();
    match ols {
        Ok(o) => {
            m.put_bool("ok", true);
            m.put("web_user", optional_string(&o.web_user));
            m.put_bool("vhosts_rebuilt", o.vhosts_rebuilt);
        },
        Err(e) => {
            m.put_bool("ok", false);
            m.put_text("error", &e.0);
            m.put_text("message", &e.1);
        },
    }
    assert(m@ =~= ols_view(*ols)->Obj_0);
    m.object()
}

/// What a setup says when it is done: the accounts, the web server, and how
/// many units were installed.
pub fn run(ids: &Identities, ols: &Result<Outcome, (String, String)>, units: usize) -> (r: Members)
    ensures
        r@ == setup_view(ids.da_user@, ids.da_uid, command::opt(ids.cgi_user), *ols, units as nat),
{
    let uid = match ids.da_uid {
        Some(u) => Some(u as u64),
        None => None,
    };
    let mut m = Members::new();
    m.put_text("da_user", &ids.da_user);
    m.put_optional("da_uid", uid);
    m.put("cgi_user", optional_string(&ids.cgi_user));
    m.put("ols", ols_json(ols));
    m.put_number("units", units as u64);
    assert(m@ =~= setup_view(
        ids.da_user@,
        ids.da_uid,
        command::opt(ids.cgi_user),
        *ols,
        units as nat,
    ));
    m
}

/// Answers a setup: what it says, or the error that ended it.
pub fn cmd_setup(outcome: Result<Members, (String, String)>, debug: Option<Json>) -> (r: Response)
    ensures
        r@ == (match outcome {
            Ok(m) => output::accepted(output::debugged(m@, output::debug_view(debug))),
            Err(e) => output::broken(e.0@, e.1@),
        }),
{
    match outcome {
        Ok(m) => output::success(output::with_debug(m, debug)),
        Err(e) => output::system_error(&e.0, &e.1),
    }
}

/// The handler of plugin pages is a process of DirectAdmin's by its command line,
/// that runs as an account other than root.
pub proof fn law_handlers_run_as_an_account(ps: Seq<Process>, p: Process, more: Seq<Process>)
    requires
        forall|i: int| 0 <= i < ps.len() ==> !is_handler(#[trigger] ps[i]),
    ensures
        handler_account(ps) is None,
        text::occurs(p.cmdline@, "directadmin"@) && text::occurs(p.cmdline@, "legacy-handler"@) && (
        p.uid matches Some(u) && u != 0) && p.account is Some ==> handler_account(ps.push(p) + more)
            == Some(p.account->0@),
        is_handler(p) ==> text::occurs(p.cmdline@, "legacy-handler"@) && p.uid is Some && p.uid->0
            != 0 && p.account is Some && text::occurs(p.cmdline@, "directadmin"@),
    decreases ps.len(),
{
    let all = ps.push(p) + more;
    if ps.len() == 0 {
        assert(all[0] == p);
    } else {
        let rest = ps.skip(1);
        assert forall|i: int| 0 <= i < rest.len() implies !is_handler(#[trigger] rest[i]) by {
            assert(rest[i] == ps[i + 1]);
        }
        assert(!is_handler(ps[0]));
        assert(all[0] == ps[0]);
        assert(all.skip(1) =~= rest.push(p) + more);
        law_handlers_run_as_an_account(rest, p, more);
    }
}

/// A setting of the plugin is one line in a file of its name, for everybody to read.
pub proof fn law_settings_are_one_line(name: Seq<char>, value: Seq<char>)
    ensures
        ({
            let etc = path::under("/usr/local/directadmin/plugins/selynt_panel"@, "etc"@);
            let file = path::under(etc, name);
            etc_written(name, value) == seq![
                effect::StepV { change: effect::ChangeV::MakeDir(etc), must: true },
                effect::StepV { change: effect::ChangeV::Write(file, value + "\n"@), must: true },
                effect::StepV { change: effect::ChangeV::SetMode(file, 420), must: true },
            ]
        }),
{
}

/// The accounts are recorded each under its name, the handler's where there is one.
pub proof fn law_accounts_are_recorded_by_name(da_user: Seq<char>, uid: u32, cgi: Seq<char>)
    ensures
        accounts_recorded(da_user, Some(uid), None) == etc_written("da_user"@, da_user)
            + etc_written("da_uid"@, text::decimal(uid as nat)),
        accounts_recorded(da_user, Some(uid), Some(cgi)) == etc_written("da_user"@, da_user)
            + etc_written("da_uid"@, text::decimal(uid as nat)) + etc_written("da_cgi_user"@, cgi),
        accounts_recorded(da_user, None, None) == etc_written("da_user"@, da_user) + etc_written(
            "da_uid"@,
            Seq::empty(),
        ),
{
    let a = etc_written("da_user"@, da_user) + etc_written("da_uid"@, text::decimal(uid as nat));
    let b = etc_written("da_user"@, da_user) + etc_written("da_uid"@, Seq::empty());
    assert(a + Seq::<effect::StepV>::empty() =~= a);
    assert(b + Seq::<effect::StepV>::empty() =~= b);
}

/// The state directory is the panel's, and others may go through it but not list it.
pub proof fn law_state_directory_can_be_passed_through(uid: u32)
    ensures
        state_base_made(None) == seq![
            effect::StepV {
                change: effect::ChangeV::MakeDir("/var/lib/selynt_panel"@),
                must: true,
            },
            effect::StepV {
                change: effect::ChangeV::SetMode("/var/lib/selynt_panel"@, 457),
                must: true,
            },
        ],
        ({
            let r = state_base_made(Some(uid));
            &&& r.len() == 3
            &&& r[0] == state_base_made(None)[0] && r[2] == state_base_made(None)[1]
            &&& r[1].change == effect::ChangeV::Own(
                "/var/lib/selynt_panel"@,
                uid as int,
                uid as int,
            )
        }),
{
}

/// Everything in a tree is given to root but for links: the directories and the
/// files, and nothing else.
pub proof fn law_whole_trees_are_owned(es: Seq<Entry>, e: Entry)
    ensures
        owned_in(Seq::empty()).len() == 0,
        e matches Entry::File { path } ==> owned_in(es.push(e)) == owned_in(es).push(path@),
        e matches Entry::Dir { path, entries } ==> owned_in(es.push(e)) == owned_in(es) + (seq![
            path@,
        ] + owned_in(entries@)),
        e is Other ==> owned_in(es.push(e)) == owned_in(es),
{
    reveal_with_fuel(owned_in, 2);
    reveal_with_fuel(owned_of, 2);
    assert(es.push(e).drop_last() =~= es);
    match e {
        Entry::File { path } => {
            assert(owned_in(es) + seq![path@] =~= owned_in(es).push(path@));
        },
        Entry::Dir { path, entries } => {},
        Entry::Other { path } => {
            assert(owned_in(es) + Seq::<Seq<char>>::empty() =~= owned_in(es));
        },
    }
}

/// What is given to root is given to its user and its group, and a file that cannot
/// be is a failure.
pub proof fn law_owned_means_roots(paths: Seq<Seq<char>>, i: int)
    requires
        0 <= i < paths.len(),
    ensures
        given_to_root(paths).len() == paths.len(),
        given_to_root(paths)[i].must,
        given_to_root(paths)[i].change == effect::ChangeV::Own(paths[i], 0, 0),
{
}

/// Directories can be traversed, files get the mode that is expected of each.
pub proof fn law_modes_follow_the_tree(dirs: Seq<Seq<char>>, files: Seq<Seq<char>>, i: int)
    ensures
        modes_applied(dirs, files).len() == dirs.len() + files.len(),
        0 <= i < dirs.len() ==> modes_applied(dirs, files)[i].change == effect::ChangeV::SetMode(
            dirs[i],
            493,
        ),
        0 <= i < files.len() ==> modes_applied(dirs, files)[dirs.len() + i].change
            == effect::ChangeV::SetMode(files[i], tree::wanted_mode(files[i]) as int),
{
}

/// The binary is root's before it gets its setuid bit, and both have to succeed.
pub proof fn law_binary_is_armed_last()
    ensures
        ({
            let bin = path::under(
                "/usr/local/directadmin/plugins/selynt_panel"@,
                "bin/core-selynt"@,
            );
            binary_armed() == seq![
                effect::StepV { change: effect::ChangeV::Own(bin, 0, 0), must: true },
                effect::StepV { change: effect::ChangeV::SetMode(bin, 2541), must: true },
            ]
        }),
{
}

/// A setup goes from step to step, and ends at the first of the needed ones that
/// fails, each with its code. The web server and the units are not needed.
pub proof fn law_setup_ends_at_the_first_failure(failed: bool)
    ensures
        after_setup(SetupStep::Record, false) == Ok::<SetupStep, Seq<char>>(SetupStep::StateDir),
        after_setup(SetupStep::StateDir, false) == Ok::<SetupStep, Seq<char>>(SetupStep::Own),
        after_setup(SetupStep::Own, false) == Ok::<SetupStep, Seq<char>>(SetupStep::Modes),
        after_setup(SetupStep::Modes, false) == Ok::<SetupStep, Seq<char>>(SetupStep::Arm),
        after_setup(SetupStep::Arm, false) == Ok::<SetupStep, Seq<char>>(SetupStep::WebServer),
        after_setup(SetupStep::WebServer, failed) == Ok::<SetupStep, Seq<char>>(SetupStep::Units),
        after_setup(SetupStep::Units, failed) == Ok::<SetupStep, Seq<char>>(SetupStep::Done),
        after_setup(SetupStep::Record, true) == Err::<SetupStep, Seq<char>>("write_failed"@),
        after_setup(SetupStep::StateDir, true) == Err::<SetupStep, Seq<char>>("state_dir_failed"@),
        after_setup(SetupStep::Own, true) == Err::<SetupStep, Seq<char>>("ownership_failed"@),
        after_setup(SetupStep::Modes, true) == Err::<SetupStep, Seq<char>>("ownership_failed"@),
        after_setup(SetupStep::Arm, true) == Err::<SetupStep, Seq<char>>("ownership_failed"@),
{
}

/// What a setup says when it is done: the accounts that it recorded, what became of
/// the web server, and how many units it installed.
pub proof fn law_setups_say_what_was_done(
    da_user: Seq<char>,
    uid: u32,
    cgi: Seq<char>,
    ols: Result<Outcome, (String, String)>,
    units: nat,
)
    ensures
        setup_view(da_user, Some(uid), Some(cgi), ols, units) == seq![
            ("da_user"@, JsonV::Str(da_user)),
            ("da_uid"@, JsonV::Num(uid as nat)),
            ("cgi_user"@, JsonV::Str(cgi)),
            ("ols"@, ols_view(ols)),
            ("units"@, JsonV::Num(units)),
        ],
        setup_view(da_user, None, None, ols, units)[1] == ("da_uid"@, JsonV::Null),
        setup_view(da_user, None, None, ols, units)[2] == ("cgi_user"@, JsonV::Null),
        ols_view(ols) matches JsonV::Obj(ms) && ms.len() == 3 && ms[0] == (
            "ok"@,
            JsonV::Bool(ols is Ok),
        ) && (ols matches Err(e) ==> ms[1] == ("error"@, JsonV::Str(e.0@)) && ms[2] == (
            "message"@,
            JsonV::Str(e.1@),
        )) && (ols matches Ok(o) ==> ms[2] == ("vhosts_rebuilt"@, JsonV::Bool(o.vhosts_rebuilt))),
{
}

} // verus!
