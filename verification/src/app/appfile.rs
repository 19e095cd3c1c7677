//! Writes to an app's `.app` metadata, performed while still root.
//!
//! The `.app` file is the only thing in the state directory that says what to
//! execute — `cwd`, `entry`, `type`. That is why root writes it and keeps it:
//! an app that shares its account's uid could otherwise write one of its own
//! and have the panel launch it.

use vstd::prelude::*;

use crate::app::validate;
use crate::app::validate::{AddArgs, CwdError};
use crate::effect;
use crate::effect::{Change, Steps};
use crate::runtime::kind;
use crate::sys::kv;
use crate::sys::state;
use crate::text;

verus! {

/// Mode of `.app` files: readable by the account, writable only by root. The
/// panel reads them after the privilege drop, so they cannot be 0600.
pub const APP_FILE_MODE: u32 = 0o640;

pub open spec fn app_file(state_dir: Seq<char>, name: Seq<char>) -> Seq<char> {
    state::run_file(state_dir, name, ".app"@)
}

/// Path of an app's metadata file.
pub fn app_file_path(state_dir: &str, name: &str) -> (r: String)
    ensures
        r@ == app_file(state_dir@, name@),
{
    state::run_file_path(state_dir, name, ".app")
}

/// Writing a metadata file: root's own, for the account's group to read.
pub open spec fn root_write(path: Seq<char>, content: Seq<char>, gid: int) -> Seq<effect::StepV> {
    seq![
        effect::needed(effect::ChangeV::Write(path, content)),
        effect::needed(effect::ChangeV::Own(path, 0, gid)),
        effect::needed(effect::ChangeV::SetMode(path, APP_FILE_MODE as int)),
    ]
}

/// Writes an app's metadata as root, leaving it unwritable by the account.
pub fn write_as_root(path: &str, content: &str, gid: u32) -> (r: Steps)
    ensures
        r@ == root_write(path@, content@, gid as int),
{
    let mut steps = Steps::new();
    steps.need(Change::Write(path.to_string(), content.to_string()));
    steps.need(Change::Own(path.to_string(), 0, gid));
    steps.need(Change::SetMode(path.to_string(), APP_FILE_MODE));
    assert(steps@ =~= root_write(path@, content@, gid as int));
    steps
}

/// Writing a metadata file that is not there yet.
pub open spec fn root_create(path: Seq<char>, content: Seq<char>, gid: int) -> Seq<effect::StepV> {
    seq![effect::needed(effect::ChangeV::Create(path))] + root_write(path, content, gid)
}

/// Creates an app's metadata as root, where none stands.
pub fn create_as_root(path: &str, content: &str, gid: u32) -> (r: Steps)
    ensures
        r@ == root_create(path@, content@, gid as int),
{
    let mut steps = Steps::new();
    steps.need(Change::Create(path.to_string()));
    steps.need(Change::Write(path.to_string(), content.to_string()));
    steps.need(Change::Own(path.to_string(), 0, gid));
    steps.need(Change::SetMode(path.to_string(), APP_FILE_MODE));
    assert(steps@ =~= root_create(path@, content@, gid as int));
    steps
}

// ---------------------------------------------------------------------------
// Changing one key
// ---------------------------------------------------------------------------

/// Whether a line states this key.
pub open spec fn states(line: Seq<char>, key: Seq<char>) -> bool {
    kv::pair_of(line) matches Some((k, _v)) && k == key
}

/// The line that states a pair.
pub open spec fn pair_line(key: Seq<char>, value: Seq<char>) -> Seq<char> {
    key + "="@ + value
}

pub open spec fn any_states(ls: Seq<Seq<char>>, key: Seq<char>) -> bool {
    exists|i: int| 0 <= i < ls.len() && states(#[trigger] ls[i], key)
}

/// The lines with every statement of the key made to state the new value.
pub open spec fn restated(
    ls: Seq<Seq<char>>,
    key: Seq<char>,
    value: Seq<char>,
) -> Seq<Seq<char>> {
    Seq::new(
        ls.len(),
        |i: int|
            if states(ls[i], key) {
                pair_line(key, value)
            } else {
                ls[i]
            },
    )
}

/// The lines with the key stated: where it was stated before, or else at the
/// end.
pub open spec fn rewritten_lines(
    ls: Seq<Seq<char>>,
    key: Seq<char>,
    value: Seq<char>,
) -> Seq<Seq<char>> {
    if any_states(ls, key) {
        restated(ls, key, value)
    } else {
        restated(ls, key, value).push(pair_line(key, value))
    }
}

pub open spec fn rewritten(content: Seq<char>, key: Seq<char>, value: Seq<char>) -> Seq<char> {
    text::closed_lines(rewritten_lines(text::lines(content), key, value))
}

fn line_states(line: &str, key: &str) -> (r: bool)
    ensures
        r == states(line@, key@),
{
    match kv::split_pair(line) {
        Some((k, _v)) => text::same(&k, key),
        None => false,
    }
}

fn make_pair_line(key: &str, value: &str) -> (r: String)
    ensures
        r@ == pair_line(key@, value@),
{
    let mut out = key.to_string();
    out.append("=");
    out.append(value);
    out
}

/// Rewrites one `key=value` in the content of an `.app` file, appending it when
/// absent. `None` when the file could not be read.
pub fn rewrite_key(content: Option<&str>, key: &str, value: &str) -> (r: Option<String>)
    ensures
        r is Some <==> content is Some,
        r matches Some(t) ==> t@ == rewritten(content->0@, key@, value@),
{
    let current = match content {
        Some(c) => c,
        None => {
            return None;
        },
    };
    let ls = text::split_lines(current);
    let ghost vs = text::views(ls@);
    let mut out: Vec<String> = Vec::new();
    let mut found = false;
    let mut i: usize = 0;
    while i < ls.len()
        invariant
            vs == text::views(ls@),
            i <= ls@.len(),
            out@.len() == i,
            found == exists|j: int| 0 <= j < i && states(#[trigger] vs[j], key@),
            forall|j: int|
                0 <= j < i ==> (#[trigger] out@[j])@ == restated(vs, key@, value@)[j],
        decreases ls@.len() - i,
    {
        assert(vs[i as int] == ls@[i as int]@);
        if line_states(&ls[i], key) {
            out.push(make_pair_line(key, value));
            found = true;
        } else {
            out.push(ls[i].clone());
        }
        i = i + 1;
    }
    if !found {
        out.push(make_pair_line(key, value));
    }
    assert(text::views(out@) =~= rewritten_lines(vs, key@, value@));
    Some(text::close_lines(&out))
}

/// The lines without those that state the key.
pub open spec fn without_key(ls: Seq<Seq<char>>, key: Seq<char>) -> Seq<Seq<char>>
    decreases ls.len(),
{
    if ls.len() == 0 {
        Seq::empty()
    } else if states(ls.last(), key) {
        without_key(ls.drop_last(), key)
    } else {
        without_key(ls.drop_last(), key).push(ls.last())
    }
}

/// Lines that state `memory_max` as this many bytes, or not at all for none.
pub open spec fn capped_lines(ls: Seq<Seq<char>>, bytes: nat) -> Seq<Seq<char>> {
    let rest = without_key(ls, "memory_max"@);
    if bytes > 0 {
        rest.push(pair_line("memory_max"@, text::decimal(bytes)))
    } else {
        rest
    }
}

/// The content of an `.app` file with this memory cap; 0 clears the cap.
pub fn with_memory_max(content: &str, bytes: u64) -> (r: String)
    ensures
        r@ == text::closed_lines(capped_lines(text::lines(content@), bytes as nat)),
{
    let ls = text::split_lines(content);
    let ghost vs = text::views(ls@);
    let mut out: Vec<String> = Vec::new();
    let mut i: usize = 0;
    assert(text::views(out@) =~= without_key(vs.take(0), "memory_max"@));
    while i < ls.len()
        invariant
            vs == text::views(ls@),
            i <= ls@.len(),
            text::views(out@) == without_key(vs.take(i as int), "memory_max"@),
        decreases ls@.len() - i,
    {
        let ghost before = text::views(out@);
        assert(vs.take(i + 1).drop_last() =~= vs.take(i as int));
        assert(vs.take(i + 1).last() == ls@[i as int]@);
        if !line_states(&ls[i], "memory_max") {
            let line = ls[i].clone();
            out.push(line);
            assert(text::views(out@) =~= before.push(line@));
        }
        i = i + 1;
    }
    assert(vs.take(i as int) =~= vs);
    if bytes > 0 {
        let ghost before = text::views(out@);
        let line = make_pair_line("memory_max", &text::show_u64(bytes));
        out.push(line);
        assert(text::views(out@) =~= before.push(line@));
    }
    text::close_lines(&out)
}

/// The refusal to change an app that is not there.
pub open spec fn missing_app(name: Seq<char>) -> (Seq<char>, Seq<char>) {
    ("app_not_found"@, "app '"@ + name + "' not found"@)
}

pub fn missing_app_error(name: &str) -> (r: (String, String))
    ensures
        (r.0@, r.1@) == missing_app(name@),
{
    let mut message = "app '".to_string();
    message.append(name);
    message.append("' not found");
    ("app_not_found".to_string(), message)
}

/// The error when an app's file could not be written.
pub fn write_failed(error: String) -> (r: (String, String))
    ensures
        r.0@ == "write_failed"@,
        r.1@ == error@,
{
    ("write_failed".to_string(), error)
}

/// Why one key of an `.app` cannot be changed, as a code and a message.
pub open spec fn update_error(
    name: Seq<char>,
    content: Option<Seq<char>>,
    key: Seq<char>,
    value: Seq<char>,
) -> Option<(Seq<char>, Seq<char>)> {
    if content is None {
        Some(missing_app(name))
    } else if !validate::is_meta_value(value) {
        Some(validate::bad_meta(key))
    } else {
        None
    }
}

/// Updates one key of an existing `.app`, as root. The value is checked before
/// it is written: one that leaves its line would state other keys.
pub fn update_key(
    state_dir: &str,
    name: &str,
    content: Option<&str>,
    key: &str,
    value: &str,
    gid: u32,
) -> (r: Result<Steps, (String, String)>)
    ensures
        match r {
            Ok(steps) => {
                &&& update_error(name@, state::opt_view(content), key@, value@) is None
                &&& steps@ == root_write(
                    app_file(state_dir@, name@),
                    rewritten(content->0@, key@, value@),
                    gid as int,
                )
            },
            Err(e) => update_error(name@, state::opt_view(content), key@, value@) == Some(
                (e.0@, e.1@),
            ),
        },
{
    let path = app_file_path(state_dir, name);
    match rewrite_key(content, key, value) {
        Some(c) => {
            if !validate::validate_meta_value(value) {
                return Err(validate::meta_error(key));
            }
            Ok(write_as_root(&path, &c, gid))
        },
        None => Err(missing_app_error(name)),
    }
}

// ---------------------------------------------------------------------------
// Registering an app
// ---------------------------------------------------------------------------

pub open spec fn or_nothing(s: Option<&str>) -> Seq<char> {
    match s {
        Some(t) => t@,
        None => Seq::empty(),
    }
}

/// The lines of a new app's file.
pub open spec fn new_app_lines(args: AddArgs<'_>, cwd: Seq<char>, created_at: nat) -> Seq<Seq<char>> {
    seq![
        pair_line("type"@, args.app_type@),
        pair_line("cwd"@, cwd),
        pair_line("entry"@, args.entry@),
        pair_line("host"@, args.host@),
        pair_line("domain"@, or_nothing(args.domain)),
        pair_line("subdomain"@, or_nothing(args.subdomain)),
        pair_line("node_version"@, or_nothing(args.node_version)),
        pair_line("created_at"@, text::decimal(created_at)),
    ]
}

fn given(s: Option<&str>) -> (r: &str)
    ensures
        r@ == or_nothing(s),
{
    match s {
        Some(t) => t,
        None => {
            proof {
                reveal_strlit("");
                assert(""@ =~= Seq::<char>::empty());
            }
            ""
        },
    }
}

/// The content of a new app's file.
pub fn new_app_content(args: &AddArgs<'_>, cwd: &str, created_at: u64) -> (r: String)
    ensures
        r@ == text::closed_lines(new_app_lines(*args, cwd@, created_at as nat)),
{
    let mut ls: Vec<String> = Vec::new();
    ls.push(make_pair_line("type", args.app_type));
    ls.push(make_pair_line("cwd", cwd));
    ls.push(make_pair_line("entry", args.entry));
    ls.push(make_pair_line("host", args.host));
    ls.push(make_pair_line("domain", given(args.domain)));
    ls.push(make_pair_line("subdomain", given(args.subdomain)));
    ls.push(make_pair_line("node_version", given(args.node_version)));
    ls.push(make_pair_line("created_at", &text::show_u64(created_at)));
    assert(text::views(ls@) =~= new_app_lines(*args, cwd@, created_at as nat));
    text::close_lines(&ls)
}

/// Why an app cannot be registered. What is wrong with an argument is a code and
/// a message.
pub enum AddRefusal {
    Exists,
    NoHome,
    Argument(String, String),
    Cwd(CwdError),
}

pub enum AddRefusalV {
    Exists,
    NoHome,
    Argument(Seq<char>, Seq<char>),
    Cwd(validate::CwdVerdict),
}

pub open spec fn refusal_view(e: AddRefusal) -> AddRefusalV {
    match e {
        AddRefusal::Exists => AddRefusalV::Exists,
        AddRefusal::NoHome => AddRefusalV::NoHome,
        AddRefusal::Argument(code, message) => AddRefusalV::Argument(code@, message@),
        AddRefusal::Cwd(c) => AddRefusalV::Cwd(validate::verdict_view(Err(c))),
    }
}

/// The working directory of a new app: the one that was asked for, or the
/// default one in the account's home.
pub open spec fn new_app_cwd(args: AddArgs<'_>, home: Seq<char>) -> Seq<char> {
    match args.cwd {
        Some(c) => c@,
        None => validate::standard_cwd(home, args.host@),
    }
}

/// What registering an app comes to: the refusal, or the working directory.
pub open spec fn registration(
    args: AddArgs<'_>,
    exists: bool,
    home: Option<Seq<char>>,
    verdict: validate::CwdVerdict,
) -> Result<Seq<char>, AddRefusalV> {
    if exists {
        Err(AddRefusalV::Exists)
    } else {
        match home {
            None => Err(AddRefusalV::NoHome),
            Some(h) => match validate::argument_error(args, new_app_cwd(args, h)) {
                Some((code, message)) => Err(AddRefusalV::Argument(code, message)),
                None => match verdict {
                    validate::CwdVerdict::Inside => Ok(new_app_cwd(args, h)),
                    _ => Err(AddRefusalV::Cwd(verdict)),
                },
            },
        }
    }
}

/// The checks of `add` come before an app is registered: one is registered
/// exactly when its file is not there, its account has a home, and nothing is
/// wrong with what was asked for.
pub proof fn law_only_checked_apps_are_registered(
    args: AddArgs<'_>,
    exists: bool,
    home: Option<Seq<char>>,
    verdict: validate::CwdVerdict,
)
    requires
        home matches Some(h) ==> h.len() > 0,
    ensures
        registration(args, exists, home, verdict) is Ok <==> !exists && home is Some
            && validate::complaint(args, new_app_cwd(args, home->0), home, verdict) is None,
        registration(args, exists, home, verdict) matches Ok(cwd) ==> cwd == new_app_cwd(
            args,
            home->0,
        ),
{
}

/// The working directory of a new app, before anything is written.
pub fn resolve_cwd(args: &AddArgs<'_>, home: &str) -> (r: String)
    ensures
        r@ == new_app_cwd(*args, home@),
{
    match args.cwd {
        Some(c) => c.to_string(),
        None => validate::default_cwd(home, args.host),
    }
}

/// Creates an app's `.app` from the arguments of `add`, as root.
///
/// `exists` says whether the file is there already, `home` is the account's
/// home directory, `home_real` and `resolved` are what it and the ancestors of
/// the working directory resolve to (see [`validate::check_cwd_within_home`]).
/// Everything is checked before anything is written: what is refused must not
/// leave an app behind. The file is created where none stands, which is what
/// makes two additions of the same name at once safe.
pub fn create_for_add(
    state_dir: &str,
    args: &AddArgs<'_>,
    gid: u32,
    created_at: u64,
    exists: bool,
    home: Option<&str>,
    home_real: Option<&str>,
    resolved: &Vec<Option<String>>,
) -> (r: Result<Steps, AddRefusal>)
    requires
        home matches Some(h) ==> resolved@.len() == validate::ancestors(
            new_app_cwd(*args, h@),
        ).len(),
    ensures
        ({
            let plan = registration(
                *args,
                exists,
                state::opt_view(home),
                validate::verdict(
                    new_app_cwd(*args, home->0@),
                    state::opt_view(home_real),
                    validate::resolutions(resolved@),
                ),
            );
            match r {
                Ok(steps) => plan matches Ok(cwd) && steps@ == root_create(
                    app_file(state_dir@, args.name@),
                    text::closed_lines(new_app_lines(*args, cwd, created_at as nat)),
                    gid as int,
                ),
                Err(e) => plan == Err::<Seq<char>, AddRefusalV>(refusal_view(e)),
            }
        }),
{
    if exists {
        return Err(AddRefusal::Exists);
    }
    let h = match home {
        Some(h) => h,
        None => {
            return Err(AddRefusal::NoHome);
        },
    };
    let cwd = resolve_cwd(args, h);
    if let Err((code, message)) = validate::check_arguments(args, &cwd) {
        return Err(AddRefusal::Argument(code, message));
    }
    match validate::check_cwd_within_home(&cwd, home_real, resolved) {
        Err(e) => Err(AddRefusal::Cwd(e)),
        Ok(()) => {
            let path = app_file_path(state_dir, args.name);
            let content = new_app_content(args, &cwd, created_at);
            Ok(create_as_root(&path, &content, gid))
        },
    }
}

/// Why an app cannot be registered, as a code and a message.
pub open spec fn add_refusal_text(
    e: AddRefusalV,
    name: Seq<char>,
    username: Seq<char>,
) -> (Seq<char>, Seq<char>) {
    match e {
        AddRefusalV::Exists => ("app_exists"@, "app '"@ + name + "' already exists"@),
        AddRefusalV::NoHome => (
            "invalid_cwd"@,
            "could not resolve home directory for '"@ + username + "'"@,
        ),
        AddRefusalV::Argument(code, message) => (code, message),
        AddRefusalV::Cwd(v) => validate::refusal_text(v),
    }
}

impl AddRefusal {
    pub fn message(&self, name: &str, username: &str) -> (r: (String, String))
        ensures
            (r.0@, r.1@) == add_refusal_text(refusal_view(*self), name@, username@),
    {
        match self {
            AddRefusal::Exists => {
                let mut message = "app '".to_string();
                message.append(name);
                message.append("' already exists");
                ("app_exists".to_string(), message)
            },
            AddRefusal::NoHome => {
                let mut message = "could not resolve home directory for '".to_string();
                message.append(username);
                message.append("'");
                ("invalid_cwd".to_string(), message)
            },
            AddRefusal::Argument(code, message) => (code.clone(), message.clone()),
            AddRefusal::Cwd(e) => e.message(),
        }
    }
}

/// What a registration that was broken off comes to, as a code and a message:
/// `done` steps were made, and the next one failed because the file stands
/// already (`taken`) or with this error.
pub open spec fn broken_off(
    name: Seq<char>,
    username: Seq<char>,
    done: nat,
    taken: bool,
    error: Seq<char>,
) -> (Seq<char>, Seq<char>) {
    if done == 0 && taken {
        add_refusal_text(AddRefusalV::Exists, name, username)
    } else {
        ("write_failed"@, error)
    }
}

/// The end of a registration that was broken off.
pub struct BrokenOff {
    pub cleanup: Steps,
    pub error: (String, String),
}

/// Ends a registration that was broken off. A file that it created is removed
/// again; one that somebody else created is left alone.
pub fn create_failed(
    state_dir: &str,
    name: &str,
    username: &str,
    done: usize,
    taken: bool,
    error: String,
) -> (r: BrokenOff)
    ensures
        r.cleanup@ == (if done > 0 {
            effect::removals(seq![app_file(state_dir@, name@)])
        } else {
            Seq::empty()
        }),
        (r.error.0@, r.error.1@) == broken_off(name@, username@, done as nat, taken, error@),
{
    let mut cleanup = Steps::new();
    if done > 0 {
        cleanup.try_remove(app_file_path(state_dir, name));
        assert(cleanup@ =~= effect::removals(seq![app_file(state_dir@, name@)]));
    }
    let error = if done == 0 && taken {
        AddRefusal::Exists.message(name, username)
    } else {
        write_failed(error)
    };
    BrokenOff { cleanup, error }
}

// ---------------------------------------------------------------------------
// Two registrations at once
// ---------------------------------------------------------------------------

/// What the files hold, by path, after a step of a registration. Owners and
/// modes do not change it.
pub open spec fn held_after(
    files: Map<Seq<char>, Seq<char>>,
    change: effect::ChangeV,
) -> Map<Seq<char>, Seq<char>> {
    match change {
        effect::ChangeV::Create(p) => files.insert(p, Seq::empty()),
        effect::ChangeV::Write(p, content) => files.insert(p, content),
        _ => files,
    }
}

/// How far a registration has come: how many of its steps were made, and
/// whether the next one failed because its file stands already.
pub struct Attempt {
    pub done: nat,
    pub taken: bool,
}

impl Attempt {
    pub open spec fn is_over(self, steps: Seq<effect::StepV>) -> bool {
        self.taken || self.done >= steps.len()
    }

    /// What it comes to once it is over.
    pub open spec fn outcome(self, name: Seq<char>, username: Seq<char>) -> Result<
        (),
        (Seq<char>, Seq<char>),
    > {
        if self.taken {
            Err(broken_off(name, username, self.done, true, Seq::empty()))
        } else {
            Ok(())
        }
    }
}

/// One more step of a registration: what the files hold then, and how far it has
/// come.
pub open spec fn turn(
    files: Map<Seq<char>, Seq<char>>,
    steps: Seq<effect::StepV>,
    a: Attempt,
) -> (Map<Seq<char>, Seq<char>>, Attempt) {
    if a.is_over(steps) {
        (files, a)
    } else {
        match steps[a.done as int].change {
            effect::ChangeV::Create(p) if files.contains_key(p) => (
                files,
                Attempt { taken: true, ..a },
            ),
            change => (held_after(files, change), Attempt { done: a.done + 1, ..a }),
        }
    }
}

/// Two registrations under way, and what the files hold.
pub struct Race {
    pub files: Map<Seq<char>, Seq<char>>,
    pub one: Attempt,
    pub other: Attempt,
}

/// Two registrations that take turns: `turns` says, of each step, whether it is
/// the first one's.
pub open spec fn race(
    files: Map<Seq<char>, Seq<char>>,
    one: Seq<effect::StepV>,
    other: Seq<effect::StepV>,
    turns: Seq<bool>,
) -> Race
    decreases turns.len(),
{
    if turns.len() == 0 {
        let start = Attempt { done: 0, taken: false };
        Race { files, one: start, other: start }
    } else {
        let r = race(files, one, other, turns.drop_last());
        if turns.last() {
            let (files, one) = turn(r.files, one, r.one);
            Race { files, one, ..r }
        } else {
            let (files, other) = turn(r.files, other, r.other);
            Race { files, other, ..r }
        }
    }
}

/// What holds of the one that is ahead, and of the one that is not.
spec fn leads(
    files: Map<Seq<char>, Seq<char>>,
    path: Seq<char>,
    content: Seq<char>,
    ahead: Attempt,
    behind: Attempt,
) -> bool {
    &&& !ahead.taken
    &&& 1 <= ahead.done <= 4
    &&& behind.done == 0
    &&& files.contains_key(path)
    &&& ahead.done >= 2 ==> files[path] == content
}

proof fn lemma_race(
    files: Map<Seq<char>, Seq<char>>,
    path: Seq<char>,
    contents: (Seq<char>, Seq<char>),
    gids: (int, int),
    turns: Seq<bool>,
)
    requires
        !files.contains_key(path),
    ensures
        ({
            let r = race(
                files,
                root_create(path, contents.0, gids.0),
                root_create(path, contents.1, gids.1),
                turns,
            );
            ||| {
                &&& r.files == files
                &&& r.one == (Attempt { done: 0, taken: false })
                &&& r.other == (Attempt { done: 0, taken: false })
            }
            ||| leads(r.files, path, contents.0, r.one, r.other)
            ||| leads(r.files, path, contents.1, r.other, r.one)
        }),
    decreases turns.len(),
{
    if turns.len() > 0 {
        lemma_race(files, path, contents, gids, turns.drop_last());
    }
}

/// Of two registrations of one name at once, in whatever order their steps come,
/// one succeeds and the other is refused since the app exists; the file holds
/// what the one that succeeded wrote.
pub proof fn law_one_of_two_registrations_succeeds(
    files: Map<Seq<char>, Seq<char>>,
    state_dir: Seq<char>,
    name: Seq<char>,
    username: Seq<char>,
    contents: (Seq<char>, Seq<char>),
    gids: (int, int),
    turns: Seq<bool>,
)
    requires
        !files.contains_key(app_file(state_dir, name)),
        ({
            let one = root_create(app_file(state_dir, name), contents.0, gids.0);
            let other = root_create(app_file(state_dir, name), contents.1, gids.1);
            let r = race(files, one, other, turns);
            r.one.is_over(one) && r.other.is_over(other)
        }),
    ensures
        ({
            let file = app_file(state_dir, name);
            let r = race(
                files,
                root_create(file, contents.0, gids.0),
                root_create(file, contents.1, gids.1),
                turns,
            );
            let refusal = Err::<(), _>(add_refusal_text(AddRefusalV::Exists, name, username));
            &&& r.files.contains_key(file)
            &&& {
                ||| {
                    &&& r.one.outcome(name, username) is Ok
                    &&& r.other.outcome(name, username) == refusal
                    &&& r.files[file] == contents.0
                }
                ||| {
                    &&& r.one.outcome(name, username) == refusal
                    &&& r.other.outcome(name, username) is Ok
                    &&& r.files[file] == contents.1
                }
            }
        }),
{
    lemma_race(files, app_file(state_dir, name), contents, gids, turns);
}

// ---------------------------------------------------------------------------
// What was written is what is read
// ---------------------------------------------------------------------------

/// A key that can be written: without `=`, a line feed or white space around it.
pub open spec fn is_key(key: Seq<char>) -> bool {
    &&& !key.contains('=')
    &&& !key.contains('\n')
    &&& key.len() > 0 ==> !text::is_space(key[0]) && !text::is_space(key.last())
}

/// A value that stays on its line.
pub open spec fn is_value(value: Seq<char>) -> bool {
    !value.contains('\n') && (value.len() > 0 ==> value.last() != '\r')
}

/// A value that passes the check stays on its line.
proof fn lemma_meta_value_is_value(value: Seq<char>)
    requires
        validate::is_meta_value(value),
    ensures
        is_value(value),
{
    if value.len() > 0 {
        assert(value.contains(value.last()));
    }
}

/// The name of a runtime stays on its line.
proof fn lemma_runtime_is_value(name: Seq<char>)
    requires
        kind::runtime_of(name) is Some,
    ensures
        is_value(name),
{
    reveal_strlit("node");
    reveal_strlit("rust");
}

/// A number stays on its line.
pub proof fn lemma_number_is_value(n: nat)
    ensures
        is_value(text::decimal(n)),
{
    text::lemma_decimal_number(n, n);
    let d = text::decimal(n);
    assert forall|i: int| 0 <= i < d.len() implies d[i] != '\n' by {
        assert(text::is_digit(d[i]));
    }
    assert(text::is_digit(d[d.len() - 1]));
}

/// A line that states a pair says that pair.
pub proof fn lemma_pair_line(key: Seq<char>, value: Seq<char>)
    requires
        is_key(key),
    ensures
        kv::pair_of(pair_line(key, value)) == Some((key, value)),
        !value.contains('\n') ==> !pair_line(key, value).contains('\n'),
        is_value(value) ==> text::is_plain_line(pair_line(key, value)),
{
    reveal_strlit("=");
    let line = pair_line(key, value);
    let n = key.len() as int;
    assert forall|j: int| 0 <= j < n implies line[j] != '=' by {
        assert(line[j] == key[j]);
        assert(key.contains(key[j]));
    }
    assert(line[n] == '=');
    text::lemma_first_at_is(line, '=', n);
    assert(line.take(n) =~= key);
    assert(line.skip(n + 1) =~= value);
    assert(text::trimmed_start(key) == key);
    assert(text::trimmed_end(key) == key);
    if !value.contains('\n') {
        assert forall|j: int| 0 <= j < line.len() implies line[j] != '\n' by {
            if j < n {
                assert(line[j] == key[j]);
                assert(key.contains(key[j]));
            } else if j > n {
                assert(line[j] == value[j - n - 1]);
                assert(value.contains(value[j - n - 1]));
            }
        }
    }
    if is_value(value) {
        if value.len() > 0 {
            assert(line.last() == value.last());
        } else {
            assert(line.last() == '=');
        }
    }
}

proof fn lemma_restated(ls: Seq<Seq<char>>, key: Seq<char>, value: Seq<char>)
    requires
        is_key(key),
    ensures
        kv::of_lines(restated(ls, key, value)) == (if any_states(ls, key) {
            kv::of_lines(ls).insert(key, value)
        } else {
            kv::of_lines(ls)
        }),
    decreases ls.len(),
{
    let out = restated(ls, key, value);
    if ls.len() > 0 {
        let front = ls.drop_last();
        lemma_restated(front, key, value);
        assert(out.drop_last() =~= restated(front, key, value));
        lemma_pair_line(key, value);
        let n = ls.len() - 1;
        if any_states(front, key) {
            let i = choose|i: int| 0 <= i < front.len() && states(#[trigger] front[i], key);
            assert(states(ls[i], key));
        }
        if any_states(ls, key) && !states(ls[n], key) {
            let i = choose|i: int| 0 <= i < ls.len() && states(#[trigger] ls[i], key);
            assert(states(front[i], key));
        }
        let was = kv::of_lines(front);
        if states(ls[n], key) {
            assert(any_states(ls, key));
            let old_value = match kv::pair_of(ls[n]) {
                Some((_k, v)) => v,
                None => Seq::empty(),
            };
            assert(kv::of_lines(ls) == was.insert(key, old_value));
            assert(was.insert(key, value).insert(key, value) =~= was.insert(key, old_value).insert(
                key,
                value,
            ));
            assert(was.insert(key, value) =~= was.insert(key, old_value).insert(key, value));
        } else {
            match kv::pair_of(ls[n]) {
                Some((k, v)) => {
                    assert(was.insert(key, value).insert(k, v) =~= was.insert(k, v).insert(
                        key,
                        value,
                    ));
                },
                None => {},
            }
        }
    } else {
        assert(out =~= ls);
    }
}

/// What is read of pairs once their lines were written again: a carriage return
/// at the end of a value is taken for part of the line's ending.
pub open spec fn bare_values(m: Map<Seq<char>, Seq<char>>) -> Map<Seq<char>, Seq<char>> {
    m.map_values(|v: Seq<char>| text::without_cr(v))
}

/// Whether no value ends in a carriage return, but for that of this key.
pub open spec fn values_stay(m: Map<Seq<char>, Seq<char>>, key: Seq<char>) -> bool {
    forall|k: Seq<char>|
        #[trigger] m.contains_key(k) && k != key ==> text::without_cr(m[k]) == m[k]
}

/// A carriage return at the end of a line belongs to the value that it states.
proof fn lemma_bare_pair(line: Seq<char>)
    ensures
        kv::pair_of(text::without_cr(line)) == (match kv::pair_of(line) {
            Some((k, v)) => Some((k, text::without_cr(v))),
            None => None,
        }),
{
    let t = text::without_cr(line);
    if line.len() > 0 && line.last() == '\r' {
        let i = text::first_at(line, '=');
        text::lemma_first_at(line, '=');
        text::lemma_first_at(t, '=');
        if i < line.len() {
            assert(line[i] == '=');
            assert(i < t.len());
            assert(t[i] == '=');
            assert forall|j: int| 0 <= j < i implies t[j] != '=' by {
                assert(t[j] == line[j]);
            }
            text::lemma_first_at_is(t, '=', i);
            assert(t.take(i) =~= line.take(i));
            let v = line.skip(i + 1);
            assert(v.last() == '\r');
            assert(t.skip(i + 1) =~= v.drop_last());
        } else {
            let j = text::first_at(t, '=');
            if j < t.len() {
                assert(t[j] == '=');
                assert(line[j] == '=');
            }
        }
    } else {
        let i = text::first_at(line, '=');
        let v = line.skip(i + 1);
        text::lemma_first_at(line, '=');
        if i < line.len() && v.len() > 0 {
            assert(v.last() == line.last());
        }
    }
}

/// What lines say once they were written and read back.
pub proof fn lemma_bare_lines(ls: Seq<Seq<char>>)
    ensures
        kv::of_lines(text::bare(ls)) == bare_values(kv::of_lines(ls)),
    decreases ls.len(),
{
    let r = text::bare(ls);
    if ls.len() > 0 {
        let front = ls.drop_last();
        lemma_bare_lines(front);
        assert(r.drop_last() =~= text::bare(front));
        lemma_bare_pair(ls.last());
        let was = kv::of_lines(front);
        match kv::pair_of(ls.last()) {
            Some((k, v)) => {
                assert(bare_values(was.insert(k, v)) =~= bare_values(was).insert(
                    k,
                    text::without_cr(v),
                ));
            },
            None => {},
        }
    } else {
        assert(kv::of_lines(r) =~= bare_values(kv::of_lines(ls)));
    }
}

/// Changing one key of an `.app` file changes that key and no other one. What is
/// lost of the others is a carriage return at the end of a value; where none ends
/// in one, nothing is.
pub proof fn law_rewriting_changes_one_key(content: Seq<char>, key: Seq<char>, value: Seq<char>)
    requires
        is_key(key),
        is_value(value),
    ensures
        kv::of_text(rewritten(content, key, value)) == bare_values(kv::of_text(content)).insert(
            key,
            value,
        ),
        values_stay(kv::of_text(content), key) ==> kv::of_text(rewritten(content, key, value))
            == kv::of_text(content).insert(key, value),
{
    let ls = text::lines(content);
    let out = rewritten_lines(ls, key, value);
    let line = pair_line(key, value);
    lemma_pair_line(key, value);
    lemma_restated(ls, key, value);
    text::lemma_lines_hold_no_feed(content);
    assert forall|i: int| 0 <= i < out.len() implies !(#[trigger] out[i]).contains('\n') by {
        if i < ls.len() {
            assert(!ls[i].contains('\n'));
        }
    }
    text::lemma_closed_lines_are_bare(out);
    lemma_bare_lines(out);
    if !any_states(ls, key) {
        assert(out.drop_last() =~= restated(ls, key, value));
        assert(out.last() == line);
    }
    let m = kv::of_lines(ls);
    assert(text::without_cr(value) == value);
    assert(bare_values(m.insert(key, value)) =~= bare_values(m).insert(key, value));
    if values_stay(m, key) {
        assert(bare_values(m).insert(key, value) =~= m.insert(key, value));
    }
}

/// An app that was registered is read back as it was registered: no value that
/// the checks let pass can add a key or change another one.
pub proof fn law_registered_app_is_read_back(
    args: AddArgs<'_>,
    cwd: Seq<char>,
    home: Option<Seq<char>>,
    verdict: validate::CwdVerdict,
    created_at: nat,
)
    requires
        created_at <= u64::MAX,
        kind::runtime_of(args.app_type@) is Some,
        validate::complaint(args, cwd, home, verdict) is None,
    ensures
        state::meta_of(
            args.name@,
            kv::of_text(text::closed_lines(new_app_lines(args, cwd, created_at))),
        ) == (state::AppMetaV {
            name: args.name@,
            app_type: args.app_type@,
            cwd,
            entry: args.entry@,
            host: args.host@,
            domain: or_nothing(args.domain),
            subdomain: or_nothing(args.subdomain),
            node_version: or_nothing(args.node_version),
            created_at: Some(created_at),
            memory_max: None,
        }),
{
    let ls = new_app_lines(args, cwd, created_at);
    reveal_strlit("type");
    reveal_strlit("cwd");
    reveal_strlit("entry");
    reveal_strlit("host");
    reveal_strlit("domain");
    reveal_strlit("subdomain");
    reveal_strlit("node_version");
    reveal_strlit("created_at");
    reveal_strlit("memory_max");
    text::lemma_decimal_number(created_at, u64::MAX as nat);
    let d = text::decimal(created_at);
    lemma_number_is_value(created_at);
    lemma_runtime_is_value(args.app_type@);
    lemma_meta_value_is_value(cwd);
    lemma_meta_value_is_value(args.entry@);
    lemma_meta_value_is_value(args.host@);
    lemma_meta_value_is_value(or_nothing(args.domain));
    lemma_meta_value_is_value(or_nothing(args.subdomain));
    lemma_meta_value_is_value(or_nothing(args.node_version));
    lemma_pair_line("type"@, args.app_type@);
    lemma_pair_line("cwd"@, cwd);
    lemma_pair_line("entry"@, args.entry@);
    lemma_pair_line("host"@, args.host@);
    lemma_pair_line("domain"@, or_nothing(args.domain));
    lemma_pair_line("subdomain"@, or_nothing(args.subdomain));
    lemma_pair_line("node_version"@, or_nothing(args.node_version));
    lemma_pair_line("created_at"@, d);
    assert forall|i: int| 0 <= i < ls.len() implies text::is_plain_line(#[trigger] ls[i]) by {}
    text::law_closed_lines_read_back(ls);
    let m0 = Map::<Seq<char>, Seq<char>>::empty();
    let m1 = m0.insert("type"@, args.app_type@);
    let m2 = m1.insert("cwd"@, cwd);
    let m3 = m2.insert("entry"@, args.entry@);
    let m4 = m3.insert("host"@, args.host@);
    let m5 = m4.insert("domain"@, or_nothing(args.domain));
    let m6 = m5.insert("subdomain"@, or_nothing(args.subdomain));
    let m7 = m6.insert("node_version"@, or_nothing(args.node_version));
    let m8 = m7.insert("created_at"@, d);
    lemma_of_lines_steps(ls);
    assert(kv::of_lines(ls) == m8);
    // Keys of the same length differ in their first character.
    assert("type"@[0] != "host"@[0]);
    assert("created_at"@[0] != "memory_max"@[0]);
}

/// What is known after one more line.
spec fn with_line(m: Map<Seq<char>, Seq<char>>, line: Seq<char>) -> Map<Seq<char>, Seq<char>> {
    match kv::pair_of(line) {
        Some((k, v)) => m.insert(k, v),
        None => m,
    }
}

/// What eight lines say, one by one.
proof fn lemma_of_lines_steps(ls: Seq<Seq<char>>)
    requires
        ls.len() == 8,
    ensures
        ({
            let m4 = with_line(
                with_line(with_line(with_line(Map::empty(), ls[0]), ls[1]), ls[2]),
                ls[3],
            );
            kv::of_lines(ls) == with_line(
                with_line(with_line(with_line(m4, ls[4]), ls[5]), ls[6]),
                ls[7],
            )
        }),
{
    reveal_with_fuel(kv::of_lines, 9);
}

proof fn lemma_without_key(ls: Seq<Seq<char>>, key: Seq<char>)
    ensures
        kv::of_lines(without_key(ls, key)) == kv::of_lines(ls).remove(key),
        forall|i: int|
            0 <= i < without_key(ls, key).len() ==> ls.contains(#[trigger] without_key(ls, key)[i]),
    decreases ls.len(),
{
    if ls.len() > 0 {
        let front = ls.drop_last();
        lemma_without_key(front, key);
        let was = kv::of_lines(front);
        let kept = without_key(front, key);
        if states(ls.last(), key) {
            let old_value = match kv::pair_of(ls.last()) {
                Some((_k, v)) => v,
                None => Seq::empty(),
            };
            assert(was.insert(key, old_value).remove(key) =~= was.remove(key));
        } else {
            assert(kept.push(ls.last()).drop_last() =~= kept);
            match kv::pair_of(ls.last()) {
                Some((k, v)) => {
                    assert(was.remove(key).insert(k, v) =~= was.insert(k, v).remove(key));
                },
                None => {},
            }
        }
        assert forall|i: int| 0 <= i < without_key(ls, key).len() implies ls.contains(
            #[trigger] without_key(ls, key)[i],
        ) by {
            if i < kept.len() {
                assert(without_key(ls, key)[i] == kept[i]);
                assert(front.contains(kept[i]));
                let j = choose|j: int| 0 <= j < front.len() && front[j] == kept[i];
                assert(ls[j] == kept[i]);
            } else {
                assert(ls[ls.len() - 1] == ls.last());
            }
        }
    } else {
        assert(kv::of_lines(without_key(ls, key)) =~= kv::of_lines(ls).remove(key));
    }
}

/// A memory cap that was set is the cap that is read back, 0 leaves none, and no
/// other key changes. What is lost of the others is a carriage return at the end
/// of a value; where none ends in one, nothing is.
pub proof fn law_memory_cap_is_read_back(name: Seq<char>, content: Seq<char>, bytes: nat)
    requires
        bytes <= u64::MAX,
    ensures
        ({
            let m = kv::of_text(text::closed_lines(capped_lines(text::lines(content), bytes)));
            let rest = kv::of_text(content).remove("memory_max"@);
            &&& m.remove("memory_max"@) == bare_values(rest)
            &&& values_stay(rest, "memory_max"@) ==> m.remove("memory_max"@) == rest
            &&& state::meta_of(name, m).memory_max == (if bytes > 0 {
                Some(bytes)
            } else {
                None
            })
        }),
{
    let key = "memory_max"@;
    reveal_strlit("memory_max");
    let ls = text::lines(content);
    let kept = without_key(ls, key);
    let out = capped_lines(ls, bytes);
    lemma_without_key(ls, key);
    text::lemma_decimal_number(bytes, u64::MAX as nat);
    let d = text::decimal(bytes);
    lemma_number_is_value(bytes);
    lemma_pair_line(key, d);
    text::lemma_lines_hold_no_feed(content);
    assert forall|i: int| 0 <= i < out.len() implies !(#[trigger] out[i]).contains('\n') by {
        if i < kept.len() {
            assert(out[i] == kept[i]);
            assert(ls.contains(kept[i]));
            let j = choose|j: int| 0 <= j < ls.len() && ls[j] == kept[i];
            assert(!ls[j].contains('\n'));
        }
    }
    text::lemma_closed_lines_are_bare(out);
    lemma_bare_lines(out);
    let base = kv::of_lines(ls).remove(key);
    if bytes > 0 {
        assert(out.drop_last() =~= kept);
        assert(text::without_cr(d) == d);
        assert(bare_values(base.insert(key, d)) =~= bare_values(base).insert(key, d));
        assert(bare_values(base).insert(key, d).remove(key) =~= bare_values(base));
    } else {
        assert(bare_values(base).remove(key) =~= bare_values(base));
    }
    if values_stay(base, key) {
        assert(bare_values(base) =~= base);
    }
}

/// A metadata file is written, given to root and the account's group, and closed to
/// everybody else, in this order; a new one is first made, which fails where there
/// is one.
pub proof fn law_metadata_stays_roots(file: Seq<char>, content: Seq<char>, gid: int)
    ensures
        root_write(file, content, gid) == seq![
            effect::StepV { change: effect::ChangeV::Write(file, content), must: true },
            effect::StepV { change: effect::ChangeV::Own(file, 0, gid), must: true },
            effect::StepV { change: effect::ChangeV::SetMode(file, 416), must: true },
        ],
        root_create(file, content, gid) == seq![
            effect::StepV { change: effect::ChangeV::Create(file), must: true },
        ] + root_write(file, content, gid),
{
}

/// One key of a metadata file is changed when there is the file and the value stays
/// on its line.
pub proof fn law_values_are_checked_before_they_are_written(
    name: Seq<char>,
    content: Seq<char>,
    key: Seq<char>,
    value: Seq<char>,
)
    ensures
        update_error(name, None, key, value) == Some(
            ("app_not_found"@, "app '"@ + name + "' not found"@),
        ),
        update_error(name, Some(content), key, value) is None <==> !value.contains('\n')
            && !value.contains('\r') && !value.contains('\0'),
        update_error(name, Some(content), key, value) matches Some((code, _m)) ==> code
            == "invalid_"@ + key,
{
}

/// A registration says what it came to: that the app is there already, that there is
/// no home, or what was wrong with its arguments or its directory.
pub proof fn law_refused_registrations_say_why(
    name: Seq<char>,
    username: Seq<char>,
    code: Seq<char>,
    message: Seq<char>,
    done: nat,
    taken: bool,
)
    ensures
        add_refusal_text(AddRefusalV::Exists, name, username) == (
            "app_exists"@,
            "app '"@ + name + "' already exists"@,
        ),
        add_refusal_text(AddRefusalV::NoHome, name, username) == (
            "invalid_cwd"@,
            "could not resolve home directory for '"@ + username + "'"@,
        ),
        add_refusal_text(AddRefusalV::Argument(code, message), name, username) == (code, message),
        add_refusal_text(
            AddRefusalV::Cwd(validate::CwdVerdict::NotAbsolute),
            name,
            username,
        ).0 == "invalid_cwd"@,
        broken_off(name, username, 0, true, message) == (
            "app_exists"@,
            "app '"@ + name + "' already exists"@,
        ),
        done > 0 || !taken ==> broken_off(name, username, done, taken, message) == (
            "write_failed"@,
            message,
        ),
{
}

/// An app without a directory of its own gets the standard one, and one that names
/// one keeps it.
pub proof fn law_new_apps_have_a_directory(args: AddArgs<'_>, home: Seq<char>)
    ensures
        args.cwd matches Some(c) ==> new_app_cwd(args, home) == c@,
        args.cwd is None ==> new_app_cwd(args, home) == validate::standard_cwd(home, args.host@),
{
}

/// Every statement of a key is rewritten where it stands, and one that is not there
/// is added behind the rest; other lines stay as they are.
pub proof fn law_rewriting_keeps_the_lines(
    ls: Seq<Seq<char>>,
    key: Seq<char>,
    value: Seq<char>,
    i: int,
)
    requires
        0 <= i < ls.len(),
    ensures
        ({
            let r = rewritten_lines(ls, key, value);
            &&& states(ls[i], key) ==> r.len() == ls.len() && r[i] == key.push('=') + value
            &&& !states(ls[i], key) ==> r[i] == ls[i]
            &&& (forall|j: int| 0 <= j < ls.len() ==> !states(#[trigger] ls[j], key)) ==> r
                == ls.push(key.push('=') + value)
        }),
{
    reveal_strlit("=");
    assert(key + "="@ + value =~= key.push('=') + value);
    if forall|j: int| 0 <= j < ls.len() ==> !states(#[trigger] ls[j], key) {
        assert(!any_states(ls, key));
        assert(rewritten_lines(ls, key, value) =~= ls.push(key.push('=') + value));
    }
}

} // verus!
