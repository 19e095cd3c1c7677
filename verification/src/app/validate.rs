//! Checks applied before an application is registered.
//!
//! These decide what the panel will later execute as the account, so each one
//! closes a way of pointing it somewhere it should not go: a working directory
//! outside the account's home, even one reached through a symlink; a value
//! carrying a newline, which would forge keys in the line-oriented `.app` file;
//! an entry file for a compiled runtime that is not an executable.

use vstd::prelude::*;

use crate::effect;
use crate::effect::{Change, Steps};
use crate::path;
use crate::sys::output;
use crate::sys::output::Response;
use crate::sys::state;
use crate::text;

verus! {

/// What `add` is asked to register.
pub struct AddArgs<'a> {
    pub name: &'a str,
    pub app_type: &'a str,
    pub cwd: Option<&'a str>,
    pub entry: &'a str,
    pub host: &'a str,
    pub domain: Option<&'a str>,
    pub subdomain: Option<&'a str>,
    pub node_version: Option<&'a str>,
    pub env_vars: &'a Vec<String>,
}

/// Whether a value cannot escape its containing directory.
pub open spec fn is_safe_component(s: Seq<char>) -> bool {
    s.len() > 0 && !s.contains('/') && !s.contains('\0') && !text::occurs(s, ".."@)
}

/// Validates that a value cannot escape its containing directory: no `/`,
/// no `..`, no null bytes, and not empty.
pub fn validate_safe_component(s: &str) -> (r: bool)
    ensures
        r == is_safe_component(s@),
{
    !s.is_empty() && !text::has_char(s, '/') && !text::has_char(s, '\0') && !text::contains(s, "..")
}

/// A safe component stays in its directory: joined to it, the path is the
/// directory, a separator where one is missing, and the component, which is not a
/// way up.
pub proof fn law_safe_component_stays_inside(dir: Seq<char>, s: Seq<char>)
    requires
        is_safe_component(s),
    ensures
        path::under(dir, s) == (if dir.len() == 0 || dir.last() == '/' {
            dir + s
        } else {
            dir.push('/') + s
        }),
        text::pieces(s, '/') == seq![s],
        s != seq!['.', '.'],
{
    assert(s[0] != '/') by {
        assert(s.contains(s[0]));
    }
    text::lemma_first_at(s, '/');
    reveal_strlit("..");
    if s == seq!['.', '.'] {
        assert(s.subrange(0, 2) =~= ".."@);
        assert(text::occurs_at(s, ".."@, 0));
    }
}

/// Whether a value stays on its line of an `.app` file.
pub open spec fn is_meta_value(s: Seq<char>) -> bool {
    !s.contains('\n') && !s.contains('\r') && !s.contains('\0')
}

/// Values written into the `key=value` `.app` file must stay on one line.
pub fn validate_meta_value(value: &str) -> (r: bool)
    ensures
        r == is_meta_value(value@),
{
    !text::has_char(value, '\n') && !text::has_char(value, '\r') && !text::has_char(value, '\0')
}

// ---------------------------------------------------------------------------
// The working directory
// ---------------------------------------------------------------------------

/// The working directory of an app that names none.
pub open spec fn standard_cwd(home: Seq<char>, host: Seq<char>) -> Seq<char> {
    path::under(path::under(path::under(home, "apps"@), "nodejs"@), host)
}

/// The working directory of an app that names none: `apps/nodejs/{host}` in the
/// account's home.
pub fn default_cwd(home: &str, host: &str) -> (r: String)
    ensures
        r@ == standard_cwd(home@, host@),
{
    let apps = path::join(home, "apps");
    let node = path::join(&apps, "nodejs");
    path::join(&node, host)
}

/// What is wrong with a working directory.
#[derive(Debug, PartialEq, Eq)]
pub enum CwdError {
    NotAbsolute,
    Unresolvable,
    Outside { resolved: String, home: String },
}

pub enum CwdVerdict {
    Inside,
    NotAbsolute,
    Unresolvable,
    Outside(Seq<char>, Seq<char>),
}

pub open spec fn verdict_view(r: Result<(), CwdError>) -> CwdVerdict {
    match r {
        Ok(_) => CwdVerdict::Inside,
        Err(CwdError::NotAbsolute) => CwdVerdict::NotAbsolute,
        Err(CwdError::Unresolvable) => CwdVerdict::Unresolvable,
        Err(CwdError::Outside { resolved, home }) => CwdVerdict::Outside(resolved@, home@),
    }
}

/// A path and the ones above it, as far up as they can be looked for: `..` at
/// the end of a path ends the search, since what it means depends on what it
/// follows.
pub open spec fn ancestors_of(cs: Seq<Seq<char>>) -> Seq<Seq<char>>
    decreases cs.len(),
{
    if path::last_name(cs) is Some {
        seq![path::assembled(cs)] + ancestors_of(cs.drop_last())
    } else {
        seq![path::assembled(cs)]
    }
}

pub open spec fn ancestors(cwd: Seq<char>) -> Seq<Seq<char>> {
    ancestors_of(path::components(cwd))
}

fn is_entry_name(c: &str) -> (r: bool)
    ensures
        r == (c@ != seq!['/'] && c@ != seq!['.'] && c@ != seq!['.', '.']),
{
    proof {
        reveal_strlit("/");
        reveal_strlit(".");
        reveal_strlit("..");
        assert("/"@ =~= seq!['/']);
        assert("."@ =~= seq!['.']);
        assert(".."@ =~= seq!['.', '.']);
    }
    !text::same(c, "/") && !text::same(c, ".") && !text::same(c, "..")
}

/// The paths that are tried, in order, until one can be resolved: the working
/// directory itself, which usually does not exist yet, and the ones above it.
pub fn paths_to_resolve(cwd: &str) -> (r: Vec<String>)
    ensures
        text::views(r@) == ancestors(cwd@),
{
    let cs = path::split(cwd);
    let ghost vs = text::views(cs@);
    let mut n: usize = cs.len();
    let mut out: Vec<String> = Vec::new();
    assert(vs.take(n as int) =~= vs);
    assert(text::views(out@) + ancestors_of(vs.take(n as int)) =~= ancestors(cwd@));
    loop
        invariant
            vs == text::views(cs@),
            n <= cs@.len(),
            text::views(out@) + ancestors_of(vs.take(n as int)) == ancestors(cwd@),
        decreases n,
    {
        let ghost before = text::views(out@);
        let ghost here = vs.take(n as int);
        let p = path::assemble(&cs, n);
        out.push(p);
        assert(text::views(out@) =~= before.push(p@));
        let more = n > 0 && is_entry_name(&cs[n - 1]);
        if !more {
            assert(before + seq![p@] =~= text::views(out@));
            return out;
        }
        proof {
            assert(here.last() == cs@[n - 1]@);
            assert(here.drop_last() =~= vs.take(n - 1));
            assert(before + (seq![p@] + ancestors_of(vs.take(n - 1))) =~= text::views(out@)
                + ancestors_of(vs.take(n - 1)));
        }
        n = n - 1;
    }
}

pub open spec fn resolutions(v: Seq<Option<String>>) -> Seq<Option<Seq<char>>> {
    Seq::new(v.len(), |i: int| crate::command::opt(v[i]))
}

/// The names behind the ancestor at `i`: the last `i` components.
pub open spec fn remainder(cs: Seq<Seq<char>>, i: int) -> Seq<char> {
    path::assembled(cs.skip(cs.len() - i))
}

/// What the working directory resolves to: the first of its ancestors that
/// resolves, with the rest of the path behind it.
pub open spec fn resolved_from(
    cs: Seq<Seq<char>>,
    found: Seq<Option<Seq<char>>>,
    i: int,
) -> Option<Seq<char>>
    decreases found.len() - i,
{
    if i < 0 || i >= found.len() {
        None
    } else {
        match found[i] {
            Some(c) => Some(path::under(c, remainder(cs, i))),
            None => resolved_from(cs, found, i + 1),
        }
    }
}

/// The verdict on a working directory. `home` is what the home directory
/// resolves to, and `found` what each of [`ancestors`] does.
pub open spec fn verdict(
    cwd: Seq<char>,
    home: Option<Seq<char>>,
    found: Seq<Option<Seq<char>>>,
) -> CwdVerdict {
    match home {
        None => CwdVerdict::Unresolvable,
        Some(h) => if !path::is_rooted(cwd) {
            CwdVerdict::NotAbsolute
        } else {
            match resolved_from(path::components(cwd), found, 0) {
                None => CwdVerdict::Unresolvable,
                Some(p) => if path::lies_under(p, h) {
                    CwdVerdict::Inside
                } else {
                    CwdVerdict::Outside(p, h)
                },
            }
        },
    }
}

fn remainder_of(cs: &Vec<String>, i: usize) -> (r: String)
    requires
        i <= cs@.len(),
    ensures
        r@ == remainder(text::views(cs@), i as int),
{
    let ghost vs = text::views(cs@);
    let n: usize = cs.len();
    let mut rest: Vec<String> = Vec::new();
    let mut k: usize = n - i;
    while k < n
        invariant
            vs == text::views(cs@),
            n == cs@.len(),
            i <= n,
            n - i <= k <= n,
            text::views(rest@) =~= vs.subrange(n - i, k as int),
        decreases n - k,
    {
        let ghost before = text::views(rest@);
        let c = cs[k].clone();
        rest.push(c);
        assert(text::views(rest@) =~= before.push(vs[k as int]));
        k = k + 1;
    }
    assert(text::views(rest@) =~= vs.skip(n - i));
    assert(text::views(rest@).take(rest@.len() as int) =~= vs.skip(n - i));
    let len: usize = rest.len();
    path::assemble(&rest, len)
}

/// Checks that a working directory, with every symlink on its way resolved,
/// lands inside the home directory.
///
/// `home` is what the home directory resolves to, `found` what each of
/// [`paths_to_resolve`] does; only the first that does matters.
pub fn check_cwd_within_home(cwd: &str, home: Option<&str>, found: &Vec<Option<String>>) -> (r:
    Result<(), CwdError>)
    requires
        found@.len() == ancestors(cwd@).len(),
    ensures
        verdict_view(r) == verdict(cwd@, state::opt_view(home), resolutions(found@)),
{
    let h = match home {
        Some(h) => h,
        None => {
            return Err(CwdError::Unresolvable);
        },
    };
    if !path::is_absolute(cwd) {
        return Err(CwdError::NotAbsolute);
    }
    let cs = path::split(cwd);
    let ghost vs = text::views(cs@);
    let ghost fs = resolutions(found@);
    proof {
        lemma_ancestors_fit(vs);
    }
    let mut i: usize = 0;
    while i < found.len()
        invariant
            vs == text::views(cs@),
            vs == path::components(cwd@),
            fs == resolutions(found@),
            i <= found@.len(),
            found@.len() <= vs.len() + 1,
            path::is_rooted(cwd@),
            home == Some(h),
            resolved_from(vs, fs, 0) == resolved_from(vs, fs, i as int),
        decreases found@.len() - i,
    {
        assert(fs[i as int] == crate::command::opt(found@[i as int]));
        if let Some(c) = &found[i] {
            let rest = remainder_of(&cs, i);
            let resolved = path::join(c, &rest);
            if path::starts_with(&resolved, h) {
                return Ok(());
            } else {
                return Err(CwdError::Outside { resolved, home: h.to_string() });
            }
        }
        i = i + 1;
    }
    Err(CwdError::Unresolvable)
}

proof fn lemma_ancestors_fit(cs: Seq<Seq<char>>)
    ensures
        ancestors_of(cs).len() <= cs.len() + 1,
    decreases cs.len(),
{
    if path::last_name(cs) is Some {
        lemma_ancestors_fit(cs.drop_last());
    }
}

/// What is wrong with a working directory, as a code and a message.
pub open spec fn refusal_text(v: CwdVerdict) -> (Seq<char>, Seq<char>) {
    match v {
        CwdVerdict::NotAbsolute => ("invalid_cwd"@, "cwd must be an absolute path"@),
        CwdVerdict::Outside(resolved, home) => (
            "cwd_outside_home"@,
            "cwd must stay inside "@ + home + " (resolved to "@ + resolved + ")"@,
        ),
        _ => ("invalid_cwd"@, "cwd could not be resolved"@),
    }
}

impl CwdError {
    pub fn message(&self) -> (r: (String, String))
        ensures
            (r.0@, r.1@) == refusal_text(verdict_view(Err(*self))),
    {
        match self {
            CwdError::NotAbsolute => (
                "invalid_cwd".to_string(),
                "cwd must be an absolute path".to_string(),
            ),
            CwdError::Unresolvable => (
                "invalid_cwd".to_string(),
                "cwd could not be resolved".to_string(),
            ),
            CwdError::Outside { resolved, home } => {
                let mut message = "cwd must stay inside ".to_string();
                message.append(home);
                message.append(" (resolved to ");
                message.append(resolved);
                message.append(")");
                ("cwd_outside_home".to_string(), message)
            },
        }
    }
}

/// Whether a directory that is to be deleted lies outside the home directory,
/// or cannot be resolved at all: on the delete path the answer that keeps files
/// is the safe one. Both arguments are what the paths resolve to.
pub fn cwd_escapes_home(home: Option<&str>, target: Option<&str>) -> (r: bool)
    ensures
        r == !(home is Some && target is Some && path::lies_under(target->0@, home->0@)),
{
    match (home, target) {
        (Some(h), Some(t)) => !path::starts_with(t, h),
        _ => true,
    }
}

/// A working directory is accepted only where it resolves to, or under, the
/// home directory.
pub proof fn law_accepted_cwd_lies_in_home(
    cwd: Seq<char>,
    home: Seq<char>,
    found: Seq<Option<Seq<char>>>,
)
    requires
        verdict(cwd, Some(home), found) is Inside,
    ensures
        resolved_from(path::components(cwd), found, 0) matches Some(p) && path::lies_under(p, home),
{
}

// ---------------------------------------------------------------------------
// The arguments of `add`
// ---------------------------------------------------------------------------

/// What is said of a value that does not stay on its line, as a code and a
/// message.
pub open spec fn bad_meta(field: Seq<char>) -> (Seq<char>, Seq<char>) {
    ("invalid_"@ + field, field + " must not contain newlines or null bytes"@)
}

pub fn meta_error(field: &str) -> (r: (String, String))
    ensures
        (r.0@, r.1@) == bad_meta(field@),
{
    (
        text::cat("invalid_", field),
        text::cat(field, " must not contain newlines or null bytes"),
    )
}

pub open spec fn given(s: Option<&str>) -> Seq<char> {
    match s {
        Some(t) => t@,
        None => Seq::empty(),
    }
}

fn is_given_ok(s: Option<&str>) -> (r: bool)
    ensures
        r == is_meta_value(given(s)),
{
    match s {
        Some(t) => validate_meta_value(t),
        None => true,
    }
}

/// What is wrong with the arguments of `add` as they stand, as a code and a
/// message: the first complaint, in this order.
pub open spec fn argument_error(args: AddArgs<'_>, cwd: Seq<char>) -> Option<
    (Seq<char>, Seq<char>),
> {
    if !state::is_name(args.name@) {
        Some(("invalid_name"@, "name must match ^[A-Za-z0-9._-]{1,64}$"@))
    } else if !is_safe_component(args.entry@) {
        Some(("invalid_entry"@, "entry must not contain '/', '..' or null bytes"@))
    } else if !is_safe_component(args.host@) {
        Some(("invalid_host"@, "host must not contain '/', '..' or null bytes"@))
    } else if !is_meta_value(args.entry@) {
        Some(bad_meta("entry"@))
    } else if !is_meta_value(args.host@) {
        Some(bad_meta("host"@))
    } else if !is_meta_value(cwd) {
        Some(bad_meta("cwd"@))
    } else if !is_meta_value(given(args.domain)) {
        Some(bad_meta("domain"@))
    } else if !is_meta_value(given(args.subdomain)) {
        Some(bad_meta("subdomain"@))
    } else if !is_meta_value(given(args.node_version)) {
        Some(bad_meta("node_version"@))
    } else {
        None
    }
}

/// Checks the arguments of `add` as they stand; `cwd` is the working directory
/// that they come to.
pub fn check_arguments(args: &AddArgs<'_>, cwd: &str) -> (r: Result<(), (String, String)>)
    ensures
        match r {
            Ok(_) => argument_error(*args, cwd@) is None,
            Err(e) => argument_error(*args, cwd@) == Some((e.0@, e.1@)),
        },
{
    if !state::validate_name(args.name) {
        return Err(
            (
                "invalid_name".to_string(),
                "name must match ^[A-Za-z0-9._-]{1,64}$".to_string(),
            ),
        );
    }
    if !validate_safe_component(args.entry) {
        return Err(
            (
                "invalid_entry".to_string(),
                "entry must not contain '/', '..' or null bytes".to_string(),
            ),
        );
    }
    if !validate_safe_component(args.host) {
        return Err(
            (
                "invalid_host".to_string(),
                "host must not contain '/', '..' or null bytes".to_string(),
            ),
        );
    }
    if !validate_meta_value(args.entry) {
        return Err(meta_error("entry"));
    }
    if !validate_meta_value(args.host) {
        return Err(meta_error("host"));
    }
    if !validate_meta_value(cwd) {
        return Err(meta_error("cwd"));
    }
    if !is_given_ok(args.domain) {
        return Err(meta_error("domain"));
    }
    if !is_given_ok(args.subdomain) {
        return Err(meta_error("subdomain"));
    }
    if !is_given_ok(args.node_version) {
        return Err(meta_error("node_version"));
    }
    Ok(())
}

/// What is wrong with what `add` is asked for: the first complaint, in this
/// order. `home` is `$HOME` where it is set, and `verdict` what becomes of the
/// working directory.
pub open spec fn complaint(
    args: AddArgs<'_>,
    cwd: Seq<char>,
    home: Option<Seq<char>>,
    verdict: CwdVerdict,
) -> Option<output::ResponseV> {
    match argument_error(args, cwd) {
        Some((code, message)) => Some(output::refused(code, message)),
        None => if home is None || home->0.len() == 0 {
            Some(output::refused("cwd_outside_home"@, "HOME is not set; cannot validate cwd"@))
        } else if !(verdict is Inside) {
            Some(output::refused(refusal_text(verdict).0, refusal_text(verdict).1))
        } else {
            None
        },
    }
}

/// Checks the arguments of `add`; the answer is the first complaint.
pub fn validate_add_args(
    args: &AddArgs<'_>,
    cwd: &str,
    home: Option<&str>,
    home_real: Option<&str>,
    found: &Vec<Option<String>>,
) -> (r: Option<Response>)
    requires
        found@.len() == ancestors(cwd@).len(),
    ensures
        ({
            let want = complaint(
                *args,
                cwd@,
                state::opt_view(home),
                verdict(cwd@, state::opt_view(home_real), resolutions(found@)),
            );
            match r {
                Some(e) => want == Some(e@),
                None => want is None,
            }
        }),
{
    if let Err((code, message)) = check_arguments(args, cwd) {
        return Some(output::user_error(&code, &message));
    }
    let home_is_set = match home {
        Some(h) => !h.is_empty(),
        None => false,
    };
    if !home_is_set {
        return Some(
            output::user_error("cwd_outside_home", "HOME is not set; cannot validate cwd"),
        );
    }
    match check_cwd_within_home(cwd, home_real, found) {
        Ok(()) => None,
        Err(e) => {
            let (code, message) = e.message();
            Some(output::user_error(&code, &message))
        },
    }
}

// ---------------------------------------------------------------------------
// Files of a new app
// ---------------------------------------------------------------------------

/// Writing the environment of a new app: one variable per line, for the account
/// alone to read.
pub open spec fn env_written(cwd: Seq<char>, vars: Seq<Seq<char>>) -> Seq<effect::StepV> {
    let file = path::under(cwd, ".env"@);
    seq![
        effect::needed(effect::ChangeV::Write(file, text::joined(vars, "\n"@) + "\n"@)),
        effect::needed(effect::ChangeV::SetMode(file, 0o600)),
    ]
}

pub fn write_env_file(cwd: &str, env_vars: &Vec<String>) -> (r: Steps)
    ensures
        r@ == env_written(cwd@, text::views(env_vars@)),
{
    let file = path::join(cwd, ".env");
    let mut content = text::join(env_vars, "\n");
    content.append("\n");
    let mut steps = Steps::new();
    steps.need(Change::Write(file.clone(), content));
    steps.need(Change::SetMode(file, 0o600));
    assert(steps@ =~= env_written(cwd@, text::views(env_vars@)));
    steps
}

/// A file that could be the entry of a compiled app: whether it is there,
/// whether it is a regular file, its mode, and its first bytes as far as they
/// could be read.
pub struct EntryFacts {
    pub exists: bool,
    pub is_file: bool,
    pub mode: u32,
    pub head: Vec<u8>,
}

/// A regular file that somebody may execute.
pub open spec fn is_executable(f: EntryFacts) -> bool {
    f.is_file && f.mode & 0o111 != 0
}

/// Whether these bytes begin with the ELF magic number.
pub open spec fn is_elf_head(head: Seq<u8>) -> bool {
    head.len() >= 4 && head[0] == 0x7f && head[1] == 0x45 && head[2] == 0x4c && head[3] == 0x46
}

pub fn is_executable_file(f: &EntryFacts) -> (r: bool)
    ensures
        r == is_executable(*f),
{
    f.is_file && f.mode & 0o111 != 0
}

/// Checks the ELF magic number (`\x7fELF`) on the first 4 bytes of the file.
pub fn is_elf(head: &Vec<u8>) -> (r: bool)
    ensures
        r == is_elf_head(head@),
{
    head.len() >= 4 && head[0] == 0x7f && head[1] == 0x45 && head[2] == 0x4c && head[3] == 0x46
}

/// What is wrong with the entry of a compiled app. One that is not there yet is
/// passed over: an app may be registered before its binary is placed.
pub open spec fn entry_complaint(p: Seq<char>, f: EntryFacts) -> Option<output::ResponseV> {
    if !f.exists {
        None
    } else if !is_executable(f) {
        Some(
            output::refused("entry_not_executable"@, "file '"@ + p + "' is not executable"@),
        )
    } else if !is_elf_head(f.head@) {
        Some(
            output::refused("entry_not_elf"@, "file '"@ + p + "' is not a valid ELF binary"@),
        )
    } else {
        None
    }
}

/// Checks the entry of a compiled app.
pub fn validate_rust_entry(entry_path: &str, f: &EntryFacts) -> (r: Option<Response>)
    ensures
        match r {
            Some(e) => entry_complaint(entry_path@, *f) == Some(e@),
            None => entry_complaint(entry_path@, *f) is None,
        },
{
    if !f.exists {
        return None;
    }
    let mut message = "file '".to_string();
    message.append(entry_path);
    if !is_executable_file(f) {
        message.append("' is not executable");
        return Some(output::user_error("entry_not_executable", &message));
    }
    if !is_elf(&f.head) {
        message.append("' is not a valid ELF binary");
        return Some(output::user_error("entry_not_elf", &message));
    }
    None
}

/// The starter entry of a Node.js app, from the plugin's template; nothing when
/// the file is there already or there is no template.
pub fn scaffold_node_entry(exists: bool, template: Option<&str>, name: &str) -> (r: Option<String>)
    ensures
        r is Some <==> !exists && template is Some,
        r matches Some(t) ==> t@ == text::replaced(template->0@, "{{APP_NAME}}"@, name@),
{
    if exists {
        return None;
    }
    proof {
        reveal_strlit("{{APP_NAME}}");
    }
    match template {
        Some(t) => Some(text::replace(t, "{{APP_NAME}}", name)),
        None => None,
    }
}

/// A safe component is a name in one directory: it is not empty, and holds no
/// separator, no null byte and no two dots in a row.
pub proof fn law_safe_components_hold_no_way_out(s: Seq<char>)
    ensures
        is_safe_component(s) <==> {
            &&& s.len() > 0
            &&& forall|i: int| 0 <= i < s.len() ==> #[trigger] s[i] != '/' && s[i] != '\0'
            &&& forall|i: int, j: int|
                0 <= i && j == i + 1 && j < s.len() ==> !(#[trigger] s[i] == '.' && #[trigger] s[j]
                    == '.')
        },
{
    reveal_strlit("..");
    if is_safe_component(s) {
        assert forall|i: int| 0 <= i < s.len() implies #[trigger] s[i] != '/' && s[i] != '\0' by {
            assert(s.contains(s[i]));
        }
        assert forall|i: int, j: int| 0 <= i && j == i + 1 && j < s.len() implies !(#[trigger] s[i]
            == '.' && #[trigger] s[j] == '.') by {
            if s[i] == '.' && s[j] == '.' {
                assert(s.subrange(i, i + 2) =~= ".."@);
                assert(text::occurs_at(s, ".."@, i));
            }
        }
    }
    if s.len() > 0 && (forall|i: int| 0 <= i < s.len() ==> #[trigger] s[i] != '/' && s[i] != '\0')
        && (forall|i: int, j: int|
        0 <= i && j == i + 1 && j < s.len() ==> !(#[trigger] s[i] == '.' && #[trigger] s[j] == '.')) {
        if text::occurs(s, ".."@) {
            let i = choose|i: int| #[trigger] text::occurs_at(s, ".."@, i);
            assert(s.subrange(i, i + 2)[0] == s[i]);
            assert(s.subrange(i, i + 2)[1] == s[i + 1]);
            assert(false);
        }
    }
}

/// A value stays on its line when it holds no line feed, no carriage return and no
/// null byte.
pub proof fn law_meta_values_stay_on_their_line(s: Seq<char>)
    ensures
        is_meta_value(s) <==> forall|i: int|
            0 <= i < s.len() ==> #[trigger] s[i] != '\n' && s[i] != '\r' && s[i] != '\0',
{
    if is_meta_value(s) {
        assert forall|i: int| 0 <= i < s.len() implies #[trigger] s[i] != '\n' && s[i] != '\r'
            && s[i] != '\0' by {
            assert(s.contains(s[i]));
        }
    }
}

/// The arguments of `add` are accepted when the name is one, entry and host are
/// names in one directory, and no value leaves its line; each that is not is told
/// by its own code.
pub proof fn law_arguments_are_checked_one_by_one(args: AddArgs<'_>, cwd: Seq<char>)
    ensures
        argument_error(args, cwd) is None <==> {
            &&& state::is_name(args.name@)
            &&& is_safe_component(args.entry@) && is_meta_value(args.entry@)
            &&& is_safe_component(args.host@) && is_meta_value(args.host@)
            &&& is_meta_value(cwd)
            &&& args.domain matches Some(d) ==> is_meta_value(d@)
            &&& args.subdomain matches Some(d) ==> is_meta_value(d@)
            &&& args.node_version matches Some(d) ==> is_meta_value(d@)
        },
        argument_error(args, cwd) matches Some((code, _m)) ==> {
            &&& code == "invalid_name"@ ==> !state::is_name(args.name@)
            &&& code == "invalid_entry"@ ==> !is_safe_component(args.entry@) || !is_meta_value(
                args.entry@,
            )
            &&& code == "invalid_host"@ ==> !is_safe_component(args.host@) || !is_meta_value(
                args.host@,
            )
            &&& code == "invalid_cwd"@ ==> !is_meta_value(cwd)
        },
        !state::is_name(args.name@) ==> (argument_error(args, cwd) matches Some((code, _m)) && code
            == "invalid_name"@),
        state::is_name(args.name@) && !is_safe_component(args.entry@) ==> (argument_error(args, cwd)
            matches Some((code, _m)) && code == "invalid_entry"@),
        state::is_name(args.name@) && is_safe_component(args.entry@) && !is_safe_component(
            args.host@,
        ) ==> (argument_error(args, cwd) matches Some((code, _m)) && code == "invalid_host"@),
{
    reveal_strlit("invalid_");
    reveal_strlit("invalid_name");
    reveal_strlit("invalid_entry");
    reveal_strlit("invalid_host");
    reveal_strlit("invalid_cwd");
    reveal_strlit("entry");
    reveal_strlit("host");
    reveal_strlit("cwd");
    reveal_strlit("domain");
    reveal_strlit("subdomain");
    reveal_strlit("node_version");
    let none = Seq::<char>::empty();
    law_meta_values_stay_on_their_line(none);
    let e = "invalid_"@ + "entry"@;
    let h = "invalid_"@ + "host"@;
    let c = "invalid_"@ + "cwd"@;
    let d = "invalid_"@ + "domain"@;
    let s = "invalid_"@ + "subdomain"@;
    let n = "invalid_"@ + "node_version"@;
    assert(e.len() == 13 && h.len() == 12 && c.len() == 11 && d.len() == 14 && s.len() == 17
        && n.len() == 20);
    assert("invalid_name"@[8] == 'n' && h[8] == 'h' && "invalid_host"@[8] == 'h');
    assert("invalid_entry"@.len() == 13 && "invalid_cwd"@.len() == 11);
    assert("invalid_name"@.len() == 12 && "invalid_host"@.len() == 12);
}

/// A working directory is resolved through the first of its ancestors that is
/// there, with the rest of its names behind it.
pub proof fn law_first_ancestor_that_resolves_counts(
    cs: Seq<Seq<char>>,
    found: Seq<Option<Seq<char>>>,
    k: int,
    c: Seq<char>,
)
    requires
        0 <= k < found.len(),
        found[k] == Some(c),
        forall|i: int| 0 <= i < k ==> (#[trigger] found[i]) is None,
    ensures
        resolved_from(cs, found, 0) == Some(
            path::under(c, path::assembled(cs.skip(cs.len() - k))),
        ),
{
    lemma_resolved(cs, found, 0, k, c);
}

proof fn lemma_resolved(
    cs: Seq<Seq<char>>,
    found: Seq<Option<Seq<char>>>,
    from: int,
    k: int,
    c: Seq<char>,
)
    requires
        0 <= from <= k < found.len(),
        found[k] == Some(c),
        forall|i: int| from <= i < k ==> (#[trigger] found[i]) is None,
    ensures
        resolved_from(cs, found, from) == Some(
            path::under(c, path::assembled(cs.skip(cs.len() - k))),
        ),
    decreases k - from,
{
    if from < k {
        assert(found[from] is None);
        lemma_resolved(cs, found, from + 1, k, c);
    }
}

/// A working directory is accepted when it is absolute and what it resolves to lies
/// in the home directory; where nothing resolves it is refused.
pub proof fn law_only_directories_in_the_home_are_accepted(
    cwd: Seq<char>,
    home: Option<Seq<char>>,
    found: Seq<Option<Seq<char>>>,
)
    ensures
        verdict(cwd, home, found) is Inside <==> home is Some && cwd.len() > 0 && cwd[0] == '/' && (
        resolved_from(path::components(cwd), found, 0) matches Some(p) && path::lies_under(
            p,
            home->0,
        )),
        home is Some && !(cwd.len() > 0 && cwd[0] == '/') ==> verdict(cwd, home, found)
            is NotAbsolute,
        (forall|i: int| 0 <= i < found.len() ==> (#[trigger] found[i]) is None) ==> !(verdict(
            cwd,
            home,
            found,
        ) is Inside),
{
    if forall|i: int| 0 <= i < found.len() ==> (#[trigger] found[i]) is None {
        lemma_unresolved(path::components(cwd), found, 0);
    }
}

proof fn lemma_unresolved(cs: Seq<Seq<char>>, found: Seq<Option<Seq<char>>>, from: int)
    requires
        0 <= from,
        forall|i: int| 0 <= i < found.len() ==> (#[trigger] found[i]) is None,
    ensures
        resolved_from(cs, found, from) is None,
    decreases found.len() - from,
{
    if from < found.len() {
        assert(found[from] is None);
        lemma_unresolved(cs, found, from + 1);
    }
}

/// What is looked for on the way up from a path is the path itself and then what is
/// looked for from the one above it.
pub proof fn law_ancestors_go_up_one_by_one(dir: Seq<char>, name: Seq<char>)
    requires
        name.len() > 0,
        !name.contains('/'),
        name != seq!['.'],
        name != seq!['.', '.'],
    ensures
        ancestors(path::under(dir, name)) == seq![
            path::under(path::assembled(path::components(dir)), name),
        ] + ancestors(dir),
{
    path::law_joined_name_is_one_more_component(dir, name);
    let cs = path::components(dir);
    assert(cs.push(name).drop_last() =~= cs);
    assert(name != seq!['/']) by {
        if name == seq!['/'] {
            assert(name.contains(name[0]));
        }
    }
}

/// A compiled app's entry has to be an executable ELF file, once it is there.
pub proof fn law_compiled_entries_are_executables(p: Seq<char>, f: EntryFacts)
    ensures
        entry_complaint(p, f) is None <==> !f.exists || (f.is_file && (f.mode & 0o100 != 0 || f.mode
            & 0o010 != 0 || f.mode & 0o001 != 0) && f.head@.len() >= 4 && f.head@.take(4)
            == seq![0x7fu8, 0x45, 0x4c, 0x46]),
{
    let m = f.mode;
    assert((m & 0o111 != 0) == (m & 0o100 != 0 || m & 0o010 != 0 || m & 0o001 != 0)) by (bit_vector);
    if f.head@.len() >= 4 {
        let h = f.head@.take(4);
        let magic = seq![0x7fu8, 0x45, 0x4c, 0x46];
        assert(h[0] == f.head@[0] && h[1] == f.head@[1] && h[2] == f.head@[2] && h[3]
            == f.head@[3]);
        assert(magic[0] == 0x7f && magic[1] == 0x45 && magic[2] == 0x4c && magic[3] == 0x46);
        if is_elf_head(f.head@) {
            assert(h =~= magic);
        }
    }
}

/// What is wrong with a working directory, by code and in words.
pub proof fn law_refused_directories_say_why(resolved: Seq<char>, home: Seq<char>)
    ensures
        refusal_text(CwdVerdict::NotAbsolute) == ("invalid_cwd"@, "cwd must be an absolute path"@),
        refusal_text(CwdVerdict::Unresolvable) == ("invalid_cwd"@, "cwd could not be resolved"@),
        refusal_text(CwdVerdict::Outside(resolved, home)) == (
            "cwd_outside_home"@,
            "cwd must stay inside "@ + home + " (resolved to "@ + resolved + ")"@,
        ),
{
}

/// What `add` is asked for is accepted when its arguments are, there is a home, and
/// the working directory lies in it; the arguments are complained of first.
pub proof fn law_additions_are_accepted_exactly_when_sound(
    args: AddArgs<'_>,
    cwd: Seq<char>,
    home: Option<Seq<char>>,
    v: CwdVerdict,
)
    ensures
        complaint(args, cwd, home, v) is None <==> argument_error(args, cwd) is None && (
        home matches Some(h) && h.len() > 0) && v is Inside,
        argument_error(args, cwd) matches Some((code, message)) ==> complaint(args, cwd, home, v)
            == Some(output::refused(code, message)),
        complaint(args, cwd, home, v) matches Some(r) ==> r.exit == 1,
        argument_error(args, cwd) is None && home is None ==> complaint(args, cwd, home, v) == Some(
            output::refused("cwd_outside_home"@, "HOME is not set; cannot validate cwd"@),
        ),
{
}

/// An app that names no working directory has one under its home, by its host.
pub proof fn law_standard_directories_go_by_host(home: Seq<char>, host: Seq<char>)
    requires
        home.len() > 0,
        home.last() != '/',
        host.len() > 0,
        host[0] != '/',
    ensures
        standard_cwd(home, host) == home + "/apps/nodejs/"@ + host,
{
    reveal_strlit("apps");
    reveal_strlit("nodejs");
    reveal_strlit("/apps/nodejs/");
    let a = path::under(home, "apps"@);
    let b = path::under(a, "nodejs"@);
    assert(a =~= home + seq!['/'] + "apps"@);
    assert(a.last() == 's');
    assert(b =~= a + seq!['/'] + "nodejs"@);
    assert(b.last() == 's');
    assert(path::under(b, host) =~= home + "/apps/nodejs/"@ + host);
}

/// The environment of a new app is its variables, one to a line, for the account
/// alone to read.
pub proof fn law_written_environment_is_its_lines(cwd: Seq<char>, vars: Seq<Seq<char>>)
    requires
        vars.len() > 0,
        forall|i: int| 0 <= i < vars.len() ==> text::is_plain_line(#[trigger] vars[i]),
    ensures
        ({
            let r = env_written(cwd, vars);
            &&& r.len() == 2
            &&& r[0].must && r[1].must
            &&& r[0].change matches effect::ChangeV::Write(p, c) && p == path::under(cwd, ".env"@)
                && text::lines(c) == vars
            &&& r[1].change == effect::ChangeV::SetMode(path::under(cwd, ".env"@), 384)
        }),
{
    text::law_joined_lines_lack_the_last_feed(vars);
    text::law_closed_lines_read_back(vars);
}

} // verus!
