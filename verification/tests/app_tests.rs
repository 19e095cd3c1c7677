//! The life of an app: registering, validating, starting, jobs and commands.

use core_selynt::app::appfile::{
    create_failed, create_for_add, rewrite_key, update_key, with_memory_max, AddRefusal,
};
use core_selynt::app::boot::{
    already_running, boot_step, cmd_boot_recover, log_line, outcome_line, recover_all,
    scanning_line, Recovered, DONE_LINE,
};
use core_selynt::app::commands::{
    apply_memory_max, apps_to_restart, argument_refusal, cmd_add, cmd_domains, cmd_list, cmd_logs, cmd_remove,
    cmd_restart, cmd_scripts, cmd_set_entry, cmd_set_isolated, cmd_set_memory_max,
    cmd_set_node_version, cmd_status, cmd_status_isolated, cmd_stop, cwd_create_failed,
    env_write_failed,
    finish_add, is_safe_script_name, lock_paths, running_app_names, split_arguments,
    switch_isolation, switch_outcome, CwdFound, Domain, ListedApp, Restarted, SwitchedApp,
};
use core_selynt::app::course::{start_step, Course, Event, Phase};
use core_selynt::app::job::{
    build_command, build_inner, cmd_job_status, cmd_run_job, cmd_stop_job, finished_state,
    fork_failed, job_started, job_stopped, label, plan_job, run_to_completion, running_state,
    stop_job_step, stopped_state, write_state, ChildPoll, Kind, RunStep, StopJobStep, StopTarget,
};
use core_selynt::app::logs::{
    count_newlines, log_file, needs_rotation, next_chunk, read_tail, rotated, strip_ansi,
};
use core_selynt::app::start::{
    apply_sandbox, cmd_start, load_env_file, log_open_failed, next_stuck_count, node_binary,
    persist_pid, persist_state, pids_of_app, publish_route, refuse_external_port, spawn_app,
    spawn_failed, spawn_into_scope, start_answer, wait_for_socket_accept, wait_for_socket_file,
    wrap_in_scope, Confinement, Ending, Look, Scope, SpawnFacts, WaitContext, WaitStep, Watch,
};
use core_selynt::app::status::{
    admin_get_status, get_status, start_app_detached, stop_step, AppStatus, StopStep,
};
use core_selynt::app::validate::{
    check_cwd_within_home, cwd_escapes_home, default_cwd, is_elf, paths_to_resolve,
    validate_meta_value, validate_safe_component, AddArgs, CwdError, EntryFacts,
};
use core_selynt::command::CommandLine;
use core_selynt::effect::Change;
use core_selynt::limits::policy::AppLimits;
use core_selynt::limits::sandbox::{system_path_list, wrap_command_with};
use core_selynt::limits::usage::scope_unit_name;
use core_selynt::sys::json::show;
use core_selynt::sys::output::{Json, Response};
use core_selynt::sys::proc::ProcessSnapshot;
use core_selynt::sys::state::AppMeta;

const UP: AppStatus = AppStatus { pid: Some(42), started_at: Some(1000) };
const DOWN: AppStatus = AppStatus { pid: None, started_at: None };

fn strings(v: &[&str]) -> Vec<String> {
    v.iter().map(|s| s.to_string()).collect()
}

fn meta(cwd: &str) -> AppMeta {
    AppMeta {
        name: "api".to_string(),
        app_type: "node".to_string(),
        cwd: cwd.to_string(),
        entry: "index.js".to_string(),
        host: "x.test".to_string(),
        domain: String::new(),
        subdomain: String::new(),
        node_version: "/usr/local/bin/node".to_string(),
        created_at: None,
        memory_max: None,
    }
}

fn error_of(r: &Response) -> (u8, String, String) {
    (
        r.exit,
        r.body.get_text("error").expect("an error"),
        r.body.get_text("message").expect("a message"),
    )
}

fn list_of(r: &Response, key: &str) -> Vec<String> {
    match r.body.get(key) {
        Some(Json::List(v)) => v
            .iter()
            .map(|j| match j {
                Json::Str(s) => s.clone(),
                _ => panic!("not a string"),
            })
            .collect(),
        _ => panic!("no list {key}"),
    }
}

// --- the working directory ------------------------------------------------

/// A file system of directories and links.
struct Fs {
    dirs: Vec<&'static str>,
    links: Vec<(&'static str, &'static str)>,
}

impl Fs {
    fn sandbox() -> Fs {
        Fs {
            dirs: vec!["/", "/base", "/base/home", "/base/home/apps", "/base/outside"],
            links: vec![],
        }
    }

    fn canonicalize(&self, p: &str) -> Option<String> {
        let mut at = "/".to_string();
        for c in p.split('/').filter(|c| !c.is_empty() && *c != ".") {
            if c == ".." {
                let cut = at.rfind('/').unwrap_or(0);
                at = if cut == 0 { "/".to_string() } else { at[..cut].to_string() };
                continue;
            }
            let next = if at == "/" { format!("/{c}") } else { format!("{at}/{c}") };
            if let Some((_, target)) = self.links.iter().find(|(l, _)| *l == next) {
                at = target.to_string();
            } else if self.dirs.iter().any(|d| *d == next) {
                at = next;
            } else {
                return None;
            }
        }
        Some(at)
    }

    fn check(&self, cwd: &str, home: &str) -> Result<(), CwdError> {
        let found: Vec<Option<String>> =
            paths_to_resolve(cwd).iter().map(|p| self.canonicalize(p)).collect();
        let real = self.canonicalize(home);
        check_cwd_within_home(cwd, real.as_deref(), &found)
    }
}

fn assert_inside(fs: &Fs, cwd: &str) {
    assert!(fs.check(cwd, "/base/home").is_ok(), "{cwd} should be accepted");
}

fn assert_outside(fs: &Fs, cwd: &str) {
    assert!(
        matches!(fs.check(cwd, "/base/home"), Err(CwdError::Outside { .. })),
        "{cwd} should be outside"
    );
}

#[test]
fn validate_accepts_cwd_inside_home() {
    assert_inside(&Fs::sandbox(), "/base/home/apps/myapp");
}

#[test]
fn manage_accepts_cwd_inside_home() {
    assert_inside(&Fs::sandbox(), "/base/home/apps/myapp");
}

#[test]
fn validate_accepts_cwd_that_does_not_exist_yet() {
    assert_inside(&Fs::sandbox(), "/base/home/apps/deep/not/created/yet");
}

#[test]
fn manage_accepts_cwd_that_does_not_exist_yet() {
    assert_inside(&Fs::sandbox(), "/base/home/apps/deep/not/created/yet");
}

#[test]
fn validate_rejects_cwd_outside_home() {
    assert_outside(&Fs::sandbox(), "/base/outside/app");
}

#[test]
fn manage_rejects_cwd_outside_home() {
    assert_outside(&Fs::sandbox(), "/base/outside/app");
}

#[test]
fn validate_rejects_dotdot_traversal_out_of_home() {
    assert_outside(&Fs::sandbox(), "/base/home/apps/../../outside/app");
}

#[test]
fn manage_rejects_dotdot_traversal_out_of_home() {
    assert_outside(&Fs::sandbox(), "/base/home/apps/../../outside/app");
}

#[test]
fn validate_keeps_dotdot_that_stays_inside_home() {
    assert_inside(&Fs::sandbox(), "/base/home/apps/../apps/myapp");
}

#[test]
fn manage_keeps_dotdot_that_stays_inside_home() {
    assert_inside(&Fs::sandbox(), "/base/home/apps/../apps/myapp");
}

#[test]
fn validate_rejects_symlink_pointing_outside_home() {
    let mut fs = Fs::sandbox();
    fs.links.push(("/base/home/apps/escape", "/base/outside"));
    assert_outside(&fs, "/base/home/apps/escape");
}

#[test]
fn manage_rejects_symlink_pointing_outside_home() {
    let mut fs = Fs::sandbox();
    fs.links.push(("/base/home/apps/escape", "/base/outside"));
    assert_outside(&fs, "/base/home/apps/escape");
}

#[test]
fn validate_rejects_symlinked_ancestor_pointing_outside_home() {
    let mut fs = Fs::sandbox();
    fs.links.push(("/base/home/apps/bridge", "/base/outside"));
    assert_outside(&fs, "/base/home/apps/bridge/nested/app");
}

#[test]
fn manage_rejects_symlinked_ancestor_pointing_outside_home() {
    let mut fs = Fs::sandbox();
    fs.links.push(("/base/home/apps/bridge", "/base/outside"));
    assert_outside(&fs, "/base/home/apps/bridge/nested/app");
}

#[test]
fn validate_accepts_symlink_that_stays_within_home() {
    let mut fs = Fs::sandbox();
    fs.dirs.push("/base/home/apps/real");
    fs.links.push(("/base/home/apps/alias", "/base/home/apps/real"));
    assert_inside(&fs, "/base/home/apps/alias");
}

#[test]
fn manage_accepts_symlink_that_stays_within_home() {
    let mut fs = Fs::sandbox();
    fs.dirs.push("/base/home/apps/real");
    fs.links.push(("/base/home/apps/alias", "/base/home/apps/real"));
    assert_inside(&fs, "/base/home/apps/alias");
}

#[test]
fn validate_rejects_relative_cwd() {
    assert!(matches!(
        Fs::sandbox().check("apps/myapp", "/base/home"),
        Err(CwdError::NotAbsolute)
    ));
}

#[test]
fn manage_rejects_relative_cwd() {
    assert!(matches!(
        Fs::sandbox().check("apps/myapp", "/base/home"),
        Err(CwdError::NotAbsolute)
    ));
}

#[test]
fn validate_rejects_sibling_home_with_shared_prefix() {
    let fs = Fs { dirs: vec!["/", "/base", "/base/user", "/base/user2"], links: vec![] };
    assert!(matches!(
        fs.check("/base/user2/app", "/base/user"),
        Err(CwdError::Outside { .. })
    ));
}

#[test]
fn manage_rejects_sibling_home_with_shared_prefix() {
    let fs = Fs { dirs: vec!["/", "/base", "/base/user", "/base/user2"], links: vec![] };
    assert!(matches!(
        fs.check("/base/user2/app", "/base/user"),
        Err(CwdError::Outside { .. })
    ));
}

#[test]
fn refusals_of_a_working_directory_are_told() {
    let fs = Fs::sandbox();
    let told = |cwd: &str| match fs.check(cwd, "/base/home") {
        Err(e) => e.message(),
        Ok(()) => panic!("must be refused"),
    };
    assert_eq!(
        told("/base/outside/app"),
        (
            "cwd_outside_home".to_string(),
            "cwd must stay inside /base/home (resolved to /base/outside/app)".to_string()
        )
    );
    assert_eq!(
        told("apps"),
        ("invalid_cwd".to_string(), "cwd must be an absolute path".to_string())
    );
    // A home that cannot be resolved settles nothing.
    let found: Vec<Option<String>> = paths_to_resolve("/x/y").iter().map(|_| None).collect();
    assert!(matches!(
        check_cwd_within_home("/x/y", None, &found),
        Err(CwdError::Unresolvable)
    ));
    assert!(cwd_escapes_home(Some("/home/bob"), Some("/home/bobby/x")));
    assert!(!cwd_escapes_home(Some("/home/bob"), Some("/home/bob/x")));
    assert!(cwd_escapes_home(None, Some("/home/bob/x")));
    assert_eq!(default_cwd("/home/bob", "x.test"), "/home/bob/apps/nodejs/x.test");
}

// --- values ---------------------------------------------------------------

fn blocks_traversal() {
    assert!(validate_safe_component("index.js"));
    assert!(!validate_safe_component("../etc/passwd"));
    assert!(!validate_safe_component("a/b"));
    assert!(!validate_safe_component(""));
    assert!(!validate_safe_component("a\0b"));
}

fn blocks_forged_keys() {
    assert!(validate_meta_value("/home/user/apps/x"));
    assert!(!validate_meta_value("x\nhost=evil"));
    assert!(!validate_meta_value("x\rhost=evil"));
    assert!(!validate_meta_value("x\0y"));
}

#[test]
fn mod_validate_safe_component_blocks_traversal() {
    blocks_traversal();
}

#[test]
fn manage_validate_safe_component_blocks_traversal() {
    blocks_traversal();
}

#[test]
fn validate_validate_meta_value_blocks_forged_keys() {
    blocks_forged_keys();
}

#[test]
fn manage_validate_meta_value_blocks_forged_keys() {
    blocks_forged_keys();
}

// --- the app's file -------------------------------------------------------

#[test]
fn replaces_an_existing_key_in_place() {
    let out = rewrite_key(
        Some("type=node\nnode_version=/old\nentry=i.js\n"),
        "node_version",
        "/new",
    )
    .unwrap();
    assert_eq!(out, "type=node\nnode_version=/new\nentry=i.js\n");
}

#[test]
fn appends_a_key_that_is_not_there() {
    let out = rewrite_key(Some("type=node\nentry=i.js\n"), "node_version", "/n").unwrap();
    assert!(out.ends_with("node_version=/n\n"));
    assert!(out.starts_with("type=node\n"));
}

#[test]
fn missing_file_yields_none() {
    assert!(rewrite_key(None, "k", "v").is_none());
}

#[test]
fn updating_a_missing_app_is_refused() {
    let e = update_key("/s/bob", "api", None, "k", "v", 7).err().expect("refused");
    assert_eq!(e, ("app_not_found".to_string(), "app 'api' not found".to_string()));
    let steps = update_key("/s/bob", "api", Some("k=1\n"), "k", "2", 7).ok().expect("steps");
    assert!(steps.list.iter().any(|s| s.change
        == Change::Write("/s/bob/.run/api.app".to_string(), "k=2\n".to_string())));
}

#[test]
fn a_memory_cap_replaces_the_old_one() {
    assert_eq!(with_memory_max("a=1\nmemory_max=5\nb=2\n", 7), "a=1\nb=2\nmemory_max=7\n");
    assert_eq!(with_memory_max("a=1\nmemory_max=5\n", 0), "a=1\n");
}

fn args<'a>(env_vars: &'a Vec<String>, cwd: Option<&'a str>) -> AddArgs<'a> {
    AddArgs {
        name: "api",
        app_type: "node",
        cwd,
        entry: "index.js",
        host: "x.test",
        domain: Some("x.test"),
        subdomain: None,
        node_version: None,
        env_vars,
    }
}

#[test]
fn a_new_app_is_registered_by_root() {
    let env = vec![];
    let a = args(&env, Some("/base/home/apps/api"));
    let fs = Fs::sandbox();
    let found: Vec<Option<String>> =
        paths_to_resolve("/base/home/apps/api").iter().map(|p| fs.canonicalize(p)).collect();
    let steps = create_for_add(
        "/s/bob", &a, 7, 99, false, Some("/base/home"), Some("/base/home"), &found,
    )
    .ok()
    .expect("registered");
    let content = "type=node\ncwd=/base/home/apps/api\nentry=index.js\nhost=x.test\ndomain=x.test\nsubdomain=\nnode_version=\ncreated_at=99\n";
    assert!(steps.list.iter().any(|s| s.change
        == Change::Write("/s/bob/.run/api.app".to_string(), content.to_string())));
    let again = create_for_add(
        "/s/bob", &a, 7, 99, true, Some("/base/home"), Some("/base/home"), &found,
    );
    match again {
        Err(AddRefusal::Exists) => {}
        _ => panic!("an app is not registered twice"),
    }
}

#[test]
fn adding_checks_creates_and_scaffolds() {
    let env = strings(&["A=1", "B=2"]);
    let a = args(&env, Some("/base/home/apps/api"));
    let fs = Fs::sandbox();
    let found: Vec<Option<String>> =
        paths_to_resolve("/base/home/apps/api").iter().map(|p| fs.canonicalize(p)).collect();
    let plan = cmd_add(&a, None, Some("/base/home"), Some("/base/home"), &found)
        .ok()
        .expect("in order");
    assert_eq!(plan.cwd, "/base/home/apps/api");
    assert_eq!(plan.entry_path, "/base/home/apps/api/index.js");
    let env_steps = plan.env.expect("variables");
    assert_eq!(
        env_steps.list[0].change,
        Change::Write("/base/home/apps/api/.env".to_string(), "A=1\nB=2\n".to_string())
    );
    // Without a home nothing can be checked.
    let e = cmd_add(&a, None, None, None, &found).err().expect("refused");
    assert_eq!(error_of(&e).1, "cwd_outside_home");

    let nothing = EntryFacts { exists: false, is_file: false, mode: 0, head: vec![] };
    let end = finish_add(&a, &plan.entry_path, &nothing, Some("// {{APP_NAME}}"), None);
    assert_eq!(end.scaffold.as_deref(), Some("// api"));
    assert_eq!(end.response.exit, 0);

    let mut compiled = args(&env, None);
    compiled.app_type = "rust";
    let text = EntryFacts { exists: true, is_file: true, mode: 0o755, head: vec![35, 33] };
    let end = finish_add(&compiled, "/c/server", &text, None, None);
    assert_eq!(
        error_of(&end.response),
        (1, "entry_not_elf".to_string(), "file '/c/server' is not a valid ELF binary".to_string())
    );
    let plain = EntryFacts { exists: true, is_file: true, mode: 0o644, head: vec![0x7f, 0x45, 0x4c, 0x46] };
    let end = finish_add(&compiled, "/c/server", &plain, None, None);
    assert_eq!(error_of(&end.response).1, "entry_not_executable");
    let elf = EntryFacts { exists: true, is_file: true, mode: 0o755, head: vec![0x7f, 0x45, 0x4c, 0x46] };
    assert!(is_elf(&elf.head));
    assert_eq!(finish_add(&compiled, "/c/server", &elf, None, None).response.exit, 0);
    assert_eq!(error_of(&env_write_failed("denied")).1, "write_failed");
    assert_eq!(
        error_of(&cwd_create_failed("denied")).2,
        "failed to create cwd directory: denied"
    );
}

// --- scripts and arguments ------------------------------------------------

#[test]
fn accepts_names_npm_projects_actually_use() {
    for n in [
        "start",
        "build",
        "test",
        "dev",
        "lint:fix",
        "build_prod",
        "db.migrate",
        "pre-build",
    ] {
        assert!(is_safe_script_name(n), "{n} should be accepted");
    }
}

#[test]
fn refuses_names_that_would_leave_the_argument() {
    for n in [
        "",                 // nothing to run
        "-x",               // reads as an option to npm
        "--prefix",         // same, long form
        "a b",              // splits into two arguments
        "build; rm -rf /",  // command separator
        "build && curl x",  // chaining
        "build | sh",       // pipe
        "$(id)",            // command substitution
        "`id`",             // command substitution, backticks
        "build\nrm",        // newline
        "../../etc/passwd", // traversal
        "a/b",              // path separator
        "build'",           // quote
    ] {
        assert!(!is_safe_script_name(n), "{n:?} should be refused");
    }
}

#[test]
fn refuses_absurdly_long_names() {
    assert!(!is_safe_script_name(&"a".repeat(65)));
    assert!(is_safe_script_name(&"a".repeat(64)));
}

#[test]
fn accepts_plain_values() {
    for a in ["production", "dist/index.js", "3000", "test.spec.ts"] {
        assert!(argument_refusal(a).is_none(), "{a} should be accepted");
    }
}

#[test]
fn refuses_arguments_that_would_be_read_as_options() {
    for a in ["-x", "--prefix", "--experimental-vm-modules", "-C"] {
        assert!(argument_refusal(a).is_some(), "{a} should be refused");
    }
}

#[test]
fn refuses_paths_leaving_the_application() {
    for a in ["../secret", "/etc/passwd", "a/../../b"] {
        assert!(argument_refusal(a).is_some(), "{a} should be refused");
    }
}

#[test]
fn shell_metacharacters_stay_a_single_literal_argument() {
    let args = split_arguments("build;rm").unwrap();
    assert_eq!(args, vec!["build;rm"]);
}

#[test]
fn splits_on_whitespace_and_refuses_the_bad_one() {
    assert_eq!(split_arguments("a b c").unwrap(), vec!["a", "b", "c"]);
    assert!(split_arguments("ok --evil").is_err());
    assert!(split_arguments("").unwrap().is_empty());
}

#[test]
fn refuses_absurd_counts_and_lengths() {
    assert!(split_arguments(&"a ".repeat(33)).is_err());
    assert!(argument_refusal(&"a".repeat(257)).is_some());
}

#[test]
fn refusals_of_arguments_quote_them() {
    assert_eq!(
        argument_refusal("-\"x").as_deref(),
        Some("argument \"-\\\"x\" would be read as an option; the panel only passes values")
    );
    assert_eq!(
        argument_refusal("/é").as_deref(),
        Some("argument \"/é\" points outside the application directory")
    );
    assert_eq!(argument_refusal("a\u{7}").as_deref(), Some("argument contains control characters"));
    assert_eq!(argument_refusal(&"é".repeat(129)).as_deref(), Some("argument is too long"));
    assert_eq!(argument_refusal(&"é".repeat(128)), None);
    assert_eq!(split_arguments(&"a ".repeat(33)).err().as_deref(), Some("too many arguments"));
}

#[test]
fn scripts_of_a_package_are_listed_by_name() {
    let m = meta("/home/bob/apps/api");
    let pkg = "{\"scripts\": {\"test\": \"x\", \"build\": \"y\", \"-x\": \"z\"}, \"dependencies\": {\"left-pad\": \"1\"}}";
    let r = cmd_scripts("api", Some(&m), Some(pkg), false, None, &vec![], None);
    assert_eq!(list_of(&r, "scripts"), vec!["build", "test"]);
    assert_eq!(r.body.get_text("deps").as_deref(), Some("missing"));
    assert_eq!(r.body.get("reason"), None);

    let lock = "{\"packages\": {\"\": {}, \"node_modules/left-pad\": {}, \"node_modules/x\": {}}}";
    let mut dirs = lock_paths(lock);
    dirs.sort();
    assert_eq!(dirs, vec!["node_modules/left-pad", "node_modules/x"]);
    let deps = |lock: Option<&str>, present: &[&str]| {
        cmd_scripts("api", Some(&m), Some(pkg), true, lock, &strings(present), None)
            .body
            .get_text("deps")
            .expect("a state")
    };
    assert_eq!(deps(None, &[]), "ok");
    assert_eq!(deps(Some("not json"), &[]), "ok");
    assert_eq!(deps(Some(lock), &["node_modules/left-pad"]), "incomplete");
    assert_eq!(deps(Some(lock), &["node_modules/left-pad", "node_modules/x"]), "ok");
    let stale = "{\"packages\": {\"node_modules/x\": {}}}";
    assert_eq!(deps(Some(stale), &["node_modules/x"]), "outdated");
}

#[test]
fn scripts_say_why_there_are_none() {
    let mut m = meta("/home/bob/apps/api");
    let reason = |m: &AppMeta, pkg: Option<&str>| {
        let r = cmd_scripts("api", Some(m), pkg, false, None, &vec![], None);
        assert_eq!(r.body.get_text("deps").as_deref(), Some("unknown"));
        assert!(list_of(&r, "scripts").is_empty());
        r.body.get_text("reason").expect("a reason")
    };
    assert_eq!(reason(&m, None), "no_package_json");
    assert_eq!(reason(&m, Some("{")), "invalid_package_json");
    m.app_type = "rust".to_string();
    assert_eq!(reason(&m, Some("{}")), "not_node");
    let r = cmd_scripts("api", None, None, false, None, &vec![], None);
    assert_eq!(error_of(&r).1, "app_not_found");
    m.app_type = "node".to_string();
    let r = cmd_scripts("api", Some(&m), Some("{}"), false, None, &vec![], None);
    assert_eq!(r.body.get_text("deps").as_deref(), Some("none"));
}

// --- commands -------------------------------------------------------------

fn listed(name: &str, known: bool, s: AppStatus) -> ListedApp {
    ListedApp {
        name: name.to_string(),
        meta: if known { Some(meta("/c")) } else { None },
        status: s,
    }
}

#[test]
fn apps_are_listed_with_their_status() {
    let apps = vec![listed("api", true, UP), listed("bad", false, DOWN), listed("web", true, DOWN)];
    let r = cmd_list(&apps, None);
    match r.body.get("apps") {
        Some(Json::List(v)) => {
            assert_eq!(v.len(), 2);
            assert_eq!(v[0].get_text("name").as_deref(), Some("api"));
            assert_eq!(v[0].get_text("status").as_deref(), Some("RUNNING"));
            assert_eq!(v[0].get_number("pid"), Some(42));
            assert_eq!(v[0].get_number("started_at"), Some(1000));
            assert_eq!(v[0].get("created_at"), Some(&Json::Null));
            assert_eq!(v[0].get_text("node_version").as_deref(), Some("/usr/local/bin/node"));
            assert_eq!(v[1].get("pid"), Some(&Json::Null));
        }
        _ => panic!("no apps"),
    }
    assert_eq!(running_app_names(&apps), vec!["api"]);
    assert_eq!(cmd_status("api", true, UP, None).body.get_number("pid"), Some(42));
    assert_eq!(
        error_of(&cmd_status("api", false, DOWN, None)),
        (1, "app_not_found".to_string(), "app 'api' not found".to_string())
    );
    assert!(cmd_restart("api", true).is_none());
    assert!(cmd_restart("api", false).is_some());
}

#[test]
fn stopping_forgets_the_intent_to_run() {
    let m = meta("/c");
    let o = cmd_stop("/s/bob", "api", Some(&m), UP, &vec![43], None, false, None);
    assert_eq!(o.enabled_file.as_deref(), Some("/s/bob/.run/api.enabled"));
    assert!(o.sync);
    let plan = o.plan.expect("a plan");
    assert_eq!(plan.targets, vec![42, 43]);
    let o = cmd_stop("/s/bob", "api", Some(&m), DOWN, &vec![], None, false, None);
    assert!(o.plan.is_none() && o.enabled_file.is_none() && !o.sync);
    assert_eq!(o.response.exit, 0);
    let o = cmd_stop("/s/bob", "api", None, DOWN, &vec![], None, false, None);
    assert_eq!(o.response.exit, 1);
    assert_eq!(stop_step(true, false), StopStep::Wait);
    assert_eq!(stop_step(true, true), StopStep::Kill);
    assert_eq!(stop_step(false, false), StopStep::CleanUp);
}

#[test]
fn isolation_is_refused_where_it_cannot_be_had() {
    let e = switch_isolation("/s/bob", true, false, true).err().expect("refused");
    assert_eq!(e, ("sandbox_unavailable".to_string(), "errors.sandbox_no_bwrap".to_string()));
    let steps = switch_isolation("/s/bob", true, true, true).ok().expect("steps");
    assert_eq!(
        steps.list[0].change,
        Change::Write("/s/bob/isolated".to_string(), "1\n".to_string())
    );
    // Giving isolation up needs nothing.
    let steps = switch_isolation("/s/bob", false, false, false).ok().expect("steps");
    assert_eq!(
        steps.list[0].change,
        Change::Write("/s/bob/isolated".to_string(), "0\n".to_string())
    );
    let r = cmd_status_isolated(false, true, false, &strings(&["api"]), None);
    assert_eq!(r.body.get("supported"), Some(&Json::Bool(false)));
    assert_eq!(r.body.get_text("reason").as_deref(), Some("errors.sandbox_no_userns"));
    let r = cmd_status_isolated(true, true, true, &vec![], None);
    assert_eq!(r.body.get("reason"), Some(&Json::Null));
}

#[test]
fn every_app_of_a_switch_is_reported() {
    let r = |n: &str, b: bool| Restarted { name: n.to_string(), came_back: b };
    let s = switch_outcome(&vec![r("a", true), r("b", false), r("c", true)]);
    assert_eq!(s.restarted, vec!["a", "c"]);
    assert_eq!(s.failed, vec!["b"]);
    let answer = cmd_set_isolated(true, &s, None);
    assert_eq!(list_of(&answer, "restarted"), vec!["a", "c"]);
    assert_eq!(list_of(&answer, "failed"), vec!["b"]);
}

#[test]
fn settings_are_checked_before_they_are_told() {
    assert_eq!(
        error_of(&cmd_set_entry("api", true, "a/b", true, DOWN, None)).1,
        "invalid_entry"
    );
    assert_eq!(
        error_of(&cmd_set_entry("api", true, "app.mjs", false, DOWN, None)).2,
        "file 'app.mjs' not found in the application directory"
    );
    let r = cmd_set_entry("api", true, "app.mjs", true, UP, None);
    assert_eq!(r.body.get("restart_required"), Some(&Json::Bool(true)));
    assert_eq!(
        error_of(&cmd_set_node_version("api", true, "a\nb", DOWN, None)).1,
        "invalid_node_version"
    );
    assert_eq!(
        error_of(&cmd_set_memory_max("api", true, 15, DOWN, None)),
        (
            1,
            "invalid_memory_max".to_string(),
            "memory cap must be 0 (auto) or at least 16 MB".to_string()
        )
    );
    let r = cmd_set_memory_max("api", true, 16, UP, None);
    assert_eq!(r.body.get_number("memory_max"), Some(16 * 1024 * 1024));
    let r = cmd_set_memory_max("api", true, 0, DOWN, None);
    assert_eq!(r.body.get("memory_max"), Some(&Json::Null));
    let r = cmd_set_memory_max("api", true, u64::MAX, DOWN, None);
    assert_eq!(r.body.get_number("memory_max"), Some(u64::MAX));
    assert!(apply_memory_max("/s/bob", "api", 15, Some("a=1\n"), 7).is_none());
    let steps = apply_memory_max("/s/bob", "api", 16, Some("a=1\n"), 7).expect("steps");
    assert!(steps.list.iter().any(|s| s.change
        == Change::Write("/s/bob/.run/api.app".to_string(), "a=1\nmemory_max=16777216\n".to_string())));
}

#[test]
fn directories_are_deleted_only_inside_the_home() {
    let m = meta("/home/bob/apps/api");
    let run = |delete: bool, found: CwdFound| {
        cmd_remove("/s/bob", "api", delete, Some(&m), None, false, found, None)
    };
    let o = run(true, CwdFound::Symlink);
    assert_eq!(error_of(&o.response).1, "cwd_is_symlink");
    assert!(o.files.is_none() && o.records.is_some() && !o.sync);
    let o = run(true, CwdFound::Other { escapes_home: true });
    assert_eq!(error_of(&o.response).1, "cwd_outside_home");
    let o = run(true, CwdFound::Other { escapes_home: false });
    assert_eq!(
        o.files.expect("files").list[0].change,
        Change::RemoveTree("/home/bob/apps/api".to_string())
    );
    let o = run(false, CwdFound::Symlink);
    let files = o.files.expect("files");
    assert_eq!(
        files.list[0].change,
        Change::RemoveFile("/home/bob/apps/api/logs/api.out.log".to_string())
    );
    assert_eq!(files.list.len(), 2);
    let records = o.records.expect("records");
    assert!(records.list.iter().any(|s| s.change
        == Change::RemoveFile("/s/bob/.run/api.job.log".to_string())));
    assert!(records.list.iter().any(|s| s.change
        == Change::RemoveDir("/s/bob/.sockets/api".to_string())));
}

#[test]
fn domains_are_told_with_their_subdomains() {
    let r = cmd_domains(
        &vec![Domain { name: "x.test".to_string(), subdomains: strings(&["www"]) }],
        None,
    );
    match r.body.get("domains") {
        Some(Json::List(v)) => {
            assert_eq!(v[0].get_text("host").as_deref(), Some("x.test"));
            match v[0].get("subdomains") {
                Some(Json::List(s)) => {
                    assert_eq!(s[0].get_text("host").as_deref(), Some("www.x.test"))
                }
                _ => panic!("no subdomains"),
            }
        }
        _ => panic!("no domains"),
    }
}

// --- logs -----------------------------------------------------------------

#[test]
fn logs_are_shown_without_escapes_and_only_while_running() {
    let tail = strings(&["\u{1b}[2mhello\u{1b}[0m", "plain"]);
    assert_eq!(list_of(&cmd_logs("api", true, UP, &tail, None), "lines"), vec!["hello", "plain"]);
    assert!(list_of(&cmd_logs("api", true, DOWN, &tail, None), "lines").is_empty());
    assert_eq!(strip_ansi("a\u{1b}]0;title\u{7}b"), "ab");
    assert_eq!(log_file("/c", "api", true), "/c/logs/api.err.log");
}

#[test]
fn the_tail_of_a_log_is_its_last_lines() {
    let bytes = b"one\ntwo\nthree\n".to_vec();
    assert_eq!(read_tail(&bytes, true, 2), vec!["two", "three"]);
    assert_eq!(read_tail(&bytes, true, 9), vec!["one", "two", "three"]);
    assert!(read_tail(&bytes, true, 0).is_empty());
    // Bytes that are no text are replaced, not fatal.
    assert_eq!(read_tail(&b"a\xffb\n".to_vec(), true, 1), vec!["a\u{fffd}b"]);
    assert_eq!(count_newlines(&bytes), 3);
    let c = next_chunk(100, 0, 5).expect("more to read");
    assert_eq!(c.offset + c.len, 100);
    assert!(next_chunk(0, 0, 5).is_none());
    assert!(needs_rotation(50 * 1024 * 1024 + 1));
    assert!(!needs_rotation(1024));
    assert_eq!(rotated(&strings(&["a", "b"])), "a\nb\n");
}

#[test]
fn a_part_that_begins_within_a_character_is_read() {
    let log = "x\u{e9}y\nz\n".as_bytes().to_vec();
    let part = log[2..].to_vec();
    assert_eq!(part[0], 0xa9);
    assert_eq!(read_tail(&part, false, 1), vec!["z"]);
    assert_eq!(read_tail(&part, false, 2), vec!["y", "z"]);
    // All of a log is shown, even where it begins with what is no text.
    assert_eq!(read_tail(&part, true, 2), vec!["\u{fffd}y", "z"]);
}

// --- status ---------------------------------------------------------------

#[test]
fn a_process_is_the_app_only_when_it_is_its_own() {
    let status = "Uid:\t1001\t1001\t1001\t1001\n";
    let stat = "42 (node) S 1 42 42 0 -1 0 1 2 3 4 10 5 0 0 20 0 1 0 555 1 2 3";
    let meta = "uid=1001\nstarttime=555\nstarted_at=9\n";
    let s = get_status(Some("42\n"), 1001, Some(status), Some(meta), Some(stat));
    assert_eq!(s, AppStatus { pid: Some(42), started_at: Some(9) });
    // Somebody else's process.
    assert_eq!(get_status(Some("42\n"), 1002, Some(status), Some(meta), Some(stat)), DOWN);
    // The pid was given to another process since.
    let later = "uid=1001\nstarttime=556\n";
    assert_eq!(get_status(Some("42\n"), 1001, Some(status), Some(later), Some(stat)), DOWN);
    assert_eq!(get_status(Some("x\n"), 1001, Some(status), Some(meta), Some(stat)), DOWN);
    assert_eq!(get_status(None, 1001, None, None, None), DOWN);
    assert_eq!(admin_get_status(Some("42\n"), true, None).pid, Some(42));
    assert_eq!(admin_get_status(Some("42\n"), false, None), DOWN);
    let again = start_app_detached("bob", "api");
    assert_eq!(again.program, "/usr/local/directadmin/plugins/selynt_panel/bin/core-selynt");
    assert_eq!(again.args, vec!["start", "api"]);
}

// --- starting -------------------------------------------------------------

#[test]
fn scope_unit_name_is_namespaced_per_user_and_app() {
    assert_eq!(scope_unit_name("bob", "api"), "selynt-bob-api.scope");
    // Two users may run an app under the same name without colliding.
    assert_ne!(
        scope_unit_name("bob", "api"),
        scope_unit_name("alice", "api")
    );
}

#[test]
fn wrap_in_scope_keeps_program_and_args() {
    let mut inner = CommandLine::new("/usr/bin/node");
    inner.arg("--import");
    inner.arg("/tmp/loader.js");
    inner.arg("/app/i.js");
    let wrapped = wrap_in_scope(&inner, "bob", "api", 1003, 1003, None);

    assert_eq!(wrapped.program, "systemd-run");
    let args = &wrapped.args;
    assert!(args.contains(&"--scope".to_string()));
    assert!(args.contains(&"--collect".to_string()));
    assert!(args.contains(&"--unit=selynt-bob-api.scope".to_string()));
    // The real command has to survive the wrapping, in order.
    assert!(args.contains(&"/usr/bin/node".to_string()));
    assert!(args.contains(&"/app/i.js".to_string()));
    let node = args.iter().position(|a| a == "/usr/bin/node").unwrap();
    let entry = args.iter().position(|a| a == "/app/i.js").unwrap();
    assert!(node < entry, "argument order must be preserved");
}

#[test]
fn wrap_in_scope_drops_privileges_via_systemd() {
    let wrapped = wrap_in_scope(&CommandLine::new("/bin/true"), "bob", "api", 1003, 1004, None);
    assert!(wrapped.args.contains(&"--uid=1003".to_string()));
    assert!(wrapped.args.contains(&"--gid=1004".to_string()));
}

#[test]
fn wrap_in_scope_places_app_in_the_user_slice() {
    let limits = AppLimits {
        min: 64 * 1024 * 1024,
        high: 96 * 1024 * 1024,
        max: 128 * 1024 * 1024,
    };
    let wrapped =
        wrap_in_scope(&CommandLine::new("/bin/true"), "bob", "api", 1003, 1003, Some(limits));
    let args = &wrapped.args;
    assert!(args.contains(&"--slice=selynt-bob.slice".to_string()));
    assert!(args.contains(&"--property=MemoryMin=67108864".to_string()));
    assert!(args.contains(&"--property=MemoryHigh=100663296".to_string()));
    assert!(args.contains(&"--property=MemoryMax=134217728".to_string()));
}

#[test]
fn wrap_in_scope_omits_properties_without_limits() {
    let wrapped = wrap_in_scope(&CommandLine::new("/bin/true"), "bob", "api", 1003, 1003, None);
    assert!(!wrapped.args.iter().any(|a| a.starts_with("--property=Memory")));
}

#[test]
fn wrap_in_scope_carries_environment_over() {
    let mut inner = CommandLine::new("/bin/true");
    inner.env("SELYNT_SOCKET", "/run/app.sock");
    let wrapped = wrap_in_scope(&inner, "bob", "api", 1003, 1003, None);
    let found = wrapped
        .env
        .iter()
        .any(|(k, v)| k == "SELYNT_SOCKET" && v.as_deref() == Some("/run/app.sock"));
    assert!(found, "app env must reach the wrapped command");
}

fn facts(can_run_scopes: bool) -> SpawnFacts {
    SpawnFacts {
        env_file: Some("A=1\nB = 2\nnonsense\n".to_string()),
        socket_dir_exists: false,
        node_bin: "/usr/local/bin/node".to_string(),
        node_version: Some("v22.1.0".to_string()),
        confinement: Confinement {
            bwrap: Some("/opt/bwrap".to_string()),
            userns: true,
            system: strings(&["/usr"]),
        },
        can_run_scopes,
    }
}

#[test]
fn an_app_is_launched_in_its_scope_and_sandbox() {
    let m = meta("/home/bob/apps/api");
    let scope = Scope { username: "bob", uid: 1003, gid: 1004 };
    let (socket, plan) =
        spawn_into_scope(&m, "api", "/s/bob", scope, None, true, &facts(true)).expect("scopes");
    assert_eq!(socket, "/s/bob/.sockets/api/x.test");
    assert_eq!(plan.out_log, "/home/bob/apps/api/logs/api.out.log");
    assert_eq!(plan.display, "node /home/bob/apps/api/index.js");
    assert_eq!(plan.socket_dir.list.len(), 3);
    let cmd = plan.command.ok().expect("a command");
    assert_eq!(cmd.program, "systemd-run");
    assert_eq!(cmd.current_dir.as_deref(), Some("/home/bob/apps/api"));
    let at = |a: &str| cmd.args.iter().position(|x| x == a).expect("an argument");
    assert!(at("--uid=1003") < at("/opt/bwrap"));
    assert!(at("/opt/bwrap") < at("/usr/local/bin/node"));
    assert!(at("/usr/local/bin/node") < at("/home/bob/apps/api/index.js"));
    let env: Vec<(&str, Option<&str>)> =
        cmd.env.iter().map(|(k, v)| (k.as_str(), v.as_deref())).collect();
    assert_eq!(
        env,
        vec![
            ("SELYNT_SOCKET", Some("/s/bob/.sockets/api/x.test")),
            ("SELYNT_HOST", Some("/s/bob/.sockets/api/x.test")),
            ("A", Some("1")),
            ("B ", Some(" 2")),
        ]
    );
    let scope = Scope { username: "bob", uid: 1003, gid: 1004 };
    assert!(spawn_into_scope(&m, "api", "/s/bob", scope, None, true, &facts(false)).is_none());
}

#[test]
fn an_old_interpreter_is_refused() {
    let m = meta("/home/bob/apps/api");
    let mut f = facts(false);
    f.node_version = Some("v18.0.0".to_string());
    let plan = spawn_app(&m, "api", "/s/bob/.sockets/x.test", &None, None, false, &f);
    let e = plan.command.err().expect("refused");
    assert_eq!(
        error_of(&e),
        (
            1,
            "unsupported_node".to_string(),
            "Node.js v18.0.0 is not supported. Minimum: v20.6.0".to_string()
        )
    );
    let mut f = facts(false);
    f.confinement.userns = false;
    let plan = spawn_app(&m, "api", "/s/bob/.sockets/x.test", &None, None, true, &f);
    assert_eq!(error_of(&plan.command.err().expect("refused")).2, "errors.sandbox_no_userns");
    let mut rust = meta("/c");
    rust.app_type = "rust".to_string();
    let plan = spawn_app(&rust, "api", "/s", &None, None, false, &facts(false));
    assert_eq!(plan.command.ok().expect("a command").program, "/c/index.js");
    let mut plain = meta("/c");
    plain.node_version = String::new();
    assert_eq!(node_binary(&plain, false, true), "/usr/bin/node");
    assert_eq!(node_binary(&plain, false, false), "node");
    assert_eq!(load_env_file(None), vec![]);
    let cmd = CommandLine::new("/bin/true");
    assert!(apply_sandbox(cmd, false, "/c", "/s/x", &facts(false).confinement).is_ok());
    assert_eq!(error_of(&spawn_failed("node x", "denied")).2, "node x: denied");
    assert_eq!(error_of(&log_open_failed(true, "denied")).2, "stderr log: denied");
}

#[test]
fn a_start_is_refused_or_planned() {
    let m = meta("/c");
    let p = cmd_start("/s/bob", "api", Some(&m), DOWN, false, None).ok().expect("a plan");
    assert_eq!(p.socket, "/s/bob/.sockets/x.test");
    assert_eq!(p.marker, "/s/bob/.proxy/x.test");
    assert_eq!(p.pid_file, "/s/bob/.run/api.pid");
    assert_eq!(p.clear.list.len(), 2);
    let r = cmd_start("/s/bob", "api", Some(&m), UP, false, None).err().expect("an answer");
    assert_eq!((r.exit, r.body.get_number("pid")), (0, Some(42)));
    let mut bad = meta("/c");
    bad.entry = "../x".to_string();
    let r = cmd_start("/s/bob", "api", Some(&bad), DOWN, false, None).err().expect("refused");
    assert_eq!(error_of(&r).2, "entry contains path traversal — re-create the app");
    let mut bad = meta("/c");
    bad.host = "a/b".to_string();
    let r = cmd_start("/s/bob", "api", Some(&bad), DOWN, false, None).err().expect("refused");
    assert_eq!(error_of(&r).1, "invalid_host");
    let r = cmd_start("/s/bob", "api", None, DOWN, false, None).err().expect("refused");
    assert_eq!(error_of(&r).1, "app_not_found");
    assert_eq!(start_answer(Some(7), None).body.get_number("pid"), Some(7));
}

#[test]
fn a_run_is_recorded_and_published() {
    let steps = persist_pid("/r/api.pid", 42);
    assert_eq!(
        steps.list[0].change,
        Change::Write("/r/api.pid".to_string(), "42\n".to_string())
    );
    let steps = persist_state("/r/api.meta", 1001, Some(555), 9, "/s/x");
    assert_eq!(
        steps.list[0].change,
        Change::Write(
            "/r/api.meta".to_string(),
            "uid=1001\nstarttime=555\nstarted_at=9\nsocket=/s/x\n".to_string()
        )
    );
    let p = publish_route("/s/bob", "api", "/s/bob/.proxy/x.test");
    assert_eq!(
        p.marker.list[0].change,
        Change::Write("/s/bob/.proxy/x.test".to_string(), String::new())
    );
    assert!(p.marker.list[0].must);
    assert_eq!(
        p.enabled.list[1].change,
        Change::SetMode("/s/bob/.run/api.enabled".to_string(), 0o600)
    );
    assert!(!p.enabled.list[0].must);
    assert_eq!(pids_of_app(vec![], 7), vec![7]);
    assert_eq!(pids_of_app(vec![8, 9], 7), vec![8, 9]);
}

fn look() -> Look {
    Look { there: false, too_late: false, external_port: false, alive: true, snapshot: None }
}

const CTX: WaitContext<'static> =
    WaitContext { socket: "/s/x", pid_file: "/r/p", meta_file: "/r/m" };

fn failure(step: WaitStep) -> (Ending, Vec<String>, String) {
    match step {
        WaitStep::Failed(f) => {
            let code = error_of(&f.response).1;
            (f.ending, f.cleanup, code)
        }
        _ => panic!("must fail"),
    }
}

#[test]
fn waiting_for_the_socket_ends_in_every_way() {
    let w = Watch::begin(None);
    assert!(matches!(
        wait_for_socket_file(&CTX, w, Look { there: true, ..look() }),
        WaitStep::Ready
    ));
    assert!(matches!(wait_for_socket_file(&CTX, w, look()), WaitStep::Again(_)));
    let (ending, cleanup, code) =
        failure(wait_for_socket_file(&CTX, w, Look { too_late: true, ..look() }));
    assert_eq!(ending, Ending::Kill);
    assert_eq!(cleanup, vec!["/r/p", "/r/m"]);
    assert_eq!(code, "socket_timeout");
    let (ending, _, code) =
        failure(wait_for_socket_file(&CTX, w, Look { external_port: true, ..look() }));
    assert_eq!((ending, code.as_str()), (Ending::TermThenKill, "network_port_forbidden"));
    let (ending, _, code) = failure(wait_for_socket_file(&CTX, w, Look { alive: false, ..look() }));
    assert_eq!((ending, code.as_str()), (Ending::Nothing, "process_exited"));
    let (_, cleanup, code) =
        failure(wait_for_socket_accept(&CTX, w, Look { too_late: true, there: true, ..look() }));
    assert_eq!(code, "socket_not_accepting");
    assert_eq!(cleanup, vec!["/r/p", "/r/m", "/s/x"]);
    assert!(matches!(
        wait_for_socket_accept(&CTX, w, Look { there: true, ..look() }),
        WaitStep::Ready
    ));
    assert!(refuse_external_port(&CTX, false).is_none());
    assert!(refuse_external_port(&CTX, true).is_some());
}

#[test]
fn a_start_is_published_only_when_it_answers() {
    let step = |phase, event| match start_step(&CTX, phase, &event) {
        Course::On(next) => next,
        Course::Failed(f) => panic!("failed: {:?}", f.response),
    };
    let p = step(Phase::RecordPid, Event::Done);
    let p = step(p, Event::Done);
    let p = step(p, Event::Saw(None));
    assert!(matches!(p, Phase::AwaitFile(_)));
    let p = step(p, Event::Looked(look()));
    assert!(matches!(p, Phase::AwaitFile(_)));
    let p = step(p, Event::Looked(Look { there: true, ..look() }));
    let p = step(p, Event::Saw(None));
    assert!(matches!(p, Phase::AwaitAccept(_)));
    let p = step(p, Event::Looked(Look { there: true, ..look() }));
    assert!(matches!(p, Phase::LastLook));
    let p = step(p, Event::Looked(look()));
    assert!(matches!(p, Phase::Publish));
    let p = step(step(step(step(p, Event::Done), Event::Done), Event::Done), Event::Done);
    assert!(matches!(p, Phase::Up));

    let why = |phase, event| match start_step(&CTX, phase, &event) {
        Course::On(_) => panic!("must fail"),
        Course::Failed(f) => (f.ending, f.cleanup, error_of(&f.response).1),
    };
    let failed = || Event::Failed("denied".to_string());
    let none: Vec<String> = vec![];
    assert_eq!(
        why(Phase::RecordPid, failed()),
        (Ending::Kill, none.clone(), "state_write_failed".to_string())
    );
    assert_eq!(
        why(Phase::RecordRun, failed()),
        (Ending::Kill, strings(&["/r/p"]), "state_write_failed".to_string())
    );
    assert_eq!(
        why(Phase::Publish, failed()),
        (Ending::Nothing, none, "marker_failed".to_string())
    );
    assert_eq!(
        why(Phase::LastLook, Event::Looked(Look { external_port: true, ..look() })).2,
        "network_port_forbidden"
    );
}

#[test]
fn a_process_is_stuck_after_four_idle_snapshots() {
    let idle = Some(ProcessSnapshot { cpu_ticks: 5, rss_kb: 100 });
    let mut w = Watch::begin(idle);
    for _ in 0..3 {
        match wait_for_socket_file(&CTX, w, Look { snapshot: Some(idle), ..look() }) {
            WaitStep::Again(next) => w = next,
            _ => panic!("too early"),
        }
    }
    let (ending, _, code) =
        failure(wait_for_socket_file(&CTX, w, Look { snapshot: Some(idle), ..look() }));
    assert_eq!((ending, code.as_str()), (Ending::Kill, "socket_stuck"));
    // Work done at any point starts the count over.
    let busy = Some(ProcessSnapshot { cpu_ticks: 6, rss_kb: 100 });
    match wait_for_socket_accept(&CTX, w, Look { snapshot: Some(busy), ..look() }) {
        WaitStep::Again(next) => assert_eq!(next.stuck, 0),
        _ => panic!("it made progress"),
    }
    assert_eq!(next_stuck_count(2, idle, idle), 3);
    assert_eq!(next_stuck_count(2, idle, None), 0);
}

// --- jobs -----------------------------------------------------------------

fn npm(kind: Kind, script: &str, args: &[&str]) -> CommandLine {
    build_inner(&meta("/home/bob/apps/api"), kind, script, &strings(args), false, false)
}

#[test]
fn only_known_commands_are_accepted() {
    for k in ["install", "update", "ci", "run"] {
        assert!(Kind::parse(k).is_some(), "{k} should be accepted");
    }
    for k in ["exec", "publish", "login", "install --force", ""] {
        assert!(Kind::parse(k).is_none(), "{k:?} should be refused");
    }
}

#[test]
fn dependency_commands_run_without_package_scripts() {
    for k in [Kind::Install, Kind::Update, Kind::Ci] {
        let c = npm(k, "", &[]);
        assert!(
            c.args.contains(&"--ignore-scripts".to_string()),
            "{} should ignore scripts",
            k.npm_arg()
        );
    }
}

#[test]
fn running_the_customers_own_script_keeps_scripts_enabled() {
    let c = npm(Kind::Run, "build", &[]);
    assert!(!c.args.contains(&"--ignore-scripts".to_string()));
}

#[test]
fn user_arguments_go_after_the_separator() {
    let c = npm(Kind::Run, "build", &["--production"]);
    let sep = c.args.iter().position(|x| x == "--").expect("no separator");
    let arg = c.args.iter().position(|x| x == "--production").expect("no argument");
    assert!(sep < arg, "the argument has to come after the separator");
}

#[test]
fn command_is_confined_to_the_application_directory() {
    let inner = npm(Kind::Install, "", &[]);
    let c = wrap_command_with("/opt/bwrap", &inner, "/home/bob/apps/api", &system_path_list());
    let a = &c.args;
    assert!(
        a.windows(3).any(|w| w == ["--bind", "/home/bob/apps/api", "/home/bob/apps/api"]),
        "the app's directory is not bound"
    );
    assert!(a.contains(&"--unshare-pid".to_string()));
    assert!(!a.iter().any(|x| x.contains("/home/bob/apps/outro")));
}

#[test]
fn only_dependency_commands_require_the_app_stopped() {
    assert!(Kind::Install.rewrites_tree());
    assert!(Kind::Update.rewrites_tree());
    assert!(Kind::Ci.rewrites_tree());
    assert!(!Kind::Run.rewrites_tree());
}

#[test]
fn npm_runs_beside_its_interpreter() {
    let c = npm(Kind::Ci, "", &[]);
    assert_eq!(c.program, "/usr/local/bin/npm");
    assert_eq!(c.env[0].1.as_deref(), Some("/usr/local/bin:/usr/bin:/bin"));
    assert_eq!(c.current_dir.as_deref(), Some("/home/bob/apps/api"));
    let m = meta("/home/bob/apps/api");
    let confinement = facts(false).confinement;
    let c = build_command(&m, Kind::Run, "build", &vec![], false, false, &confinement)
        .ok()
        .expect("confined");
    assert_eq!(c.program, "/opt/bwrap");
    assert_eq!(c.current_dir.as_deref(), Some("/home/bob/apps/api"));
    let nothing = Confinement { bwrap: None, userns: true, system: vec![] };
    let e = build_command(&m, Kind::Run, "build", &vec![], false, false, &nothing)
        .err()
        .expect("refused");
    assert_eq!(e.exit, 2);
}

#[test]
fn jobs_are_refused_in_order() {
    let m = meta("/c");
    let ask = |meta: Option<&AppMeta>, kind: &str, script: &str, args: &str, s: AppStatus, state: Option<&str>| {
        cmd_run_job("api", meta, kind, script, args, s, state)
    };
    let why = |r: Result<core_selynt::app::job::JobPlan, Response>| match r {
        Err(e) => error_of(&e).1,
        Ok(_) => panic!("must be refused"),
    };
    assert_eq!(why(ask(None, "ci", "", "", DOWN, None)), "app_not_found");
    let mut rust = meta("/c");
    rust.app_type = "rust".to_string();
    assert_eq!(why(ask(Some(&rust), "ci", "", "", DOWN, None)), "not_node");
    assert_eq!(why(ask(Some(&m), "exec", "", "", DOWN, None)), "invalid_command");
    assert_eq!(why(ask(Some(&m), "run", "a b", "", DOWN, None)), "invalid_script");
    assert_eq!(why(ask(Some(&m), "run", "build", "-x", DOWN, None)), "invalid_arguments");
    assert_eq!(why(ask(Some(&m), "install", "", "", UP, None)), "app_running");
    let busy = "{\"status\":\"running\",\"command\":\"npm ci\",\"started_at\":5}";
    assert_eq!(why(ask(Some(&m), "install", "", "", DOWN, Some(busy))), "job_running");
    assert_eq!(why(plan_job("api", Some(&m), "ci", "", "", DOWN, true)), "job_running");
    let done = "{\"status\":\"ok\"}";
    let p = ask(Some(&m), "run", "build", "a b", UP, Some(done)).ok().expect("a plan");
    assert_eq!(p.label, "npm run build");
    assert_eq!(p.args, vec!["a", "b"]);
    assert_eq!(label(Kind::Ci, ""), "npm ci");
    assert!(ask(Some(&m), "ci", "", "", DOWN, Some("not json")).is_ok());
    assert_eq!(job_started("npm ci", None).body.get_text("command").as_deref(), Some("npm ci"));
    assert_eq!(error_of(&fork_failed("no memory")).2, "could not start the command: no memory");
}

#[test]
fn a_job_ends_by_itself_or_by_the_clock() {
    assert_eq!(run_to_completion(ChildPoll::Running, 899), RunStep::Wait);
    assert_eq!(
        run_to_completion(ChildPoll::Running, 900),
        RunStep::Kill { code: -1, timed_out: true }
    );
    assert_eq!(
        run_to_completion(ChildPoll::Ended(Some(3)), 1000),
        RunStep::Done { code: 3, timed_out: false }
    );
    assert_eq!(
        run_to_completion(ChildPoll::Ended(None), 0),
        RunStep::Done { code: -1, timed_out: false }
    );
    let s = finished_state("npm ci", 5, 9, -1, true);
    assert_eq!(s.get_text("status").as_deref(), Some("timeout"));
    assert_eq!(s.get("exit_code"), Some(&Json::Other("-1".to_string())));
    assert_eq!(finished_state("x", 0, 0, 0, false).get_text("status").as_deref(), Some("ok"));
    assert_eq!(finished_state("x", 0, 0, 1, false).get_text("status").as_deref(), Some("failed"));
    assert_eq!(running_state("x", 5, Some(7)).get_number("pid"), Some(7));
    assert_eq!(running_state("x", 5, None).get("pid"), None);
    let steps = write_state("/s/bob/.run/api.job", 7, &running_state("npm ci", 5, Some(9)));
    assert_eq!(
        steps.list[0].change,
        Change::Write(
            "/s/bob/.run/api.job".to_string(),
            "{\"command\":\"npm ci\",\"pid\":9,\"started_at\":5,\"status\":\"running\"}".to_string()
        )
    );
    assert_eq!(steps.list[1].change, Change::SetMode("/s/bob/.run/api.job".to_string(), 0o640));
}

#[test]
fn a_job_is_interrupted_by_its_group() {
    let running = "{\"status\":\"running\",\"command\":\"npm ci\",\"started_at\":5,\"pid\":77}";
    let s = cmd_stop_job("api", true, Some(running)).ok().expect("a target");
    assert_eq!(s.target, StopTarget { group: -77, pid: 77 });
    let stopped = stopped_state(&s.job, 9);
    assert_eq!(stopped.get_text("command").as_deref(), Some("npm ci"));
    assert_eq!(stopped.get_number("started_at"), Some(5));
    let why = |text: Option<&str>| match cmd_stop_job("api", true, text) {
        Err(e) => error_of(&e).2,
        Ok(_) => panic!("nothing to stop"),
    };
    assert_eq!(why(None), "no command is running");
    assert_eq!(why(Some("{")), "no command is running");
    assert_eq!(why(Some("{\"status\":\"ok\"}")), "no command is running");
    assert_eq!(
        why(Some("{\"status\":\"running\"}")),
        "the running command has no process to stop"
    );
    assert!(cmd_stop_job("api", false, Some(running)).is_err());
    assert_eq!(stop_job_step(false, 1), StopJobStep::Done);
    assert_eq!(stop_job_step(true, 24), StopJobStep::Wait);
    assert_eq!(stop_job_step(true, 25), StopJobStep::Kill);
    assert_eq!(job_stopped(None).body.get("stopped"), Some(&Json::Bool(true)));
}

#[test]
fn a_written_job_is_read_back() {
    let running = show(&running_state("npm run \"é\"\n", 5, Some(77)));
    let s = cmd_stop_job("api", true, Some(&running)).ok().expect("it runs");
    assert_eq!(s.target.pid, 77);
    assert_eq!(s.job.get_text("command").as_deref(), Some("npm run \"é\"\n"));
    for ended in [
        show(&finished_state("npm ci", 5, 9, -1, true)),
        show(&finished_state("npm ci", u64::MAX, 9, 0, false)),
        show(&stopped_state(&s.job, 9)),
    ] {
        assert!(cmd_stop_job("api", true, Some(&ended)).is_err(), "{ended} has ended");
        let m = meta("/c");
        assert!(cmd_run_job("api", Some(&m), "ci", "", "", DOWN, Some(&ended)).is_ok());
    }
    let m = meta("/c");
    assert!(cmd_run_job("api", Some(&m), "ci", "", "", DOWN, Some(&running)).is_err());
    let nested = Json::Obj(vec![
        ("b".to_string(), Json::List(vec![Json::Null, Json::Other("-1.5".to_string())])),
        ("a".to_string(), Json::Bool(true)),
    ]);
    assert_eq!(show(&nested), "{\"a\":true,\"b\":[null,-1.5]}");
}

#[test]
fn a_job_is_shown_with_its_output() {
    let r = cmd_job_status(
        "api",
        true,
        Some("{\"status\":\"ok\",\"ratio\":1.5}"),
        &strings(&["\u{1b}[1madded\u{1b}[0m 3"]),
        None,
    );
    let job = r.body.get("job").expect("a job");
    assert_eq!(job.get_text("status").as_deref(), Some("ok"));
    assert_eq!(job.get("ratio"), Some(&Json::Other("1.5".to_string())));
    assert_eq!(job.get("lines"), Some(&Json::List(vec![Json::Str("added 3".to_string())])));
    let r = cmd_job_status("api", true, None, &vec![], None);
    assert_eq!(r.body.get("job"), Some(&Json::Null));
    let r = cmd_job_status("api", true, Some("[1, true]"), &vec![], None);
    assert_eq!(r.body.get("job"), Some(&Json::List(vec![Json::Num(1), Json::Bool(true)])));
    assert_eq!(cmd_job_status("api", false, None, &vec![], None).exit, 1);
}

// --- boot -----------------------------------------------------------------

#[test]
fn only_enabled_apps_come_back_at_boot() {
    let s = boot_step("/s/bob", "bob", "api", false, Some("42\n"), false);
    assert!(!s.start && s.line.is_none());
    let s = boot_step("/s/bob", "bob", "api", true, Some("42\n"), true);
    assert!(!s.start);
    assert_eq!(s.line.as_deref(), Some("skip: bob/api already running"));
    let s = boot_step("/s/bob", "bob", "api", true, Some("42\n"), false);
    assert!(s.start);
    assert_eq!(s.stale_pid_file.as_deref(), Some("/s/bob/.run/api.pid"));
    assert_eq!(s.line.as_deref(), Some("start: bob/api"));
    assert!(!already_running(Some("x"), true));
    let r = |n: &str, ok: bool| Recovered {
        username: "bob".to_string(),
        name: n.to_string(),
        came_up: ok,
    };
    assert_eq!(outcome_line(&r("api", true)), "ok: bob/api");
    assert_eq!(outcome_line(&r("api", false)), "fail: bob/api");
    let started = recover_all(&vec![r("api", true), r("web", false)]);
    assert_eq!(started, vec!["bob/api"]);
    assert_eq!(cmd_boot_recover(&started, None).body.get_number("started"), Some(1));
    assert_eq!(log_line(5, "x"), "[5] x\n");
    assert_eq!(scanning_line(), "boot-recover: scanning /var/lib/selynt_panel");
    assert_eq!(DONE_LINE, "boot-recover: done");
}

#[test]
fn a_registration_creates_the_file_before_it_writes() {
    let none: Vec<String> = Vec::new();
    let a = args(&none, Some("/base/home/apps/api"));
    let found: Vec<Option<String>> =
        paths_to_resolve("/base/home/apps/api").into_iter().map(Some).collect();
    let steps = create_for_add(
        "/s/bob", &a, 7, 99, false, Some("/base/home"), Some("/base/home"), &found,
    )
    .ok()
    .expect("registered");
    assert_eq!(steps.list[0].change, Change::Create("/s/bob/.run/api.app".to_string()));
    assert!(steps.list[0].must);
    assert_eq!(steps.list.len(), 4);
    let late = create_failed("/s/bob", "api", "bob", 0, true, "create".to_string());
    assert_eq!(
        late.error,
        ("app_exists".to_string(), "app 'api' already exists".to_string())
    );
    assert!(late.cleanup.list.is_empty());
    let full = create_failed("/s/bob", "api", "bob", 1, false, "disk full".to_string());
    assert_eq!(full.error, ("write_failed".to_string(), "disk full".to_string()));
    assert_eq!(
        full.cleanup.list[0].change,
        Change::RemoveFile("/s/bob/.run/api.app".to_string())
    );
    let denied = create_failed("/s/bob", "api", "bob", 0, false, "denied".to_string());
    assert_eq!(denied.error, ("write_failed".to_string(), "denied".to_string()));
    assert!(denied.cleanup.list.is_empty());
}

#[test]
fn what_the_checks_refuse_is_not_registered() {
    let none: Vec<String> = Vec::new();
    let cwd = "/base/home/apps/api";
    let found: Vec<Option<String>> = paths_to_resolve(cwd).into_iter().map(Some).collect();
    let code = |a: &AddArgs<'_>| {
        create_for_add("/s/bob", a, 7, 99, false, Some("/base/home"), Some("/base/home"), &found)
            .err()
            .map(|e| e.message(a.name, "bob").0)
    };
    let with = |change: fn(&mut AddArgs<'_>)| {
        let mut a = args(&none, Some(cwd));
        change(&mut a);
        code(&a)
    };
    assert_eq!(with(|_| {}), None);
    assert_eq!(with(|a| a.name = "../../x").as_deref(), Some("invalid_name"));
    assert_eq!(with(|a| a.entry = "a/b").as_deref(), Some("invalid_entry"));
    assert_eq!(with(|a| a.entry = "x\nhost=evil").as_deref(), Some("invalid_entry"));
    assert_eq!(with(|a| a.host = "x\ncwd=/").as_deref(), Some("invalid_host"));
    assert_eq!(with(|a| a.domain = Some("x\ny")).as_deref(), Some("invalid_domain"));
    assert_eq!(with(|a| a.node_version = Some("x\ry")).as_deref(), Some("invalid_node_version"));
}

#[test]
fn a_value_that_leaves_its_line_is_not_written() {
    let e = update_key("/s/bob", "api", Some("k=1\n"), "node_version", "x\ntype=rust", 7)
        .err()
        .expect("refused");
    assert_eq!(e.0, "invalid_node_version");
    assert_eq!(e.1, "node_version must not contain newlines or null bytes");
    let r = cmd_set_entry(
        "api",
        true,
        "x\nhost=evil",
        true,
        AppStatus { pid: None, started_at: None },
        None,
    );
    assert_eq!(r.exit, 1);
}

#[test]
fn a_switch_restarts_what_is_running() {
    let app = |name: &str, pid: Option<u32>, loaded: bool| SwitchedApp {
        name: name.to_string(),
        status: AppStatus { pid, started_at: None },
        loaded,
    };
    let apps = vec![
        app("a", Some(1), true),
        app("b", None, true),
        app("c", Some(2), false),
        app("d", Some(3), true),
    ];
    assert_eq!(apps_to_restart(&apps), vec!["a", "d"]);
}

#[test]
fn rewriting_keeps_lines_that_end_in_a_return() {
    // The file's `\r\r\n` is a return and a line ending; it is written as one.
    let out = rewrite_key(Some("a=1\r\r\nb=2\n"), "b", "3");
    assert_eq!(out.as_deref(), Some("a=1\r\nb=3\n"));
    let out = rewrite_key(Some("a=1\n"), "", "x");
    assert_eq!(out.as_deref(), Some("a=1\n=x\n"));
}
