//! Memory limits, sandboxes and the sweep for open ports.

use core_selynt::command::CommandLine;
use core_selynt::limits::netguard::{
    report, stop_app_tree, stop_is_over, sweep_account, sweep_all_accounts, Swept, SweptAccount,
};
use core_selynt::limits::policy::{
    app_limits, can_run_scopes, slice_cap, slice_cgroup, slice_unit_name, FLOOR,
};
use core_selynt::limits::sandbox::{
    available, system_path_list, unavailable_reason, user_namespaces_enabled, wrap, wrap_command,
    wrap_with,
};
use core_selynt::limits::usage::{
    app_limits_for, cmd_stats, da_limit, ensure_slice_cap, parse_cpu_quota, parse_memory_limit,
    read_da_limits, read_scope_usage, read_total_kb, reapply_app_limits,
    reapply_app_limits_excluding, scope_cgroup, scope_pids, DaLimits, ScopeFiles, Sibling,
};
use core_selynt::sys::output::Json;
use core_selynt::sys::state::AppMeta;

const MB: u64 = 1024 * 1024;
const GB: u64 = 1024 * MB;
const BWRAP: &str = "/opt/bwrap";

fn meta() -> AppMeta {
    AppMeta {
        name: "api".to_string(),
        app_type: "node".to_string(),
        cwd: "/home/bob/apps/api".to_string(),
        entry: "index.js".to_string(),
        host: "x.test".to_string(),
        domain: String::new(),
        subdomain: String::new(),
        node_version: String::new(),
        created_at: None,
        memory_max: None,
    }
}

// --- policy ---------------------------------------------------------------

#[test]
fn lone_app_can_reach_most_of_the_pool() {
    let l = app_limits(GB, 1, None);
    assert_eq!(l.max, GB * 80 / 100);
    assert!(l.max > GB / 2);
}

#[test]
fn two_apps_can_each_exceed_a_fair_half() {
    let l = app_limits(GB, 2, None);
    assert!(l.max > GB / 2, "max {} should exceed half the pool", l.max);
    assert_eq!(l.min, GB / 2, "the guarantee is still the fair share");
}

#[test]
fn guaranteed_minimum_never_below_node_floor() {
    // 10 apps in a 200 MB pool: a fair share would be 20 MB, too little for
    // Node to start.
    let l = app_limits(200 * MB, 10, None);
    assert_eq!(l.min, FLOOR);
}

#[test]
fn pin_only_narrows() {
    let open = app_limits(GB, 1, None);

    // Above the elastic ceiling: no effect, the account still rules.
    let high_pin = app_limits(GB, 1, Some(2 * GB));
    assert_eq!(high_pin.max, open.max);

    // Below it: the app is held to what the user asked for.
    let low_pin = app_limits(GB, 1, Some(100 * MB));
    assert_eq!(low_pin.max, 100 * MB);
    assert!(low_pin.min <= low_pin.max);
}

#[test]
fn high_sits_below_max_and_at_or_above_min() {
    for (pool, running, pin) in [
        (GB, 1, None),
        (GB, 4, None),
        (200 * MB, 10, None),
        (GB, 2, Some(16 * MB)),
        (64 * MB, 1, Some(16 * MB)),
        (16 * MB, 8, None),
    ] {
        let l = app_limits(pool, running, pin);
        assert!(
            l.min <= l.high && l.high <= l.max,
            "invariant broken for pool={pool} running={running} pin={pin:?}: {l:?}"
        );
    }
}

#[test]
fn slice_cap_is_the_whole_account() {
    assert_eq!(slice_cap(GB), GB);
}

#[test]
fn slice_unit_is_namespaced_per_account() {
    assert_eq!(slice_unit_name("bob"), "selynt-bob.slice");
    assert_ne!(slice_unit_name("bob"), slice_unit_name("alice"));
    assert!(slice_cgroup("bob").ends_with("selynt-bob.slice"));
}

#[test]
fn scopes_need_a_manager_and_the_command() {
    assert!(can_run_scopes(true, true, false));
    assert!(can_run_scopes(true, false, true));
    assert!(!can_run_scopes(true, false, false));
    assert!(!can_run_scopes(false, true, true));
}

// --- sandbox --------------------------------------------------------------

#[test]
fn keeps_program_and_args() {
    let mut inner = CommandLine::new("/usr/local/bin/node");
    inner.arg("--import");
    inner.arg("/x/loader.js");
    inner.arg("/app/i.js");

    let wrapped = wrap_with(BWRAP, &inner, "/app", "/sock", &system_path_list());
    let args = &wrapped.args;

    assert!(args.contains(&"/usr/local/bin/node".to_string()));
    assert!(args.contains(&"/app/i.js".to_string()));
    assert!(args.windows(3).any(|w| w == ["--bind", "/app", "/app"]));
    assert_eq!(wrapped.program, BWRAP);
}

#[test]
fn carries_environment_over() {
    let mut inner = CommandLine::new("/bin/true");
    inner.env("SELYNT_SOCKET", "/sock/app.sock");

    let wrapped = wrap_with(BWRAP, &inner, "/app", "/sock", &system_path_list());
    let found = wrapped
        .env
        .iter()
        .any(|(k, v)| k == "SELYNT_SOCKET" && v.as_deref() == Some("/sock/app.sock"));
    assert!(found);
}

#[test]
fn binds_only_the_apps_own_directory() {
    let wrapped = wrap_with(
        BWRAP,
        &CommandLine::new("/bin/true"),
        "/home/bob/apps/api",
        "/state/bob/.sockets/api",
        &system_path_list(),
    );
    let args = &wrapped.args;

    let rw_binds: Vec<&String> = args
        .iter()
        .enumerate()
        .filter(|(i, _)| i > &0 && args[i - 1] == "--bind")
        .map(|(_, a)| a)
        .collect();
    assert_eq!(
        rw_binds.len(),
        2,
        "only app dir and socket dir: {rw_binds:?}"
    );
    assert!(!args.iter().any(|a| a == "/home/bob/apps"));
}

#[test]
fn unavailable_reason_names_the_actual_cause() {
    assert_eq!(unavailable_reason(false, true), "errors.sandbox_no_bwrap");
    assert_eq!(unavailable_reason(false, false), "errors.sandbox_no_bwrap");
    // bwrap is installed, so what is missing is namespace support.
    assert_eq!(unavailable_reason(true, false), "errors.sandbox_no_userns");
    // Both present: unavailability has some other cause.
    assert_eq!(unavailable_reason(true, true), "errors.sandbox_unavailable");
}

#[test]
fn a_missing_sandbox_is_never_passed_over() {
    let cmd = CommandLine::new("/bin/true");
    match wrap(None, true, &cmd, "/app", "/sock", &vec![]) {
        Err(e) => {
            assert_eq!(e.exit, 2);
            assert_eq!(e.body.get_text("error").as_deref(), Some("sandbox_unavailable"));
        }
        Ok(_) => panic!("must not run outside the sandbox"),
    }
    assert!(wrap_command(None, true, &cmd, "/app", &vec![]).is_err());
    assert!(wrap_command(Some(BWRAP), true, &cmd, "/app", &vec![]).is_ok());
    assert!(available(true, true));
    assert!(!available(true, false));
    assert!(!available(false, true));
    assert!(!user_namespaces_enabled(Some("0\n")));
    assert!(user_namespaces_enabled(Some("63432\n")));
}

// --- usage ----------------------------------------------------------------

#[test]
fn scope_path_matches_the_unit_created_at_start() {
    assert_eq!(
        scope_cgroup("bob", "api", false),
        "/sys/fs/cgroup/system.slice/selynt-bob-api.scope"
    );
}

#[test]
fn parses_systemd_memory_suffixes() {
    assert_eq!(parse_memory_limit("512M"), Some(512 * 1024 * 1024));
    assert_eq!(parse_memory_limit("2G"), Some(2 * 1024 * 1024 * 1024));
    assert_eq!(parse_memory_limit("1024"), Some(1024));
    assert_eq!(parse_memory_limit("infinity"), None);
    assert_eq!(parse_memory_limit(""), None);
}

#[test]
fn parses_cpu_quota_with_and_without_sign() {
    assert_eq!(parse_cpu_quota("50%"), Some(50));
    // Above 100% means more than a single core.
    assert_eq!(parse_cpu_quota("150%"), Some(150));
    assert_eq!(parse_cpu_quota("bogus"), None);
}

#[test]
fn an_empty_key_does_not_hide_a_later_value() {
    let conf = "wordpress=ON\nMemoryMax=\nzoom=100\nMemoryMax=1G\n";
    assert_eq!(da_limit(conf, "MemoryMax").as_deref(), Some("1G"));
    assert_eq!(read_da_limits(Some(conf)).memory_max, Some(GB));
}

#[test]
fn no_value_anywhere_means_no_limit() {
    let conf = "wordpress=ON\nMemoryMax=\n";
    assert_eq!(da_limit(conf, "MemoryMax"), None);
    assert_eq!(read_da_limits(Some(conf)).memory_max, None);
}

fn sibling(name: &str, live: bool, pin: Option<u64>) -> Sibling {
    Sibling { name: name.to_string(), live, loaded: true, pin }
}

#[test]
fn running_siblings_share_the_allowance() {
    let apps = vec![sibling("api", true, None), sibling("web", true, None), sibling("old", false, None)];
    let l = app_limits_for(Some(GB), "api", None, &apps).expect("an allowance");
    assert_eq!(l, app_limits(GB, 2, None));
    assert_eq!(app_limits_for(None, "api", None, &apps), None);
}

#[test]
fn limits_are_pushed_onto_running_apps_only() {
    let apps = vec![sibling("api", true, None), sibling("old", false, None)];
    let cmds = reapply_app_limits(true, "bob", Some(GB), &apps);
    assert_eq!(cmds.len(), 1);
    assert_eq!(cmds[0].program, "systemctl");
    assert_eq!(
        cmds[0].args[..3],
        ["set-property", "--runtime", "selynt-bob-api.scope"]
    );
    assert!(cmds[0].args.contains(&format!("MemoryMax={}", GB * 80 / 100)));
    assert!(reapply_app_limits(false, "bob", Some(GB), &apps).is_empty());
    // An app that leaves keeps nothing back.
    assert!(reapply_app_limits_excluding(true, "bob", Some(GB), &apps, "api").is_empty());
    let cap = ensure_slice_cap(true, "bob", Some(GB)).expect("a command");
    assert_eq!(cap.args[3], "MemoryMax=1073741824");
    let none = ensure_slice_cap(true, "bob", None).expect("a command");
    assert_eq!(none.args[3], "MemoryMax=infinity");
}

#[test]
fn usage_is_read_from_the_cgroup() {
    let files = ScopeFiles {
        memory_stat: Some("anon 4096\nfile 1\n".to_string()),
        memory_current: Some("9999\n".to_string()),
        cpu_stat: Some("usage_usec 77\n".to_string()),
        pids_current: Some("3\n".to_string()),
    };
    let u = read_scope_usage(true, &files).expect("live");
    assert_eq!((u.memory_bytes, u.cpu_usec), (4096, 77));
    assert!(read_scope_usage(false, &files).is_none());
    assert_eq!(scope_pids("12\nx\n34\n"), vec![12, 34]);
    assert_eq!(read_total_kb(&Some("MemTotal:  2048 kB\n".to_string())), Some(2048));
}

#[test]
fn stats_of_an_unknown_app_are_refused() {
    let probe = core_selynt::limits::usage::StatsProbe {
        running: false,
        scope_exists: false,
        files: ScopeFiles {
            memory_stat: None,
            memory_current: None,
            cpu_stat: None,
            pids_current: None,
        },
        slice_stat: None,
        meminfo: None,
    };
    let limits = DaLimits { memory_max: None, cpu_quota_percent: None };
    let r = cmd_stats("api", None, None, &vec![], &probe, limits, None);
    assert_eq!(r.exit, 1);
    assert_eq!(r.body.get_text("error").as_deref(), Some("app_not_found"));
    let limits = DaLimits { memory_max: None, cpu_quota_percent: None };
    let m = meta();
    let r = cmd_stats("api", Some(&m), None, &vec![], &probe, limits, None);
    assert_eq!(r.exit, 0);
}

// --- open ports -----------------------------------------------------------

fn swept(name: &str, pids: Vec<u32>, external: bool) -> Swept {
    Swept { name: name.to_string(), loaded: true, pids, external }
}

#[test]
fn only_apps_with_an_open_port_are_stopped() {
    let apps = vec![
        swept("api", vec![1, 2], true),
        swept("web", vec![3], false),
        swept("down", vec![], true),
    ];
    assert_eq!(sweep_account(&apps), vec!["api"]);
    let all = vec![
        SweptAccount { username: "bob".to_string(), apps },
        SweptAccount { username: "eve".to_string(), apps: vec![swept("x", vec![9], true)] },
    ];
    let stopped = sweep_all_accounts(&all);
    assert_eq!(stopped, vec!["bob/api", "eve/x"]);
    let r = report(&stopped, None);
    assert_eq!(r.body.get_number("stopped"), Some(2));
    assert_eq!(
        r.body.get("apps"),
        Some(&Json::List(vec![
            Json::Str("bob/api".to_string()),
            Json::Str("eve/x".to_string()),
        ]))
    );
}

#[test]
fn an_app_is_brought_down_with_its_tree() {
    let m = meta();
    let p = stop_app_tree("/s/bob", "api", &m, Some("42\n"), None, &vec![43, 44], None, false)
        .expect("a pid is recorded");
    assert_eq!(p.targets, vec![42, 43, 44]);
    assert_eq!(p.marker, "/s/bob/.proxy/x.test");
    assert_eq!(
        p.cleanup,
        vec!["/s/bob/.sockets/x.test", "/s/bob/.run/api.pid", "/s/bob/.run/api.meta"]
    );
    assert!(stop_app_tree("/s/bob", "api", &m, None, None, &vec![], None, false).is_none());
    let saved = Some("starttime=900\n");
    let with = |began: Option<u64>| {
        stop_app_tree("/s/bob", "api", &m, Some("42\n"), began, &vec![43], saved, false)
    };
    assert_eq!(with(Some(900)).expect("the same process").targets, vec![42, 43]);
    // Nobody is told when the process is another one or gone; the files go.
    for began in [Some(901), None] {
        let p = with(began).expect("its files are left");
        assert!(p.targets.is_empty());
        assert_eq!(p.marker, "/s/bob/.proxy/x.test");
        assert_eq!(p.cleanup.len(), 3);
    }
    assert!(stop_is_over(false, false));
    assert!(stop_is_over(true, true));
    assert!(!stop_is_over(true, false));
}
