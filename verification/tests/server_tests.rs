//! The web server, the install, the administrator's commands and the command
//! line.

use core_selynt::admin::locale::{set_locale_global, set_locale_user, validate_locale, LocalePlan};
use core_selynt::admin::server::{
    cmd_admin_detect_nodes, cmd_admin_list, describe_app, resolve_selection,
    save_default_isolated, save_node_versions, store_failed, write_failed,
};
use core_selynt::app::status::AppStatus;
use core_selynt::cli::{
    authorize_admin, authorize_server_wide, build_debug_base, domain_names, domains_list_file,
    emit_prelude_result, read_domain, require_root, resolve_state_dir, server_debug_base,
    server_wide_command, subdomains_file, version_answer, AdminCommands, AppType, Commands,
    ServerWide,
};
use core_selynt::da::{da_get, parse_list, request, resolve_cookie, resolve_socket, url_decode};
use core_selynt::effect::Change;
use core_selynt::install::diagnose::{
    run_diagnostic, AccountMode, AccountRun, Facts, FileFacts, ProxyFacts, RunFile, TreeFile,
};
use core_selynt::install::setup::{
    apply_ownership, cmd_setup, detect_cgi_user, detect_da_user, mode_failure, prepare_state_dir,
    record_identities, run as setup_run, setup_step, write_etc, Identities, Process, SetupStep,
};
use core_selynt::install::teardown::{
    clean_main_conf, clean_web_server_config, cmd_teardown, failure_line, run as teardown_run,
    stop_all_apps, strip_outcome, template_line, TeardownReport, TeardownStep,
};
use core_selynt::install::tree::{expected_mode, mode_of, walk, walk_dirs, Entry};
use core_selynt::install::units::{
    install, remove, render, units, units_supported, write_unit,
};
use core_selynt::limits::usage::{ScopeUsage, Sibling};
use core_selynt::plan::{plan, spawn_for, Deferred, RootWork, SpawnStep};
use core_selynt::runtime::detect::{NodeVersion, Rejected};
use core_selynt::sys::output::{Json, Members, Response};
use core_selynt::sys::state::PLUGIN_PATH;
use core_selynt::webserver::acl::apply_acl;
use core_selynt::webserver::ols::{
    conf_dir, detect_web_user, main_conf, rebuild_vhosts, run as ols_run, strip_block,
    upsert_block, web_user_candidates, wiring_failed, Outcome, Stripped, Unwritten, BEGIN_MARK,
    END_MARK, TEMPLATE_CUSTOM_5, TEMPLATE_CUSTOM_7,
};
use core_selynt::webserver::proxysync::{
    cmd_sync_proxy, collect_live_apps, config_file, host_is_safe, needs_writing,
    reapply_account_limits, reload_web_server, render_config, render_handler, strip_header, sync,
    synced, write_config, LiveApp, RoutedApp, SyncStep,
};

fn strings(v: &[&str]) -> Vec<String> {
    v.iter().map(|s| s.to_string()).collect()
}

fn error_of(r: &Response) -> (u8, String) {
    (r.exit, r.body.get_text("error").expect("an error"))
}

// --- access of the web server ---------------------------------------------

#[test]
fn the_web_user_gets_no_more_than_it_needs() {
    let a = apply_acl("/s/bob", "/s/bob/.sockets/api/x", "/s/bob/.proxy/x", "apache").expect("access");
    let entries: Vec<(&str, &str)> =
        a.commands.iter().map(|c| (c.args[1].as_str(), c.args[2].as_str())).collect();
    assert_eq!(
        entries,
        vec![
            ("u:apache:--x", "/s/bob"),
            ("u:apache:--x", "/s/bob/.sockets"),
            ("u:apache:--x", "/s/bob/.proxy"),
            ("u:apache:--x", "/s/bob/.sockets/api"),
            ("u:apache:rw-", "/s/bob/.sockets/api/x"),
            ("u:apache:r--", "/s/bob/.proxy/x"),
        ]
    );
    let last: Vec<&Change> = a.fallback.list.iter().map(|s| &s.change).collect();
    assert_eq!(last[4], &Change::SetMode("/s/bob/.sockets/api/x".to_string(), 0o600));
    assert_eq!(last[5], &Change::SetMode("/s/bob/.proxy/x".to_string(), 0o604));
    // A shared socket has no directory of its own.
    let a = apply_acl("/s/bob", "/s/bob/.sockets/x", "/s/bob/.proxy/x", "apache").expect("access");
    assert_eq!(a.commands.len(), 5);
    assert!(apply_acl("/s/bob", "/s/bob/.sockets/x", "/s/bob/.proxy/x", "").is_none());
}

// --- the block in a template ----------------------------------------------

#[test]
fn keeps_content_that_is_not_ours() {
    let out = upsert_block(
        Some("SomeoneElsesDirective on\n"),
        "# BEGIN SELYNT_PANEL\nours\n# END SELYNT_PANEL",
    );
    assert!(out.contains("SomeoneElsesDirective on"));
    assert!(out.contains("ours"));
}

#[test]
fn replaces_its_own_block_instead_of_appending() {
    let block = format!("{BEGIN_MARK}\nfirst\n{END_MARK}");
    let once = upsert_block(None, &block);

    let block2 = format!("{BEGIN_MARK}\nsecond\n{END_MARK}");
    let out = upsert_block(Some(&once), &block2);

    assert_eq!(out.matches(BEGIN_MARK).count(), 1, "block duplicated: {out}");
    assert!(out.contains("second"));
    assert!(!out.contains("first"));
}

#[test]
fn creates_the_file_when_absent() {
    let out = upsert_block(None, "# BEGIN SELYNT_PANEL\nx\n# END SELYNT_PANEL");
    assert!(out.contains('x'));
}

#[test]
fn removing_the_block_gives_back_the_rest() {
    for template in [TEMPLATE_CUSTOM_5, TEMPLATE_CUSTOM_7] {
        assert!(template.starts_with(BEGIN_MARK) && template.ends_with(END_MARK));
        let installed = upsert_block(Some("a\nb\n"), template);
        match strip_block(&installed) {
            Stripped::Keep(k) => assert_eq!(k, "a\nb\n"),
            Stripped::Remove => panic!("the rest is lost"),
        }
        assert!(matches!(strip_block(&upsert_block(None, template)), Stripped::Remove));
    }
    assert_eq!(strip_outcome(&Stripped::Remove, true), "removed");
    assert_eq!(strip_outcome(&Stripped::Remove, false), "remove_failed");
    assert_eq!(strip_outcome(&Stripped::Keep(String::new()), true), "stripped");
    assert_eq!(strip_outcome(&Stripped::Keep(String::new()), false), "strip_failed");
    assert_eq!(template_line("5", "removed"), "CUSTOM.5: removed");
}

#[test]
fn the_web_server_is_found_and_wired() {
    assert_eq!(conf_dir(true, true), Some("/etc/openlitespeed"));
    assert_eq!(main_conf(false, true).as_deref(), Some("/usr/local/lsws/conf/httpd_config.conf"));
    assert_eq!(conf_dir(false, false), None);
    let users = web_user_candidates(Some("# user evil\n  User \"lsadm\"\nuser\ngroup x\n"));
    assert_eq!(users, strings(&["lsadm", "apache", "lsws", "www-data", "nginx", "nobody"]));
    let known = vec![false, false, true, true, false, true];
    assert_eq!(detect_web_user(&users, &known).as_deref(), Some("lsws"));
    let e = ols_run(false, true, None, None, None).err().expect("no web server");
    assert_eq!(e.0, "ols_missing");
    let p = ols_run(true, true, None, Some("x\n"), Some("apache")).ok().expect("a plan");
    assert!(p.rebuild);
    assert_eq!(p.templates.list.len(), 6);
    assert_eq!(
        p.user.list[1].change,
        Change::Write(format!("{PLUGIN_PATH}/etc/ols_web_user"), "apache\n".to_string())
    );
    let p = ols_run(true, false, None, None, None).ok().expect("a plan");
    assert!(!p.rebuild && p.templates.list.is_empty() && p.user.list.is_empty());
    let failed = |what| wiring_failed(what, "denied".to_string()).0;
    assert_eq!(failed(Unwritten::Templates), "template_write_failed");
    assert_eq!(failed(Unwritten::WebUser), "web_user_write_failed");
    assert_eq!(rebuild_vhosts(true).program, "./build");
    assert_eq!(rebuild_vhosts(false).args, vec!["build", "rewrite_confs"]);
}

// --- the proxy handlers ---------------------------------------------------

#[test]
fn header_is_not_part_of_the_comparison() {
    let a = "# generated at 1\nextProcessor x {\n}\n";
    let b = "# generated at 2\nextProcessor x {\n}\n";
    assert_eq!(strip_header(a), strip_header(b));
}

#[test]
fn a_changed_handler_is_a_difference() {
    let a = "# h\nextProcessor one {\n}\n";
    let b = "# h\nextProcessor two {\n}\n";
    assert_ne!(strip_header(a), strip_header(b));
}

#[test]
fn rejects_hosts_that_could_break_the_config() {
    assert!(host_is_safe("app.example.com"));
    assert!(host_is_safe("sub-domain_1.example.com"));

    assert!(!host_is_safe(""));
    assert!(!host_is_safe("../escape"));
    assert!(!host_is_safe("has space"));
    assert!(!host_is_safe("brace{}"));
}

#[test]
fn live_apps_get_a_handler_for_each_port() {
    let app = |h: &str, marked: bool, there: bool| RoutedApp {
        host: h.to_string(),
        marked,
        socket: format!("/s/{h}"),
        socket_exists: there,
    };
    let apps = collect_live_apps(&vec![
        app("x.test", true, true),
        app("down.test", false, true),
        app("gone.test", true, false),
        app("a b", true, true),
    ]);
    assert_eq!(apps.len(), 1);
    assert_eq!(
        render_handler(&LiveApp { host: "x.test".to_string(), socket: "/s/x".to_string() }, 80),
        "extProcessor selynt_proxy-x.test-80 {\n  type                    proxy\n  address                 uds:///s/x\n  maxConns                35\n  initTimeout             60\n  retryTimeout            0\n  persistConn             1\n  respBuffer              0\n  autoStart               0\n  instances               1\n  priority                0\n}\n\n"
    );
    let one = render_config(1, &apps);
    let two = render_config(2, &apps);
    assert!(one.starts_with("# Selynt Panel extProcessors — generated at 1\n# DO NOT EDIT — generated automatically\n\n"));
    assert!(one.contains("selynt_proxy-x.test-80") && one.contains("selynt_proxy-x.test-443"));
    assert_ne!(one, two);
    assert!(!needs_writing(Some(&one), &two));
    assert!(needs_writing(Some(&one), &render_config(2, &vec![])));
    assert!(needs_writing(None, &one));
}

#[test]
fn a_sync_counts_only_once_it_is_live() {
    let run = |answers: &[bool]| {
        let end = answers.iter().fold(SyncStep::Lock, |step, yes| sync(step, *yes));
        synced(end, 3)
    };
    assert_eq!(run(&[true, true, true, true, true, true]), Some(3));
    assert_eq!(run(&[true, true, false, true]), Some(3));
    assert_eq!(run(&[true, true, true, true, false, true]), None);
    assert_eq!(run(&[true, true, true, false, true, true]), None);
    assert_eq!(run(&[false, true, true, true, true, true]), None);
    assert_eq!(sync(SyncStep::Reload, true), SyncStep::Clear);
    let steps = write_config("/c/x.conf", "h\n".to_string(), Some((7, 8)));
    let changes: Vec<&Change> = steps.list.iter().map(|s| &s.change).collect();
    assert_eq!(
        changes,
        vec![
            &Change::Write("/c/x.conf.tmp".to_string(), "h\n".to_string()),
            &Change::SetMode("/c/x.conf.tmp".to_string(), 0o640),
            &Change::Own("/c/x.conf.tmp".to_string(), 7, 8),
            &Change::Rename("/c/x.conf.tmp".to_string(), "/c/x.conf".to_string()),
        ]
    );
    let steps = write_config("/c/x.conf", String::new(), None);
    assert_eq!(steps.list[2].change, Change::Own("/c/x.conf.tmp".to_string(), 0, 0));
    assert_eq!(cmd_sync_proxy(Some(3), None).body.get_number("apps"), Some(3));
    assert_eq!(cmd_sync_proxy(None, None).body.get("skipped"), Some(&Json::Bool(true)));
    assert_eq!(config_file(false, false), "/etc/openlitespeed/selynt_extprocessors.conf");
    assert_eq!(reload_web_server().0.args, vec!["restart", "lsws"]);
    let apps = vec![Sibling { name: "api".to_string(), live: true, loaded: true, pin: None }];
    let cmds = reapply_account_limits(true, "bob", Some(1024 * 1024 * 1024), &apps);
    assert_eq!(cmds.len(), 2);
    assert_eq!(cmds[0].args[2], "selynt-bob.slice");
    assert_eq!(cmds[1].args[2], "selynt-bob-api.scope");
}

// --- the tree -------------------------------------------------------------

#[test]
fn tree_service_files_are_not_executable() {
    assert_eq!(expected_mode("/x/scripts/selynt-panel.service"), 0o644);
}

#[test]
fn diagnose_service_files_are_not_executable() {
    assert_eq!(expected_mode("/x/scripts/selynt-panel.service"), 0o644);
}

#[test]
fn tree_cgi_endpoints_and_pages_are_executable() {
    assert_eq!(expected_mode("/x/user/api/apps.raw"), 0o755);
    assert_eq!(expected_mode("/x/user/index.html"), 0o755);
    // The pages carry no extension: the request path is the file name.
    assert_eq!(expected_mode("/x/user/apps"), 0o755);
    assert_eq!(expected_mode("/x/admin/config"), 0o755);
    assert_eq!(expected_mode("/x/scripts/install.sh"), 0o755);
    assert_eq!(expected_mode("/x/hooks/anything"), 0o755);
}

#[test]
fn diagnose_cgi_endpoints_and_pages_are_executable() {
    assert_eq!(expected_mode("/x/user/api/apps.raw"), 0o755);
    assert_eq!(expected_mode("/x/user/index.html"), 0o755);
    assert_eq!(expected_mode("/x/scripts/install.sh"), 0o755);
    assert_eq!(expected_mode("/x/hooks/anything"), 0o755);
}

#[test]
fn tree_everything_else_is_read_only() {
    assert_eq!(expected_mode("/x/images/menu_user.json"), 0o644);
    assert_eq!(expected_mode("/x/lib/common.php"), 0o644);
    assert_eq!(expected_mode("/x/LICENSE"), 0o644);
}

#[test]
fn diagnose_everything_else_is_read_only() {
    assert_eq!(expected_mode("/x/images/menu_user.json"), 0o644);
    assert_eq!(expected_mode("/x/lib/common.php"), 0o644);
    assert_eq!(expected_mode("/x/LICENSE"), 0o644);
}

fn plugin_tree() -> Entry {
    let file = |p: &str| Entry::File { path: p.to_string() };
    Entry::Dir {
        path: "/x".to_string(),
        entries: vec![
            file("/x/LICENSE"),
            Entry::Dir { path: "/x/user".to_string(), entries: vec![file("/x/user/apps")] },
            Entry::Other { path: "/x/link".to_string() },
        ],
    }
}

#[test]
fn links_are_never_followed() {
    let t = plugin_tree();
    assert_eq!(walk(&t), vec!["/x/LICENSE", "/x/user/apps"]);
    assert_eq!(walk_dirs(&t), vec!["/x", "/x/user"]);
    assert_eq!(mode_of(0o100644), 0o644);
    let r = apply_ownership(&t, true);
    let owned: Vec<&Change> = r.owner.list.iter().map(|s| &s.change).collect();
    assert_eq!(owned.len(), 4);
    assert!(owned.iter().all(|c| **c != Change::Own("/x/link".to_string(), 0, 0)));
    assert_eq!(
        r.modes.list.last().expect("modes").change,
        Change::SetMode("/x/user/apps".to_string(), 0o755)
    );
    // A change of owner clears the setuid bit, so that comes last.
    assert_eq!(
        r.binary.list[1].change,
        Change::SetMode(format!("{PLUGIN_PATH}/bin/core-selynt"), 0o4755)
    );
    assert!(apply_ownership(&t, false).binary.list.is_empty());
    assert_eq!(mode_failure(0), None);
    assert_eq!(
        mode_failure(2).as_deref(),
        Some("2 path(s) could not be set to their expected mode")
    );
}

// --- units ----------------------------------------------------------------

#[test]
fn every_unit_runs_the_installed_binary() {
    let bin = format!("{PLUGIN_PATH}/bin/core-selynt");

    for unit in units() {
        let rendered = render(unit.content);
        assert!(!rendered.contains("{BIN}"), "{}: placeholder left", unit.name);

        // Timers carry no ExecStart; services do.
        if unit.name.ends_with(".service") {
            assert!(
                rendered.contains(&format!("ExecStart={bin}")),
                "{}: does not run the installed binary",
                unit.name
            );
        }
    }
}

#[test]
fn only_timers_and_the_boot_service_are_enabled() {
    for unit in units() {
        if unit.enable {
            assert!(
                unit.name.ends_with(".timer") || unit.name == "selynt-panel.service",
                "{} should not be enabled directly",
                unit.name
            );
        }
        if unit.start_now {
            assert!(unit.name.ends_with(".timer"), "{} started eagerly", unit.name);
        }
    }
}

#[test]
fn units_are_enabled_after_one_reload() {
    assert!(units_supported(true, true));
    assert!(!units_supported(true, false));
    let cmds: Vec<Vec<String>> = install().into_iter().map(|c| c.args).collect();
    assert_eq!(
        cmds,
        vec![
            strings(&["daemon-reload"]),
            strings(&["enable", "selynt-panel.service"]),
            strings(&["enable", "--now", "selynt-netguard.timer"]),
            strings(&["enable", "--now", "selynt-proxysync.timer"]),
        ]
    );
    let all = units();
    assert_eq!(all.len(), 5);
    let steps = write_unit(&all[0]);
    assert!(matches!(&steps.list[0].change, Change::Write(p, _)
        if p == "/etc/systemd/system/selynt-panel.service"));
    let (cmd, file) = remove(&all[2]);
    assert_eq!(cmd.args, vec!["disable", "--now", "selynt-netguard.timer"]);
    assert_eq!(file, "/etc/systemd/system/selynt-netguard.timer");
}

// --- setup and teardown ---------------------------------------------------

#[test]
fn accounts_are_looked_for_and_recorded() {
    assert_eq!(detect_da_user(true, Some("x")), "diradmin");
    assert_eq!(detect_da_user(false, Some("x")), "x");
    assert_eq!(detect_da_user(false, None), "diradmin");
    let p = |c: &str, uid: u32, a: &str| Process {
        cmdline: c.to_string(),
        uid: Some(uid),
        account: Some(a.to_string()),
    };
    let ps = vec![
        p("/usr/bin/node", 5, "bob"),
        p("directadmin\0legacy-handler", 0, "root"),
        p("directadmin\0legacy-handler", 99, "webapps"),
    ];
    assert_eq!(detect_cgi_user(&ps, true).as_deref(), Some("webapps"));
    assert_eq!(detect_cgi_user(&vec![], true).as_deref(), Some("nobody"));
    assert_eq!(detect_cgi_user(&vec![], false), None);
    let ids = Identities {
        da_user: "diradmin".to_string(),
        da_uid: Some(988),
        cgi_user: Some("nobody".to_string()),
    };
    let steps = record_identities(&ids);
    assert_eq!(steps.list.len(), 9);
    assert_eq!(
        steps.list[4].change,
        Change::Write(format!("{PLUGIN_PATH}/etc/da_uid"), "988\n".to_string())
    );
    assert_eq!(write_etc("a", "b").list.len(), 3);
    assert_eq!(prepare_state_dir(None).list.len(), 2);
    assert_eq!(prepare_state_dir(Some(988)).list.len(), 3);
    let ols = Ok(Outcome { web_user: Some("apache".to_string()), vhosts_rebuilt: true });
    let r = cmd_setup(Ok(setup_run(&ids, &ols, 5)), None);
    assert_eq!(r.body.get_number("da_uid"), Some(988));
    let o = r.body.get("ols").expect("the web server");
    assert_eq!(o.get("ok"), Some(&Json::Bool(true)));
    let failed = Err(("ols_missing".to_string(), "none".to_string()));
    let r = cmd_setup(Ok(setup_run(&ids, &failed, 5)), None);
    assert_eq!(r.exit, 0);
    assert_eq!(
        r.body.get("ols").expect("the web server").get_text("error").as_deref(),
        Some("ols_missing")
    );
    assert_eq!(error_of(&cmd_setup(Err(("write_failed".to_string(), "x".to_string())), None)).0, 2);
}

#[test]
fn a_setup_stops_at_the_first_failure() {
    let mut step = SetupStep::Record;
    let mut taken = Vec::new();
    while step != SetupStep::Done {
        taken.push(step);
        step = setup_step(step, None).ok().expect("the next step");
    }
    assert_eq!(
        taken,
        vec![
            SetupStep::Record,
            SetupStep::StateDir,
            SetupStep::Own,
            SetupStep::Modes,
            SetupStep::Arm,
            SetupStep::WebServer,
            SetupStep::Units,
        ]
    );
    let why = |step| setup_step(step, Some("denied".to_string())).err().map(|e| e.0);
    assert_eq!(why(SetupStep::Record).as_deref(), Some("write_failed"));
    assert_eq!(why(SetupStep::StateDir).as_deref(), Some("state_dir_failed"));
    assert_eq!(why(SetupStep::Own).as_deref(), Some("ownership_failed"));
    assert_eq!(why(SetupStep::Modes).as_deref(), Some("ownership_failed"));
    assert_eq!(why(SetupStep::Arm).as_deref(), Some("ownership_failed"));
    assert_eq!(why(SetupStep::WebServer), None);
}

#[test]
fn a_teardown_forgets_the_panel() {
    let order = teardown_run();
    let at = |step| order.iter().position(|s| *s == step).expect("a step");
    assert!(at(TeardownStep::RemoveUnits) < at(TeardownStep::StopApps));
    assert!(at(TeardownStep::StopApps) < at(TeardownStep::RemoveState));
    assert_eq!(order.len(), 7);
    let conf = "a\n# selynt_panel extProcessors include\ninclude selynt_extprocessors.conf\nb\n";
    assert_eq!(clean_main_conf(conf).as_deref(), Some("a\nb\n"));
    assert_eq!(clean_main_conf("a\n"), None);
    assert_eq!(clean_web_server_config()[1], "/etc/openlitespeed/selynt_extprocessors.conf.tmp");
    assert_eq!(failure_line("/f", "denied"), "/f: denied");
    assert_eq!(stop_all_apps(&vec![true, false, true]), 2);
    let t = TeardownReport {
        units_removed: 5,
        apps_stopped: 2,
        templates: strings(&["CUSTOM.5: removed"]),
        vhosts_rebuilt: true,
        web_server_reloaded: false,
        config_cleanup_failures: vec![],
    };
    let r = cmd_teardown(&t, None);
    assert_eq!(r.body.get_number("units_removed"), Some(5));
    assert_eq!(r.body.get("web_server_reloaded"), Some(&Json::Bool(false)));
}

// --- the diagnostic -------------------------------------------------------

fn healthy() -> Facts {
    Facts {
        binary: Some(FileFacts { mode: 0o104755, uid: 0 }),
        files: vec![TreeFile {
            path: format!("{PLUGIN_PATH}/LICENSE"),
            uid: Some(0),
            mode: Some(0o644),
        }],
        identity: vec![
            Some("diradmin\n".to_string()),
            Some("nobody\n".to_string()),
            Some("apache\n".to_string()),
        ],
        state: Some(vec![AccountRun {
            files: vec![
                RunFile { path: "/s/bob/.run/a.app".to_string(), name: "a.app".to_string(), uid: Some(0) },
                RunFile { path: "/s/bob/.run/a.pid".to_string(), name: "a.pid".to_string(), uid: Some(5) },
            ],
        }]),
        has_setfacl: true,
        accounts: vec![AccountMode { user: "bob".to_string(), mode: Some(0o750) }],
        template_five: true,
        template_seven: true,
        proxy: ProxyFacts {
            found: true,
            handlers: Some("  extProcessor a {\n}\nextProcessor b {\n}\n".to_string()),
            main: Some("include selynt_extprocessors.conf\n".to_string()),
            vhosts: Some(vec![Some("selynt_proxy".to_string()), None, Some("x".to_string())]),
        },
        boot_unit: true,
        node_versions: Some("/usr/bin/node v22\n\n".to_string()),
        rejected: vec![],
    }
}

fn checks(f: &Facts) -> Vec<(String, String, Option<String>)> {
    match run_diagnostic(f).object().get("checks") {
        Some(Json::List(v)) => v
            .iter()
            .map(|c| {
                (
                    c.get_text("level").expect("a level"),
                    c.get_text("key").expect("a key"),
                    c.get_text("arg"),
                )
            })
            .collect(),
        _ => panic!("no checks"),
    }
}

fn says(f: &Facts, level: &str, key: &str, arg: Option<&str>) -> bool {
    checks(f).iter().any(|c| c.0 == level && c.1 == key && c.2.as_deref() == arg)
}

#[test]
fn a_healthy_install_passes_every_check() {
    let f = healthy();
    let report = run_diagnostic(&f).object();
    let summary = report.get("summary").expect("a summary");
    assert_eq!(summary.get_number("warn"), Some(0));
    assert_eq!(summary.get_number("fail"), Some(0));
    assert_eq!(summary.get_number("pass"), Some(checks(&f).len() as u64));
    assert!(says(&f, "pass", "registered", Some("1|1")));
    assert!(says(&f, "pass", "extproc_ok", Some("2")));
    assert!(says(&f, "pass", "vhosts_ok", Some("1|2")));
    assert!(says(&f, "pass", "node_ok", Some("1")));
}

#[test]
fn what_is_broken_is_named() {
    let mut f = healthy();
    f.binary = Some(FileFacts { mode: 0o100755, uid: 0 });
    f.files.push(TreeFile { path: format!("{PLUGIN_PATH}/lib/x.php"), uid: Some(5), mode: Some(0o777) });
    f.files.push(TreeFile { path: format!("{PLUGIN_PATH}/plugin.conf"), uid: Some(5), mode: Some(0o600) });
    f.identity[1] = None;
    f.state = Some(vec![AccountRun {
        files: vec![RunFile { path: "/s/a.app".to_string(), name: "a.app".to_string(), uid: Some(5) }],
    }]);
    f.accounts[0].mode = Some(0o711);
    f.template_five = false;
    f.proxy.handlers = Some("# nothing\n".to_string());
    f.proxy.main = Some("x\n".to_string());
    f.proxy.vhosts = Some(vec![Some("x".to_string())]);
    f.boot_unit = false;
    f.node_versions = Some("  \n".to_string());
    f.rejected = vec![
        Rejected { path: "/a".to_string(), reason: "unsafe_ownership".to_string() },
        Rejected { path: "/b".to_string(), reason: "untrusted_path".to_string() },
    ];
    assert!(says(&f, "fail", "binary_perms", None));
    assert!(says(&f, "fail", "ownership_bad", Some("1")));
    assert!(says(&f, "warn", "permissions_bad", Some("1")));
    assert!(says(&f, "warn", "identity_bad", None));
    assert!(says(&f, "warn", "app_not_owned", Some("/s/a.app")));
    assert!(says(&f, "warn", "acl_fallback_used", Some("bob")));
    assert!(says(&f, "fail", "templates_missing", None));
    assert!(says(&f, "warn", "extproc_empty", None));
    assert!(says(&f, "fail", "include_missing", None));
    assert!(says(&f, "warn", "vhosts_unpatched", Some("1")));
    assert!(says(&f, "warn", "service_missing", None));
    assert!(says(&f, "warn", "node_none", None));
    assert!(says(&f, "warn", "node_unsafe_owner", Some("/a")));
    assert!(says(&f, "warn", "node_untrusted_path", Some("/b")));
}

#[test]
fn what_is_missing_is_named() {
    let mut f = healthy();
    f.binary = None;
    f.state = None;
    f.proxy.handlers = None;
    f.proxy.main = None;
    f.proxy.vhosts = None;
    assert!(says(&f, "fail", "binary_missing", None));
    assert!(says(&f, "fail", "state_missing", None));
    assert!(!checks(&f).iter().any(|c| c.1 == "acl_ok"));
    assert!(says(&f, "warn", "extproc_missing", None));
    assert!(says(&f, "warn", "main_conf_unreadable", None));
    let mut f = healthy();
    f.has_setfacl = false;
    f.proxy.found = false;
    assert!(says(&f, "warn", "acl_missing", None));
    assert!(!checks(&f).iter().any(|c| c.1.starts_with("extproc") || c.1.starts_with("vhosts")));
}

// --- the administrator ----------------------------------------------------

#[test]
fn the_overview_is_sorted_by_account_and_app() {
    let up = AppStatus { pid: Some(7), started_at: Some(9) };
    let down = AppStatus { pid: None, started_at: None };
    let used = Some(ScopeUsage { memory_bytes: 4096, cpu_usec: 5 });
    let app = |u: &str, f: &str, s: AppStatus| {
        describe_app(u, f, Some("type=node\nhost=h\ncreated_at=5\n"), s, used).expect("an app")
    };
    let apps = vec![app("eve", "a.app", up), app("bob", "z.app", down), app("bob", "b.app", up)];
    assert!(describe_app("bob", "b.pid", Some("x"), down, None).is_none());
    assert!(describe_app("bob", "b.app", None, down, None).is_none());
    let r = cmd_admin_list(&apps, None);
    match r.body.get("apps") {
        Some(Json::List(v)) => {
            let order: Vec<(String, String)> = v
                .iter()
                .map(|a| (a.get_text("user").expect("user"), a.get_text("name").expect("name")))
                .collect();
            let want: Vec<(String, String)> = [("bob", "b"), ("bob", "z"), ("eve", "a")]
                .iter()
                .map(|(u, n)| (u.to_string(), n.to_string()))
                .collect();
            assert_eq!(order, want);
            assert_eq!(v[0].get_number("memory"), Some(4096));
            assert_eq!(v[1].get("memory"), Some(&Json::Null));
            assert_eq!(v[0].get_number("created_at"), Some(5));
        }
        _ => panic!("no apps"),
    }
}

fn versions() -> Vec<NodeVersion> {
    let v = |p: &str, ver: &str| NodeVersion { path: p.to_string(), version: ver.to_string() };
    vec![v("/a", "v22.1.0"), v("/b", "v20.6.0"), v("/c", "v22.1.0")]
}

#[test]
fn runtimes_are_chosen_once_per_version() {
    let all = versions();
    assert_eq!(resolve_selection(&all, &vec![0, 1]).ok(), Some(strings(&["/a v22.1.0", "/b v20.6.0"])));
    let why = |ix: &Vec<usize>| resolve_selection(&all, ix).err().expect("refused");
    assert_eq!(
        why(&vec![0, 3]),
        ("invalid_index".to_string(), "Index 3 out of range (max: 2).".to_string())
    );
    assert_eq!(
        why(&vec![0, 1, 2]),
        (
            "duplicate_versions".to_string(),
            "Same version installed twice: v22.1.0 (/a and /c). Pick one.".to_string()
        )
    );
    assert_eq!(why(&vec![]).0, "no_selection");
    assert_eq!(resolve_selection(&vec![], &vec![0]).err().expect("refused").0, "no_versions");
    let (steps, answer) = save_node_versions(&all, &vec![1, 0], false).ok().expect("saved");
    assert_eq!(
        steps.list[2].change,
        Change::Write(format!("{PLUGIN_PATH}/etc/node_versions"), "/b v20.6.0\n/a v22.1.0\n".to_string())
    );
    assert_eq!(answer.object().get_number("saved"), Some(2));
    assert!(save_node_versions(&all, &vec![9], true).is_err());
    let (steps, _) = save_default_isolated(true, true);
    assert_eq!(
        steps.list[0].change,
        Change::Write(format!("{PLUGIN_PATH}/etc/default_isolated"), "1\n".to_string())
    );
    let r = cmd_admin_detect_nodes(&all, None);
    assert!(matches!(r.body.get("versions"), Some(Json::List(v)) if v.len() == 3));
    assert_eq!(write_failed("clear", "/f", "denied").1, "failed to clear /f: denied");
    let why = |c: &Change| store_failed(c, "denied").1;
    assert_eq!(why(&Change::MakeDir("/d".to_string())), "failed to create /d: denied");
    assert_eq!(
        why(&Change::Write("/f".to_string(), String::new())),
        "failed to write /f: denied"
    );
}

#[test]
fn languages_are_those_with_a_dictionary() {
    let names = strings(&["en.json", "pt-BR.json", "readme.txt"]);
    assert_eq!(validate_locale(" PT_br ", &names).as_deref(), Some("pt-BR"));
    assert_eq!(validate_locale("EN", &vec![]).as_deref(), Some("en"));
    assert_eq!(validate_locale("fr", &names), None);
    assert_eq!(validate_locale("", &names), None);
    let s = set_locale_user("/s/bob", "pt-br", &names, 1, 2).ok().expect("stored");
    match s.plan {
        LocalePlan::Store { code, steps } => {
            assert_eq!(code, "pt-BR");
            assert_eq!(
                steps.list[0].change,
                Change::Write("/s/bob/locale".to_string(), "pt-BR\n".to_string())
            );
        }
        LocalePlan::Clear { .. } => panic!("must be stored"),
    }
    assert_eq!(s.owner.list.len(), 1);
    let s = set_locale_user("/s/bob", "  ", &names, 1, 2).ok().expect("cleared");
    assert!(matches!(s.plan, LocalePlan::Clear { .. }));
    assert!(s.owner.list.is_empty());
    let s = set_locale_global("en", &names).ok().expect("stored");
    assert_eq!(s.answer.object().get_text("global").as_deref(), Some("en"));
    assert_eq!(set_locale_global("xx", &names).err().expect("refused").0, "invalid_locale");
}

// --- plans and the command line -------------------------------------------

#[test]
fn start_and_restart_both_spawn_into_a_scope() {
    let name = || "api".to_string();
    for c in [Commands::Start { name: name() }, Commands::Restart { name: name() }] {
        let p = plan(&c).ok().expect("a plan");
        assert!(
            p.root.contains(&RootWork::SpawnIntoScope),
            "must spawn into a scope, or the app runs outside systemd"
        );
    }
    assert_eq!(
        spawn_for(true),
        vec![
            SpawnStep::ReapplyLimitsIncluding,
            SpawnStep::PrepareLogs,
            SpawnStep::Launch,
            SpawnStep::CapSliceOnceUp,
        ]
    );
    assert!(spawn_for(false).is_empty());
}

#[test]
fn commands_that_only_read_do_nothing_as_root() {
    let p = plan(&Commands::List).ok().expect("a plan");
    assert!(p.root.is_empty());
    assert_eq!(p.after, Deferred::List);
    let p = plan(&Commands::SetMemoryMax { name: "a".to_string(), megabytes: 64 }).ok().expect("a plan");
    assert_eq!(
        p.root,
        vec![
            RootWork::ReadAllowance,
            RootWork::ApplyMemoryMax,
            RootWork::CapSlice,
            RootWork::ReapplyLimits,
        ]
    );
    let p = plan(&Commands::Admin { command: AdminCommands::Diagnose }).ok().expect("a plan");
    assert_eq!(p.root, vec![RootWork::RunDiagnostic]);
    assert_eq!(p.after, Deferred::EmitPreludeResult);
    assert_eq!(error_of(&plan(&Commands::Setup).err().expect("misplaced")), (2, "internal".to_string()));
}

#[test]
fn maintenance_has_three_levels() {
    assert_eq!(
        server_wide_command(&Commands::Netguard { all_accounts: true }),
        Some(ServerWide::NetguardAll)
    );
    assert_eq!(server_wide_command(&Commands::Netguard { all_accounts: false }), None);
    assert_eq!(server_wide_command(&Commands::List), None);
    assert!(authorize_server_wide(ServerWide::SyncProxy, false, false).is_ok());
    assert!(authorize_server_wide(ServerWide::BootRecover, false, true).is_ok());
    let e = authorize_server_wide(ServerWide::BootRecover, false, false).err().expect("refused");
    assert_eq!(error_of(&e), (2, "admin_required".to_string()));
    let e = authorize_server_wide(ServerWide::Teardown, false, true).err().expect("refused");
    assert_eq!(error_of(&e), (2, "root_required".to_string()));
    assert!(authorize_server_wide(ServerWide::Setup, true, true).is_ok());
    let admin = Commands::Admin { command: AdminCommands::List };
    assert!(authorize_admin(&admin, true).is_ok());
    assert!(authorize_admin(&admin, false).is_err());
    assert!(authorize_admin(&Commands::List, false).is_ok());
    assert!(require_root(0).is_ok());
    assert!(require_root(1001).is_err());
    assert_eq!(AppType::Rust.as_str(), "rust");
}

#[test]
fn state_directories_are_not_chosen_by_ordinary_callers() {
    let other = Some("/var/lib/selynt_panel/eve");
    assert_eq!(resolve_state_dir("bob", false, other), "/var/lib/selynt_panel/bob");
    assert_eq!(resolve_state_dir("bob", true, other), "/var/lib/selynt_panel/eve");
    assert_eq!(resolve_state_dir("bob", true, Some("/etc")), "/var/lib/selynt_panel/bob");
    assert_eq!(
        resolve_state_dir("bob", true, Some("/var/lib/selynt_panel/../../etc")),
        "/var/lib/selynt_panel/bob"
    );
}

#[test]
fn domains_are_read_from_their_lists() {
    let list = Some(" x.test \n\ny.test\n");
    assert_eq!(domain_names(list, None), vec!["x.test", "y.test"]);
    assert_eq!(domain_names(list, Some("y.test")), vec!["y.test"]);
    assert!(domain_names(None, None).is_empty());
    let d = read_domain("x.test".to_string(), Some("www\n\napi\n"));
    assert_eq!(d.subdomains, vec!["www", "api"]);
    assert_eq!(
        domains_list_file("bob"),
        "/usr/local/directadmin/data/users/bob/domains.list"
    );
    assert_eq!(
        subdomains_file("bob", "x.test"),
        "/usr/local/directadmin/data/users/bob/domains/x.test.subdomains"
    );
}

#[test]
fn answers_carry_the_debug_block() {
    let d = build_debug_base(true, "bob", "/home/bob", Some("/s/bob")).expect("debug");
    assert_eq!(d.get_text("state_dir").as_deref(), Some("/s/bob"));
    assert!(build_debug_base(false, "bob", "/home/bob", None).is_none());
    let mut m = Members::new();
    m.put_text("global", "en");
    let r = emit_prelude_result(Ok(m), server_debug_base(true));
    assert_eq!(r.body.get("_debug").expect("debug").get_text("scope").as_deref(), Some("server"));
    let r = emit_prelude_result(Err(("a".to_string(), "b".to_string())), None);
    assert_eq!(error_of(&r), (1, "a".to_string()));
    assert_eq!(version_answer("1.0.0").body.get_text("version").as_deref(), Some("1.0.0"));
}

// --- DirectAdmin ----------------------------------------------------------

#[test]
fn directadmin_is_asked_over_its_socket() {
    assert_eq!(resolve_socket(true, true), Some("/usr/local/directadmin/shared/internal.sock"));
    assert_eq!(resolve_socket(false, true), Some("/usr/local/directadmin/da-internal.sock"));
    assert_eq!(resolve_socket(false, false), None);
    assert_eq!(resolve_cookie(Some("a"), Some("b"), Some("c")), "a");
    assert_eq!(resolve_cookie(None, Some("b"), Some("c")), "b");
    assert_eq!(resolve_cookie(None, None, Some("c")), "session=c");
    assert_eq!(resolve_cookie(None, None, None), "");
    assert_eq!(
        request("/CMD_API", "session=c"),
        "GET /CMD_API HTTP/1.0\r\nHost: localhost\r\nCookie: session=c\r\nConnection: close\r\n\r\n"
    );
    let a = da_get("HTTP/1.0 200 OK\r\nA: b\r\n\r\nlist[]=x\r\n\r\ny");
    assert_eq!(a.body, "list[]=x\r\n\r\ny");
    assert_eq!(da_get("h\n\nbody").body, "body");
    assert_eq!(da_get("nothing").body, "nothing");
    assert_eq!(da_get(&"a".repeat(300)).raw_excerpt.len(), 200);
}

#[test]
fn lists_are_decoded() {
    assert_eq!(
        parse_list("list[]=x.test&list[]=a%2Bb+c&other=1&list[]=&nonsense"),
        vec!["x.test", "a+b c"]
    );
    assert_eq!(url_decode("%41%zz%4"), "Azz%4");
    assert_eq!(url_decode("%+a"), "\n");
    assert_eq!(url_decode("é"), "Ã©");
    assert_eq!(url_decode("100%"), "100%");
}
