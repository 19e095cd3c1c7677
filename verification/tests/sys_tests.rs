//! Processes, accounts and the files of the panel.

use core_selynt::sys::auth::{
    caller_is_privileged, caller_is_root, da_user_conf, da_usertype, drop_failed,
    drop_privileges, no_such_account,
    parse_usertype, plugin_file, resolve_target_user, service_account_files, target_failed,
    usertype_is_privileged, DropError, DropStep, Ids, TargetError,
};
use core_selynt::sys::kv::parse_kv;
use core_selynt::sys::output::{
    success, system_error, user_error, with_debug, Json, Members,
};
use core_selynt::sys::proc::{
    ParentLink, ProcessSnapshot, descendants_of, has_external_listen, has_network_listen,
    is_externally_bound, read_proc_cpu_ticks, read_proc_ppid, read_proc_rss_kb,
    read_proc_snapshot, read_proc_starttime, read_proc_uid, socket_inode, socket_inodes_of,
};
use core_selynt::sys::state::{
    account_is_isolated, active_socket_path, get_web_user, init_app_logs_dir, init_failed,
    init_state_dir,
    list_accounts, list_app_names, load_app_meta, parent_dir, socket_path_for,
    state_directories, stays_with_root, temp_path, validate_name, AppMeta, MetaError, RunEntry,
    StateEntry,
};
use core_selynt::effect::Change;

fn strings(v: &[&str]) -> Vec<String> {
    v.iter().map(|s| s.to_string()).collect()
}

fn meta() -> AppMeta {
    AppMeta {
        name: "api".to_string(),
        app_type: "node".to_string(),
        cwd: "/home/bob/apps/api".to_string(),
        entry: "index.js".to_string(),
        host: "x.test".to_string(),
        domain: String::new(),
        subdomain: String::new(),
        node_version: String::new(),
        created_at: None,
        memory_max: None,
    }
}

// --- accounts -------------------------------------------------------------

#[test]
fn auth_parses_usertype_from_user_conf() {
    let conf = "username=admin\nusertype=admin\ncreator=root\n";
    assert_eq!(parse_usertype(conf).as_deref(), Some("admin"));
}

#[test]
fn state_parses_usertype_from_user_conf() {
    let conf = "username=admin\nusertype=admin\ncreator=root\n";
    assert_eq!(parse_usertype(conf).as_deref(), Some("admin"));
}

#[test]
fn auth_parses_usertype_with_surrounding_space() {
    assert_eq!(
        parse_usertype("  usertype=reseller  \n").as_deref(),
        Some("reseller")
    );
}

#[test]
fn state_parses_usertype_with_surrounding_space() {
    assert_eq!(
        parse_usertype("  usertype=reseller  \n").as_deref(),
        Some("reseller")
    );
}

#[test]
fn auth_missing_usertype_is_none() {
    assert_eq!(parse_usertype("username=bob\ncreator=root\n"), None);
}

#[test]
fn state_missing_usertype_is_none() {
    assert_eq!(parse_usertype("username=bob\ncreator=root\n"), None);
}

#[test]
fn auth_only_admin_and_reseller_are_privileged() {
    assert!(usertype_is_privileged(Some("admin")));
    assert!(usertype_is_privileged(Some("reseller")));
    assert!(!usertype_is_privileged(Some("user")));
    assert!(!usertype_is_privileged(None));
    // Case matters: DA writes these lowercase, anything else is not a match.
    assert!(!usertype_is_privileged(Some("Admin")));
    assert!(!usertype_is_privileged(Some("")));
}

#[test]
fn state_only_admin_and_reseller_are_privileged() {
    assert!(usertype_is_privileged(Some("admin")));
    assert!(usertype_is_privileged(Some("reseller")));
    assert!(!usertype_is_privileged(Some("user")));
    assert!(!usertype_is_privileged(None));
    assert!(!usertype_is_privileged(Some("Admin")));
    assert!(!usertype_is_privileged(Some("")));
}

#[test]
fn auth_installing_requires_more_than_being_privileged() {
    assert!(
        !caller_is_root(1001),
        "non-root must not pass the install gate"
    );
    assert!(caller_is_root(0));
}

#[test]
fn state_installing_requires_more_than_being_privileged() {
    // The account of the web server may act for customers, and is not root.
    assert!(caller_is_privileged(33, Some("apache"), None, &strings(&["apache\n"])));
    assert!(
        !caller_is_root(33),
        "non-root must not pass the install gate"
    );
}

#[test]
fn auth_user_conf_path_is_scoped_to_data_users() {
    let p = da_user_conf("bob");
    assert_eq!(p, "/usr/local/directadmin/data/users/bob/user.conf");
}

#[test]
fn state_user_conf_path_is_scoped_to_data_users() {
    let p = da_user_conf("bob");
    assert_eq!(p, "/usr/local/directadmin/data/users/bob/user.conf");
}

#[test]
fn service_account_files_keep_the_etc_prefix() {
    let files = service_account_files();
    for f in &files {
        assert!(
            f.starts_with("etc/"),
            "{f} must be relative to the plugin root, not to etc/"
        );
    }
    assert!(files.contains(&"etc/ols_web_user".to_string()));
    assert_eq!(
        plugin_file("etc/ols_web_user"),
        "/usr/local/directadmin/plugins/selynt_panel/etc/ols_web_user"
    );
}

#[test]
fn plain_accounts_are_not_privileged() {
    let services = strings(&["apache\n", "nobody\n"]);
    assert!(!caller_is_privileged(1001, Some("bob"), Some("usertype=user\n"), &services));
    assert!(caller_is_privileged(1001, Some("bob"), Some("usertype=reseller\n"), &services));
    assert!(caller_is_privileged(99, Some("nobody"), None, &services));
    assert!(caller_is_privileged(0, None, None, &services));
    assert!(!caller_is_privileged(1001, None, None, &services));
    assert_eq!(da_usertype("../x", Some("usertype=admin\n")), None);
}

#[test]
fn an_account_acts_only_as_itself() {
    assert_eq!(resolve_target_user(Some("bob"), 1001, Some("bob"), false).ok(), Some("bob".to_string()));
    assert_eq!(resolve_target_user(Some("bob"), 0, Some("root"), true).ok(), Some("bob".to_string()));
    assert_eq!(resolve_target_user(None, 1001, Some("bob"), false).ok(), Some("bob".to_string()));
    match resolve_target_user(Some("eve"), 1001, Some("bob"), false) {
        Err(e) => assert_eq!(
            e.message(),
            "refusing to act as \"eve\": caller is \"bob\" (uid 1001)"
        ),
        Ok(_) => panic!("must be refused"),
    }
    assert!(matches!(
        resolve_target_user(Some("bob"), 1001, None, false),
        Err(TargetError::NoAccount)
    ));
    match resolve_target_user(None, 0, Some("root"), true) {
        Err(e) => assert_eq!(
            e.message(),
            "USERNAME env not set (required when running as root)"
        ),
        Ok(_) => panic!("root is never a target"),
    }
}

#[test]
fn dropping_privileges_ends_without_root() {
    let ids = Ids { uid: 1001, euid: 1001, gid: 1001, egid: 1001 };
    let root = Ids { uid: 0, euid: 0, gid: 0, egid: 0 };
    assert_eq!(drop_privileges(DropStep::Groups, true, root), Ok(DropStep::Gid));
    assert_eq!(drop_privileges(DropStep::Groups, false, root), Err(DropError::Groups));
    assert_eq!(drop_privileges(DropStep::Gid, false, root), Err(DropError::Gid));
    assert_eq!(drop_privileges(DropStep::Uid, false, root), Err(DropError::Uid));
    // Still root after all the calls succeeded: refused.
    let mut step = DropStep::Groups;
    let mut last = Ok(step);
    for _ in 0..5 {
        last = drop_privileges(step, true, root);
        match last {
            Ok(next) => step = next,
            Err(_) => break,
        }
    }
    assert_eq!(last, Err(DropError::StillRootUid));
    let mut step = DropStep::Groups;
    for _ in 0..5 {
        match drop_privileges(step, true, ids) {
            Ok(next) => step = next,
            Err(_) => panic!("must go through"),
        }
    }
    assert_eq!(step, DropStep::Done);
}

// --- sockets --------------------------------------------------------------

#[test]
fn loopback_is_allowed_by_the_same_rule_everywhere() {
    // What start rejects must be exactly what the sweep stops.
    assert!(!is_externally_bound("0100007F:4A57"));
    assert!(is_externally_bound("00000000:1F90"));
}

#[test]
fn ipv4_loopback_is_internal() {
    // 127.0.0.1:19031 — an app talking to itself.
    assert!(!is_externally_bound("0100007F:4A57"));
    // 127.0.0.53 (systemd-resolved) is still loopback.
    assert!(!is_externally_bound("3500007F:0035"));
}

#[test]
fn ipv4_wildcard_and_real_addresses_are_external() {
    // 0.0.0.0:19032 — reachable from anywhere.
    assert!(is_externally_bound("00000000:4A58"));
    // 10.0.0.5 — a real interface address, still off-host reachable.
    assert!(is_externally_bound("0500000A:1F90"));
}

#[test]
fn ipv6_loopback_is_internal() {
    assert!(!is_externally_bound(
        "00000000000000000000000001000000:4A57"
    ));
}

#[test]
fn ipv6_wildcard_is_external() {
    assert!(is_externally_bound(
        "00000000000000000000000000000000:006E"
    ));
}

#[test]
fn v4_mapped_loopback_is_internal() {
    assert!(!is_externally_bound(
        "0000000000000000FFFF00000100007F:4A57"
    ));
}

#[test]
fn v4_mapped_public_is_external() {
    assert!(is_externally_bound(
        "0000000000000000FFFF00000500000A:1F90"
    ));
}

#[test]
fn malformed_input_is_not_reported_as_external() {
    assert!(!is_externally_bound(""));
    assert!(!is_externally_bound("garbage"));
    assert!(!is_externally_bound("ABC:1"));
}

const TCP_HEAD: &str =
    "  sl  local_address rem_address   st tx_queue rx_queue tr tm->when retrnsmt   uid  timeout inode\n";

#[test]
fn a_listening_socket_of_the_process_is_found() {
    let public = format!(
        "{TCP_HEAD}   0: 00000000:1F90 00000000:0000 0A 00000000:00000000 00:00000000 00000000  1001        0 4242 1\n"
    );
    let local = format!(
        "{TCP_HEAD}   0: 0100007F:1F90 00000000:0000 0A 00000000:00000000 00:00000000 00000000  1001        0 4242 1\n"
    );
    let mine = strings(&["socket:[4242]", "/dev/null"]);
    let other = strings(&["socket:[7]"]);
    assert_eq!(socket_inode("socket:[4242]"), Some(4242));
    assert_eq!(socket_inode("pipe:[4242]"), None);
    assert!(has_external_listen(&mine, &vec![public.clone()], &vec![]));
    assert!(!has_external_listen(&other, &vec![public.clone()], &vec![]));
    assert!(!has_external_listen(&mine, &vec![local.clone()], &vec![]));
    assert!(has_network_listen(&mine, &vec![local], &vec![]));
    assert!(!has_network_listen(&other, &vec![public], &vec![]));
}

// --- processes ------------------------------------------------------------

const STAT: &str = "77 (a (b) c) S 42 77 77 0 -1 4194560 1 2 3 4 10 5 0 0 20 0 1 0 987654 1 2 3";

#[test]
fn process_files_are_read() {
    assert_eq!(read_proc_ppid(STAT), Some(42));
    assert_eq!(read_proc_cpu_ticks(STAT), Some(15));
    assert_eq!(read_proc_starttime(STAT), Some(987654));
    assert_eq!(read_proc_uid("Name:\tx\nUid:\t1001\t1001\t1001\t1001\n"), Some(1001));
    assert_eq!(read_proc_uid("Name:\tx\n"), None);
    assert_eq!(read_proc_rss_kb("VmRSS:\t  2048 kB\n"), Some(2048));
    assert_eq!(
        read_proc_snapshot(STAT, Some("VmRSS:\t  2048 kB\n")),
        Some(ProcessSnapshot { cpu_ticks: 15, rss_kb: 2048 })
    );
}

#[test]
fn descendants_are_found_at_any_depth() {
    let links = vec![
        ParentLink { pid: 3, parent: 2 },
        ParentLink { pid: 2, parent: 1 },
        ParentLink { pid: 9, parent: 8 },
        ParentLink { pid: 4, parent: 2 },
    ];
    let mut d = descendants_of(1, &links);
    d.sort();
    assert_eq!(d, vec![2, 3, 4]);
    assert!(descendants_of(9, &links).is_empty());
}

// --- state ----------------------------------------------------------------

#[test]
fn key_value_lines_keep_the_last_value() {
    let m = parse_kv("a = 1\nb=x=y\nnonsense\na=2\n");
    assert_eq!(m.get("a").as_deref(), Some("2"));
    assert_eq!(m.get("b").as_deref(), Some("x=y"));
    assert_eq!(m.get("c"), None);
    assert_eq!(m.get_u64("a"), Some(2));
    assert_eq!(m.get_or_empty("c"), "");
}

#[test]
fn names_are_one_component() {
    assert!(validate_name("api-1.test_x"));
    assert!(!validate_name(""));
    assert!(!validate_name("a/b"));
    assert!(!validate_name("a b"));
    assert!(!validate_name(&"a".repeat(65)));
    assert!(validate_name(&"a".repeat(64)));
}

#[test]
fn metadata_is_trusted_only_when_root_owns_it() {
    let content = "type=node\ncwd=/home/bob/api\nentry=i.js\nhost=h\ncreated_at=5\nmemory_max=0\n";
    let m = load_app_meta("api", Some(0), Some(content)).ok().expect("loaded");
    assert_eq!(m.app_type, "node");
    assert_eq!(m.created_at, Some(5));
    assert_eq!(m.memory_max, None);
    assert!(matches!(
        load_app_meta("api", Some(1001), Some(content)),
        Err(MetaError::Untrusted(1001))
    ));
    assert!(matches!(load_app_meta("api", None, None), Err(MetaError::NotFound)));
}

#[test]
fn only_root_owned_app_files_are_listed() {
    let e = |n: &str, o: Option<u32>| RunEntry { file_name: n.to_string(), owner: o };
    let names = list_app_names(&vec![
        e("b.app", Some(0)),
        e("a.app", Some(0)),
        e("x.pid", Some(0)),
        e("evil.app", Some(1001)),
    ]);
    assert!(names.contains(&"a".to_string()) && names.contains(&"b".to_string()));
    assert_eq!(names.len(), 2);
}

#[test]
fn accounts_have_a_run_directory_and_a_user() {
    let e = |n: &str, r: bool, u: bool| StateEntry {
        name: n.to_string(),
        has_run_dir: r,
        user_exists: u,
    };
    let a = list_accounts(&vec![e("bob", true, true), e(".sync.lock", false, false), e("gone", true, false)]);
    assert_eq!(a, vec!["bob"]);
}

#[test]
fn isolation_moves_the_socket() {
    let m = meta();
    assert_eq!(socket_path_for("/s/bob", &m, false), "/s/bob/.sockets/x.test");
    assert_eq!(socket_path_for("/s/bob", &m, true), "/s/bob/.sockets/api/x.test");
    // A running app keeps the path it was started with.
    assert_eq!(
        active_socket_path("/s/bob", &m, Some("uid=1\nsocket=/s/bob/.sockets/x.test\n"), true),
        "/s/bob/.sockets/x.test"
    );
    assert!(account_is_isolated(Some("1\n"), None));
    assert!(!account_is_isolated(Some("0\n"), Some("1\n")));
    assert!(account_is_isolated(None, Some("1\n")));
}

#[test]
fn the_web_user_comes_from_root_or_the_file() {
    assert_eq!(get_web_user(0, Some("dbg"), Some("apache\n")), "dbg");
    assert_eq!(get_web_user(1001, Some("dbg"), Some("apache\n")), "apache");
    assert_eq!(get_web_user(1001, None, None), "");
}

#[test]
fn the_state_directory_is_handed_to_the_account() {
    let dirs = state_directories("/var/lib/selynt_panel/bob");
    let present = vec![true; dirs.len()];
    let steps = init_state_dir("/var/lib/selynt_panel/bob", 1001, 1002, &present);
    assert!(steps.list.iter().any(|s| s.change
        == Change::OwnTree("/var/lib/selynt_panel/bob".to_string(), 1001, 1002)));
    let none = vec![false; dirs.len()];
    let made = init_state_dir("/var/lib/selynt_panel/bob", 1001, 1002, &none);
    // A directory that is missing is made, then closed.
    assert_eq!(made.list.len(), steps.list.len() + 2 * dirs.len());
    assert!(stays_with_root("/var/lib/selynt_panel/bob/.run"));
    assert!(!stays_with_root("/var/lib/selynt_panel/bob/.proxy"));
}

#[test]
fn the_logs_directory_is_prepared() {
    let steps = init_app_logs_dir("/c", 1, 2, false, &strings(&["/c/logs/a.out.log"]));
    let changes: Vec<&Change> = steps.list.iter().map(|s| &s.change).collect();
    assert_eq!(
        changes,
        vec![
            &Change::MakeDir("/c/logs".to_string()),
            &Change::Own("/c/logs".to_string(), 1, 2),
            &Change::SetMode("/c/logs".to_string(), 0o750),
            &Change::Own("/c/logs/a.out.log".to_string(), 1, 2),
        ]
    );
}

#[test]
fn paths_have_parents_and_neighbours() {
    assert_eq!(parent_dir("/a/b/c").as_deref(), Some("/a/b"));
    assert_eq!(parent_dir("/a").as_deref(), Some("/"));
    assert_eq!(parent_dir("/"), None);
    assert_eq!(parent_dir("node").as_deref(), Some(""));
    assert_eq!(temp_path("/a/b/c.conf"), "/a/b/.c.conf.tmp");
}

// --- answers --------------------------------------------------------------

#[test]
fn answers_tell_their_exit_code() {
    let mut m = Members::new();
    m.put_number("n", 3);
    let r = success(with_debug(m, Some(Json::Null)));
    assert_eq!(r.exit, 0);
    assert_eq!(
        r.body,
        Json::Obj(vec![
            ("ok".to_string(), Json::Bool(true)),
            ("n".to_string(), Json::Num(3)),
            ("_debug".to_string(), Json::Null),
        ])
    );
    let e = user_error("code", "why");
    assert_eq!(e.exit, 1);
    assert_eq!(e.body.get_text("error").as_deref(), Some("code"));
    assert_eq!(e.body.get_text("message").as_deref(), Some("why"));
    assert_eq!(e.body.get("ok"), Some(&Json::Bool(false)));
    assert_eq!(system_error("c", "m").exit, 2);
}

#[test]
fn failures_before_a_command_are_told() {
    let told = |r: core_selynt::sys::output::Response| {
        (r.exit, r.body.get_text("error").unwrap(), r.body.get_text("message").unwrap())
    };
    let dropped = |e| told(drop_failed(e, "bob", 1001, 1002, "denied")).2;
    assert_eq!(dropped(DropError::Groups), "initgroups(bob) failed: denied");
    assert_eq!(dropped(DropError::Gid), "setgid(1002) failed: denied");
    assert_eq!(dropped(DropError::Uid), "setuid(1001) failed: denied");
    assert_eq!(dropped(DropError::StillRootUid), "privilege drop failed — still root (uid)");
    assert_eq!(dropped(DropError::StillRootGid), "privilege drop failed — still root (gid)");
    assert_eq!(dropped(DropError::NoNewPrivs), "prctl(PR_SET_NO_NEW_PRIVS) failed: denied");
    assert_eq!(
        told(target_failed(&no_such_account("a\"b"))),
        (
            2,
            "user_resolve_failed".to_string(),
            "user \"a\\\"b\" not found in /etc/passwd".to_string()
        )
    );
    assert_eq!(
        told(init_failed("denied", 7, "/s/bob")).2,
        "denied (uid=7, state_dir=/s/bob)"
    );
}

#[test]
fn socket_inodes_are_told_once() {
    let targets: Vec<String> = ["socket:[12]", "/dev/null", "socket:[7]", "socket:[12]", "socket:[x]"]
        .iter()
        .map(|t| t.to_string())
        .collect();
    assert_eq!(socket_inodes_of(&targets), vec![12, 7]);
}
