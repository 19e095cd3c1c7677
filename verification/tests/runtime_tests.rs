//! Runtimes: their kinds, where they are found and which are run.

use core_selynt::runtime::detect::{
    default_node_path, detect_node_versions, is_safe_to_execute, is_trusted_runtime_path,
    newest_first, node_candidates, node_fixed_paths, node_globs, paths_to_check,
    rejected_node_runtimes, runtimes_to_run, Answer, Candidate, NodeVersion, Ownership,
};
use core_selynt::runtime::kind::{launch_display, Runtime};
use core_selynt::runtime::node::{
    get_node_version, get_node_version_raw, glob_paths, node_version_ok, parse_node_semver,
};

const TRUSTED: [&str; 5] = [
    "/usr/local/bin/node",
    "/usr/bin/node",
    "/usr/local/nvm/versions/node/v22.23.2/bin/node",
    "/usr/local/lib/nodejs/node-v25.9.0/bin/node",
    "/opt/alt/alt-nodejs20/root/usr/bin/node",
];

const UNTRUSTED: [&str; 4] = [
    "/home/attacker/fake-node",
    "/tmp/node",
    "/var/tmp/node",
    "/usr/local-evil/node",
];

fn strings(v: &[&str]) -> Vec<String> {
    v.iter().map(|s| s.to_string()).collect()
}

/// The owner and mode that every path to be checked has.
fn all_owned(canonical: &str, uid: u32, mode: u32) -> Vec<Option<Ownership>> {
    paths_to_check(canonical)
        .iter()
        .map(|_| Some(Ownership { uid, mode }))
        .collect()
}

#[test]
fn detect_accepts_root_owned_locations() {
    for p in TRUSTED {
        assert!(is_trusted_runtime_path(p), "{p} should be trusted");
    }
}

#[test]
fn admin_accepts_root_owned_locations() {
    for p in TRUSTED {
        assert!(is_trusted_runtime_path(p), "{p} should be trusted");
    }
}

#[test]
fn detect_rejects_targets_outside_trusted_roots() {
    for p in UNTRUSTED {
        assert!(!is_trusted_runtime_path(p), "{p} must be rejected");
    }
}

#[test]
fn admin_rejects_targets_outside_trusted_roots() {
    for p in UNTRUSTED {
        assert!(!is_trusted_runtime_path(p), "{p} must be rejected");
    }
}

#[test]
fn detect_rejects_binaries_not_owned_by_root() {
    let f = "/tmp/selynt-own-1";
    assert!(!is_safe_to_execute(f, &all_owned(f, 1001, 0o755)));
}

#[test]
fn admin_rejects_binaries_not_owned_by_root() {
    let f = "/usr/bin/node";
    assert!(!is_safe_to_execute(f, &all_owned(f, 1001, 0o755)));
}

#[test]
fn detect_accepts_a_real_root_owned_binary() {
    let f = "/usr/bin/dash";
    assert!(is_safe_to_execute(f, &all_owned(f, 0, 0o755)), "{f} should pass");
}

#[test]
fn admin_accepts_a_real_root_owned_binary() {
    let f = "/usr/bin/bash";
    assert!(is_safe_to_execute(f, &all_owned(f, 0, 0o755)), "{f} should pass");
}

#[test]
fn one_writable_parent_is_enough_to_refuse() {
    let f = "/usr/local/nvm/versions/node/v22/bin/node";
    let n = paths_to_check(f).len();
    assert!(n > 2);
    for i in 0..n {
        let mut facts = all_owned(f, 0, 0o755);
        facts[i] = Some(Ownership { uid: 0, mode: 0o775 });
        assert!(!is_safe_to_execute(f, &facts));
        facts[i] = None;
        assert!(!is_safe_to_execute(f, &facts));
    }
}

#[test]
fn default_node_path_is_absolute_or_none() {
    for (local, system) in [(true, true), (true, false), (false, true)] {
        let p = default_node_path(local, system).expect("one is there");
        assert!(p.starts_with('/'), "{p} must not depend on PATH");
    }
    assert_eq!(default_node_path(false, false), None);
    for p in node_fixed_paths() {
        assert!(p.starts_with('/'), "{p} must be absolute");
    }
}

#[test]
fn versions_are_listed_newest_first() {
    let v = |p: &str, ver: &str| NodeVersion { path: p.to_string(), version: ver.to_string() };
    let sorted = newest_first(&vec![
        v("/usr/local/bin/node", "v25.9.0"),
        v("/nvm/20/node", "v20.20.2"),
        v("/nvm/22/node", "v22.23.2"),
        v("/nvm/24/node", "v24.19.0"),
    ]);
    let order: Vec<&str> = sorted.iter().map(|n| n.version.as_str()).collect();
    assert_eq!(order, ["v25.9.0", "v24.19.0", "v22.23.2", "v20.20.2"]);
}

#[test]
fn round_trips_every_variant() {
    for r in Runtime::all() {
        assert_eq!(Runtime::from_str(r.as_str()), Ok(r));
    }
}

#[test]
fn rejects_unknown() {
    assert!(Runtime::from_str("python").is_err());
    assert!(Runtime::from_str("").is_err());
}

#[test]
fn compiled_and_interpreted_split() {
    assert!(Runtime::Node.is_interpreted());
    assert!(Runtime::Node.scaffolds_entry());
    assert!(!Runtime::Node.requires_executable_entry());

    assert!(!Runtime::Rust.is_interpreted());
    assert!(!Runtime::Rust.scaffolds_entry());
    assert!(Runtime::Rust.requires_executable_entry());
}

#[test]
fn command_display_names_the_interpreter() {
    assert_eq!(
        Runtime::Node.command_display("/home/bob/app/index.js"),
        "node /home/bob/app/index.js"
    );
    assert_eq!(
        Runtime::Rust.command_display("/home/bob/app/server"),
        "/home/bob/app/server"
    );
    assert_eq!(launch_display("other", "/x"), "/x");
}

#[test]
fn matches_whole_component() {
    let pat = "/r/usr/local/nvm/versions/node/*/bin/node";
    assert_eq!(
        glob_paths(pat, &strings(&["v22.1.0"])),
        vec!["/r/usr/local/nvm/versions/node/v22.1.0/bin/node"]
    );
}

#[test]
fn matches_partial_component() {
    let pat = "/r/opt/alt/alt-nodejs*/root/usr/bin/node";
    let mut got = glob_paths(pat, &strings(&["alt-nodejs20", "alt-nodejs22", "alt-php81"]));
    got.sort();
    assert_eq!(got.len(), 2, "alt-php81 must not match: {got:?}");
    assert!(got.iter().all(|p| p.contains("alt-nodejs")));
}

#[test]
fn rejects_multiple_stars_and_missing_dir() {
    assert!(glob_paths("/opt/*/x/*/node", &strings(&["a", "b"])).is_empty());
    // A directory that is not there has no entries.
    assert!(glob_paths("/nonexistent-selynt/*/node", &vec![]).is_empty());
}

#[test]
fn versions_are_read_and_judged() {
    assert_eq!(parse_node_semver("v20.6.0"), Some((20, 6, 0)));
    assert_eq!(parse_node_semver("x"), None);
    assert_eq!(parse_node_semver("v20.15"), Some((20, 15, 0)));
    assert_eq!(parse_node_semver("v20.15.x"), None);
    assert_eq!(parse_node_semver("v20.x.1"), None);
    assert!(node_version_ok("v20.6.0"));
    assert!(node_version_ok("v22.0.0"));
    assert!(!node_version_ok("v20.5.9"));
    assert!(!node_version_ok("v18.19.0"));
    assert_eq!(get_node_version_raw(true, "v18.19.0\n").as_deref(), Some("v18.19.0"));
    assert_eq!(get_node_version_raw(false, "v22.1.0\n"), None);
    assert_eq!(get_node_version(true, "v18.19.0\n"), None);
    assert_eq!(get_node_version(true, "v22.1.0\n").as_deref(), Some("v22.1.0"));
}

#[test]
fn only_safe_runtimes_are_run_and_each_once() {
    let c = |p: &str, canonical: &str, safe: bool| Candidate {
        path: p.to_string(),
        is_file: true,
        canonical: Some(canonical.to_string()),
        safe,
    };
    let cs = vec![
        c("/usr/local/bin/node", "/usr/local/bin/node", true),
        c("/usr/bin/node", "/usr/local/bin/node", true),
        c("/opt/alt/alt-nodejs20/root/usr/bin/node", "/opt/alt/alt-nodejs20/root/usr/bin/node", false),
        c("/usr/local/nvm/versions/node/x/bin/node", "/home/eve/node", false),
    ];
    assert_eq!(runtimes_to_run(&cs), vec![0]);
    let rejected = rejected_node_runtimes(&cs);
    let seen: Vec<(&str, &str)> =
        rejected.iter().map(|r| (r.path.as_str(), r.reason.as_str())).collect();
    assert_eq!(
        seen,
        vec![
            ("/opt/alt/alt-nodejs20/root/usr/bin/node", "unsafe_ownership"),
            ("/usr/local/nvm/versions/node/x/bin/node", "untrusted_path"),
        ]
    );
}

#[test]
fn detected_versions_are_supported_ones() {
    let a = |p: &str, out: &str| Answer { path: p.to_string(), succeeded: true, stdout: out.to_string() };
    let v = detect_node_versions(&vec![a("/a", "v18.0.0\n"), a("/b", "v20.6.1\n"), a("/c", "v24.0.0\n")]);
    let paths: Vec<&str> = v.iter().map(|n| n.path.as_str()).collect();
    assert_eq!(paths, vec!["/c", "/b"]);
}

#[test]
fn candidates_are_the_fixed_paths_and_the_patterns() {
    assert_eq!(node_globs(None).len(), 3);
    assert_eq!(node_globs(Some("/opt/nvm")).len(), 4);
    // A home directory is no place to look in.
    assert_eq!(node_globs(Some("/home/bob/.nvm")).len(), 3);
    assert_eq!(node_globs(Some("/opt/../home/bob")).len(), 3);
    let listings = vec![strings(&["v22.1.0"]), strings(&["alt-nodejs20", "alt-php81"]), vec![]];
    assert_eq!(
        node_candidates(None, &listings),
        vec![
            "/usr/local/bin/node",
            "/usr/bin/node",
            "/usr/local/nvm/versions/node/v22.1.0/bin/node",
            "/opt/alt/alt-nodejs20/root/usr/bin/node",
        ]
    );
}
