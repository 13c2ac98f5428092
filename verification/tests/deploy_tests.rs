use shipfe::config::ServerConfig;
use shipfe::deploy::{
    assets_to_share, auth_failed, build_failed, build_failure_notes, build_snapshot, choose_auth,
    connecting_message, deploy_steps, effective_keep_releases, is_hashed_asset,
    local_archive_path, local_hashes_path, log_line, plain_log_line, remote_archive_path,
    remote_hashes_path, rollback_check_command, rollback_check_outcome, rollback_failed,
    rollback_switch_command, rollback_switch_outcome, snapshot_path, step_outcome,
    version_missing, AuthMethod, RemoteStep, StepNext,
};
use shipfe::error::AppError;

fn message(e: AppError) -> String {
    match e {
        AppError::Invalid(m) => m,
    }
}

fn labels(steps: &[RemoteStep]) -> Vec<&str> {
    steps.iter().map(|s| s.label.as_str()).collect()
}

fn server(password: Option<&str>, key: Option<&str>) -> ServerConfig {
    ServerConfig {
        host: "web1.prod.com".to_string(),
        port: 22,
        username: "deploy".to_string(),
        password: password.map(|s| s.to_string()),
        key_path: key.map(|s| s.to_string()),
        remote_deploy_path: "/var/www/prod".to_string(),
    }
}

#[test]
fn steps_without_shared() {
    let steps = deploy_steps(
        "/var/www/prod",
        "/tmp",
        "20260304_120100",
        "/tmp/shipfe_dist_20260304_120100_42.tar.gz",
        "/tmp/shipfe_current_hashes_20260304_120100_42.txt",
        false,
        true,
        10,
    );
    assert_eq!(
        labels(&steps),
        vec![
            "prepare releases directory",
            "create release directory",
            "extract archive",
            "switch current symlink",
            "cleanup old releases",
            "remove remote archive",
        ]
    );
    assert_eq!(steps[0].command, "mkdir -p /var/www/prod/releases");
    assert_eq!(steps[1].command, "cd /var/www/prod/releases && mkdir -p 20260304_120100");
    assert_eq!(
        steps[2].command,
        "cd /var/www/prod/releases && tar -xzf /tmp/shipfe_dist_20260304_120100_42.tar.gz -C 20260304_120100 --strip-components=1"
    );
    assert_eq!(steps[3].command, "cd /var/www/prod && ln -sfn releases/20260304_120100 current");
    assert!(steps[4].command.starts_with(
        "set -e;\ndeploy_root=\"/var/www/prod\";\nreleases_root=\"$deploy_root/releases\";\nkeep=\"10\";\n"
    ));
    assert!(steps[4].command.contains("$(ls -1t \"$releases_root\" 2>/dev/null)"));
    assert!(steps[4].command.contains("grep -Eq '^[0-9]{8}_[0-9]{6}$' || continue"));
    assert!(!steps[4].command.contains("sort -r"));
    assert!(steps[4].command.ends_with("\ntrue"));
    assert_eq!(steps[5].command, "rm -f /tmp/shipfe_dist_20260304_120100_42.tar.gz");
}

#[test]
fn steps_with_shared_assets() {
    let steps = deploy_steps("/d", "/rt", "T", "/rt/a.tar.gz", "/rt/h.txt", true, true, 3);
    assert_eq!(
        labels(&steps),
        vec![
            "prepare releases directory",
            "prepare shared directory",
            "create release directory",
            "extract archive",
            "sync shared assets",
            "switch current symlink",
            "cleanup old releases and shared assets",
            "remove remote archive",
            "remove shared asset manifest",
        ]
    );
    assert_eq!(steps[1].command, "mkdir -p /d/shared");
    let sync = &steps[4].command;
    assert!(sync.starts_with(
        "set -e;\nrel_root=\"/d/releases/T\";\nshared_root=\"/d/shared\";\nhashes=\"/rt/h.txt\";\n\nmkdir -p \"$shared_root\";"
    ));
    assert!(sync.contains("ln \"$src\" \"$dst\""));
    assert!(!sync.contains("cp -f"));
    assert_eq!(steps[5].command, "cd /d && ln -sfn releases/T current");
    let clean = &steps[6].command;
    assert!(clean.starts_with(
        "set -e;\ndeploy_root=\"/d\";\nreleases_root=\"$deploy_root/releases\";\nshared_root=\"$deploy_root/shared\";\nkeep=\"3\";\ntmp_root=\"/rt\";\nnow_ts=\"T\";\n"
    ));
    assert!(clean.contains("$(ls -1t \"$releases_root\" 2>/dev/null)"));
    assert!(clean.contains("$(find \"$shared_root\" -type f 2>/dev/null)"));
    assert!(clean.contains("grep -Fxq -- \"$rel_path\" \"$refs_tmp\""));
    assert!(clean.contains("grep -Eq '^[0-9]{8}_[0-9]{6}$' || continue"));
    assert_eq!(steps[8].command, "rm -f /rt/h.txt");
}

#[test]
fn steps_with_shared_but_no_assets() {
    let steps = deploy_steps("/d", "/rt", "T", "/rt/a.tar.gz", "/rt/h.txt", true, false, 0);
    assert_eq!(
        labels(&steps),
        vec![
            "prepare releases directory",
            "prepare shared directory",
            "create release directory",
            "extract archive",
            "switch current symlink",
            "cleanup old releases and shared assets",
            "remove remote archive",
        ]
    );
    assert!(steps[5].command.contains("keep=\"0\";"));
}

#[test]
fn rollback_switch_is_the_deploy_switch() {
    let steps = deploy_steps("/d", "/rt", "V1", "/a", "/h", false, false, 5);
    assert_eq!(steps[3].command, rollback_switch_command("/d", "V1"));
    assert_eq!(rollback_check_command("/d", "V1"), "test -d /d/releases/V1");
}

#[test]
fn rollback_outcomes() {
    assert!(rollback_check_outcome("V", 0).is_ok());
    assert_eq!(message(rollback_check_outcome("V", 1).unwrap_err()), "Version V does not exist on server");
    assert!(rollback_switch_outcome("V", 0, "").is_ok());
    assert_eq!(
        message(rollback_switch_outcome("V", 2, "denied").unwrap_err()),
        "Failed to rollback to version V: denied"
    );
}

#[test]
fn default_hashed_rule() {
    let none: Option<Vec<String>> = None;
    assert!(is_hashed_asset("assets/app-abc123.js", &none));
    assert!(is_hashed_asset("assets/my-app.v2-abcdef.js", &none));
    assert!(is_hashed_asset("logo-äöü.png", &none));
    assert!(!is_hashed_asset("assets/app-abc12.js", &none));
    assert!(!is_hashed_asset("assets/app.js", &none));
    assert!(!is_hashed_asset("app-abc123", &none));
    assert!(!is_hashed_asset("x-y.tar.gz", &none));
    assert!(!is_hashed_asset("assets/app-abc_12.js", &none));
}

#[test]
fn glob_patterns_decide_when_given() {
    let pats = Some(vec!["[".to_string(), "**/*.js".to_string(), "assets/**".to_string()]);
    assert!(is_hashed_asset("assets/app.js", &pats));
    assert!(is_hashed_asset("assets/img/logo.png", &pats));
    assert!(!is_hashed_asset("index.html", &pats));
    let empty: Option<Vec<String>> = Some(vec![]);
    assert!(!is_hashed_asset("assets/app-abc123.js", &empty));
}

#[test]
fn snapshot_lists_hashed_assets_among_files() {
    let files = vec![
        "index.html".to_string(),
        "assets/app-abc123.js".to_string(),
        "assets/style-0011aa.css".to_string(),
        "favicon.ico".to_string(),
    ];
    let s = build_snapshot("T".to_string(), "2026-03-04T12:01:00+00:00".to_string(), files.clone(), &None);
    assert_eq!(s.id, "T");
    assert_eq!(s.files, files);
    assert_eq!(s.hashed_assets, vec!["assets/app-abc123.js", "assets/style-0011aa.css"]);
    for a in &s.hashed_assets {
        assert!(s.files.contains(a));
    }
    let css = Some(vec!["**/*.css".to_string()]);
    let s = build_snapshot("T".to_string(), "t".to_string(), files, &css);
    assert_eq!(s.hashed_assets, vec!["assets/style-0011aa.css"]);
}

#[test]
fn paths_and_names() {
    assert_eq!(snapshot_path("./dist"), "./dist/shipfe.snapshot.json");
    assert_eq!(remote_archive_path("/tmp", "T", 7), "/tmp/shipfe_dist_T_7.tar.gz");
    assert_eq!(remote_hashes_path("/var/tmp", "T", 7), "/var/tmp/shipfe_current_hashes_T_7.txt");
    assert_eq!(local_archive_path("T", 99), "/tmp/shipfe_dist_T_99.tar.gz");
    assert_eq!(local_hashes_path("T", 99), "/tmp/shipfe_current_hashes_T_99.txt");
}

#[test]
fn shared_assets_only_when_enabled() {
    let assets = Some(vec!["a-123456.js".to_string()]);
    assert_eq!(assets_to_share(true, assets.clone()), vec!["a-123456.js"]);
    assert!(assets_to_share(false, assets).is_empty());
    assert!(assets_to_share(true, None).is_empty());
}

#[test]
fn keep_releases_and_delete_old() {
    assert_eq!(effective_keep_releases(5, false), 5);
    assert_eq!(effective_keep_releases(5, true), 1);
    assert_eq!(effective_keep_releases(0, false), 0);
}

#[test]
fn authentication_order() {
    match choose_auth(&server(Some("pw"), Some("/k")), Some("KEY".to_string())) {
        AuthMethod::Password(p) => assert_eq!(p, "pw"),
        other => panic!("{:?}", other),
    }
    match choose_auth(&server(None, Some("/k")), Some("KEY".to_string())) {
        AuthMethod::PrivateKey(k) => assert_eq!(k, "KEY"),
        other => panic!("{:?}", other),
    }
    match choose_auth(&server(None, Some("/k")), None) {
        AuthMethod::KeyFile(f) => assert_eq!(f, "/k"),
        other => panic!("{:?}", other),
    }
    assert!(matches!(choose_auth(&server(None, None), None), AuthMethod::Unavailable));
    assert_eq!(message(auth_failed()), "SSH authentication failed");
}

fn next(label: &str, status: i32) -> StepNext {
    step_outcome("/d", "T", label, "cmd", status, "out")
}

#[test]
fn remote_step_outcomes() {
    match next("extract archive", 1) {
        StepNext::Abort { cleanup, error } => {
            assert_eq!(cleanup.as_deref(), Some("rm -rf /d/releases/T"));
            assert_eq!(message(error), "Command failed: cmd\n---- remote output ----\nout");
        }
        other => panic!("{:?}", other),
    }
    for label in ["switch current symlink", "prepare releases directory", "sync shared assets"] {
        assert!(matches!(next(label, 1), StepNext::Abort { cleanup: Some(_), .. }));
    }
    for label in [
        "cleanup old releases",
        "cleanup old releases and shared assets",
        "remove remote archive",
        "remove shared asset manifest",
    ] {
        assert!(matches!(next(label, 1), StepNext::Abort { cleanup: None, .. }));
    }
    assert!(matches!(next("extract archive", 0), StepNext::Continue(Some(n)) if n == "unzip"));
    assert!(matches!(next("sync shared assets", 0), StepNext::Continue(Some(n)) if n == "sync shared assets"));
    assert!(matches!(next("cleanup old releases", 0), StepNext::Continue(Some(n)) if n == "cleanup"));
    assert!(matches!(
        next("cleanup old releases and shared assets", 0),
        StepNext::Continue(Some(n)) if n == "cleanup"
    ));
    assert!(matches!(next("remove remote archive", 0), StepNext::Continue(None)));
    assert!(matches!(next("switch current symlink", 0), StepNext::Continue(None)));
}

#[test]
fn messages() {
    assert_eq!(log_line("2026-03-04 12:01:00", "hi"), "[2026-03-04 12:01:00] hi\n");
    assert_eq!(plain_log_line("t", ""), "\n");
    assert_eq!(plain_log_line("t", "m"), "[t] m\n");
    assert_eq!(connecting_message(&server(None, None)), "Connecting to server web1.prod.com:22");
    assert_eq!(message(version_missing("V")), "Version V does not exist on server");
    assert_eq!(message(rollback_failed("V", "out")), "Failed to rollback to version V: out");
    assert_eq!(message(build_failed("npm run build")), "Build command failed: npm run build");
    assert_eq!(build_failure_notes("oops", false), vec!["Build error: oops"]);
    assert_eq!(
        build_failure_notes("", false),
        vec!["Build stdout suppressed; rerun the build command manually for full output"]
    );
    assert!(build_failure_notes("", true).is_empty());
}

#[test]
fn concurrent_uploads_use_distinct_names() {
    let a = remote_archive_path("/tmp", "20260304_120100", 41);
    let b = remote_archive_path("/tmp", "20260304_120100", 42);
    let c = remote_archive_path("/tmp", "20260304_120101", 41);
    assert_ne!(a, b);
    assert_ne!(a, c);
    assert_ne!(b, c);
    assert_ne!(remote_hashes_path("/tmp", "T_1", 2), remote_hashes_path("/tmp", "T", 12));
}
