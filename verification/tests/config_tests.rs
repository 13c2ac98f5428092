use shipfe::config::{
    check_config, default_global_config, deploy_done_message, init_allowed, deploying_sub_message, deploys_all_subs,
    rollback_done_message, environment_params, gitignore_update, resolve_deploy,
    resolve_rollback, rollback_version, split_profile, sub_environment_params, DeployTarget,
    EnvironmentConfig, GlobalConfig, ServerConfig, SubEnvironmentConfig, DEFAULT_KEEP_RELEASES,
};
use shipfe::error::AppError;

fn server(host: &str, path: &str) -> ServerConfig {
    ServerConfig {
        host: host.to_string(),
        port: 2222,
        username: "deploy".to_string(),
        password: Some("secret".to_string()),
        key_path: None,
        remote_deploy_path: path.to_string(),
    }
}

fn sub(build: Option<&str>, dist: Option<&str>, path: &str) -> SubEnvironmentConfig {
    SubEnvironmentConfig {
        build_command: build.map(|s| s.to_string()),
        local_dist_path: dist.map(|s| s.to_string()),
        remote_deploy_path: path.to_string(),
    }
}

fn sample_config() -> GlobalConfig {
    let dev = EnvironmentConfig {
        build_command: Some("npm run build".to_string()),
        local_dist_path: "./dist".to_string(),
        servers: vec![server("a.example.com", "/var/www/dev"), server("b.example.com", "/srv/dev")],
        remote_tmp: "/tmp".to_string(),
        sub_environments: Some(vec![
            ("admin".to_string(), sub(None, Some("./admin-dist"), "/var/www/dev/admin")),
            ("shop".to_string(), sub(Some("npm run build:shop"), None, "/var/www/dev/shop")),
            ("cu".to_string(), sub(None, None, "/var/www/dev/cu")),
        ]),
        hashed_asset_patterns: Some(vec!["**/*.js".to_string()]),
        enable_shared: Some(true),
        keep_releases: None,
        delete_old: None,
    };
    let prod = EnvironmentConfig {
        build_command: None,
        local_dist_path: "./out".to_string(),
        servers: vec![],
        remote_tmp: "/var/tmp".to_string(),
        sub_environments: None,
        hashed_asset_patterns: None,
        enable_shared: None,
        keep_releases: Some(4),
        delete_old: Some(true),
    };
    GlobalConfig { environments: vec![("dev".to_string(), dev), ("prod".to_string(), prod)] }
}

fn message(e: AppError) -> String {
    match e {
        AppError::Invalid(m) => m,
    }
}

fn targets(r: Result<Vec<DeployTarget>, AppError>) -> Vec<DeployTarget> {
    match r {
        Ok(t) => t,
        Err(e) => panic!("unexpected error {}", message(e)),
    }
}

#[test]
fn default_config_has_dev_and_prod() {
    let c = default_global_config();
    assert_eq!(c.environments.len(), 2);
    let (name, dev) = &c.environments[0];
    assert_eq!(name, "dev");
    assert_eq!(dev.build_command.as_deref(), Some("npm run build"));
    assert_eq!(dev.servers[0].host, "dev.example.com");
    assert_eq!(dev.servers[0].port, 22);
    assert_eq!(dev.servers[0].key_path.as_deref(), Some("~/.ssh/id_rsa"));
    assert_eq!(dev.keep_releases, Some(3));
    let subs = dev.sub_environments.as_ref().unwrap();
    assert_eq!(subs[0].0, "admin");
    assert_eq!(subs[0].1.remote_deploy_path, "/var/www/dev/admin");
    let (name, prod) = &c.environments[1];
    assert_eq!(name, "prod");
    assert_eq!(prod.enable_shared, Some(true));
    assert_eq!(prod.hashed_asset_patterns.as_ref().unwrap().len(), 3);
    assert!(prod.sub_environments.is_none());
}

#[test]
fn gitignore_created_when_missing() {
    assert_eq!(gitignore_update(None), Some("shipfe.log\nshipfe.config.json\n".to_string()));
}

#[test]
fn gitignore_appends_missing_entries() {
    assert_eq!(
        gitignore_update(Some("node_modules\n")),
        Some("node_modules\nshipfe.log\nshipfe.config.json\n".to_string())
    );
    assert_eq!(
        gitignore_update(Some("  shipfe.log  \r\ndist")),
        Some("  shipfe.log  \ndist\nshipfe.config.json\n".to_string())
    );
}

#[test]
fn gitignore_left_alone_when_complete() {
    assert_eq!(gitignore_update(Some("shipfe.config.json\n\tshipfe.log\n")), None);
}

#[test]
fn gitignore_update_is_idempotent() {
    for start in [None, Some(""), Some("a\nb"), Some("shipfe.log"), Some("x\r\n\r\n")] {
        let once = gitignore_update(start).unwrap_or_else(|| start.unwrap().to_string());
        assert_eq!(gitignore_update(Some(once.as_str())), None);
    }
}

#[test]
fn split_profile_cases() {
    assert_eq!(split_profile("dev"), ("dev".to_string(), None));
    assert_eq!(split_profile("dev-admin"), ("dev".to_string(), Some("admin".to_string())));
    assert_eq!(split_profile("a-b-c"), ("a".to_string(), Some("b-c".to_string())));
    assert_eq!(split_profile("-x"), ("".to_string(), Some("x".to_string())));
    assert_eq!(split_profile("dev-"), ("dev".to_string(), Some("".to_string())));
}

#[test]
fn deploy_environment_itself() {
    let c = sample_config();
    let t = targets(resolve_deploy(&c, "dev", false));
    assert_eq!(t.len(), 1);
    assert!(t[0].sub_environment.is_none());
    let p = &t[0].params;
    assert_eq!(p.build_command.as_deref(), Some("npm run build"));
    assert_eq!(p.local_dist_path, "./dist");
    assert_eq!(p.servers.len(), 2);
    assert_eq!(p.servers[0].remote_deploy_path, "/var/www/dev");
    assert!(p.enable_shared);
    assert_eq!(p.keep_releases, DEFAULT_KEEP_RELEASES);
    assert_eq!(p.keep_releases, 10);
    assert!(!p.delete_old);
}

#[test]
fn deploy_sub_environment_inherits_and_overrides() {
    let c = sample_config();
    let t = targets(resolve_deploy(&c, "dev-admin", false));
    assert_eq!(t.len(), 1);
    assert_eq!(t[0].sub_environment.as_deref(), Some("admin"));
    let p = &t[0].params;
    assert_eq!(p.build_command.as_deref(), Some("npm run build"));
    assert_eq!(p.local_dist_path, "./admin-dist");
    assert_eq!(p.servers[0].remote_deploy_path, "/var/www/dev/admin");
    assert_eq!(p.servers[0].host, "a.example.com");
    assert_eq!(p.servers[1].remote_deploy_path, "/var/www/dev/admin");
    assert_eq!(p.servers[1].host, "b.example.com");
    assert_eq!(p.servers[1].password.as_deref(), Some("secret"));
    assert_eq!(p.remote_tmp, "/tmp");

    let t = targets(resolve_deploy(&c, "dev-shop", true));
    assert_eq!(t.len(), 1);
    assert_eq!(t[0].params.build_command.as_deref(), Some("npm run build:shop"));
    assert_eq!(t[0].params.local_dist_path, "./dist");
}

#[test]
fn deploy_all_sub_in_declared_order() {
    let c = sample_config();
    let t = targets(resolve_deploy(&c, "dev", true));
    let names: Vec<&str> = t.iter().map(|x| x.sub_environment.as_deref().unwrap()).collect();
    assert_eq!(names, vec!["admin", "shop", "cu"]);
    assert_eq!(t[0].params.servers[0].remote_deploy_path, "/var/www/dev/admin");
    assert_eq!(t[1].params.servers[0].remote_deploy_path, "/var/www/dev/shop");
    assert_eq!(t[2].params.servers[1].remote_deploy_path, "/var/www/dev/cu");
}

#[test]
fn deploy_all_sub_without_subs_deploys_environment() {
    let c = sample_config();
    let t = targets(resolve_deploy(&c, "prod", true));
    assert_eq!(t.len(), 1);
    assert!(t[0].sub_environment.is_none());
    assert_eq!(t[0].params.keep_releases, 4);
    assert!(t[0].params.delete_old);
    assert!(!t[0].params.enable_shared);
    assert!(t[0].params.build_command.is_none());
}

#[test]
fn deploy_errors() {
    let c = sample_config();
    let e = resolve_deploy(&c, "staging", false).unwrap_err();
    assert_eq!(message(e), "Environment 'staging' not found in config");
    let e = resolve_deploy(&c, "dev-blog", false).unwrap_err();
    assert_eq!(message(e), "Sub-environment 'blog' not found in 'dev'");
    let e = resolve_deploy(&c, "prod-admin", false).unwrap_err();
    assert_eq!(message(e), "No sub-environments defined for 'prod'");
}

#[test]
fn params_helpers() {
    let c = sample_config();
    let dev = &c.environments[0].1;
    let p = environment_params(dev);
    assert_eq!(p.servers[0].remote_deploy_path, "/var/www/dev");
    let s = sub(Some("make"), None, "/x");
    let q = sub_environment_params(dev, &s);
    assert_eq!(q.build_command.as_deref(), Some("make"));
    assert_eq!(q.servers[0].remote_deploy_path, "/x");
    assert_eq!(q.servers[0].password.as_deref(), Some("secret"));
    assert_eq!(q.servers[1].remote_deploy_path, "/x");
    assert_eq!(q.servers[1].host, "b.example.com");
}

#[test]
fn rollback_targets() {
    let c = sample_config();
    let t = resolve_rollback(&c, "dev").ok().unwrap().unwrap();
    assert_eq!(t.server.host, "a.example.com");
    assert_eq!(t.remote_deploy_path, "/var/www/dev");
    let t = resolve_rollback(&c, "dev-shop").ok().unwrap().unwrap();
    assert_eq!(t.server.host, "a.example.com");
    assert_eq!(t.remote_deploy_path, "/var/www/dev/shop");
    assert!(resolve_rollback(&c, "prod").ok().unwrap().is_none());
    assert_eq!(
        message(resolve_rollback(&c, "qa").err().unwrap()),
        "Environment 'qa' not found in config"
    );
    assert_eq!(
        message(resolve_rollback(&c, "prod-x").err().unwrap()),
        "No sub-environments defined for 'prod'"
    );
    assert_eq!(
        message(resolve_rollback(&c, "dev-x").err().unwrap()),
        "Sub-environment 'x' not found in 'dev'"
    );
}

#[test]
fn rollback_needs_a_version() {
    assert_eq!(rollback_version(Some("20260303_034945".to_string())).ok().unwrap(), "20260303_034945");
    assert_eq!(
        message(rollback_version(None).err().unwrap()),
        "rollback requires --to parameter"
    );
}

#[test]
fn all_subs_mode() {
    let c = sample_config();
    assert!(deploys_all_subs(&c, "dev", true));
    assert!(!deploys_all_subs(&c, "dev", false));
    assert!(!deploys_all_subs(&c, "dev-admin", true));
    assert!(!deploys_all_subs(&c, "prod", true));
    assert!(!deploys_all_subs(&c, "nope", true));
}

#[test]
fn done_messages() {
    assert_eq!(
        deploy_done_message("dev-admin", "shipfe.config.json", false),
        "deploy profile=dev-admin, config=shipfe.config.json"
    );
    assert_eq!(deploy_done_message("prod", "c.json", false), "deploy profile=prod, config=c.json");
    assert_eq!(
        deploy_done_message("dev", "c.json", true),
        "deploy all sub-environments for profile=dev, config=c.json"
    );
    assert_eq!(deploying_sub_message("dev", "admin"), "Deploying sub-environment: dev-admin");
    assert_eq!(rollback_done_message("prod-admin", "20260303_034945"), "rollback profile=prod-admin, to=20260303_034945");
}

#[test]
fn app_error_text() {
    assert_eq!(AppError::Invalid("boom".to_string()).to_string(), "invalid: boom");
}

#[test]
fn init_overwrites_only_with_force() {
    assert!(init_allowed(false, false).is_ok());
    assert!(init_allowed(true, true).is_ok());
    assert!(init_allowed(false, true).is_ok());
    assert_eq!(
        message(init_allowed(true, false).unwrap_err()),
        "shipfe.config.json already exists; use --force to overwrite it"
    );
}

#[test]
fn configs_name_things_once() {
    assert!(check_config(&sample_config()));
    assert!(check_config(&default_global_config()));
    let mut c = sample_config();
    let (_, prod) = sample_config().environments.into_iter().nth(1).unwrap();
    c.environments.push(("prod".to_string(), prod));
    assert!(!check_config(&c));
    let mut c = sample_config();
    c.environments[0].1.sub_environments.as_mut().unwrap().push(("shop".to_string(), sub(None, None, "/y")));
    assert!(!check_config(&c));
}
