use path_rs::{
    AppPaths, AppPathsOptions, AppRootPolicy, DirLookup, EnvValue, Environment, PathError, app_directories,
    config_dir, resolve_app_paths,
};

fn found(s: &str) -> DirLookup {
    DirLookup::Found(s.to_string())
}

fn resolve(options: &AppPathsOptions, env: &Environment) -> Result<AppPaths, PathError> {
    resolve_app_paths(
        options,
        env,
        &found("/home/u"),
        &found("/home/u/.local/share"),
        &found("/home/u/.config"),
        &found("/home/u/.cache"),
        &found("/home/u/.local/state"),
        "/tmp",
        &Ok("/work".to_string()),
    )
}

fn platform(name: &str) -> Result<AppPaths, PathError> {
    let options = AppPathsOptions { root_policy: Some(AppRootPolicy::PlatformDefault), ..AppPathsOptions::new(name) };
    resolve(&options, &Environment::new())
}

fn with_override(var: &str, env: &Environment) -> Result<AppPaths, PathError> {
    let options = AppPathsOptions {
        application_name: "my-tool".into(),
        environment_override: Some(var.into()),
        create_directories: false,
        root_policy: None,
    };
    resolve(&options, env)
}

#[test]
fn app_name_validation() {
    assert!(config_dir("").is_err());
    assert!(config_dir("a/b").is_err());
    assert!(config_dir("..").is_err());
    assert!(config_dir("CON").is_err());
    assert!(config_dir("my-app").is_ok());
}

#[test]
fn app_paths_platform() {
    let p = platform("path-rs-test-app").unwrap();
    assert_eq!(p.application_name, "path-rs-test-app");
    assert!(p.root_dir.ends_with("path-rs-test-app"));
    assert_eq!(p.root_dir, "/home/u/.local/share/path-rs-test-app");
    assert_eq!(p.config_dir, "/home/u/.config/path-rs-test-app");
    assert_eq!(p.cache_dir, "/home/u/.cache/path-rs-test-app");
    assert_eq!(p.state_dir.as_deref(), Some("/home/u/.local/state/path-rs-test-app"));
    assert_eq!(p.temp_dir, "/tmp");
}

#[test]
fn rejects_invalid_app_names() {
    assert!(platform("").is_err());
    assert!(platform("a/b").is_err());
    assert!(platform("..").is_err());
    assert!(platform("CON").is_err());
}

#[test]
fn invalid_names_exhaustive() {
    for name in ["", ".", "..", "a/b", "a\\b", "CON", "nul", "COM1", "LPT9"] {
        assert!(platform(name).is_err(), "expected rejection for {name:?}");
    }
    assert!(platform("valid-app_1").is_ok());
}

#[test]
fn invalid_name_messages() {
    let e = platform("").unwrap_err();
    assert_eq!(e.to_string(), "invalid application name: application name must not be empty");
    let e = platform("a..b").unwrap_err();
    assert_eq!(e.to_string(), "invalid application name: application name must not contain '..'");
    let e = platform("LPT9").unwrap_err();
    assert_eq!(e.to_string(), "invalid application name: application name collides with a Windows reserved name: LPT9");
}

#[test]
fn environment_override_absolute() {
    let mut env = Environment::new();
    env.push("PATH_RS_TEST_APP_HOME", EnvValue::Unicode("/data/override-root/".into()));
    let paths = with_override("PATH_RS_TEST_APP_HOME", &env).unwrap();
    assert_eq!(paths.root_dir, "/data/override-root");
    assert_eq!(paths.cache_dir, "/data/override-root/cache");
    assert_eq!(paths.state_dir.as_deref(), Some("/data/override-root/state"));
}

#[test]
fn environment_override_empty_falls_back() {
    let mut env = Environment::new();
    env.push("PATH_RS_TEST_APP_HOME_EMPTY", EnvValue::Unicode("   ".into()));
    let paths = with_override("PATH_RS_TEST_APP_HOME_EMPTY", &env).unwrap();
    assert!(paths.root_dir.ends_with("my-tool"));
}

#[test]
fn unset_override_uses_platform() {
    let paths = with_override("PATH_RS_EDGE_HOME_UNSET", &Environment::new()).unwrap();
    assert!(paths.root_dir.ends_with("my-tool"));
}

#[test]
fn environment_override_with_tilde() {
    let mut env = Environment::new();
    env.push("PATH_RS_TEST_APP_HOME_TILDE", EnvValue::Unicode("~/path-rs-override-test-dir".into()));
    let paths = with_override("PATH_RS_TEST_APP_HOME_TILDE", &env).unwrap();
    assert_eq!(paths.root_dir, "/home/u/path-rs-override-test-dir");
}

#[test]
fn relative_override_is_absolutized() {
    let mut env = Environment::new();
    env.push("PATH_RS_EDGE_HOME_REL", EnvValue::Unicode("rel-root".into()));
    let paths = with_override("PATH_RS_EDGE_HOME_REL", &env).unwrap();
    assert_eq!(paths.root_dir, "/work/rel-root");
}

#[test]
fn override_with_dollar_home() {
    let mut env = Environment::new();
    env.push("HOME", EnvValue::Unicode("/home/someone".into()));
    env.push("PATH_RS_EDGE_HOME_DOLLAR", EnvValue::Unicode("$HOME/path-rs-dollar".into()));
    let paths = with_override("PATH_RS_EDGE_HOME_DOLLAR", &env).unwrap();
    assert_eq!(paths.root_dir, "/home/someone/path-rs-dollar");
}

#[test]
fn override_not_unicode_errors() {
    let mut env = Environment::new();
    env.push("PATH_RS_BAD", EnvValue::NotUnicode);
    let e = with_override("PATH_RS_BAD", &env).unwrap_err();
    assert_eq!(e.to_string(), "invalid path: environment variable PATH_RS_BAD is not valid Unicode");
}

#[test]
fn explicit_root_and_directories() {
    let options = AppPathsOptions {
        root_policy: Some(AppRootPolicy::Explicit { path: "/srv/app/./x/..".into() }),
        ..AppPathsOptions::new("my-tool")
    };
    let p = resolve(&options, &Environment::new()).unwrap();
    assert_eq!(p.root_dir, "/srv/app");
    assert_eq!(p.config_dir, "/srv/app");
    assert_eq!(p.data_dir, "/srv/app");
    let dirs = app_directories(&p);
    assert_eq!(dirs, vec!["/srv/app", "/srv/app", "/srv/app", "/srv/app/cache", "/srv/app/state"]);
}

#[test]
fn missing_platform_dir_errors() {
    let options = AppPathsOptions::new("my-tool");
    let e = resolve_app_paths(
        &options,
        &Environment::new(),
        &found("/home/u"),
        &DirLookup::Missing,
        &found("/c"),
        &found("/k"),
        &DirLookup::Missing,
        "/tmp",
        &Ok("/".to_string()),
    )
    .unwrap_err();
    assert_eq!(e.to_string(), "invalid path: data directory is unavailable on this platform");
}

fn assert_send_sync<T: Send + Sync>() {}

#[test]
fn paths_send_sync() {
    assert_send_sync::<AppPaths>();
    assert_send_sync::<std::path::PathBuf>();
}
