use path_rs::{
    EnvValue, Environment, ExpandOptions, PathError, expand_dollar_variables, expand_input, expand_percent_variables,
    expand_tilde,
};

fn env_of(pairs: &[(&str, &str)]) -> Environment {
    let mut env = Environment::new();
    for (k, v) in pairs {
        env.push(k, EnvValue::Unicode(v.to_string()));
    }
    env
}

fn no_env() -> Environment {
    Environment::new()
}

#[test]
fn tilde_only_at_start() {
    let s = expand_tilde("foo/~/bar").unwrap();
    assert_eq!(s, "foo/~/bar");
    let s = expand_tilde("~other/foo").unwrap();
    assert_eq!(s, "~other/foo");
}

#[test]
fn percent_escape() {
    let s = expand_percent_variables("100%% done", true, &no_env()).unwrap();
    assert_eq!(s, "100% done");
}

#[test]
fn dollar_no_command_sub() {
    let s = expand_dollar_variables("$(whoami)/x", true, &no_env()).unwrap();
    assert_eq!(s, "$(whoami)/x");
}

#[test]
fn dollar_digit_not_var() {
    let s = expand_dollar_variables("$123", true, &no_env()).unwrap();
    assert_eq!(s, "$123");
}

#[test]
fn unclosed_percent_strict() {
    assert!(expand_percent_variables("%APPDATA", true, &no_env()).is_err());
    assert!(expand_percent_variables("%", true, &no_env()).is_err());
}

#[test]
fn unclosed_dollar_strict() {
    assert!(expand_dollar_variables("${HOME", true, &no_env()).is_err());
}

#[test]
fn empty_and_whitespace() {
    let opts = ExpandOptions::default();
    assert!(matches!(expand_input("", &opts, &no_env()), Err(PathError::EmptyInput)));
    assert!(matches!(expand_input("   ", &opts, &no_env()), Err(PathError::EmptyInput)));
}

#[test]
fn tilde_expansion() {
    let opts = ExpandOptions::default();
    let home = expand_input("~", &opts, &no_env()).unwrap();
    assert!(home.starts_with('/') || !home.is_empty());

    let project = expand_input("~/project", &opts, &no_env()).unwrap();
    assert!(project.ends_with("project"));

    let mid = expand_tilde("foo/~/bar").unwrap();
    assert_eq!(mid, "foo/~/bar");

    let other = expand_tilde("~other/foo").unwrap();
    assert_eq!(other, "~other/foo");
}

#[test]
fn percent_variables() {
    let env = env_of(&[("PATH_RS_TEST_VAR", "hello"), ("PATH_RS_A", "A"), ("PATH_RS_B", "B")]);
    let s = expand_percent_variables("%PATH_RS_TEST_VAR%/x", true, &env).unwrap();
    assert!(s.starts_with("hello"));

    assert!(expand_percent_variables("%", true, &env).is_err());
    assert!(expand_percent_variables("%APPDATA", true, &env).is_err());
    assert!(expand_percent_variables("APPDATA%", true, &env).is_err());

    let escaped = expand_percent_variables("100%%", true, &env).unwrap();
    assert_eq!(escaped, "100%");

    let multi = expand_percent_variables("%PATH_RS_A%%PATH_RS_B%", true, &env).unwrap();
    assert_eq!(multi, "AB");

    assert!(matches!(
        expand_percent_variables("%PATH_RS_UNDEFINED_XYZ%", true, &env),
        Err(PathError::UndefinedEnvironmentVariable { .. })
    ));

    let permissive = expand_percent_variables("%PATH_RS_UNDEFINED_XYZ%", false, &env).unwrap();
    assert_eq!(permissive, "%PATH_RS_UNDEFINED_XYZ%");
}

#[test]
fn dollar_variables() {
    let env = env_of(&[("PATH_RS_HOME_LIKE", "/tmp/pathrs"), ("_PATH_RS", "ok")]);
    assert_eq!(expand_dollar_variables("$PATH_RS_HOME_LIKE/x", true, &env).unwrap(), "/tmp/pathrs/x");
    assert_eq!(expand_dollar_variables("${PATH_RS_HOME_LIKE}/x", true, &env).unwrap(), "/tmp/pathrs/x");
    assert!(expand_dollar_variables("${HOME", true, &env).is_err());
    assert_eq!(expand_dollar_variables("$123", true, &env).unwrap(), "$123");
    assert_eq!(expand_dollar_variables("$(whoami)", true, &env).unwrap(), "$(whoami)");
    assert_eq!(expand_dollar_variables("$_PATH_RS", true, &env).unwrap(), "ok");
}

#[test]
fn expansion_options_disable() {
    let opts = ExpandOptions::none();
    let p = expand_input("~/nope", &opts, &no_env()).unwrap();
    assert_eq!(p, "~/nope");
}

#[test]
fn wsl_translation_opt_in() {
    let opts = ExpandOptions {
        translate_wsl_paths: true,
        expand_tilde: false,
        expand_percent_variables: false,
        expand_dollar_variables: false,
        ..ExpandOptions::default()
    };
    let p = expand_input("/mnt/c/Users/floris", &opts, &no_env()).unwrap();
    assert_eq!(p, r"C:\Users\floris");
    let p2 = expand_input("/mnt/data/foo", &opts, &no_env()).unwrap();
    assert_eq!(p2, "/mnt/data/foo");
}

#[test]
fn basic_inputs_trim_and_empty() {
    let opts = ExpandOptions::default();
    assert!(matches!(expand_input("", &opts, &no_env()), Err(PathError::EmptyInput)));
    assert!(matches!(expand_input("   \t  ", &opts, &no_env()), Err(PathError::EmptyInput)));
    let no_trim = ExpandOptions {
        trim_cli_input: false,
        expand_tilde: false,
        expand_percent_variables: false,
        expand_dollar_variables: false,
        ..ExpandOptions::default()
    };
    let p = expand_input("   ", &no_trim, &no_env()).unwrap();
    assert_eq!(p, "   ");
}

#[test]
fn tilde_matrix() {
    assert_eq!(expand_tilde("foo/~/bar").unwrap(), "foo/~/bar");
    assert_eq!(expand_tilde("~other/foo").unwrap(), "~other/foo");
    assert_eq!(expand_tilde("~~").unwrap(), "~~");
    assert!(!expand_tilde("~").unwrap().is_empty());

    let home = expand_tilde("~").unwrap();
    let slash = expand_tilde("~/x").unwrap();
    assert!(slash.starts_with(&home));
    assert!(slash.ends_with("x") || slash.ends_with("/x") || slash.ends_with("\\x"));

    let back = expand_tilde("~\\x").unwrap();
    assert!(back.starts_with(&home));
}

#[test]
fn percent_malformed_and_escape() {
    let none = no_env();
    assert!(expand_percent_variables("%", true, &none).is_err());
    assert!(expand_percent_variables("%APPDATA", true, &none).is_err());
    assert!(expand_percent_variables("APPDATA%", true, &none).is_err());
    assert_eq!(expand_percent_variables("%%", true, &none).unwrap(), "%");
    assert_eq!(expand_percent_variables("100%% done", true, &none).unwrap(), "100% done");

    let env = env_of(&[("PATH_RS_E1", "A"), ("PATH_RS_E2", "B")]);
    assert_eq!(expand_percent_variables("%PATH_RS_E1%%PATH_RS_E2%", true, &env).unwrap(), "AB");

    assert!(expand_percent_variables("%PATH_RS_NO_SUCH_VAR_ZZ%", true, &none).is_err());
    assert_eq!(
        expand_percent_variables("%PATH_RS_NO_SUCH_VAR_ZZ%", false, &none).unwrap(),
        "%PATH_RS_NO_SUCH_VAR_ZZ%"
    );
}

#[test]
fn dollar_malformed_and_command_sub() {
    let none = no_env();
    assert!(expand_dollar_variables("${HOME", true, &none).is_err());
    assert!(expand_dollar_variables("$", true, &none).is_err());
    assert_eq!(expand_dollar_variables("$123", true, &none).unwrap(), "$123");
    assert_eq!(expand_dollar_variables("$(whoami)/x", true, &none).unwrap(), "$(whoami)/x");
    assert_eq!(expand_dollar_variables("`whoami`", true, &none).unwrap(), "`whoami`");
    assert_eq!(expand_dollar_variables("$$", true, &none).unwrap(), "$");

    let env = env_of(&[("PATH_RS_DVAR", "val"), ("_PATH_RS_US", "u")]);
    assert_eq!(expand_dollar_variables("foo/$PATH_RS_DVAR/bar", true, &env).unwrap(), "foo/val/bar");
    assert_eq!(expand_dollar_variables("foo/${PATH_RS_DVAR}/bar", true, &env).unwrap(), "foo/val/bar");
    assert_eq!(expand_dollar_variables("$_PATH_RS_US", true, &env).unwrap(), "u");

    assert!(expand_dollar_variables("${}", true, &none).is_err());
    assert_eq!(expand_dollar_variables("${PATH_RS_NO_SUCH}", false, &none).unwrap(), "${PATH_RS_NO_SUCH}");
}

#[test]
fn embedded_nul_rejected() {
    let opts = ExpandOptions::default();
    assert!(matches!(expand_input("foo\0bar", &opts, &no_env()), Err(PathError::EmbeddedNul)));
    assert!(matches!(expand_percent_variables("a\0b", true, &no_env()), Err(PathError::EmbeddedNul)));
}

#[test]
fn expansion_depth_limit() {
    let env = env_of(&[("PATH_RS_DEPTH", "ok")]);
    let opts = ExpandOptions { max_expansion_depth: 1, ..ExpandOptions::default() };
    let _ = expand_input("%PATH_RS_DEPTH%", &opts, &env).unwrap();
}

#[test]
fn options_none_is_passthrough() {
    let p = expand_input("%NOT_EXPANDED%/$HOME/~", &ExpandOptions::none(), &no_env()).unwrap();
    assert_eq!(p, "%NOT_EXPANDED%/$HOME/~");
}

#[test]
fn mid_path_env_still_expands_when_enabled() {
    let env = env_of(&[("PATH_RS_MID", "mid")]);
    let opts = ExpandOptions { expand_tilde: false, ..ExpandOptions::default() };
    assert_eq!(expand_input("foo/%PATH_RS_MID%/bar", &opts, &env).unwrap(), "foo/mid/bar");
    assert_eq!(expand_input("foo/$PATH_RS_MID/bar", &opts, &env).unwrap(), "foo/mid/bar");
}

#[test]
fn wsl_option_matrix() {
    let base = ExpandOptions {
        expand_tilde: false,
        expand_percent_variables: false,
        expand_dollar_variables: false,
        translate_wsl_paths: true,
        ..ExpandOptions::default()
    };
    assert_eq!(expand_input("/mnt/c/Users/x", &base, &no_env()).unwrap(), r"C:\Users\x");
    assert_eq!(expand_input("/mnt/D/repo", &base, &no_env()).unwrap(), r"D:\repo");
    assert_eq!(expand_input("/mnt/data/x", &base, &no_env()).unwrap(), "/mnt/data/x");
    assert!(expand_input("/mnt/", &base, &no_env()).is_err());

    let off = ExpandOptions {
        translate_wsl_paths: false,
        expand_tilde: false,
        expand_percent_variables: false,
        expand_dollar_variables: false,
        ..ExpandOptions::default()
    };
    assert_eq!(expand_input("/mnt/c/Users/x", &off, &no_env()).unwrap(), "/mnt/c/Users/x");
}
