use path_rs::{
    PathError, absolute_with_cwd, ensure_inside, is_lexically_inside, join_relative, normalize,
    path_contains_reserved_name, resolve_against, resolve_inside,
};

#[test]
fn normalize_matrix() {
    for (input, expected) in [
        (".", "."),
        ("./", "."),
        ("foo", "foo"),
        ("./foo", "foo"),
        ("foo/../bar", "bar"),
        ("foo//bar", "foo/bar"),
        ("foo///bar", "foo/bar"),
        ("foo/./bar", "foo/bar"),
        ("../foo", "../foo"),
        ("foo/../../bar", "../bar"),
        ("foo/./../bar/./baz", "bar/baz"),
    ] {
        assert_eq!(normalize(input).unwrap(), expected, "normalize({input:?})");
    }
    assert!(matches!(normalize(""), Err(PathError::EmptyInput)));
}

#[test]
fn unix_root_cannot_escape() {
    assert_eq!(normalize("/").unwrap(), "/");
    assert_eq!(normalize("/../foo").unwrap(), "/foo");
    assert_eq!(normalize("/foo/../bar").unwrap(), "/bar");
}

#[test]
fn resolve_and_join_matrix() {
    assert_eq!(resolve_against("/repo", "src/main.rs").unwrap(), "/repo/src/main.rs");
    assert_eq!(resolve_against("/repo", "./src/../Cargo.toml").unwrap(), "/repo/Cargo.toml");
    assert_eq!(join_relative("/repo", "src/lib.rs").unwrap(), "/repo/src/lib.rs");
}

#[test]
fn join_rejects_absolute_unix() {
    assert!(matches!(join_relative("/repo", "/etc/passwd"), Err(PathError::AbsoluteChildPath { .. })));
    assert!(matches!(resolve_inside("/repo", "/etc/passwd"), Err(PathError::AbsoluteChildPath { .. })));
}

#[test]
fn containment_matrix() {
    assert!(is_lexically_inside("/repo", "/repo"));
    assert!(is_lexically_inside("/repo/src", "/repo"));
    assert!(!is_lexically_inside("/repo2", "/repo"));
    assert!(!is_lexically_inside("/etc/passwd", "/repo"));

    assert_eq!(ensure_inside("/repo", "/repo/src/../Cargo.toml").unwrap(), "/repo/Cargo.toml");
    assert!(matches!(ensure_inside("/repo", "/etc/passwd"), Err(PathError::RootEscape { .. })));
    assert!(matches!(resolve_inside("/repo", "../../etc/passwd"), Err(PathError::RootEscape { .. })));
    assert_eq!(resolve_inside("/repo", "src/main.rs").unwrap(), "/repo/src/main.rs");
}

#[test]
fn absolute_makes_relative_absolute() {
    let p = absolute_with_cwd(".", &Ok("/home/user/work".to_string())).unwrap();
    assert!(p.starts_with('/'));
    assert_eq!(p, "/home/user/work");
}

#[test]
fn reserved_names_in_components() {
    assert!(path_contains_reserved_name("foo/NUL/bar"));
    assert!(path_contains_reserved_name("COM1"));
    assert!(!path_contains_reserved_name("console/file"));
}

#[test]
fn normalize_idempotent_samples() {
    for s in ["foo/bar", "./a/../b", "x//y/./z", "../up"] {
        let once = normalize(s).unwrap();
        let twice = normalize(&once).unwrap();
        assert_eq!(once, twice, "idempotent for {s}");
    }
}

#[test]
fn resolve_against_relative() {
    let p = resolve_against("/repo", "src/main.rs").unwrap();
    assert_eq!(p, "/repo/src/main.rs");
    let p = resolve_against("/repo", "./src/../Cargo.toml").unwrap();
    assert_eq!(p, "/repo/Cargo.toml");
}

#[test]
fn resolve_against_absolute_input() {
    let p = resolve_against("/repo", "/etc/passwd").unwrap();
    assert_eq!(p, "/etc/passwd");
}

#[test]
fn join_relative_rejects_absolute() {
    assert!(matches!(join_relative("/repo", "/etc/passwd"), Err(PathError::AbsoluteChildPath { .. })));
}

#[test]
fn resolve_inside_ok_and_escape() {
    assert_eq!(resolve_inside("/repo", "src/main.rs").unwrap(), "/repo/src/main.rs");
    assert_eq!(resolve_inside("/repo", "./src/../Cargo.toml").unwrap(), "/repo/Cargo.toml");
    assert!(matches!(resolve_inside("/repo", "../../etc/passwd"), Err(PathError::RootEscape { .. })));
    assert!(matches!(resolve_inside("/repo", "/etc/passwd"), Err(PathError::AbsoluteChildPath { .. })));
}

#[test]
fn absolute_cwd_relative() {
    let p = absolute_with_cwd(".", &Ok("/tmp".to_string())).unwrap();
    assert!(p.starts_with('/'));
    let e = absolute_with_cwd("rel", &Err("gone".to_string())).unwrap_err();
    assert!(matches!(e, PathError::CurrentDirectoryUnavailable { .. }));
}

#[test]
fn basic_normalization() {
    assert_eq!(normalize(".").unwrap(), ".");
    assert_eq!(normalize("./").unwrap(), ".");
    assert_eq!(normalize("foo").unwrap(), "foo");
    assert_eq!(normalize("./foo").unwrap(), "foo");
    assert_eq!(normalize("foo/../bar").unwrap(), "bar");
    assert_eq!(normalize("foo//bar").unwrap(), "foo/bar");
    assert_eq!(normalize("foo///bar").unwrap(), "foo/bar");
    assert_eq!(normalize("foo/./bar").unwrap(), "foo/bar");
    assert_eq!(normalize("../foo").unwrap(), "../foo");
    assert_eq!(normalize("foo/../../bar").unwrap(), "../bar");
}

#[test]
fn empty_input() {
    assert!(matches!(normalize(""), Err(PathError::EmptyInput)));
}

#[test]
fn unix_absolute_root() {
    assert_eq!(normalize("/").unwrap(), "/");
    assert_eq!(normalize("/foo/../bar").unwrap(), "/bar");
    // Cannot escape root
    assert_eq!(normalize("/../foo").unwrap(), "/foo");
}

#[test]
fn security_escape_blocked() {
    let dir = tempfile::tempdir().unwrap();
    let root = dir.path().to_str().unwrap();
    assert!(resolve_inside(root, "../outside").is_err());
}
