use path_rs::{PathError, ensure_inside, is_lexically_inside};

#[test]
fn lexical_inside() {
    let root = "/repo";
    assert!(is_lexically_inside("/repo", root));
    assert!(is_lexically_inside("/repo/src/main.rs", root));
    assert!(!is_lexically_inside("/repo2", root));
    assert!(!is_lexically_inside("/etc/passwd", root));
}

#[test]
fn ensure_inside_normalizes() {
    let p = ensure_inside("/repo", "/repo/src/../Cargo.toml").unwrap();
    assert_eq!(p, "/repo/Cargo.toml");
    assert!(matches!(ensure_inside("/repo", "/etc/passwd"), Err(PathError::RootEscape { .. })));
}
