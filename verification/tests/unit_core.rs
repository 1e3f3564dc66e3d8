use path_rs::identity::PathIdentityOptions as IdOpts;
use path_rs::{
    CaseNormalization, CommandLinePathMatchOptions, ExecutableMatchOptions, PathError, command_line_contains_path,
    deduplicate_paths, executable_paths_match, is_lexically_inside, is_reserved_windows_name, join_relative, normalize, path_identity_key,
    path_to_utf8, resolve_inside, translate_wsl_path,
};

#[test]
fn inside_and_escape() {
    let root = "/repo";
    assert!(is_lexically_inside("/repo/src", root));
    assert!(is_lexically_inside("/repo", root));
    assert!(!is_lexically_inside("/etc", root));
    assert!(!is_lexically_inside("/repo2", root));
}

#[test]
fn case_and_separators() {
    let opts = IdOpts { case: CaseNormalization::AsciiLowercase, ..IdOpts::default() };
    let a = path_identity_key(r"C:\Users\Floris\Repo", opts).unwrap();
    let b = path_identity_key(r"c:/users/floris/repo/", opts).unwrap();
    let c = path_identity_key(r"C:/Users/Floris/Repo/.", opts).unwrap();
    assert_eq!(a, b);
    assert_eq!(a, c);
}

#[test]
fn dedup_preserves_first() {
    let opts = IdOpts { case: CaseNormalization::AsciiLowercase, ..IdOpts::default() };
    let paths = vec![
        String::from(r"C:\Users\Floris\Repo"),
        String::from(r"c:/users/floris/repo"),
        String::from(r"D:\other"),
    ];
    let d = deduplicate_paths(paths, vec![], opts).unwrap();
    assert_eq!(d.len(), 2);
    assert_eq!(d[0], String::from(r"C:\Users\Floris\Repo"));
}

#[test]
fn executable_slash_variants() {
    let opts = ExecutableMatchOptions::default();
    assert!(executable_paths_match(r"C:\Program Files\Tool\app.exe", r"c:/program files/tool/app.exe", opts).unwrap());
}

#[test]
fn command_line_boundary_avoids_prefix_false_positive() {
    let opts = CommandLinePathMatchOptions {
        case_insensitive: true,
        require_component_boundary: true,
        match_basename: false,
        ..CommandLinePathMatchOptions::default()
    };
    assert!(!command_line_contains_path(r"tool C:\repository\file", r"C:\repo", opts).unwrap());
    assert!(command_line_contains_path(r"tool C:\repo\file", r"C:\repo", opts).unwrap());
}

#[test]
fn quoted_paths() {
    let opts = CommandLinePathMatchOptions { case_insensitive: true, ..CommandLinePathMatchOptions::default() };
    assert!(command_line_contains_path(r#"tool "C:\Users\Floris\repo" --flag"#, r"C:\Users\Floris\repo", opts).unwrap());
}

#[test]
fn collapses_dot_and_parent() {
    assert_eq!(normalize("foo/./bar/../baz").unwrap(), "foo/baz");
    assert_eq!(normalize("./foo").unwrap(), "foo");
    assert_eq!(normalize("foo//bar").unwrap(), "foo/bar");
}

#[test]
fn preserves_leading_parent_on_relative() {
    assert_eq!(normalize("../foo").unwrap(), "../foo");
    assert_eq!(normalize("foo/../../bar").unwrap(), "../bar");
}

#[test]
fn empty_rejected() {
    assert!(matches!(normalize(""), Err(PathError::EmptyInput)));
}

#[test]
fn reserved_names() {
    assert!(is_reserved_windows_name("CON"));
    assert!(is_reserved_windows_name("nul.txt"));
    assert!(is_reserved_windows_name("COM1.log"));
    assert!(!is_reserved_windows_name("console"));
    assert!(!is_reserved_windows_name("file.txt"));
}

#[test]
fn wsl_translation() {
    let p = translate_wsl_path("/mnt/c/Users/floris").unwrap().unwrap();
    assert_eq!(p, String::from(r"C:\Users\floris"));
    let p = translate_wsl_path("/mnt/d/repo").unwrap().unwrap();
    assert_eq!(p, String::from(r"D:\repo"));
    assert!(translate_wsl_path("/mnt/data/foo").unwrap().is_none());
    assert!(translate_wsl_path("/mnt/cc/foo").unwrap().is_none());
    assert!(translate_wsl_path("/mnt/1/foo").unwrap().is_none());
    assert!(translate_wsl_path("/mnt/~/foo").unwrap().is_none());
    assert!(translate_wsl_path("/home/user").unwrap().is_none());
    assert!(translate_wsl_path("/mnt/").is_err());
}

#[test]
fn join_rejects_absolute() {
    assert!(matches!(join_relative("/repo", "/etc/passwd"), Err(PathError::AbsoluteChildPath { .. })));
}

#[test]
fn resolve_inside_blocks_escape() {
    let err = resolve_inside("/repo", "../../etc/passwd").unwrap_err();
    assert!(matches!(err, PathError::RootEscape { .. }));
}

#[test]
fn resolve_inside_allows_nested() {
    let p = resolve_inside("/repo", "src/main.rs").unwrap();
    assert_eq!(p, "/repo/src/main.rs");
}

#[test]
fn utf8_ok() {
    assert_eq!(path_to_utf8("foo/bar".as_bytes()).unwrap(), "foo/bar");
}
