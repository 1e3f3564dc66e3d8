use path_rs::{
    CaseNormalization, CommandLinePathMatchOptions, DirectoryInspection, ExecutableMatchOptions, PathIdentityOptions,
    PathRecord, TextNormalizationOptions, command_line_contains_path, deduplicate_paths, executable_paths_match,
    normalize_path_token, path_display_string, path_identity_key, require_directory, translate_wsl_path,
};

fn ascii_opts() -> PathIdentityOptions {
    PathIdentityOptions { case: CaseNormalization::AsciiLowercase, ..PathIdentityOptions::default() }
}

#[test]
fn platform_default_case() {
    let o = PathIdentityOptions::default();
    let lower = path_identity_key(r"C:\Users\Floris", o).unwrap();
    let upper = path_identity_key(r"C:\USERS\FLORIS", o).unwrap();
    let _ = (lower, upper);
}

#[test]
fn preserve_case_differs() {
    let o = PathIdentityOptions {
        case: CaseNormalization::Preserve,
        normalize_separators: true,
        ..PathIdentityOptions::default()
    };
    let a = path_identity_key("Foo/Bar", o).unwrap();
    let b = path_identity_key("foo/bar", o).unwrap();
    assert_ne!(a, b);
}

#[test]
fn wsl_translation_in_identity() {
    let o = PathIdentityOptions {
        translate_wsl_paths: true,
        case: CaseNormalization::AsciiLowercase,
        ..PathIdentityOptions::default()
    };
    let wsl = path_identity_key("/mnt/c/Users/Floris", o).unwrap();
    let win = path_identity_key(r"C:\Users\Floris", o).unwrap();
    assert_eq!(wsl, win);
}

#[test]
fn identity_key_not_for_fs_access_documented() {
    let key = path_identity_key(r"C:\Users\Floris\Repo", ascii_opts()).unwrap();
    assert!(!key.is_empty());
    assert!(key.contains("users/floris/repo") || key.contains("Users"));
    assert!(!key.contains('\\'));
}

#[test]
fn empty_path_errors() {
    assert!(path_identity_key("", ascii_opts()).is_err());
}

#[test]
fn path_record_display_differs_from_key() {
    let path = String::from(r"C:\Users\Floris\Repo");
    let rec = PathRecord::from_path(&path, Some(ascii_opts()), None).unwrap();
    assert_eq!(rec.path, path);
    assert_eq!(rec.display, path_display_string(&path));
    let key = rec.identity_key.unwrap();
    assert_ne!(key, rec.display);
}

#[test]
fn dedup_order_preserved() {
    let paths = vec![
        String::from(r"D:\first"),
        String::from(r"d:/first"),
        String::from(r"D:\second"),
        String::from(r"d:\second\"),
        String::from(r"E:\third"),
    ];
    let out = deduplicate_paths(paths, vec![], ascii_opts()).unwrap();
    assert_eq!(out.len(), 3);
    assert_eq!(out[0], String::from(r"D:\first"));
    assert_eq!(out[1], String::from(r"D:\second"));
    assert_eq!(out[2], String::from(r"E:\third"));
}

#[test]
fn token_normalization_matrix() {
    let opts = TextNormalizationOptions {
        trim_whitespace: true,
        trim_trailing_separators: true,
        normalize_separators: true,
        case: CaseNormalization::AsciiLowercase,
    };
    assert_eq!(normalize_path_token("  REPO  ", &opts), "repo");
    assert_eq!(normalize_path_token(r"repo\", &opts), "repo");
    assert_eq!(normalize_path_token("repo/", &opts), "repo");
    assert_eq!(normalize_path_token(r"owner\repo", &opts), "owner/repo");
    assert_eq!(normalize_path_token("repo.git", &opts), "repo.git");
    let url = normalize_path_token("https://github.com/owner/repo.git", &opts);
    assert!(url.contains("github.com/owner/repo.git"));
    assert!(url.ends_with("repo.git"));

    let preserve = TextNormalizationOptions { case: CaseNormalization::Preserve, ..opts };
    assert_eq!(normalize_path_token("REPO", &preserve), "REPO");
}

#[test]
fn wsl_helper_still_generic() {
    assert!(translate_wsl_path("/mnt/c/x").unwrap().is_some());
    assert!(translate_wsl_path("/home/user").unwrap().is_none());
}

#[test]
fn resolve_existing_symlinks_option_does_not_require_existence() {
    let o = PathIdentityOptions {
        resolve_existing_symlinks: true,
        case: CaseNormalization::AsciiLowercase,
        ..PathIdentityOptions::default()
    };
    let key = path_identity_key("/this/path/should/not/exist/path-rs-test", o).unwrap();
    assert!(!key.is_empty());
}

#[test]
fn path_token_normalization() {
    let opts = TextNormalizationOptions {
        trim_whitespace: true,
        trim_trailing_separators: true,
        normalize_separators: true,
        case: CaseNormalization::AsciiLowercase,
    };
    assert_eq!(normalize_path_token(r"  Repo\Name\  ", &opts), "repo/name");
    assert_eq!(normalize_path_token("Repo.git", &opts), "repo.git");
}

#[test]
fn identity_preserves_case_on_unix_policy() {
    let opts = PathIdentityOptions { case: CaseNormalization::Preserve, ..PathIdentityOptions::default() };
    let a = path_identity_key("/tmp/Foo", opts).unwrap();
    let b = path_identity_key("/tmp/foo", opts).unwrap();
    assert_ne!(a, b);
}

#[test]
fn deduplicate_and_record() {
    let opts = ascii_opts();
    let paths = vec![String::from(r"C:\Users\Floris\Repo"), String::from(r"c:/users/floris/repo")];
    let d = deduplicate_paths(paths, vec![], opts).unwrap();
    assert_eq!(d.len(), 1);

    let rec = PathRecord::from_path(r"C:\Users\Floris\Repo", Some(opts), None).unwrap();
    assert!(rec.identity_key.is_some());
    assert!(!rec.display.is_empty());
}

#[test]
fn executable_and_command_line() {
    let exec = ExecutableMatchOptions::default();
    assert!(executable_paths_match(r"C:\Program Files\XBP\xbp.exe", r"c:/program files/xbp/xbp.exe", exec).unwrap());

    let opts = CommandLinePathMatchOptions {
        case_insensitive: true,
        require_component_boundary: true,
        support_quotes: true,
        match_basename: false,
        ..CommandLinePathMatchOptions::default()
    };
    assert!(command_line_contains_path(r#"run "C:\Users\Floris\repo" --watch"#, r"C:\Users\Floris\repo", opts).unwrap());
    assert!(!command_line_contains_path(r"run C:\repository\x", r"C:\repo", opts).unwrap());
    assert!(
        command_line_contains_path(
            r"run /mnt/c/Users/Floris/repo",
            r"/mnt/c/Users/Floris/repo",
            CommandLinePathMatchOptions { support_wsl_translation: true, ..opts }
        )
        .unwrap()
    );
    assert!(command_line_contains_path("", r"C:\repo", opts).is_ok());
    assert!(command_line_contains_path("x", "", opts).is_err());
}

fn inspection(path: &str, exists: bool, is_directory: bool) -> DirectoryInspection {
    DirectoryInspection {
        path: path.to_string(),
        exists,
        is_directory,
        is_symlink: false,
        is_readable: None,
        metadata: None,
    }
}

#[test]
fn require_directory_verdicts() {
    assert_eq!(require_directory("/d", Ok(inspection("/d", true, true))).unwrap(), "/d");
    let e = require_directory("/f", Ok(inspection("/f", true, false))).unwrap_err();
    assert_eq!(e.to_string(), "invalid path: path is not a directory: /f");
    let e = require_directory("/m", Ok(inspection("/m", false, false))).unwrap_err();
    assert_eq!(e.to_string(), "invalid path: path does not exist: /m");
}

#[test]
fn identity_key_equivalences() {
    let opts = PathIdentityOptions {
        case: CaseNormalization::AsciiLowercase,
        ..PathIdentityOptions::default()
    };
    let keys = [
        path_identity_key(r"C:\Users\Floris\Repo", opts).unwrap(),
        path_identity_key(r"c:/users/floris/repo", opts).unwrap(),
        path_identity_key(r"C:/Users/Floris/Repo/", opts).unwrap(),
        path_identity_key(r"C:\Users\Floris\Repo\.", opts).unwrap(),
    ];
    assert!(keys.windows(2).all(|w| w[0] == w[1]));
}

#[test]
fn repeated_separators_and_trailing() {
    let o = ascii_opts();
    let a = path_identity_key(r"C:\Users\Floris\\Repo", o).unwrap();
    let b = path_identity_key(r"C:\Users\Floris\Repo\", o).unwrap();
    let c = path_identity_key(r"C:\Users\Floris\Repo\.", o).unwrap();
    assert_eq!(a, b);
    assert_eq!(a, c);
}

#[test]
fn dot_segments_dropped_from_keys() {
    let o = ascii_opts();
    assert_eq!(path_identity_key(r"C:\Repo\.\src", o).unwrap(), "c:/repo/src");
    assert_eq!(path_identity_key(r".\src", o).unwrap(), "src");
    assert_eq!(path_identity_key(r"C:\.", o).unwrap(), "c:/");
    assert_eq!(path_identity_key(r"a\.b\..c", o).unwrap(), "a/.b/..c");
    assert_eq!(path_identity_key(".", o).unwrap(), ".");
}

#[test]
fn resolved_spellings_share_a_key() {
    let resolving = PathIdentityOptions { resolve_existing_symlinks: true, ..PathIdentityOptions::default() };
    let lexical = PathIdentityOptions::default();
    let paths = vec![String::from("/data/link"), String::from("/data/real"), String::from("/data/missing")];
    let canonical = vec![Some(String::from("/data/real")), Some(String::from("/data/real")), None];
    let d = deduplicate_paths(paths.clone(), canonical.clone(), resolving).unwrap();
    assert_eq!(d, vec![String::from("/data/link"), String::from("/data/missing")]);
    let d = deduplicate_paths(paths, canonical, lexical).unwrap();
    assert_eq!(d.len(), 3);

    let rec = PathRecord::from_path("/data/link", Some(resolving), Some(String::from("/data/real"))).unwrap();
    assert_eq!(rec.identity_key.unwrap(), "/data/real");
    assert_eq!(rec.path, "/data/link");
    let rec = PathRecord::from_path("/data/link", Some(lexical), Some(String::from("/data/real"))).unwrap();
    assert_eq!(rec.identity_key.unwrap(), "/data/link");
    assert_eq!(path_rs::path_identity_key_resolved("/data/link", resolving, None).unwrap(), "/data/link");
}
