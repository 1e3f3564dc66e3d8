use path_rs::{EnvValue, Environment, ExpandOptions, PathError, expand_input, logical_path_key, normalize, path_to_string_lossy, path_to_utf8};

#[test]
fn path_error_display_is_useful() {
    let err = PathError::UndefinedEnvironmentVariable { name: "FOO".into() };
    assert!(err.to_string().contains("FOO"));

    let err = PathError::RootEscape { path: "/etc/passwd".into() };
    assert!(err.to_string().contains("/etc/passwd"));

    let err = PathError::filesystem("/tmp/x", "boom");
    assert!(err.to_string().contains("boom"));
}

#[test]
fn error_helpers() {
    let e = PathError::invalid("bad");
    assert!(matches!(e, PathError::InvalidPath { .. }));
    let e = PathError::traversal("walk failed");
    assert!(matches!(e, PathError::Traversal { .. }));
    let e = PathError::cache("cache fail");
    assert!(matches!(e, PathError::Cache { .. }));
    let e = PathError::root_escape("/x");
    assert!(matches!(e, PathError::RootEscape { .. }));
    let e = PathError::absolute_child("/abs");
    assert!(matches!(e, PathError::AbsoluteChildPath { .. }));
    let e = PathError::drive_relative("C:foo");
    assert!(matches!(e, PathError::DriveRelativePath { .. }));
}

#[test]
fn utf8_helpers() {
    assert_eq!(path_to_utf8(b"foo/bar").unwrap(), "foo/bar");
    let lossy = path_to_string_lossy(b"foo");
    assert_eq!(&*lossy, "foo");
}

#[test]
fn non_utf8_path_errors_on_strict_utf8() {
    let path: &[u8] = b"foo/\xff/bar";
    assert!(matches!(path_to_utf8(path), Err(PathError::NotUtf8)));
    let lossy = path_to_string_lossy(path);
    assert_eq!(lossy, "foo/\u{fffd}/bar");
}

#[test]
fn expand_and_normalize_error_paths() {
    assert!(matches!(expand_input("", &ExpandOptions::default(), &Environment::new()), Err(PathError::EmptyInput)));
    assert!(matches!(normalize(""), Err(PathError::EmptyInput)));
}

#[test]
fn logical_path_key_nfc() {
    let a = logical_path_key("cafe\u{301}".as_bytes());
    let b = logical_path_key("caf\u{e9}".as_bytes());
    assert_eq!(a, b);
}

#[test]
fn not_unicode_variable_is_an_error() {
    let mut env = Environment::new();
    env.push("BAD", EnvValue::NotUnicode);
    let e = path_rs::expand_dollar_variables("$BAD", true, &env).unwrap_err();
    assert_eq!(e.to_string(), "invalid path: environment variable BAD is not valid Unicode");
}

fn assert_send_sync<T: Send + Sync>() {}

#[test]
fn path_error_is_send_sync() {
    assert_send_sync::<PathError>();
}
