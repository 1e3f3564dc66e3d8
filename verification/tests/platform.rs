use path_rs::{
    PathError, is_device_namespace, is_drive_relative, is_reserved_windows_name, is_unc, is_verbatim,
    path_contains_reserved_name, simplify_for_display, translate_wsl_path,
};

#[test]
fn platform_reserved_names() {
    assert!(is_reserved_windows_name("CON"));
    assert!(is_reserved_windows_name("NUL.txt"));
    assert!(is_reserved_windows_name("COM1.log"));
    assert!(is_reserved_windows_name("PRN"));
    assert!(!is_reserved_windows_name("console"));
    assert!(path_contains_reserved_name("foo/NUL/bar"));
}

#[test]
fn wsl_paths() {
    assert_eq!(translate_wsl_path("/mnt/c/project").unwrap().unwrap(), r"C:\project");
    assert_eq!(translate_wsl_path("/mnt/d/repo").unwrap().unwrap(), r"D:\repo");
    assert_eq!(translate_wsl_path("/mnt/C/Users/floris").unwrap().unwrap(), r"C:\Users\floris");
    assert!(translate_wsl_path("/mnt/data/foo").unwrap().is_none());
    assert!(translate_wsl_path("/mnt/cc/foo").unwrap().is_none());
    assert!(translate_wsl_path("/mnt/1/foo").unwrap().is_none());
    assert!(translate_wsl_path("/mnt/~/foo").unwrap().is_none());
    assert!(translate_wsl_path("/home/user").unwrap().is_none());
    assert!(matches!(translate_wsl_path("/mnt/"), Err(PathError::InvalidPath { .. })));
}

#[test]
fn non_windows_prefix_helpers_are_false_for_unix_paths() {
    assert!(!is_drive_relative("/home/user"));
    assert!(!is_unc("/home/user"));
    assert!(!is_verbatim("/home/user"));
    assert!(!is_device_namespace("/home/user"));
}

#[test]
fn reserved_name_matrix() {
    for name in ["CON", "PRN", "AUX", "NUL", "COM1", "COM9", "LPT1", "LPT9", "nul.txt", "COM1.log", "con"] {
        assert!(is_reserved_windows_name(name), "expected reserved: {name}");
    }
    for name in ["console", "file.txt", "nullish", "COM10", "LPT10"] {
        assert!(!is_reserved_windows_name(name), "expected not reserved: {name}");
    }
    assert!(path_contains_reserved_name("a/NUL/b"));
    assert!(!path_contains_reserved_name("a/b/c"));
}

#[test]
fn wsl_matrix() {
    assert_eq!(translate_wsl_path("/mnt/c/project").unwrap().unwrap(), r"C:\project");
    assert_eq!(translate_wsl_path("/mnt/d/repo").unwrap().unwrap(), r"D:\repo");
    assert_eq!(translate_wsl_path("/mnt/C/Users/x").unwrap().unwrap(), r"C:\Users\x");
    for bad_none in ["/mnt/data/foo", "/mnt/cc/foo", "/mnt/1/foo", "/mnt/~/foo", "/home/user", "/mnt/c"] {
        if bad_none == "/mnt/c" {
            assert!(translate_wsl_path(bad_none).unwrap().is_some());
            continue;
        }
        assert!(
            translate_wsl_path(bad_none).unwrap().is_none() || translate_wsl_path(bad_none).is_err(),
            "unexpected success for {bad_none}"
        );
    }
    assert!(matches!(translate_wsl_path("/mnt/"), Err(PathError::InvalidPath { .. })));
}

#[test]
fn non_windows_unix_paths() {
    assert!(!is_drive_relative("/home/user"));
    assert!(!is_unc("/home/user"));
    assert!(!is_verbatim("/home/user"));
    assert!(!is_device_namespace("/home/user"));
    let p = simplify_for_display("/tmp/x");
    assert_eq!(p, "/tmp/x");
}

#[test]
fn platform_dirs_available() {
    let d = path_rs::dirs::platform_dirs("/tmp".to_string()).unwrap();
    assert!(!d.home.is_empty());
    assert!(!d.temp.is_empty());
}

#[test]
fn platform_dirs_fields() {
    let d = path_rs::dirs::platform_dirs("/tmp".to_string()).unwrap();
    assert!(!d.home.is_empty());
    assert!(!d.config.is_empty());
    assert!(!d.data.is_empty());
    assert!(!d.cache.is_empty());
    assert!(!d.temp.is_empty());
}

#[test]
fn platform_dirs_resolve() {
    let d = path_rs::dirs::platform_dirs("/tmp".to_string()).unwrap();
    assert!(!d.home.is_empty());
    assert!(!d.config.is_empty());
    assert!(!d.temp.is_empty());
}
