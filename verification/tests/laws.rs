use path_rs::{
    CacheKey, CacheMode, CacheOptions, CacheValue, CaseNormalization, CommandLinePathMatchOptions, DiscoveryCache, DiscoveryOptions, DiscoveryState, EnvValue, Environment, ExecutableMatchOptions, ExpandOptions, ListOptions, MemoryCache, PathError, SearchRequest, VisitControl, VisitState, command_line_contains_path, executable_paths_match, expand_input, is_lexically_inside, normalize,
};
use path_rs::discovery::AfterError;

#[test]
fn plain_text_expands_to_itself() {
    let mut env = Environment::new();
    env.push("HOME", EnvValue::Unicode("/home/x".into()));
    for s in ["foo/bar", "/abs/path with spaces", "a~b", "C:\\dir"] {
        assert_eq!(expand_input(s, &ExpandOptions::default(), &env).unwrap(), s);
    }
}

#[test]
fn executable_match_is_symmetric_and_reflexive() {
    let o = ExecutableMatchOptions::default();
    let pairs = [("/usr/bin/tool", "/usr/bin/../bin/tool"), ("/a/b", "/a/c"), (r"C:\X\y.exe", "c:/x/y.exe")];
    for (a, b) in pairs {
        assert_eq!(executable_paths_match(a, b, o).unwrap(), executable_paths_match(b, a, o).unwrap());
        assert!(executable_paths_match(a, a, o).unwrap());
    }
}

#[test]
fn containment_is_reflexive_and_transitive() {
    assert!(is_lexically_inside("/a/b", "/a/b"));
    assert!(is_lexically_inside("/a/b/c", "/a/b"));
    assert!(is_lexically_inside("/a/b", "/a"));
    assert!(is_lexically_inside("/a/b/c", "/a"));
}

#[test]
fn absolute_paths_stay_under_root() {
    for s in ["/../../x", "/a/../../b", "/.."] {
        let n = normalize(s).unwrap();
        assert!(n.starts_with('/'));
        assert!(!n.split('/').any(|c| c == ".."));
    }
}

#[test]
fn unicode_lowercase_case_policy() {
    assert_eq!(CaseNormalization::UnicodeLowercase.apply("ÄÖ/Straße"), "äö/straße");
    assert_eq!(CaseNormalization::AsciiLowercase.apply("ÄB"), "Äb");
    assert_eq!(CaseNormalization::PlatformDefault.apply("AbC"), "AbC");
}

#[test]
fn clock_reads_after_epoch() {
    let t = path_rs::cache::now_nanos();
    assert!(t > 1_500_000_000_000_000_000);
}

#[test]
fn visitor_is_never_consulted_after_stop() {
    let mut v = VisitState::new("/r", &DiscoveryOptions::new());
    assert!(v.may_visit());
    assert!(v.screen("/r", "r", true));
    assert!(!v.after_visit("/r", VisitControl::Stop));
    assert!(!v.may_visit());
    assert!(!v.screen("/r/a", "a", true));
    assert!(!v.after_visit("/r/a", VisitControl::Continue));
    assert!(matches!(v.after_error(VisitControl::Continue, PathError::traversal("x")), AfterError::Finish));

    let mut w = VisitState::new("/r", &DiscoveryOptions::new());
    assert!(matches!(w.after_error(VisitControl::Stop, PathError::traversal("x")), AfterError::Finish));
    assert!(!w.may_visit());
}

#[test]
fn discovery_keeps_at_most_max_entries() {
    let mut st = DiscoveryState::new("/r", DiscoveryOptions::new().max_entries(Some(2))).unwrap();
    for p in ["/r/c", "/r/a", "/r/b"] {
        if st.is_full() {
            break;
        }
        st.keep_directory(p, Ok(p.to_string())).unwrap();
    }
    assert!(st.is_full());
    assert_eq!(st.finish(), vec!["/r/a", "/r/c"]);
}

#[test]
fn dropping_the_boundary_requirement_only_adds_matches() {
    let strict = CommandLinePathMatchOptions { require_component_boundary: true, ..CommandLinePathMatchOptions::default() };
    let loose = CommandLinePathMatchOptions { require_component_boundary: false, ..strict };
    for (cmd, path) in [("cd /repo/src", "/repo"), ("tool --root=/repo", "/repo"), ("ls /repository", "/repo")] {
        if command_line_contains_path(cmd, path, strict).unwrap() {
            assert!(command_line_contains_path(cmd, path, loose).unwrap());
        }
    }
    assert!(!command_line_contains_path("ls /repository", "/repo", strict).unwrap());
    assert!(command_line_contains_path("ls /repository", "/repo", loose).unwrap());
}

#[test]
fn disabled_cache_stays_empty_over_any_calls() {
    let mut c = MemoryCache::new(CacheOptions { mode: CacheMode::Disabled, ..CacheOptions::default() });
    let key = CacheKey::from_search(&SearchRequest::new("/r", vec!["*".to_string()]).options(ListOptions::new()));
    c.put(key.clone(), CacheValue { entries: vec![], stored_at: 0, ttl: None }).unwrap();
    assert_eq!(c.len().unwrap(), 0);
    assert!(c.get(&key).unwrap().is_none());
    c.invalidate("/r").unwrap();
    c.put(key.clone(), CacheValue { entries: vec![], stored_at: 1, ttl: Some(5) }).unwrap();
    assert!(c.is_empty().unwrap());
}
