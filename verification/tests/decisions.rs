use path_rs::listing::{RootProbe, check_listable_root, entry_kind};
use path_rs::DirLookup;
use path_rs::dirs::platform_dirs_from;
use path_rs::cache::{PersistentCacheFile, SCHEMA_VERSION, load_file, snapshot_file, sort_from_u8, sort_to_u8};
use path_rs::discovery::{InspectStep, check_discovery_root, sort_paths, walk_max_depth};
use path_rs::inspect::inspection_from;
use path_rs::listing::{
    EntryMetadata, WalkAction, build_entry, entry_is_listed, finish_listing, kind_allowed, relative_path,
    walk_depth_bounds,
};
use path_rs::predicates::{select_entries, extension, filename, filter_entries, is_hidden, kind, max_size, min_size, modified_after, modified_before};
use path_rs::search::{CacheStep, build_pattern_set, cache_step, cached_entries_at, filter_search_results, plan_search, validate_patterns, value_to_store};
use path_rs::validation::is_hidden_name;
use path_rs::{
    CacheKey, CacheMode, CacheOptions, CachePolicy, CacheValue, DirectoryInspection, DiscoveryCache, DiscoveryOptions,
    DiscoveryState, EntryKind, FileEntry, ListOptions, MemoryCache, MetadataSummary, PathError, Probe, SearchRequest,
    SortMode, TraversalErrorPolicy, VisitControl, VisitState, WalkCounter, sort_entries, validate_app_name,
};

fn entry(path: &str, kind: EntryKind) -> FileEntry {
    FileEntry::new(path.to_string(), kind)
}

fn paths(v: &[FileEntry]) -> Vec<&str> {
    v.iter().map(|e| e.path.as_str()).collect()
}

#[test]
fn sort_by_path_name_and_kind() {
    let base = vec![
        entry("/r/b/z.txt", EntryKind::File),
        entry("/r/a", EntryKind::Directory),
        entry("/r/c/a.txt", EntryKind::File),
        entry("/r/d", EntryKind::Symlink),
    ];
    let mut v = base.clone();
    sort_entries(&mut v, SortMode::Path);
    assert_eq!(paths(&v), vec!["/r/a", "/r/b/z.txt", "/r/c/a.txt", "/r/d"]);

    let mut v = base.clone();
    sort_entries(&mut v, SortMode::Name);
    assert_eq!(paths(&v), vec!["/r/a", "/r/c/a.txt", "/r/d", "/r/b/z.txt"]);

    let mut v = base.clone();
    sort_entries(&mut v, SortMode::DirsFirst);
    assert_eq!(paths(&v), vec!["/r/a", "/r/b/z.txt", "/r/c/a.txt", "/r/d"]);

    let mut v = base.clone();
    sort_entries(&mut v, SortMode::Unsorted);
    assert_eq!(paths(&v), paths(&base));
}

#[test]
fn sort_is_stable_for_equal_paths() {
    let mut a = entry("/same", EntryKind::File);
    a.size = Some(1);
    let mut b = entry("/same", EntryKind::File);
    b.size = Some(2);
    let mut v = vec![entry("/z", EntryKind::File), a, b];
    sort_entries(&mut v, SortMode::Path);
    assert_eq!(v[0].size, Some(1));
    assert_eq!(v[1].size, Some(2));
    assert_eq!(v[2].path, "/z");
}

#[test]
fn sort_paths_modes() {
    let mut v = vec!["/x/b".to_string(), "/a/c".to_string(), "/y/a".to_string()];
    sort_paths(&mut v, SortMode::Path);
    assert_eq!(v, vec!["/a/c", "/x/b", "/y/a"]);
    sort_paths(&mut v, SortMode::Name);
    assert_eq!(v, vec!["/y/a", "/x/b", "/a/c"]);
}

#[test]
fn listing_depth_bounds_table() {
    let o = ListOptions::new();
    assert_eq!(walk_depth_bounds(&o), (1, 1));
    assert_eq!(walk_depth_bounds(&o.include_root(true)), (0, 1));
    assert_eq!(walk_depth_bounds(&o.recursive(true)), (1, usize::MAX));
    assert_eq!(walk_depth_bounds(&o.recursive(true).max_depth(Some(3))), (1, 3));
    assert_eq!(walk_depth_bounds(&o.recursive(true).max_depth(Some(0))), (0, 0));
    assert_eq!(walk_depth_bounds(&o.recursive(true).include_root(true).max_depth(Some(2))), (0, 2));
}

#[test]
fn listing_filters() {
    let o = ListOptions::new();
    assert!(entry_is_listed("/r", "/r/a.txt", "a.txt", EntryKind::File, &o));
    assert!(!entry_is_listed("/r", "/r/.git", ".git", EntryKind::Directory, &o));
    assert!(entry_is_listed("/r", "/r/.git", ".git", EntryKind::Directory, &o.include_hidden(true)));
    assert!(entry_is_listed("/.tmpdir", "/.tmpdir", ".tmpdir", EntryKind::Directory, &o));
    assert!(!entry_is_listed("/r", "/r/..", "..", EntryKind::Directory, &o));
    assert!(!entry_is_listed("/r", "/r/sock", "sock", EntryKind::Other, &o));
    assert!(!kind_allowed(EntryKind::File, &o.include_files(false)));
    assert!(kind_allowed(EntryKind::Other, &o.include_other(true)));
}

#[test]
fn relative_paths() {
    assert_eq!(relative_path("/r/a/b.txt", "/r").as_deref(), Some("a/b.txt"));
    assert_eq!(relative_path("/r", "/r").as_deref(), Some(""));
    assert_eq!(relative_path("/other/x", "/r"), None);
}

#[test]
fn build_entry_metadata_policy() {
    let meta = EntryMetadata { size: Some(7), modified: Some(5), readonly: true };
    let o = ListOptions::new();
    let e = build_entry("/r", "/r/x", EntryKind::File, Ok(meta), &o).unwrap();
    assert_eq!(e.size, Some(7));
    assert_eq!(e.readonly, Some(true));
    assert_eq!(e.relative_path.as_deref(), Some("x"));

    let err = build_entry("/r", "/r/x", EntryKind::File, Err(PathError::filesystem("/r/x", "denied")), &o);
    assert!(matches!(err, Err(PathError::Filesystem { .. })));

    let skip = o.error_policy(TraversalErrorPolicy::SkipErrors);
    let e = build_entry("/r", "/r/x", EntryKind::File, Err(PathError::filesystem("/r/x", "denied")), &skip).unwrap();
    assert_eq!(e.size, None);
    assert_eq!(e.readonly, None);
}

#[test]
fn walk_counter_caps_and_errors() {
    let o = ListOptions::new().max_entries(Some(1));
    let mut c = WalkCounter::new(&o);
    assert!(!c.exhausted());
    assert!(matches!(c.step(Ok(None)), WalkAction::Skip));
    assert!(matches!(c.step(Ok(Some(entry("/a", EntryKind::File)))), WalkAction::Yield(_)));
    assert!(c.exhausted());

    let mut c = WalkCounter::new(&ListOptions::new());
    assert!(matches!(c.step(Err(PathError::traversal("x"))), WalkAction::Fail(_)));
    let mut c = WalkCounter::new(&ListOptions::new().error_policy(TraversalErrorPolicy::SkipErrors));
    assert!(matches!(c.step(Err(PathError::traversal("x"))), WalkAction::Skip));
}

#[test]
fn finish_listing_sorts_then_truncates() {
    let mut v = vec![entry("/c", EntryKind::File), entry("/a", EntryKind::File), entry("/b", EntryKind::File)];
    finish_listing(&mut v, &ListOptions::new().max_entries(Some(2)));
    assert_eq!(paths(&v), vec!["/a", "/b"]);
}

#[test]
fn search_validation_errors() {
    let r = SearchRequest::new("/r", vec![]);
    let e = validate_patterns(&r).unwrap_err();
    assert_eq!(e.to_string(), "invalid path: search requires at least one pattern");
    let long = "a".repeat(4097);
    let r = SearchRequest::new("/r", vec!["*.rs".into()]).exclude(vec![long]);
    let e = validate_patterns(&r).unwrap_err();
    assert!(matches!(e, PathError::InvalidGlob { .. }));
    let ok = "é".repeat(2048);
    assert!(validate_patterns(&SearchRequest::new("/r", vec![ok])).is_ok());
    let too_long = "é".repeat(2049);
    assert!(validate_patterns(&SearchRequest::new("/r", vec![too_long])).is_err());
}

#[test]
fn search_invalid_glob() {
    let r = SearchRequest::new("/r", vec!["[".into()]);
    assert!(matches!(plan_search(&r), Err(PathError::InvalidGlob { .. })));
    assert!(matches!(build_pattern_set(&vec!["a{".to_string()]), Err(PathError::InvalidGlob { .. })));
    let nul = SearchRequest::new("/r\0", vec!["*".into()]);
    assert!(matches!(plan_search(&nul), Err(PathError::EmbeddedNul)));
}

#[test]
fn search_filtering_by_relative_path_and_name() {
    let r = SearchRequest::new("/r", vec!["*.rs".into()]).exclude(vec!["skip*".into()]);
    let plan = plan_search(&r).unwrap();
    let mut a = entry("/r/src/main.rs", EntryKind::File);
    a.relative_path = Some("src/main.rs".into());
    let mut b = entry("/r/skip_me.rs", EntryKind::File);
    b.relative_path = Some("skip_me.rs".into());
    let mut c = entry("/r/notes.txt", EntryKind::File);
    c.relative_path = Some("notes.txt".into());
    let mut d = entry("/r/lib.rs", EntryKind::File);
    d.relative_path = Some("lib.rs".into());
    let out = filter_search_results(vec![a.clone(), b.clone(), c.clone(), d.clone()], &plan, None);
    assert_eq!(paths(&out), vec!["/r/src/main.rs", "/r/lib.rs"]);
    let capped = filter_search_results(vec![a, b, c, d], &plan, Some(1));
    assert_eq!(paths(&capped), vec!["/r/src/main.rs"]);
}

#[test]
fn search_list_options_default_to_files() {
    let o = ListOptions::new().include_files(false).include_directories(false).include_symlinks(false);
    let r = SearchRequest::new("/r", vec!["*".into()]).options(o);
    let plan = plan_search(&r).unwrap();
    assert!(plan.list_options.include_files);
}

#[test]
fn cache_steps_and_hits() {
    assert_eq!(cache_step(CachePolicy::ReadThrough, false), CacheStep::Scan);
    assert_eq!(cache_step(CachePolicy::Bypass, true), CacheStep::Scan);
    assert_eq!(cache_step(CachePolicy::ReadThrough, true), CacheStep::ReadThenStore);
    assert_eq!(cache_step(CachePolicy::Refresh, true), CacheStep::ScanThenStore);
    let v = CacheValue { entries: vec![entry("/a", EntryKind::File)], stored_at: 100, ttl: Some(10) };
    assert!(cached_entries_at(Some(v.clone()), 105).is_some());
    assert!(cached_entries_at(Some(v.clone()), 111).is_none());
    assert!(cached_entries_at(Some(v), 99).is_none());
    let s = value_to_store(&vec![entry("/a", EntryKind::File)], 42);
    assert_eq!(s.stored_at, 42);
    assert_eq!(s.ttl, None);
}

#[test]
fn predicates_matrix() {
    let mut f = entry("/r/src/main.rs", EntryKind::File);
    f.size = Some(10);
    f.modified = Some(1000);
    assert!(extension("rs").test(&f));
    assert!(!extension("txt").test(&f));
    assert!(!extension("rs").test(&entry("/r/.rs", EntryKind::File)));
    assert!(extension("").test(&entry("/r/foo.", EntryKind::File)));
    assert!(extension("gz").test(&entry("/r/a.tar.gz", EntryKind::File)));
    assert!(filename("main.rs").test(&f));
    assert!(kind(EntryKind::File).test(&f));
    assert!(!kind(EntryKind::Directory).test(&f));
    assert!(min_size(10).test(&f) && !min_size(11).test(&f));
    assert!(max_size(10).test(&f) && !max_size(9).test(&f));
    assert!(modified_after(999).test(&f) && !modified_after(1000).test(&f));
    assert!(modified_before(1001).test(&f) && !modified_before(1000).test(&f));
    assert!(is_hidden().test(&entry("/r/.env", EntryKind::File)));
    assert!(!is_hidden().test(&f));
    let out = filter_entries(vec![f.clone(), entry("/r/a.txt", EntryKind::File), f.clone()], &extension("rs"), Some(1));
    assert_eq!(out.len(), 1);
}

#[test]
fn discovery_state_screens_and_dedups() {
    let opts = DiscoveryOptions::new()
        .skip_names(vec!["node_modules".into()])
        .skip_relative_prefixes(vec!["build/out".into()]);
    let mut st = DiscoveryState::new("/r", opts).unwrap();
    assert!(st.screen("/r", "r", true, false));
    assert!(!st.screen("/r/node_modules", "node_modules", true, false));
    assert!(!st.screen("/r/node_modules/x", "x", true, false));
    assert!(!st.screen("/r/build/out", "out", true, false));
    assert!(st.screen("/r/build/output", "output", true, false));
    assert!(!st.screen("/r/file.txt", "file.txt", false, false));
    st.keep_directory("/r/b", Ok("k1".into())).unwrap();
    st.keep_directory("/r/a", Ok("k2".into())).unwrap();
    st.keep_directory("/r/a2", Ok("k1".into())).unwrap();
    assert!(st.keep_directory("/r/c", Err(PathError::EmptyInput)).is_err());
    assert_eq!(st.finish(), vec!["/r/a", "/r/b"]);
}

#[test]
fn discovery_globs_errors_and_root_checks() {
    let mut opts = DiscoveryOptions::new();
    opts.skip_globs = vec!["*.tmp".into()];
    let mut st = DiscoveryState::new("/r", opts).unwrap();
    assert!(!st.screen("/r/x.tmp", "x.tmp", true, false));
    let mut bad = DiscoveryOptions::new();
    bad.skip_globs = vec!["[".into()];
    assert!(matches!(DiscoveryState::new("/r", bad), Err(PathError::InvalidGlob { .. })));
    let not_dir = DirectoryInspection {
        path: "/f".into(),
        exists: true,
        is_directory: false,
        is_symlink: false,
        is_readable: None,
        metadata: None,
    };
    let e = check_discovery_root("/f", &not_dir).unwrap_err();
    assert_eq!(e.to_string(), "invalid path: discovery root is not a directory: /f");
    assert_eq!(walk_max_depth(&DiscoveryOptions::new().recursive(false)), 0);
    assert_eq!(walk_max_depth(&DiscoveryOptions::new().max_depth(Some(2))), 2);
    let st = DiscoveryState::new("/r", DiscoveryOptions::new()).unwrap();
    assert!(matches!(st.inspected(Ok(not_dir)), InspectStep::Skip));
    let e = st.walk_error("permission denied", "/r/x").unwrap();
    assert_eq!(e.to_string(), "directory traversal failed: permission denied (/r/x)");
}

#[test]
fn visit_state_controls() {
    let opts = DiscoveryOptions::new().skip_names(vec!["target".into()]);
    let mut v = VisitState::new("/r", &opts);
    assert!(v.screen("/r", "r", true));
    assert!(!v.screen("/r/target", "target", true));
    assert!(!v.screen("/r/target/debug", "debug", true));
    assert!(v.after_visit("/r/src", VisitControl::SkipChildren));
    assert!(!v.screen("/r/src/inner", "inner", true));
    assert!(!v.after_visit("/r/x", VisitControl::Stop));
}

#[test]
fn inspection_from_probes() {
    let i = inspection_from("/m", Probe::Missing).unwrap();
    assert!(!i.exists && !i.is_directory);
    let e = inspection_from("/p", Probe::Failed("denied".into())).unwrap_err();
    assert_eq!(e.to_string(), "filesystem operation failed for /p: denied");
    let meta = MetadataSummary { len: 3, readonly: false, modified: None };
    let i = inspection_from("/l", Probe::Found { is_symlink: true, is_directory: true, readable: true, metadata: meta }).unwrap();
    assert!(i.exists && i.is_symlink && i.is_directory);
    assert_eq!(i.is_readable, Some(true));
}

#[test]
fn app_name_rules() {
    assert!(validate_app_name("my-app").is_ok());
    let e = validate_app_name("a\\b").unwrap_err();
    assert_eq!(e.to_string(), "invalid application name: application name must not contain path separators");
    let e = validate_app_name(".").unwrap_err();
    assert_eq!(e.to_string(), "invalid application name: application name must not be '.' or '..'");
    assert!(is_hidden_name(".git") && !is_hidden_name("git"));
}

fn key(root: &str) -> CacheKey {
    CacheKey {
        root: root.to_string(),
        patterns: vec!["*.rs".into()],
        exclude_patterns: vec!["x".into()],
        recursive: true,
        follow_symlinks: false,
        include_hidden: true,
        include_files: true,
        include_directories: false,
        include_symlinks: true,
        include_other: false,
        include_root: false,
        max_depth: Some(3),
        max_entries: None,
        sort: SortMode::Name,
        error_policy: TraversalErrorPolicy::SkipErrors,
    }
}

#[test]
fn persistent_roundtrip_through_records() {
    for m in [SortMode::Unsorted, SortMode::Path, SortMode::Name, SortMode::DirsFirst] {
        assert_eq!(sort_from_u8(sort_to_u8(m)), m);
    }
    assert_eq!(sort_from_u8(200), SortMode::Path);

    let opts = CacheOptions { mode: CacheMode::Memory, ttl: None, max_entries: 8, validate_metadata: false };
    let mut cache = MemoryCache::new(opts);
    let v = CacheValue { entries: vec![entry("/r/a.rs", EntryKind::File)], stored_at: 5_000_000, ttl: Some(2_000_000) };
    cache.put(key("/r"), v).unwrap();
    let file = snapshot_file(&cache, None, 6_000_000);
    assert_eq!(file.schema_version, SCHEMA_VERSION);
    assert_eq!(file.entries.len(), 1);
    assert_eq!(file.entries[0].stored_at_epoch_ms, 5);
    assert_eq!(file.entries[0].paths, vec!["/r/a.rs".to_string()]);
    assert!(snapshot_file(&cache, None, 8_000_000).entries.is_empty());

    let mut fresh = MemoryCache::new(opts);
    load_file(&mut fresh, &file, 6_000_000);
    let got = fresh.get_at(&key("/r"), 6_000_000).unwrap();
    assert_eq!(got.entries[0].path, "/r/a.rs");
    assert_eq!(got.entries[0].kind, EntryKind::Other);

    let mut other = MemoryCache::new(opts);
    let wrong = PersistentCacheFile { schema_version: 99, entries: file.entries };
    load_file(&mut other, &wrong, 6_000_000);
    assert!(other.is_empty().unwrap());
}

#[test]
fn cache_replaces_existing_key_and_evicts_oldest() {
    let opts = CacheOptions { mode: CacheMode::Memory, ttl: Some(100), max_entries: 2, validate_metadata: false };
    let mut cache = MemoryCache::new(opts);
    cache.put(key("/a"), CacheValue { entries: vec![], stored_at: 1, ttl: None }).unwrap();
    cache.put(key("/b"), CacheValue { entries: vec![], stored_at: 1, ttl: None }).unwrap();
    cache.put(key("/a"), CacheValue { entries: vec![entry("/x", EntryKind::File)], stored_at: 2, ttl: None }).unwrap();
    assert_eq!(cache.len().unwrap(), 2);
    let a = cache.get_at(&key("/a"), 3).unwrap();
    assert_eq!(a.entries.len(), 1);
    assert_eq!(a.ttl, Some(100));
    cache.put(key("/c"), CacheValue { entries: vec![], stored_at: 1, ttl: None }).unwrap();
    assert!(cache.get_at(&key("/a"), 3).is_none());
    assert!(cache.get_at(&key("/b"), 3).is_some());
    assert!(cache.get_at(&key("/c"), 3).is_some());
    assert!(cache.get_at(&key("/c"), 1000).is_none());
    assert_eq!(cache.len().unwrap(), 1);
}

#[test]
fn entry_kinds_and_listable_roots() {
    assert_eq!(entry_kind(true, true, false), EntryKind::Symlink);
    assert_eq!(entry_kind(false, true, false), EntryKind::Directory);
    assert_eq!(entry_kind(false, false, true), EntryKind::File);
    assert_eq!(entry_kind(false, false, false), EntryKind::Other);
    assert!(check_listable_root("/r", RootProbe::Directory).is_ok());
    assert!(check_listable_root("/r", RootProbe::Symlink(Ok(true))).is_ok());
    let e = check_listable_root("/r", RootProbe::Symlink(Ok(false))).unwrap_err();
    assert_eq!(e.to_string(), "invalid path: list root is not a directory: /r");
    let e = check_listable_root("/r", RootProbe::Failed("gone".into())).unwrap_err();
    assert_eq!(e.to_string(), "filesystem operation failed for /r: gone");
}

#[test]
fn platform_dirs_from_lookups() {
    let f = |s: &str| DirLookup::Found(s.to_string());
    let d = platform_dirs_from(f("/h"), f("/h/.config"), f("/h/.local/share"), f("/h/.cache"), DirLookup::Missing, f("/run/u"), "/tmp".into()).unwrap();
    assert_eq!(d.home, "/h");
    assert_eq!(d.state, None);
    assert_eq!(d.runtime.as_deref(), Some("/run/u"));
    let e = platform_dirs_from(DirLookup::Missing, f("/c"), f("/d"), f("/k"), DirLookup::Missing, DirLookup::Missing, "/tmp".into()).unwrap_err();
    assert!(matches!(e, PathError::HomeDirectoryUnavailable));
    let e = platform_dirs_from(f("/h"), f("/c"), DirLookup::Missing, f("/k"), DirLookup::Missing, DirLookup::Missing, "/tmp".into()).unwrap_err();
    assert_eq!(e.to_string(), "invalid path: data directory is unavailable on this platform");
}

#[test]
fn select_entries_keeps_accepted_in_order_then_cuts() {
    let listed = vec![entry("/r/a", EntryKind::File), entry("/r/b", EntryKind::File), entry("/r/c", EntryKind::File)];
    let out = select_entries(listed.clone(), &vec![true, false, true], None);
    assert_eq!(out.iter().map(|e| e.path.clone()).collect::<Vec<_>>(), vec!["/r/a", "/r/c"]);
    let out = select_entries(listed.clone(), &vec![true, false, true], Some(1));
    assert_eq!(out.len(), 1);
    assert_eq!(out[0].path, "/r/a");
    assert!(select_entries(listed, &vec![], None).is_empty());
}

#[test]
fn search_invalid_pattern() {
    assert!(plan_search(&SearchRequest::new("/r", vec!["[unterminated".to_string()])).is_err());
}

#[test]
fn invalid_glob() {
    assert!(matches!(
        plan_search(&SearchRequest::new("/r", vec!["[unterminated".to_string()])),
        Err(PathError::InvalidGlob { .. })
    ));
}

#[test]
fn search_requires_pattern() {
    assert!(plan_search(&SearchRequest::new("/r", vec![])).is_err());
}
