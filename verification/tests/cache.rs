use path_rs::{ListOptions, SearchRequest, CacheKey, CacheMode, CacheOptions, CachePolicy, CacheValue, DiscoveryCache, MemoryCache, SortMode, TraversalErrorPolicy};
use std::time::{SystemTime, UNIX_EPOCH};

fn now_nanos() -> u64 {
    SystemTime::now().duration_since(UNIX_EPOCH).unwrap().as_nanos() as u64
}

const MILLI: u64 = 1_000_000;
const SECOND: u64 = 1_000_000_000;

fn sample_key(root: &str, pattern: &str) -> CacheKey {
    CacheKey {
        root: root.to_string(),
        patterns: vec![pattern.to_string()],
        exclude_patterns: vec![],
        recursive: true,
        follow_symlinks: false,
        include_hidden: false,
        include_files: true,
        include_directories: true,
        include_symlinks: true,
        include_other: false,
        include_root: false,
        max_depth: None,
        max_entries: None,
        sort: SortMode::Path,
        error_policy: TraversalErrorPolicy::FailFast,
    }
}

#[test]
fn disabled_cache_noop() {
    let mut cache = MemoryCache::new(CacheOptions { mode: CacheMode::Disabled, ..CacheOptions::default() });
    let key = sample_key("/tmp", "*.rs");
    cache.put(key.clone(), CacheValue { entries: vec![], stored_at: now_nanos(), ttl: None }).unwrap();
    assert!(cache.get(&key).unwrap().is_none());
}

#[test]
fn put_get_invalidate_clear() {
    let mut cache = MemoryCache::new(CacheOptions {
        mode: CacheMode::Memory,
        ttl: None,
        max_entries: 8,
        validate_metadata: false,
    });
    let key = sample_key("/repo", "**/*.rs");
    cache.put(key.clone(), CacheValue { entries: vec![], stored_at: now_nanos(), ttl: None }).unwrap();
    assert!(cache.get(&key).unwrap().is_some());

    cache.invalidate("/repo").unwrap();
    assert!(cache.get(&key).unwrap().is_none());

    cache.put(key.clone(), CacheValue { entries: vec![], stored_at: now_nanos(), ttl: None }).unwrap();
    cache.clear().unwrap();
    assert!(cache.is_empty().unwrap());
}

#[test]
fn ttl_expiration() {
    let mut cache = MemoryCache::new(CacheOptions {
        mode: CacheMode::Memory,
        ttl: Some(MILLI),
        max_entries: 8,
        validate_metadata: false,
    });
    let key = sample_key("/repo", "*.txt");
    cache
        .put(key.clone(), CacheValue { entries: vec![], stored_at: now_nanos() - 5 * SECOND, ttl: Some(MILLI) })
        .unwrap();
    assert!(cache.get(&key).unwrap().is_none());
}

#[test]
fn different_options_different_keys() {
    let a = sample_key("/repo", "*.rs");
    let mut b = sample_key("/repo", "*.rs");
    b.include_hidden = true;
    assert_ne!(a, b);
}

#[test]
fn max_entries_eviction() {
    let mut cache = MemoryCache::new(CacheOptions {
        mode: CacheMode::Memory,
        ttl: None,
        max_entries: 2,
        validate_metadata: false,
    });
    for i in 0..3 {
        let key = sample_key("/repo", &format!("p{i}"));
        cache.put(key, CacheValue { entries: vec![], stored_at: now_nanos(), ttl: None }).unwrap();
    }
    assert!(cache.len().unwrap() <= 2);
}

#[test]
fn cache_policy_enum_defaults() {
    assert_eq!(CachePolicy::default(), CachePolicy::Bypass);
    assert_eq!(CacheMode::default(), CacheMode::Disabled);
}

fn key(pattern: &str) -> CacheKey {
    sample_key("/repo", pattern)
}

fn empty_value() -> CacheValue {
    CacheValue { entries: vec![], stored_at: now_nanos(), ttl: None }
}

#[test]
fn different_keys_for_different_options() {
    let mut a = key("*.rs");
    let mut b = key("*.rs");
    b.include_hidden = true;
    assert_ne!(a, b);
    a.patterns = vec!["**/*.rs".into()];
    assert_ne!(a, b);
}

#[test]
fn ttl_and_eviction() {
    let mut cache = MemoryCache::new(CacheOptions {
        mode: CacheMode::Memory,
        ttl: Some(MILLI),
        max_entries: 2,
        validate_metadata: false,
    });
    let k = key("a");
    cache.put(k.clone(), CacheValue { entries: vec![], stored_at: now_nanos() - 10 * SECOND, ttl: Some(MILLI) }).unwrap();
    assert!(cache.get(&k).unwrap().is_none());

    cache.put(key("1"), empty_value()).unwrap();
    cache.put(key("2"), empty_value()).unwrap();
    cache.put(key("3"), empty_value()).unwrap();
    assert!(cache.len().unwrap() <= 2);
}

#[test]
fn invalidate_root_prefix() {
    let mut cache = MemoryCache::new(CacheOptions {
        mode: CacheMode::Memory,
        ttl: None,
        max_entries: 16,
        validate_metadata: false,
    });
    let mut k1 = key("*.rs");
    k1.root = "/repo/a".to_string();
    let mut k2 = key("*.rs");
    k2.root = "/other".to_string();
    cache.put(k1.clone(), empty_value()).unwrap();
    cache.put(k2.clone(), empty_value()).unwrap();
    cache.invalidate("/repo").unwrap();
    assert!(cache.get(&k1).unwrap().is_none());
    assert!(cache.get(&k2).unwrap().is_some());
}

#[test]
fn cache_key_captures_every_listing_input() {
    let base = || SearchRequest::new("/r", vec!["*.rs".to_string()]);
    let plain = CacheKey::from_search(&base());
    assert_eq!(plain, CacheKey::from_search(&base()));
    let capped = CacheKey::from_search(&base().options(ListOptions::new().max_entries(Some(1))));
    assert_eq!(capped.max_entries, Some(1));
    assert_ne!(plain, capped);
    assert_ne!(plain, CacheKey::from_search(&base().options(ListOptions::new().include_other(!ListOptions::new().include_other))));
    assert_ne!(plain, CacheKey::from_search(&base().options(ListOptions::new().include_root(!ListOptions::new().include_root))));
    assert_ne!(
        plain,
        CacheKey::from_search(&base().options(ListOptions::new().error_policy(TraversalErrorPolicy::SkipErrors)))
    );
    assert!(!plain.same_as(&capped));
    assert!(plain.same_as(&CacheKey::from_search(&base())));
}
