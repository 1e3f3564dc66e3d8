//! Optional discovery caching.
//!
//! Caching is opt-in and is never a security boundary: stale entries are
//! performance artifacts, not authoritative filesystem state. Times are
//! nanoseconds since the Unix epoch, and durations are nanoseconds.

use vstd::prelude::*;
use crate::chars::{chars_of, chars_eq, clone_strings, strings_eq, strs};
use crate::error::PathError;
use crate::lexical::lexically_inside;
use crate::metadata::{FileEntry, SortMode, TraversalErrorPolicy};

verus! {

/// Whether / how a search should consult the cache.
#[derive(Debug, Clone, Copy, PartialEq, Eq, Structural)]
#[non_exhaustive]
pub enum CachePolicy {
    /// Do not read or write the cache.
    Bypass,
    /// Return a fresh cached value when present; otherwise scan and store.
    ReadThrough,
    /// Ignore any existing value, scan, and store the new result.
    Refresh,
}

impl Default for CachePolicy {
    fn default() -> (r: Self)
        ensures
            r == CachePolicy::Bypass,
    {
        CachePolicy::Bypass
    }
}

/// Cache storage mode.
#[derive(Debug, Clone, Copy, PartialEq, Eq, Structural)]
#[non_exhaustive]
pub enum CacheMode {
    /// Caching disabled.
    Disabled,
    /// In-memory process-local cache.
    Memory,
    /// Persistent on-disk cache.
    Persistent,
}

impl Default for CacheMode {
    fn default() -> (r: Self)
        ensures
            r == CacheMode::Disabled,
    {
        CacheMode::Disabled
    }
}

/// Configuration for a discovery cache instance.
#[derive(Debug, Clone, Copy, PartialEq, Eq, Structural)]
pub struct CacheOptions {
    /// Storage mode.
    pub mode: CacheMode,
    /// Optional time-to-live for entries, in nanoseconds.
    pub ttl: Option<u64>,
    /// Maximum number of cached keys.
    pub max_entries: usize,
    /// Reserved for future metadata revalidation; never a security signal.
    pub validate_metadata: bool,
}

impl Default for CacheOptions {
    fn default() -> (r: Self)
        ensures
            r.mode == CacheMode::Disabled,
            r.ttl is None,
            r.max_entries == 128,
            !r.validate_metadata,
    {
        CacheOptions { mode: CacheMode::Disabled, ttl: None, max_entries: 128, validate_metadata: false }
    }
}

impl CacheOptions {
    /// Create default options.
    pub fn new() -> (r: Self)
        ensures
            r.mode == CacheMode::Disabled,
            r.ttl is None,
            r.max_entries == 128,
            !r.validate_metadata,
    {
        Self::default()
    }
}

/// Cache key capturing all inputs that affect discovery results.
#[derive(Debug, PartialEq, Eq, Hash)]
pub struct CacheKey {
    /// Search / list root.
    pub root: String,
    /// Glob patterns (empty for pure listing cache use).
    pub patterns: Vec<String>,
    /// Exclude patterns.
    pub exclude_patterns: Vec<String>,
    /// Recursive walk.
    pub recursive: bool,
    /// Follow symlinks.
    pub follow_symlinks: bool,
    /// Include hidden.
    pub include_hidden: bool,
    /// Include files.
    pub include_files: bool,
    /// Include directories.
    pub include_directories: bool,
    /// Include symlinks.
    pub include_symlinks: bool,
    /// Include other entry kinds.
    pub include_other: bool,
    /// Include the root itself.
    pub include_root: bool,
    /// Max depth.
    pub max_depth: Option<usize>,
    /// Cap on the number of entries.
    pub max_entries: Option<usize>,
    /// Sort mode used for the discovery result.
    pub sort: SortMode,
    /// How traversal errors are handled.
    pub error_policy: TraversalErrorPolicy,
}

/// What a cache key stands for.
pub struct CacheKeyView {
    pub root: Seq<char>,
    pub patterns: Seq<Seq<char>>,
    pub exclude_patterns: Seq<Seq<char>>,
    pub recursive: bool,
    pub follow_symlinks: bool,
    pub include_hidden: bool,
    pub include_files: bool,
    pub include_directories: bool,
    pub include_symlinks: bool,
    pub include_other: bool,
    pub include_root: bool,
    pub max_depth: Option<usize>,
    pub max_entries: Option<usize>,
    pub sort: SortMode,
    pub error_policy: TraversalErrorPolicy,
}

impl View for CacheKey {
    type V = CacheKeyView;

    open spec fn view(&self) -> CacheKeyView {
        CacheKeyView {
            root: self.root@,
            patterns: strs(self.patterns@),
            exclude_patterns: strs(self.exclude_patterns@),
            recursive: self.recursive,
            follow_symlinks: self.follow_symlinks,
            include_hidden: self.include_hidden,
            include_files: self.include_files,
            include_directories: self.include_directories,
            include_symlinks: self.include_symlinks,
            include_other: self.include_other,
            include_root: self.include_root,
            max_depth: self.max_depth,
            max_entries: self.max_entries,
            sort: self.sort,
            error_policy: self.error_policy,
        }
    }
}

impl Clone for CacheKey {
    fn clone(&self) -> (r: Self)
        ensures
            r@ == self@,
    {
        CacheKey {
            root: self.root.clone(),
            patterns: clone_strings(&self.patterns),
            exclude_patterns: clone_strings(&self.exclude_patterns),
            recursive: self.recursive,
            follow_symlinks: self.follow_symlinks,
            include_hidden: self.include_hidden,
            include_files: self.include_files,
            include_directories: self.include_directories,
            include_symlinks: self.include_symlinks,
            include_other: self.include_other,
            include_root: self.include_root,
            max_depth: self.max_depth,
            max_entries: self.max_entries,
            sort: self.sort,
            error_policy: self.error_policy,
        }
    }
}

impl CacheKey {
    /// Whether two keys stand for the same discovery inputs.
    pub fn same_as(&self, other: &CacheKey) -> (r: bool)
        ensures
            r == (self@ == other@),
    {
        let a = chars_of(self.root.as_str());
        let b = chars_of(other.root.as_str());
        let r = chars_eq(&a, &b) && strings_eq(&self.patterns, &other.patterns) && strings_eq(
            &self.exclude_patterns,
            &other.exclude_patterns,
        ) && self.recursive == other.recursive && self.follow_symlinks == other.follow_symlinks
            && self.include_hidden == other.include_hidden && self.include_files == other.include_files
            && self.include_directories == other.include_directories && self.include_symlinks
            == other.include_symlinks && self.include_other == other.include_other
            && self.include_root == other.include_root && self.max_depth == other.max_depth
            && self.max_entries == other.max_entries && self.sort == other.sort
            && self.error_policy == other.error_policy;
        r
    }
}

/// Cached discovery result.
#[derive(Debug)]
pub struct CacheValue {
    /// Cached entries.
    pub entries: Vec<FileEntry>,
    /// When the value was stored (nanoseconds since the Unix epoch).
    pub stored_at: u64,
    /// Optional TTL override for this value, in nanoseconds.
    pub ttl: Option<u64>,
}

/// What a cached value holds.
pub struct CacheValueView {
    pub entries: Seq<FileEntry>,
    pub stored_at: u64,
    pub ttl: Option<u64>,
}

impl View for CacheValue {
    type V = CacheValueView;

    open spec fn view(&self) -> CacheValueView {
        CacheValueView { entries: self.entries@, stored_at: self.stored_at, ttl: self.ttl }
    }
}

/// A copy of a list of entries.
pub fn clone_entries(v: &Vec<FileEntry>) -> (r: Vec<FileEntry>)
    ensures
        r@ == v@,
{
    let mut r: Vec<FileEntry> = Vec::new();
    let mut i: usize = 0;
    while i < v.len()
        invariant
            i <= v.len(),
            r@ == v@.take(i as int),
        decreases v.len() - i,
    {
        r.push(v[i].clone());
        i = i + 1;
        assert(r@ =~= v@.take(i as int));
    }
    assert(v@.take(v.len() as int) =~= v@);
    r
}

impl Clone for CacheValue {
    fn clone(&self) -> (r: Self)
        ensures
            r@ == self@,
    {
        CacheValue { entries: clone_entries(&self.entries), stored_at: self.stored_at, ttl: self.ttl }
    }
}

/// Whether a value stored at `stored_at` with time-to-live `ttl` has expired
/// at `now`: a time-to-live is set and either more time than it has passed, or
/// the value claims to be stored in the future.
pub open spec fn expired_at(stored_at: u64, ttl: Option<u64>, now: u64) -> bool {
    match ttl {
        None => false,
        Some(t) => now < stored_at || now - stored_at > t,
    }
}

/// The time-to-live that applies: the value's own, else the default.
pub open spec fn effective_ttl(own: Option<u64>, default_ttl: Option<u64>) -> Option<u64> {
    match own {
        Some(t) => Some(t),
        None => default_ttl,
    }
}

/// The current time, as the system clock reports it: seconds and
/// sub-second nanoseconds since the Unix epoch, or `None` before it.
///
/// Calls `std::time::SystemTime::now` and `duration_since`; the result depends
/// on the clock, so nothing is stated of it.
#[verifier::external_body]
fn clock_since_epoch() -> (r: Option<(u64, u32)>) {
    match std::time::SystemTime::now().duration_since(std::time::UNIX_EPOCH) {
        Ok(d) => Some((d.as_secs(), d.subsec_nanos())),
        Err(_) => None,
    }
}

/// Nanoseconds since the Unix epoch for a clock reading (saturating; zero
/// before the epoch).
pub open spec fn clock_nanos(c: Option<(u64, u32)>) -> u64 {
    match c {
        None => 0,
        Some((s, n)) => if s * 1_000_000_000 + n > u64::MAX {
            u64::MAX
        } else {
            (s * 1_000_000_000 + n) as u64
        },
    }
}

/// The current time in nanoseconds since the Unix epoch.
pub fn now_nanos() -> (r: u64)
    ensures
        exists|c: Option<(u64, u32)>| r == clock_nanos(c),
{
    let c = clock_since_epoch();
    let r = match c {
        None => 0,
        Some((s, n)) => {
            if s > 18_446_744_073 {
                assert(s * 1_000_000_000 + n > u64::MAX) by (nonlinear_arith)
                    requires
                        s > 18_446_744_073,
                ;
                u64::MAX
            } else {
                assert(s * 1_000_000_000 <= 18_446_744_073_000_000_000) by (nonlinear_arith)
                    requires
                        s <= 18_446_744_073,
                ;
                let m: u64 = s * 1_000_000_000;
                if m > u64::MAX - (n as u64) {
                    u64::MAX
                } else {
                    m + n as u64
                }
            }
        },
    };
    assert(r == clock_nanos(c));
    r
}

impl CacheValue {
    /// Whether the value has expired at `now`, given its own time-to-live.
    pub fn is_expired_at(&self, now: u64) -> (r: bool)
        ensures
            r == expired_at(self.stored_at, self.ttl, now),
    {
        match self.ttl {
            None => false,
            Some(t) => now < self.stored_at || now - self.stored_at > t,
        }
    }

    /// Whether the value has expired at `now`, using `default_ttl` when it has none.
    pub fn is_expired_with_default_at(&self, default_ttl: Option<u64>, now: u64) -> (r: bool)
        ensures
            r == expired_at(self.stored_at, effective_ttl(self.ttl, default_ttl), now),
    {
        let ttl = match self.ttl {
            Some(t) => Some(t),
            None => default_ttl,
        };
        match ttl {
            None => false,
            Some(t) => now < self.stored_at || now - self.stored_at > t,
        }
    }

    /// Returns true if the value is past its TTL now.
    pub fn is_expired(&self) -> (r: bool)
        ensures
            exists|now: u64| r == expired_at(self.stored_at, self.ttl, now),
    {
        let now = now_nanos();
        self.is_expired_at(now)
    }

    /// Returns true if expired now, using `default_ttl` when `self.ttl` is `None`.
    pub fn is_expired_with_default(&self, default_ttl: Option<u64>) -> (r: bool)
        ensures
            exists|now: u64| r == expired_at(self.stored_at, effective_ttl(self.ttl, default_ttl), now),
    {
        let now = now_nanos();
        self.is_expired_with_default_at(default_ttl, now)
    }
}

/// The position of the first binding for `k`, if any.
pub open spec fn find_key(s: Seq<(CacheKeyView, CacheValueView)>, k: CacheKeyView) -> Option<nat>
    decreases s.len(),
{
    if s.len() == 0 {
        None
    } else if s[0].0 == k {
        Some(0)
    } else {
        match find_key(s.drop_first(), k) {
            Some(i) => Some(i + 1),
            None => None,
        }
    }
}

proof fn lemma_find_key(s: Seq<(CacheKeyView, CacheValueView)>, k: CacheKeyView)
    ensures
        match find_key(s, k) {
            Some(i) => i < s.len() && s[i as int].0 == k && forall|j: int| 0 <= j < i ==> s[j].0 != k,
            None => forall|j: int| 0 <= j < s.len() ==> s[j].0 != k,
        },
    decreases s.len(),
{
    if s.len() > 0 {
        lemma_find_key(s.drop_first(), k);
        match find_key(s.drop_first(), k) {
            Some(i) => {
                assert forall|j: int| 1 <= j < i + 1 implies s[j].0 != k by {
                    assert(s[j] == s.drop_first()[j - 1]);
                }
            },
            None => {
                assert forall|j: int| 1 <= j < s.len() implies s[j].0 != k by {
                    assert(s[j] == s.drop_first()[j - 1]);
                }
            },
        }
    }
}

/// No two bindings share a key.
pub open spec fn keys_distinct(s: Seq<(CacheKeyView, CacheValueView)>) -> bool {
    forall|i: int, j: int| 0 <= i < j < s.len() ==> s[i].0 != s[j].0
}

/// The number of keys a cache with `max_entries` holds at most.
pub open spec fn capacity(max_entries: usize) -> nat {
    if max_entries == 0 {
        1
    } else {
        max_entries as nat
    }
}

/// A value with the cache's default time-to-live filled in where it has none.
pub open spec fn with_default_ttl(v: CacheValueView, default_ttl: Option<u64>) -> CacheValueView {
    CacheValueView { entries: v.entries, stored_at: v.stored_at, ttl: effective_ttl(v.ttl, default_ttl) }
}

/// The bindings after storing `v` under `k`.
///
/// A disabled cache stores nothing. An existing key has its value replaced in
/// place. A new key is appended; when the cache is full, the oldest binding is
/// evicted first.
pub open spec fn put_spec(
    s: Seq<(CacheKeyView, CacheValueView)>,
    k: CacheKeyView,
    v: CacheValueView,
    o: CacheOptions,
) -> Seq<(CacheKeyView, CacheValueView)> {
    if o.mode == CacheMode::Disabled {
        s
    } else {
        let v2 = with_default_ttl(v, o.ttl);
        match find_key(s, k) {
            Some(i) => s.update(i as int, (k, v2)),
            None => if s.len() >= o.max_entries && s.len() > 0 {
                s.drop_first().push((k, v2))
            } else {
                s.push((k, v2))
            },
        }
    }
}

/// What a lookup of `k` at `now` answers, and the bindings after it: an
/// expired binding is dropped and answers nothing.
pub open spec fn get_spec(
    s: Seq<(CacheKeyView, CacheValueView)>,
    k: CacheKeyView,
    o: CacheOptions,
    now: u64,
) -> (Option<CacheValueView>, Seq<(CacheKeyView, CacheValueView)>) {
    if o.mode == CacheMode::Disabled {
        (None, s)
    } else {
        match find_key(s, k) {
            None => (None, s),
            Some(i) => if expired_at(s[i as int].1.stored_at, effective_ttl(s[i as int].1.ttl, o.ttl), now) {
                (None, s.remove(i as int))
            } else {
                (Some(s[i as int].1), s)
            },
        }
    }
}

/// The bindings whose root is not `root` and not under it.
pub open spec fn retain_outside(s: Seq<(CacheKeyView, CacheValueView)>, root: Seq<char>) -> Seq<(CacheKeyView, CacheValueView)>
    decreases s.len(),
{
    if s.len() == 0 {
        s
    } else if lexically_inside(s.last().0.root, root) {
        retain_outside(s.drop_last(), root)
    } else {
        retain_outside(s.drop_last(), root).push(s.last())
    }
}

/// The view of an optional value.
pub open spec fn opt_value(v: Option<CacheValue>) -> Option<CacheValueView> {
    match v {
        Some(x) => Some(x@),
        None => None,
    }
}

/// Trait for discovery result caches.
///
/// Methods take `&mut self`: a cache is owned by the caller that consults it.
pub trait DiscoveryCache {
    /// Get a cached value by key.
    fn get(&mut self, key: &CacheKey) -> Result<Option<CacheValue>, PathError>;

    /// Store a value.
    fn put(&mut self, key: CacheKey, value: CacheValue) -> Result<(), PathError>;

    /// Invalidate all keys whose root equals or is under `root`.
    fn invalidate(&mut self, root: &str) -> Result<(), PathError>;

    /// Clear the entire cache.
    fn clear(&mut self) -> Result<(), PathError>;
}

/// In-memory discovery cache.
///
/// Keys are unique and their number never exceeds `max_entries` (or one,
/// when `max_entries` is zero).
#[derive(Debug)]
pub struct MemoryCache {
    options: CacheOptions,
    entries: Vec<(CacheKey, CacheValue)>,
}

/// The view of one stored binding.
pub open spec fn binding_view(e: (CacheKey, CacheValue)) -> (CacheKeyView, CacheValueView) {
    (e.0@, e.1@)
}

/// The views of stored bindings.
pub open spec fn bindings(v: Seq<(CacheKey, CacheValue)>) -> Seq<(CacheKeyView, CacheValueView)> {
    v.map_values(|e: (CacheKey, CacheValue)| binding_view(e))
}

impl View for MemoryCache {
    type V = Seq<(CacheKeyView, CacheValueView)>;

    closed spec fn view(&self) -> Seq<(CacheKeyView, CacheValueView)> {
        bindings(self.entries@)
    }
}

impl MemoryCache {
    #[verifier::type_invariant]
    spec fn inv(self) -> bool {
        &&& keys_distinct(self@)
        &&& self@.len() <= capacity(self.options.max_entries)
        &&& self.options.mode == CacheMode::Disabled ==> self@.len() == 0
    }

    /// The options the cache was made with.
    pub closed spec fn options_spec(&self) -> CacheOptions {
        self.options
    }

    /// Create a new memory cache with the given options.
    ///
    /// If `mode` is [`CacheMode::Disabled`], get always returns `None` and put is a no-op.
    pub fn new(options: CacheOptions) -> (r: Self)
        ensures
            r@.len() == 0,
            r.options_spec() == options,
    {
        let r = MemoryCache { options, entries: Vec::new() };
        assert(r@ =~= Seq::<(CacheKeyView, CacheValueView)>::empty());
        r
    }

    /// Number of keys currently stored; never more than the capacity, and
    /// none in a disabled cache, whatever calls it has seen.
    pub fn len(&self) -> (r: Result<usize, PathError>)
        ensures
            r matches Ok(n) && n == self@.len() && n <= capacity(self.options_spec().max_entries),
            self.options_spec().mode == CacheMode::Disabled ==> r == Ok::<usize, PathError>(0),
    {
        proof {
            use_type_invariant(self);
        }
        Ok(self.entries.len())
    }

    /// Returns true if the cache is empty.
    pub fn is_empty(&self) -> (r: Result<bool, PathError>)
        ensures
            r matches Ok(b) && b == (self@.len() == 0),
            self.options_spec().mode == CacheMode::Disabled ==> r == Ok::<bool, PathError>(true),
    {
        proof {
            use_type_invariant(self);
        }
        Ok(self.entries.len() == 0)
    }

    fn find_index(&self, key: &CacheKey) -> (r: Option<usize>)
        ensures
            match find_key(self@, key@) {
                Some(i) => r == Some(i as usize),
                None => r is None,
            },
    {
        let mut i: usize = 0;
        proof {
            lemma_find_key(self@, key@);
        }
        while i < self.entries.len()
            invariant
                i <= self.entries.len(),
                self@.len() == self.entries.len(),
                forall|j: int| 0 <= j < i ==> self@[j].0 != key@,
                match find_key(self@, key@) {
                    Some(x) => x < self@.len() && self@[x as int].0 == key@ && forall|j: int| 0 <= j < x ==> self@[j].0 != key@,
                    None => forall|j: int| 0 <= j < self@.len() ==> self@[j].0 != key@,
                },
            decreases self.entries.len() - i,
        {
            assert(self@[i as int] == binding_view(self.entries@[i as int]));
            if self.entries[i].0.same_as(key) {
                return Some(i);
            }
            i = i + 1;
        }
        None
    }

    /// Look `key` up at time `now`; an expired binding is dropped.
    pub fn get_at(&mut self, key: &CacheKey, now: u64) -> (r: Option<CacheValue>)
        ensures
            (opt_value(r), final(self)@) == get_spec(old(self)@, key@, old(self).options_spec(), now),
            final(self).options_spec() == old(self).options_spec(),
    {
        proof {
            use_type_invariant(&*self);
            lemma_find_key(self@, key@);
        }
        if self.options.mode == CacheMode::Disabled {
            return None;
        }
        let idx = self.find_index(key);
        match idx {
            None => None,
            Some(i) => {
                assert(self@[i as int] == binding_view(self.entries@[i as int]));
                if self.entries[i].1.is_expired_with_default_at(self.options.ttl, now) {
                    let ghost before = self@;
                    let mut tmp: Vec<(CacheKey, CacheValue)> = Vec::new();
                    std::mem::swap(&mut tmp, &mut self.entries);
                    let _gone = tmp.remove(i);
                    proof {
                        let after = bindings(tmp@);
                        assert(after =~= before.remove(i as int));
                        assert forall|a: int, b: int| 0 <= a < b < after.len() implies after[a].0 != after[b].0 by {
                            let a2 = if a < i { a } else { a + 1 };
                            let b2 = if b < i { b } else { b + 1 };
                            assert(after[a] == before[a2] && after[b] == before[b2]);
                        }
                    }
                    self.entries = tmp;
                    None
                } else {
                    let v = self.entries[i].1.clone();
                    Some(v)
                }
            },
        }
    }
}

impl DiscoveryCache for MemoryCache {
    fn get(&mut self, key: &CacheKey) -> (r: Result<Option<CacheValue>, PathError>)
        ensures
            r is Ok,
            final(self).options_spec() == old(self).options_spec(),
            exists|now: u64| #![auto]
                (opt_value(r->Ok_0), final(self)@) == get_spec(old(self)@, key@, old(self).options_spec(), now),
    {
        let now = now_nanos();
        let v = self.get_at(key, now);
        Ok(v)
    }

    fn put(&mut self, key: CacheKey, value: CacheValue) -> (r: Result<(), PathError>)
        ensures
            r is Ok,
            final(self)@ == put_spec(old(self)@, key@, value@, old(self).options_spec()),
            final(self).options_spec() == old(self).options_spec(),
    {
        proof {
            use_type_invariant(&*self);
            lemma_find_key(self@, key@);
        }
        if self.options.mode == CacheMode::Disabled {
            return Ok(());
        }
        let mut v = value;
        if v.ttl.is_none() {
            v.ttl = self.options.ttl;
        }
        assert(v@ == with_default_ttl(value@, self.options.ttl));
        let idx = self.find_index(&key);
        let ghost before = self@;
        let ghost kv = key@;
        let ghost entry = (kv, v@);
        let mut tmp: Vec<(CacheKey, CacheValue)> = Vec::new();
        std::mem::swap(&mut tmp, &mut self.entries);
        match idx {
            Some(i) => {
                tmp.set(i, (key, v));
                proof {
                    let after = bindings(tmp@);
                    assert(after =~= before.update(i as int, entry));
                    assert forall|a: int, b: int| 0 <= a < b < after.len() implies after[a].0 != after[b].0 by {
                        assert(after[a].0 == before[a].0 && after[b].0 == before[b].0);
                    }
                }
            },
            None => {
                if tmp.len() >= self.options.max_entries && tmp.len() > 0 {
                    let _evicted = tmp.remove(0);
                    tmp.push((key, v));
                    proof {
                        let after = bindings(tmp@);
                        assert(after =~= before.drop_first().push(entry));
                        assert forall|a: int, b: int| 0 <= a < b < after.len() implies after[a].0 != after[b].0 by {
                            assert(after[a] == before[a + 1]);
                            if b < after.len() - 1 {
                                assert(after[b] == before[b + 1]);
                            }
                        }
                    }
                } else {
                    tmp.push((key, v));
                    proof {
                        let after = bindings(tmp@);
                        assert(after =~= before.push(entry));
                        assert forall|a: int, b: int| 0 <= a < b < after.len() implies after[a].0 != after[b].0 by {
                            assert(after[a] == before[a]);
                            if b < after.len() - 1 {
                                assert(after[b] == before[b]);
                            }
                        }
                    }
                }
            },
        }
        self.entries = tmp;
        Ok(())
    }

    fn invalidate(&mut self, root: &str) -> (r: Result<(), PathError>)
        ensures
            r is Ok,
            final(self)@ == retain_outside(old(self)@, root@),
            final(self).options_spec() == old(self).options_spec(),
    {
        proof {
            use_type_invariant(&*self);
        }
        let ghost before = self@;
        let mut src: Vec<(CacheKey, CacheValue)> = Vec::new();
        std::mem::swap(&mut src, &mut self.entries);
        let mut kept: Vec<(CacheKey, CacheValue)> = Vec::new();
        let ghost mut k: int = 0;
        assert(before.take(0) =~= Seq::<(CacheKeyView, CacheValueView)>::empty());
        assert(bindings(src@).skip(0) =~= before);
        while src.len() > 0
            invariant
                0 <= k <= before.len(),
                keys_distinct(before),
                before.len() <= capacity(self.options.max_entries),
                bindings(src@) =~= before.skip(k),
                bindings(kept@) == retain_outside(before.take(k), root@),
                kept@.len() <= k,
                forall|a: int| 0 <= a < kept@.len() ==> exists|j: int| 0 <= j < k && #[trigger] binding_view(kept@[a]) == before[j],
                keys_distinct(bindings(kept@)),
            decreases src.len(),
        {
            let ghost src_before = src@;
            assert(bindings(src_before).len() == src_before.len());
            assert(k < before.len());
            assert(bindings(src_before)[0] == before.skip(k)[0]);
            let e = src.remove(0);
            assert(e == src_before[0]);
            assert(binding_view(e) == before[k]) by {
                assert(bindings(src_before)[0] == binding_view(src_before[0]));
            }
            assert(src@ =~= src_before.drop_first());
            assert forall|a: int| 0 <= a < src@.len() implies bindings(src@)[a] == before.skip(k + 1)[a] by {
                assert(bindings(src_before)[a + 1] == before.skip(k)[a + 1]);
            }
            assert(bindings(src@) =~= before.skip(k + 1));
            assert(before.take(k + 1).drop_last() =~= before.take(k));
            assert(before.take(k + 1).last() == before[k]);
            let ghost kept_before = kept@;
            if !crate::containment::is_lexically_inside(e.0.root.as_str(), root) {
                kept.push(e);
                proof {
                    let kv = bindings(kept@);
                    let kb = bindings(kept_before);
                    assert(kv =~= kb.push(before[k]));
                    assert forall|a: int| 0 <= a < kept@.len() implies exists|j: int| 0 <= j < k + 1 && #[trigger] binding_view(kept@[a]) == before[j] by {
                        if a < kept@.len() - 1 {
                            assert(kept@[a] == kept_before[a]);
                            let j = choose|j: int| 0 <= j < k && #[trigger] binding_view(kept_before[a]) == before[j];
                            assert(0 <= j < k + 1 && binding_view(kept@[a]) == before[j]);
                        } else {
                            assert(binding_view(kept@[a]) == before[k]);
                        }
                    }
                    assert forall|a: int, b: int| 0 <= a < b < kv.len() implies kv[a].0 != kv[b].0 by {
                        if b == kv.len() - 1 {
                            assert(kv[a] == binding_view(kept_before[a]));
                            let j = choose|j: int| 0 <= j < k && #[trigger] binding_view(kept_before[a]) == before[j];
                            assert(before[j].0 != before[k].0);
                        } else {
                            assert(kv[a] == kb[a] && kv[b] == kb[b]);
                        }
                    }
                }
            } else {
                proof {
                    assert forall|a: int| 0 <= a < kept@.len() implies exists|j: int| 0 <= j < k + 1 && #[trigger] binding_view(kept@[a]) == before[j] by {
                        let j = choose|j: int| 0 <= j < k && #[trigger] binding_view(kept_before[a]) == before[j];
                        assert(0 <= j < k + 1 && binding_view(kept@[a]) == before[j]);
                    }
                }
            }
            proof {
                k = k + 1;
            }
        }
        assert(before.take(k) =~= before);
        self.entries = kept;
        Ok(())
    }

    fn clear(&mut self) -> (r: Result<(), PathError>)
        ensures
            r is Ok,
            final(self)@.len() == 0,
            final(self).options_spec() == old(self).options_spec(),
    {
        self.entries = Vec::new();
        assert(self@ =~= Seq::<(CacheKeyView, CacheValueView)>::empty());
        Ok(())
    }
}

proof fn lemma_find_key_at(s: Seq<(CacheKeyView, CacheValueView)>, k: CacheKeyView, i: int)
    requires
        0 <= i < s.len(),
        s[i].0 == k,
        forall|j: int| 0 <= j < i ==> s[j].0 != k,
    ensures
        find_key(s, k) == Some(i as nat),
    decreases s.len(),
{
    if i > 0 {
        let t = s.drop_first();
        assert forall|j: int| 0 <= j < i - 1 implies t[j].0 != k by {
            assert(t[j] == s[j + 1]);
        }
        assert(t[i - 1] == s[i]);
        lemma_find_key_at(t, k, i - 1);
    }
}

/// A value just stored is what a lookup of its key gives, as long as it has
/// not expired: with the cache's default time-to-live filled in.
pub proof fn lemma_put_then_get(
    s: Seq<(CacheKeyView, CacheValueView)>,
    k: CacheKeyView,
    v: CacheValueView,
    o: CacheOptions,
    now: u64,
)
    requires
        keys_distinct(s),
        o.mode != CacheMode::Disabled,
        !expired_at(v.stored_at, effective_ttl(v.ttl, o.ttl), now),
    ensures
        get_spec(put_spec(s, k, v, o), k, o, now) == (
            Some(with_default_ttl(v, o.ttl)),
            put_spec(s, k, v, o),
        ),
{
    lemma_find_key(s, k);
    let v2 = with_default_ttl(v, o.ttl);
    let t = put_spec(s, k, v, o);
    match find_key(s, k) {
        Some(i) => {
            assert forall|j: int| 0 <= j < i implies t[j].0 != k by {
                assert(t[j] == s[j]);
            }
            lemma_find_key_at(t, k, i as int);
        },
        None => {
            let base = if s.len() >= o.max_entries && s.len() > 0 { s.drop_first() } else { s };
            assert(t == base.push((k, v2)));
            assert forall|j: int| 0 <= j < base.len() implies t[j].0 != k by {
                assert(t[j] == base[j]);
                if s.len() >= o.max_entries && s.len() > 0 {
                    assert(base[j] == s[j + 1]);
                }
            }
            lemma_find_key_at(t, k, base.len() as int);
        },
    }
    assert(effective_ttl(v2.ttl, o.ttl) == v2.ttl);
}

/// After invalidating `root`, no binding's root is `root` or under it, and
/// every binding whose root is elsewhere is still there.
pub proof fn lemma_invalidate_exact(s: Seq<(CacheKeyView, CacheValueView)>, root: Seq<char>)
    ensures
        forall|i: int| 0 <= i < retain_outside(s, root).len()
            ==> !lexically_inside(#[trigger] retain_outside(s, root)[i].0.root, root),
        forall|i: int| 0 <= i < s.len() && !lexically_inside(#[trigger] s[i].0.root, root)
            ==> retain_outside(s, root).contains(s[i]),
    decreases s.len(),
{
    if s.len() > 0 {
        let p = s.drop_last();
        lemma_invalidate_exact(p, root);
        let r = retain_outside(s, root);
        let rp = retain_outside(p, root);
        assert forall|i: int| 0 <= i < r.len() implies !lexically_inside(#[trigger] r[i].0.root, root) by {
            if i < rp.len() {
                assert(r[i] == rp[i]);
            }
        }
        assert forall|i: int| 0 <= i < s.len() && !lexically_inside(#[trigger] s[i].0.root, root) implies r.contains(s[i]) by {
            if i < p.len() {
                assert(s[i] == p[i]);
                assert(rp.contains(p[i]));
                let j = choose|j: int| 0 <= j < rp.len() && rp[j] == p[i];
                assert(r[j] == rp[j]);
            } else {
                assert(r[r.len() - 1] == s.last());
            }
        }
    }
}

impl MemoryCache {
    /// A copy of every binding, in storage order.
    pub fn snapshot(&self) -> (r: Vec<(CacheKey, CacheValue)>)
        ensures
            bindings(r@) == self@,
    {
        let mut r: Vec<(CacheKey, CacheValue)> = Vec::new();
        let mut i: usize = 0;
        while i < self.entries.len()
            invariant
                i <= self.entries.len(),
                bindings(r@) =~= bindings(self.entries@).take(i as int),
            decreases self.entries.len() - i,
        {
            let k = self.entries[i].0.clone();
            let v = self.entries[i].1.clone();
            let ghost old_r = r@;
            r.push((k, v));
            proof {
                assert(bindings(r@) =~= bindings(old_r).push(binding_view((k, v))));
                assert(binding_view((k, v)) == bindings(self.entries@)[i as int]);
                assert(bindings(self.entries@).take(i + 1) =~= bindings(self.entries@).take(i as int).push(
                    bindings(self.entries@)[i as int],
                ));
            }
            i = i + 1;
        }
        assert(bindings(self.entries@).take(self.entries.len() as int) =~= bindings(self.entries@));
        r
    }
}

/// Version of the on-disk cache schema.
pub const SCHEMA_VERSION: u32 = 2;

/// On-disk form of a cache key.
#[derive(Debug)]
pub struct PersistentKey {
    pub root: String,
    pub patterns: Vec<String>,
    pub exclude_patterns: Vec<String>,
    pub recursive: bool,
    pub follow_symlinks: bool,
    pub include_hidden: bool,
    pub include_files: bool,
    pub include_directories: bool,
    pub include_symlinks: bool,
    pub include_other: bool,
    pub include_root: bool,
    pub max_depth: Option<usize>,
    pub max_entries: Option<usize>,
    pub sort: u8,
    pub error_policy: u8,
}

/// On-disk form of one cached binding: entry paths only, times in milliseconds.
#[derive(Debug)]
pub struct PersistentCacheRecord {
    pub key: PersistentKey,
    pub paths: Vec<String>,
    pub stored_at_epoch_ms: u128,
    pub ttl_ms: Option<u128>,
}

/// On-disk cache file.
#[derive(Debug)]
pub struct PersistentCacheFile {
    pub schema_version: u32,
    pub entries: Vec<PersistentCacheRecord>,
}

/// The number a sort mode is stored as.
pub open spec fn sort_code(sort: SortMode) -> u8 {
    match sort {
        SortMode::Unsorted => 0,
        SortMode::Path => 1,
        SortMode::Name => 2,
        SortMode::DirsFirst => 3,
    }
}

/// The sort mode a stored number stands for; unknown numbers read as [`SortMode::Path`].
pub open spec fn sort_of_code(v: u8) -> SortMode {
    if v == 0 {
        SortMode::Unsorted
    } else if v == 2 {
        SortMode::Name
    } else if v == 3 {
        SortMode::DirsFirst
    } else {
        SortMode::Path
    }
}

/// The number a sort mode is stored as.
pub fn sort_to_u8(sort: SortMode) -> (r: u8)
    ensures
        r == sort_code(sort),
{
    match sort {
        SortMode::Unsorted => 0,
        SortMode::Path => 1,
        SortMode::Name => 2,
        SortMode::DirsFirst => 3,
    }
}

/// The sort mode a stored number stands for.
pub fn sort_from_u8(v: u8) -> (r: SortMode)
    ensures
        r == sort_of_code(v),
{
    if v == 0 {
        SortMode::Unsorted
    } else if v == 2 {
        SortMode::Name
    } else if v == 3 {
        SortMode::DirsFirst
    } else {
        SortMode::Path
    }
}

/// Reading back a stored sort mode gives the mode that was stored.
pub proof fn lemma_sort_code_roundtrip(sort: SortMode)
    ensures
        sort_of_code(sort_code(sort)) == sort,
{
}

/// The number an error policy is stored as.
pub open spec fn policy_code(p: TraversalErrorPolicy) -> u8 {
    match p {
        TraversalErrorPolicy::FailFast => 0,
        TraversalErrorPolicy::SkipErrors => 1,
    }
}

/// The error policy a stored number stands for; unknown numbers read as
/// [`TraversalErrorPolicy::FailFast`].
pub open spec fn policy_of_code(v: u8) -> TraversalErrorPolicy {
    if v == 1 {
        TraversalErrorPolicy::SkipErrors
    } else {
        TraversalErrorPolicy::FailFast
    }
}

fn policy_to_u8(p: TraversalErrorPolicy) -> (r: u8)
    ensures
        r == policy_code(p),
{
    match p {
        TraversalErrorPolicy::FailFast => 0,
        TraversalErrorPolicy::SkipErrors => 1,
    }
}

fn policy_from_u8(v: u8) -> (r: TraversalErrorPolicy)
    ensures
        r == policy_of_code(v),
{
    if v == 1 {
        TraversalErrorPolicy::SkipErrors
    } else {
        TraversalErrorPolicy::FailFast
    }
}

/// The on-disk form of a key.
pub fn persistent_key(key: &CacheKey) -> (r: PersistentKey)
    ensures
        r.root@ == key.root@,
        strs(r.patterns@) == strs(key.patterns@),
        strs(r.exclude_patterns@) == strs(key.exclude_patterns@),
        r.recursive == key.recursive,
        r.follow_symlinks == key.follow_symlinks,
        r.include_hidden == key.include_hidden,
        r.include_files == key.include_files,
        r.include_directories == key.include_directories,
        r.include_symlinks == key.include_symlinks,
        r.include_other == key.include_other,
        r.include_root == key.include_root,
        r.max_depth == key.max_depth,
        r.max_entries == key.max_entries,
        r.sort == sort_code(key.sort),
        r.error_policy == policy_code(key.error_policy),
{
    PersistentKey {
        root: key.root.clone(),
        patterns: clone_strings(&key.patterns),
        exclude_patterns: clone_strings(&key.exclude_patterns),
        recursive: key.recursive,
        follow_symlinks: key.follow_symlinks,
        include_hidden: key.include_hidden,
        include_files: key.include_files,
        include_directories: key.include_directories,
        include_symlinks: key.include_symlinks,
        include_other: key.include_other,
        include_root: key.include_root,
        max_depth: key.max_depth,
        max_entries: key.max_entries,
        sort: sort_to_u8(key.sort),
        error_policy: policy_to_u8(key.error_policy),
    }
}

/// The key an on-disk key stands for.
pub fn key_from_persistent(pk: &PersistentKey) -> (r: CacheKey)
    ensures
        r.root@ == pk.root@,
        strs(r.patterns@) == strs(pk.patterns@),
        strs(r.exclude_patterns@) == strs(pk.exclude_patterns@),
        r.recursive == pk.recursive,
        r.follow_symlinks == pk.follow_symlinks,
        r.include_hidden == pk.include_hidden,
        r.include_files == pk.include_files,
        r.include_directories == pk.include_directories,
        r.include_symlinks == pk.include_symlinks,
        r.include_other == pk.include_other,
        r.include_root == pk.include_root,
        r.max_depth == pk.max_depth,
        r.max_entries == pk.max_entries,
        r.sort == sort_of_code(pk.sort),
        r.error_policy == policy_of_code(pk.error_policy),
{
    CacheKey {
        root: pk.root.clone(),
        patterns: clone_strings(&pk.patterns),
        exclude_patterns: clone_strings(&pk.exclude_patterns),
        recursive: pk.recursive,
        follow_symlinks: pk.follow_symlinks,
        include_hidden: pk.include_hidden,
        include_files: pk.include_files,
        include_directories: pk.include_directories,
        include_symlinks: pk.include_symlinks,
        include_other: pk.include_other,
        include_root: pk.include_root,
        max_depth: pk.max_depth,
        max_entries: pk.max_entries,
        sort: sort_from_u8(pk.sort),
        error_policy: policy_from_u8(pk.error_policy),
    }
}

/// A key written to disk and read back is the same key.
pub proof fn lemma_persistent_key_roundtrip(key: CacheKey, pk: PersistentKey, back: CacheKey)
    requires
        pk.root@ == key.root@,
        strs(pk.patterns@) == strs(key.patterns@),
        strs(pk.exclude_patterns@) == strs(key.exclude_patterns@),
        pk.recursive == key.recursive,
        pk.follow_symlinks == key.follow_symlinks,
        pk.include_hidden == key.include_hidden,
        pk.include_files == key.include_files,
        pk.include_directories == key.include_directories,
        pk.include_symlinks == key.include_symlinks,
        pk.include_other == key.include_other,
        pk.include_root == key.include_root,
        pk.max_depth == key.max_depth,
        pk.max_entries == key.max_entries,
        pk.sort == sort_code(key.sort),
        pk.error_policy == policy_code(key.error_policy),
        back.root@ == pk.root@,
        strs(back.patterns@) == strs(pk.patterns@),
        strs(back.exclude_patterns@) == strs(pk.exclude_patterns@),
        back.recursive == pk.recursive,
        back.follow_symlinks == pk.follow_symlinks,
        back.include_hidden == pk.include_hidden,
        back.include_files == pk.include_files,
        back.include_directories == pk.include_directories,
        back.include_symlinks == pk.include_symlinks,
        back.include_other == pk.include_other,
        back.include_root == pk.include_root,
        back.max_depth == pk.max_depth,
        back.max_entries == pk.max_entries,
        back.sort == sort_of_code(pk.sort),
        back.error_policy == policy_of_code(pk.error_policy),
    ensures
        back@ == key@,
{
}

/// Whole milliseconds in a span of nanoseconds.
pub open spec fn nanos_to_ms(n: u64) -> u128 {
    (n / 1_000_000) as u128
}

/// Nanoseconds in a span of milliseconds, saturating at `u64::MAX`.
pub open spec fn ms_to_nanos(ms: u128) -> u64 {
    if ms * 1_000_000 > u64::MAX {
        u64::MAX
    } else {
        (ms * 1_000_000) as u64
    }
}

fn ms_to_nanos_exec(ms: u128) -> (r: u64)
    ensures
        r == ms_to_nanos(ms),
{
    if ms > 18_446_744_073_709 {
        assert(ms * 1_000_000 > u64::MAX) by (nonlinear_arith)
            requires
                ms > 18_446_744_073_709,
        ;
        u64::MAX
    } else {
        assert(ms * 1_000_000 <= 18_446_744_073_709_000_000) by (nonlinear_arith)
            requires
                ms <= 18_446_744_073_709,
        ;
        let n: u128 = ms * 1_000_000;
        if n > 18_446_744_073_709_551_615 {
            u64::MAX
        } else {
            n as u64
        }
    }
}

/// The paths of a list of entries.
pub open spec fn entry_paths(s: Seq<FileEntry>) -> Seq<Seq<char>> {
    s.map_values(|e: FileEntry| e.path@)
}

/// The on-disk form of a binding.
pub fn record_of(key: &CacheKey, value: &CacheValue) -> (r: PersistentCacheRecord)
    ensures
        r.key.root@ == key.root@,
        strs(r.key.patterns@) == strs(key.patterns@),
        strs(r.key.exclude_patterns@) == strs(key.exclude_patterns@),
        r.key.sort == sort_code(key.sort),
        r.key.recursive == key.recursive && r.key.follow_symlinks == key.follow_symlinks,
        r.key.include_hidden == key.include_hidden && r.key.include_files == key.include_files,
        r.key.include_directories == key.include_directories && r.key.include_symlinks == key.include_symlinks,
        r.key.include_other == key.include_other && r.key.include_root == key.include_root,
        r.key.max_depth == key.max_depth && r.key.max_entries == key.max_entries,
        r.key.error_policy == policy_code(key.error_policy),
        strs(r.paths@) == entry_paths(value.entries@),
        r.stored_at_epoch_ms == nanos_to_ms(value.stored_at),
        r.ttl_ms == (match value.ttl {
            Some(t) => Some(nanos_to_ms(t)),
            None => None::<u128>,
        }),
{
    let mut paths: Vec<String> = Vec::new();
    let mut i: usize = 0;
    while i < value.entries.len()
        invariant
            i <= value.entries.len(),
            strs(paths@) =~= entry_paths(value.entries@).take(i as int),
        decreases value.entries.len() - i,
    {
        let ghost old_p = paths@;
        let p = value.entries[i].path.clone();
        paths.push(p);
        proof {
            assert(strs(paths@) =~= strs(old_p).push(p@));
            assert(entry_paths(value.entries@)[i as int] == p@);
            assert(entry_paths(value.entries@).take(i + 1) =~= entry_paths(value.entries@).take(i as int).push(p@));
        }
        i = i + 1;
    }
    assert(entry_paths(value.entries@).take(value.entries.len() as int) =~= entry_paths(value.entries@));
    let ttl_ms = match value.ttl {
        Some(t) => Some((t / 1_000_000) as u128),
        None => None,
    };
    PersistentCacheRecord {
        key: persistent_key(key),
        paths,
        stored_at_epoch_ms: (value.stored_at / 1_000_000) as u128,
        ttl_ms,
    }
}

/// The value a record stands for: entries of unknown kind at the stored paths.
pub fn value_of(rec: &PersistentCacheRecord) -> (r: CacheValue)
    ensures
        entry_paths(r.entries@) == strs(rec.paths@),
        forall|i: int| 0 <= i < r.entries@.len() ==> (#[trigger] r.entries@[i]).kind == crate::metadata::EntryKind::Other
            && r.entries@[i].relative_path is None && r.entries@[i].size is None
            && r.entries@[i].modified is None && r.entries@[i].readonly is None,
        r.stored_at == ms_to_nanos(rec.stored_at_epoch_ms),
        r.ttl == (match rec.ttl_ms {
            Some(ms) => Some(ms_to_nanos(ms)),
            None => None::<u64>,
        }),
{
    let mut entries: Vec<FileEntry> = Vec::new();
    let mut i: usize = 0;
    while i < rec.paths.len()
        invariant
            i <= rec.paths.len(),
            entry_paths(entries@) =~= strs(rec.paths@).take(i as int),
            forall|j: int| 0 <= j < entries@.len() ==> (#[trigger] entries@[j]).kind == crate::metadata::EntryKind::Other
                && entries@[j].relative_path is None && entries@[j].size is None
                && entries@[j].modified is None && entries@[j].readonly is None,
        decreases rec.paths.len() - i,
    {
        let ghost old_e = entries@;
        let p = rec.paths[i].clone();
        let e = FileEntry::new(p, crate::metadata::EntryKind::Other);
        entries.push(e);
        proof {
            assert(entry_paths(entries@) =~= entry_paths(old_e).push(e.path@));
            assert(strs(rec.paths@)[i as int] == e.path@);
            assert(strs(rec.paths@).take(i + 1) =~= strs(rec.paths@).take(i as int).push(e.path@));
        }
        i = i + 1;
    }
    assert(strs(rec.paths@).take(rec.paths.len() as int) =~= strs(rec.paths@));
    let ttl = match rec.ttl_ms {
        Some(ms) => Some(ms_to_nanos_exec(ms)),
        None => None,
    };
    CacheValue { entries, stored_at: ms_to_nanos_exec(rec.stored_at_epoch_ms), ttl }
}

/// The key an on-disk key stands for.
pub open spec fn record_key(pk: PersistentKey) -> CacheKeyView {
    CacheKeyView {
        root: pk.root@,
        patterns: strs(pk.patterns@),
        exclude_patterns: strs(pk.exclude_patterns@),
        recursive: pk.recursive,
        follow_symlinks: pk.follow_symlinks,
        include_hidden: pk.include_hidden,
        include_files: pk.include_files,
        include_directories: pk.include_directories,
        include_symlinks: pk.include_symlinks,
        include_other: pk.include_other,
        include_root: pk.include_root,
        max_depth: pk.max_depth,
        max_entries: pk.max_entries,
        sort: sort_of_code(pk.sort),
        error_policy: policy_of_code(pk.error_policy),
    }
}

/// What an on-disk record says: its key, paths, and times in milliseconds.
pub open spec fn record_view(r: PersistentCacheRecord) -> (CacheKeyView, Seq<Seq<char>>, u128, Option<u128>) {
    (record_key(r.key), strs(r.paths@), r.stored_at_epoch_ms, r.ttl_ms)
}

/// What the on-disk record of a binding says.
pub open spec fn binding_record(b: (CacheKeyView, CacheValueView)) -> (CacheKeyView, Seq<Seq<char>>, u128, Option<u128>) {
    (
        b.0,
        entry_paths(b.1.entries),
        nanos_to_ms(b.1.stored_at),
        match b.1.ttl {
            Some(t) => Some(nanos_to_ms(t)),
            None => None,
        },
    )
}

/// Whether a binding is still live at `now` under `default_ttl`.
pub open spec fn live(b: (CacheKeyView, CacheValueView), default_ttl: Option<u64>, now: u64) -> bool {
    !expired_at(b.1.stored_at, effective_ttl(b.1.ttl, default_ttl), now)
}

/// The records of the live bindings of `s`, in order.
pub open spec fn live_records(s: Seq<(CacheKeyView, CacheValueView)>, default_ttl: Option<u64>, now: u64) -> Seq<
    (CacheKeyView, Seq<Seq<char>>, u128, Option<u128>),
>
    decreases s.len(),
{
    if s.len() == 0 {
        Seq::empty()
    } else if live(s.last(), default_ttl, now) {
        live_records(s.drop_last(), default_ttl, now).push(binding_record(s.last()))
    } else {
        live_records(s.drop_last(), default_ttl, now)
    }
}

/// The views of a list of records.
pub open spec fn record_views(v: Seq<PersistentCacheRecord>) -> Seq<(CacheKeyView, Seq<Seq<char>>, u128, Option<u128>)> {
    v.map_values(|r: PersistentCacheRecord| record_view(r))
}

/// The on-disk file for the cache's bindings that are live at `now`, in
/// storage order.
pub fn snapshot_file(cache: &MemoryCache, default_ttl: Option<u64>, now: u64) -> (r: PersistentCacheFile)
    ensures
        r.schema_version == SCHEMA_VERSION,
        record_views(r.entries@) == live_records(cache@, default_ttl, now),
{
    let snap = cache.snapshot();
    let mut records: Vec<PersistentCacheRecord> = Vec::new();
    let mut i: usize = 0;
    assert(bindings(snap@).take(0) =~= Seq::<(CacheKeyView, CacheValueView)>::empty());
    while i < snap.len()
        invariant
            i <= snap.len(),
            bindings(snap@) == cache@,
            record_views(records@) =~= live_records(bindings(snap@).take(i as int), default_ttl, now),
        decreases snap.len() - i,
    {
        let ghost b = binding_view(snap@[i as int]);
        assert(bindings(snap@)[i as int] == b);
        assert(bindings(snap@).take(i + 1).drop_last() =~= bindings(snap@).take(i as int));
        assert(bindings(snap@).take(i + 1).last() == b);
        if !snap[i].1.is_expired_with_default_at(default_ttl, now) {
            let ghost old_r = records@;
            let rec = record_of(&snap[i].0, &snap[i].1);
            records.push(rec);
            proof {
                assert(record_view(rec) == binding_record(b));
                assert(record_views(records@) =~= record_views(old_r).push(record_view(rec)));
            }
        }
        i = i + 1;
    }
    assert(bindings(snap@).take(snap.len() as int) =~= bindings(snap@));
    PersistentCacheFile { schema_version: SCHEMA_VERSION, entries: records }
}

/// Whether `v` is the value the record `r` is read as.
pub open spec fn value_read_from(v: CacheValueView, r: (CacheKeyView, Seq<Seq<char>>, u128, Option<u128>)) -> bool {
    &&& entry_paths(v.entries) == r.1
    &&& forall|i: int| 0 <= i < v.entries.len() ==> (#[trigger] v.entries[i]).kind == crate::metadata::EntryKind::Other
        && v.entries[i].relative_path is None && v.entries[i].size is None && v.entries[i].modified is None
        && v.entries[i].readonly is None
    &&& v.stored_at == ms_to_nanos(r.2)
    &&& v.ttl == match r.3 {
        Some(ms) => Some(ms_to_nanos(ms)),
        None => None,
    }
}

/// The bindings after reading the first `n` records, whose values are `vals`:
/// each live one is stored in turn.
pub open spec fn loaded(
    s: Seq<(CacheKeyView, CacheValueView)>,
    recs: Seq<(CacheKeyView, Seq<Seq<char>>, u128, Option<u128>)>,
    vals: Seq<CacheValueView>,
    o: CacheOptions,
    now: u64,
    n: nat,
) -> Seq<(CacheKeyView, CacheValueView)>
    decreases n,
{
    if n == 0 {
        s
    } else {
        let prev = loaded(s, recs, vals, o, now, (n - 1) as nat);
        let v = vals[n - 1];
        if live((recs[n - 1].0, v), o.ttl, now) {
            put_spec(prev, recs[n - 1].0, v, o)
        } else {
            prev
        }
    }
}

/// Read an on-disk cache file into `cache` at time `now`.
///
/// A file of another schema version is ignored. Otherwise every record that
/// is live under the cache's default time-to-live is stored, in file order.
pub fn load_file(cache: &mut MemoryCache, file: &PersistentCacheFile, now: u64)
    ensures
        final(cache).options_spec() == old(cache).options_spec(),
        file.schema_version != SCHEMA_VERSION ==> final(cache)@ == old(cache)@,
        file.schema_version == SCHEMA_VERSION ==> exists|vals: Seq<CacheValueView>| {
            &&& vals.len() == file.entries@.len()
            &&& forall|i: int| 0 <= i < vals.len() ==> value_read_from(#[trigger] vals[i], record_views(file.entries@)[i])
            &&& final(cache)@ == loaded(
                old(cache)@,
                record_views(file.entries@),
                vals,
                old(cache).options_spec(),
                now,
                file.entries@.len(),
            )
        },
{
    if file.schema_version != SCHEMA_VERSION {
        return;
    }
    let ghost start = cache@;
    let ghost o = cache.options_spec();
    let ghost recs = record_views(file.entries@);
    let ghost mut vals: Seq<CacheValueView> = Seq::empty();
    let default_ttl = cache.options.ttl;
    let mut i: usize = 0;
    while i < file.entries.len()
        invariant
            i <= file.entries.len(),
            recs == record_views(file.entries@),
            o == cache.options_spec(),
            default_ttl == o.ttl,
            vals.len() == i,
            forall|j: int| 0 <= j < i ==> value_read_from(#[trigger] vals[j], recs[j]),
            cache@ == loaded(start, recs, vals, o, now, i as nat),
        decreases file.entries.len() - i,
    {
        let rec = &file.entries[i];
        assert(recs[i as int] == record_view(*rec));
        let value = value_of(rec);
        let key = key_from_persistent(&rec.key);
        assert(key@ == record_key(rec.key));
        let ghost vv = value@;
        proof {
            assert(value_read_from(vv, recs[i as int]));
            let nv = vals.push(vv);
            assert forall|j: int| 0 <= j < i + 1 implies value_read_from(#[trigger] nv[j], recs[j]) by {
                if j < i {
                    assert(nv[j] == vals[j]);
                }
            }
            assert forall|n: nat| n <= i implies loaded(start, recs, nv, o, now, n) == loaded(start, recs, vals, o, now, n) by {
                lemma_loaded_prefix(start, recs, vals, nv, o, now, n);
            }
            vals = nv;
        }
        if !value.is_expired_with_default_at(default_ttl, now) {
            let _ = cache.put(key, value);
        }
        i = i + 1;
    }
}

proof fn lemma_loaded_prefix(
    s: Seq<(CacheKeyView, CacheValueView)>,
    recs: Seq<(CacheKeyView, Seq<Seq<char>>, u128, Option<u128>)>,
    a: Seq<CacheValueView>,
    b: Seq<CacheValueView>,
    o: CacheOptions,
    now: u64,
    n: nat,
)
    requires
        n <= a.len(),
        n <= b.len(),
        forall|j: int| 0 <= j < n ==> a[j] == b[j],
    ensures
        loaded(s, recs, a, o, now, n) == loaded(s, recs, b, o, now, n),
    decreases n,
{
    if n > 0 {
        lemma_loaded_prefix(s, recs, a, b, o, now, (n - 1) as nat);
    }
}

/// A disabled cache stores nothing and answers nothing.
pub proof fn lemma_disabled_cache_is_inert(
    s: Seq<(CacheKeyView, CacheValueView)>,
    k: CacheKeyView,
    v: CacheValueView,
    o: CacheOptions,
    now: u64,
)
    requires
        o.mode == CacheMode::Disabled,
    ensures
        put_spec(s, k, v, o) == s,
        get_spec(s, k, o, now) == (None::<CacheValueView>, s),
{
}

/// Storing keeps keys distinct and never exceeds the capacity.
pub proof fn lemma_put_keeps_bounds(
    s: Seq<(CacheKeyView, CacheValueView)>,
    k: CacheKeyView,
    v: CacheValueView,
    o: CacheOptions,
)
    requires
        keys_distinct(s),
        s.len() <= capacity(o.max_entries),
    ensures
        keys_distinct(put_spec(s, k, v, o)),
        put_spec(s, k, v, o).len() <= capacity(o.max_entries),
{
    lemma_find_key(s, k);
    let t = put_spec(s, k, v, o);
    if o.mode != CacheMode::Disabled {
        let v2 = with_default_ttl(v, o.ttl);
        match find_key(s, k) {
            Some(i) => {
                assert forall|a: int, b: int| 0 <= a < b < t.len() implies t[a].0 != t[b].0 by {
                    assert(t[a].0 == s[a].0 && t[b].0 == s[b].0);
                }
            },
            None => {
                let base = if s.len() >= o.max_entries && s.len() > 0 { s.drop_first() } else { s };
                assert(t == base.push((k, v2)));
                assert forall|a: int, b: int| 0 <= a < b < t.len() implies t[a].0 != t[b].0 by {
                    if s.len() >= o.max_entries && s.len() > 0 {
                        assert(t[a] == s[a + 1]);
                        if b < t.len() - 1 {
                            assert(t[b] == s[b + 1]);
                        }
                    } else {
                        assert(t[a] == s[a]);
                        if b < t.len() - 1 {
                            assert(t[b] == s[b]);
                        }
                    }
                }
            },
        }
    }
}

/// The live bindings of `s` at `now` under `default_ttl`, in order.
pub open spec fn live_bindings(s: Seq<(CacheKeyView, CacheValueView)>, default_ttl: Option<u64>, now: u64) -> Seq<
    (CacheKeyView, CacheValueView),
>
    decreases s.len(),
{
    if s.len() == 0 {
        Seq::empty()
    } else if live(s.last(), default_ttl, now) {
        live_bindings(s.drop_last(), default_ttl, now).push(s.last())
    } else {
        live_bindings(s.drop_last(), default_ttl, now)
    }
}

/// A span of nanoseconds that is a whole number of milliseconds.
pub open spec fn whole_ms(t: u64) -> bool {
    t % 1_000_000 == 0
}

/// Whether a binding's times are whole milliseconds, and it has its own
/// time-to-live unless the cache has no default one.
pub open spec fn persistable_binding(b: (CacheKeyView, CacheValueView), default_ttl: Option<u64>) -> bool {
    &&& whole_ms(b.1.stored_at)
    &&& b.1.ttl matches Some(t) ==> whole_ms(t)
    &&& b.1.ttl is None ==> default_ttl is None
}

/// Whether two values agree in what the on-disk form keeps: entry paths,
/// storing time and time-to-live.
pub open spec fn same_persisted(a: CacheValueView, b: CacheValueView) -> bool {
    &&& entry_paths(a.entries) == entry_paths(b.entries)
    &&& a.stored_at == b.stored_at
    &&& a.ttl == b.ttl
}

proof fn lemma_whole_ms_roundtrip(t: u64)
    requires
        whole_ms(t),
    ensures
        ms_to_nanos(nanos_to_ms(t)) == t,
{
    assert((t / 1_000_000) * 1_000_000 == t) by (nonlinear_arith)
        requires
            t % 1_000_000 == 0,
    ;
}

proof fn lemma_live_bindings(s: Seq<(CacheKeyView, CacheValueView)>, dt: Option<u64>, now: u64)
    requires
        keys_distinct(s),
    ensures
        live_records(s, dt, now) == live_bindings(s, dt, now).map_values(
            |b: (CacheKeyView, CacheValueView)| binding_record(b),
        ),
        live_bindings(s, dt, now).len() <= s.len(),
        keys_distinct(live_bindings(s, dt, now)),
        forall|i: int| 0 <= i < live_bindings(s, dt, now).len() ==> live(#[trigger] live_bindings(s, dt, now)[i], dt, now),
        forall|i: int| 0 <= i < live_bindings(s, dt, now).len() ==> exists|j: int|
            0 <= j < s.len() && #[trigger] live_bindings(s, dt, now)[i] == s[j],
    decreases s.len(),
{
    if s.len() > 0 {
        let t = s.drop_last();
        assert(keys_distinct(t)) by {
            assert forall|i: int, j: int| 0 <= i < j < t.len() implies t[i].0 != t[j].0 by {
                assert(t[i] == s[i] && t[j] == s[j]);
            }
        }
        lemma_live_bindings(t, dt, now);
        let bt = live_bindings(t, dt, now);
        if live(s.last(), dt, now) {
            let b = bt.push(s.last());
            assert(live_bindings(s, dt, now) == b);
            assert(live_records(s, dt, now) =~= b.map_values(|x: (CacheKeyView, CacheValueView)| binding_record(x)));
            assert forall|i: int| 0 <= i < b.len() implies exists|j: int| 0 <= j < s.len() && #[trigger] b[i] == s[j] by {
                if i < bt.len() {
                    let j = choose|j: int| 0 <= j < t.len() && bt[i] == t[j];
                    assert(b[i] == s[j]);
                } else {
                    assert(b[i] == s[s.len() - 1]);
                }
            }
            assert forall|i: int, j: int| 0 <= i < j < b.len() implies b[i].0 != b[j].0 by {
                if j < bt.len() {
                    assert(b[i] == bt[i] && b[j] == bt[j]);
                } else {
                    assert(b[i] == bt[i]);
                    let m = choose|m: int| 0 <= m < t.len() && bt[i] == t[m];
                    assert(t[m] == s[m]);
                    assert(s[m].0 != s[s.len() - 1].0);
                }
            }
            assert forall|i: int| 0 <= i < b.len() implies live(#[trigger] b[i], dt, now) by {
                if i < bt.len() {
                    assert(b[i] == bt[i]);
                }
            }
        } else {
            assert forall|i: int| 0 <= i < bt.len() implies exists|j: int| 0 <= j < s.len() && #[trigger] bt[i] == s[j] by {
                let j = choose|j: int| 0 <= j < t.len() && bt[i] == t[j];
                assert(bt[i] == s[j]);
            }
        }
    }
}

proof fn lemma_loaded_live(
    b: Seq<(CacheKeyView, CacheValueView)>,
    recs: Seq<(CacheKeyView, Seq<Seq<char>>, u128, Option<u128>)>,
    vals: Seq<CacheValueView>,
    o: CacheOptions,
    now: u64,
    k: nat,
)
    requires
        o.mode != CacheMode::Disabled,
        keys_distinct(b),
        b.len() <= capacity(o.max_entries),
        forall|i: int| 0 <= i < b.len() ==> live(#[trigger] b[i], o.ttl, now),
        forall|i: int| 0 <= i < b.len() ==> persistable_binding(#[trigger] b[i], o.ttl),
        recs == b.map_values(|x: (CacheKeyView, CacheValueView)| binding_record(x)),
        vals.len() == b.len(),
        forall|i: int| 0 <= i < vals.len() ==> value_read_from(#[trigger] vals[i], recs[i]),
        k <= b.len(),
    ensures
        loaded(Seq::empty(), recs, vals, o, now, k).len() == k,
        forall|i: int| 0 <= i < k ==> (#[trigger] loaded(Seq::empty(), recs, vals, o, now, k)[i]).0 == b[i].0
            && same_persisted(loaded(Seq::empty(), recs, vals, o, now, k)[i].1, b[i].1),
    decreases k,
{
    if k > 0 {
        let n = (k - 1) as nat;
        lemma_loaded_live(b, recs, vals, o, now, n);
        let prev = loaded(Seq::empty(), recs, vals, o, now, n);
        let bb = b[n as int];
        let v = vals[n as int];
        assert(recs[n as int] == binding_record(bb));
        assert(value_read_from(v, recs[n as int]));
        assert(persistable_binding(bb, o.ttl));
        lemma_whole_ms_roundtrip(bb.1.stored_at);
        assert(v.stored_at == bb.1.stored_at);
        match bb.1.ttl {
            Some(t) => {
                lemma_whole_ms_roundtrip(t);
                assert(v.ttl == Some(t));
            },
            None => {
                assert(v.ttl is None);
            },
        }
        assert(live(bb, o.ttl, now));
        assert(live((recs[n as int].0, v), o.ttl, now));
        lemma_find_key(prev, bb.0);
        assert forall|j: int| 0 <= j < prev.len() implies prev[j].0 != bb.0 by {
            assert(prev[j].0 == b[j].0);
        }
        assert(find_key(prev, bb.0) is None);
        let v2 = with_default_ttl(v, o.ttl);
        let l = loaded(Seq::empty(), recs, vals, o, now, k);
        assert(l == prev.push((bb.0, v2)));
        assert forall|i: int| 0 <= i < k implies (#[trigger] l[i]).0 == b[i].0 && same_persisted(l[i].1, b[i].1) by {
            if i < n {
                assert(l[i] == prev[i]);
            } else {
                assert(l[i] == (bb.0, v2));
                assert(entry_paths(v.entries) == recs[n as int].1);
            }
        }
    }
}

/// Reading back the on-disk form of a cache gives back its live bindings:
/// loading the records that [`snapshot_file`] writes at `now` (with the
/// cache's default time-to-live) into an empty cache with the same options
/// at `now` yields the same keys in the same order, with the same entry paths,
/// storing times and times-to-live. It holds for times that are whole
/// milliseconds, the precision of the on-disk form.
pub proof fn lemma_snapshot_load_roundtrip(
    s: Seq<(CacheKeyView, CacheValueView)>,
    o: CacheOptions,
    now: u64,
    vals: Seq<CacheValueView>,
)
    requires
        o.mode != CacheMode::Disabled,
        keys_distinct(s),
        s.len() <= capacity(o.max_entries),
        forall|i: int| 0 <= i < s.len() ==> persistable_binding(#[trigger] s[i], o.ttl),
        vals.len() == live_records(s, o.ttl, now).len(),
        forall|i: int| 0 <= i < vals.len() ==> value_read_from(#[trigger] vals[i], live_records(s, o.ttl, now)[i]),
    ensures
        ({
            let l = loaded(Seq::empty(), live_records(s, o.ttl, now), vals, o, now, vals.len());
            let b = live_bindings(s, o.ttl, now);
            &&& l.len() == b.len()
            &&& forall|i: int| 0 <= i < l.len() ==> (#[trigger] l[i]).0 == b[i].0 && same_persisted(l[i].1, b[i].1)
        }),
{
    lemma_live_bindings(s, o.ttl, now);
    let b = live_bindings(s, o.ttl, now);
    assert forall|i: int| 0 <= i < b.len() implies persistable_binding(#[trigger] b[i], o.ttl) by {
        let j = choose|j: int| 0 <= j < s.len() && b[i] == s[j];
        assert(persistable_binding(s[j], o.ttl));
    }
    lemma_loaded_live(b, live_records(s, o.ttl, now), vals, o, now, vals.len());
}

} // verus!
