//! Glob-based search decisions: requests, pattern validation, glob sets and
//! the filtering of listed entries.
//!
//! Patterns are matched with `globset` against an entry's path relative to the
//! search root and against its file name.

use vstd::prelude::*;
use crate::cache::{CacheKey, CacheKeyView, CachePolicy, CacheValue};
use crate::chars::{chars_of, clone_strings, string_from_chars, strs, replace_char_exec, replace_char};
use crate::error::{PathError, PathErrorSpec};
use crate::lexical::{has_nul, has_nul_exec};
use crate::listing::{ListOptions, default_list_options};
use crate::metadata::{FileEntry, SortMode, file_name, file_name_exec};

verus! {

#[verifier::external_type_specification]
#[verifier::external_body]
pub struct ExGlob(globset::Glob);

#[verifier::external_type_specification]
#[verifier::external_body]
pub struct ExGlobSet(globset::GlobSet);

#[verifier::external_type_specification]
#[verifier::external_body]
pub struct ExGlobSetBuilder(globset::GlobSetBuilder);

/// The message `globset::Glob::new` fails with for `pattern`, or `None`
/// when the pattern parses.
pub uninterp spec fn glob_parse_error(pattern: Seq<char>) -> Option<Seq<char>>;

/// The pattern text a `globset::Glob` was parsed from (what `Glob::glob`
/// returns).
pub uninterp spec fn glob_source(glob: globset::Glob) -> Seq<char>;

/// The sources of the globs a `globset::GlobSetBuilder` holds, in the order
/// they were added.
pub uninterp spec fn builder_globs(builder: globset::GlobSetBuilder) -> Seq<Seq<char>>;

/// The sources of the globs a `globset::GlobSet` was built from, in order.
pub uninterp spec fn set_globs(set: globset::GlobSet) -> Seq<Seq<char>>;

/// Whether the glob `pattern` matches the path `text`.
pub uninterp spec fn glob_matches(pattern: Seq<char>, text: Seq<char>) -> bool;

/// The message `globset::GlobSetBuilder::build` fails with for a builder
/// holding the globs of `patterns`, or `None` when it succeeds.
pub uninterp spec fn globset_build_error(patterns: Seq<Seq<char>>) -> Option<Seq<char>>;

/// Parses a glob pattern with `globset::Glob::new` (default options).
///
/// Claims: the call fails exactly when [`glob_parse_error`] names a message,
/// and then with that message; a parsed glob keeps `pattern` as its source
/// (the source stores the pattern text it was built from).
#[verifier::external_body]
fn parse_glob(pattern: &str) -> (r: Result<globset::Glob, String>)
    ensures
        match r {
            Ok(g) => glob_parse_error(pattern@) is None && glob_source(g) == pattern@,
            Err(m) => glob_parse_error(pattern@) == Some(m@),
        },
{
    match globset::Glob::new(pattern) {
        Ok(g) => Ok(g),
        Err(e) => Err(e.to_string()),
    }
}

/// An empty `globset::GlobSetBuilder` (`GlobSetBuilder::new` starts with no
/// globs).
#[verifier::external_body]
fn new_builder() -> (r: globset::GlobSetBuilder)
    ensures
        builder_globs(r) == Seq::<Seq<char>>::empty(),
{
    globset::GlobSetBuilder::new()
}

/// Adds a glob to a builder with `globset::GlobSetBuilder::add`, which pushes
/// it after the globs already added.
#[verifier::external_body]
fn builder_add(builder: &mut globset::GlobSetBuilder, glob: globset::Glob)
    ensures
        builder_globs(*final(builder)) == builder_globs(*old(builder)).push(glob_source(glob)),
{
    builder.add(glob);
}

/// Builds the glob set with `globset::GlobSetBuilder::build`.
///
/// Claims: the call fails exactly when [`globset_build_error`] names a
/// message for the builder's globs, and then with that message; a built set
/// holds exactly the builder's globs.
#[verifier::external_body]
fn builder_build(builder: &globset::GlobSetBuilder) -> (r: Result<globset::GlobSet, String>)
    ensures
        match r {
            Ok(s) => globset_build_error(builder_globs(*builder)) is None && set_globs(s) == builder_globs(*builder),
            Err(m) => globset_build_error(builder_globs(*builder)) == Some(m@),
        },
{
    match builder.build() {
        Ok(s) => Ok(s),
        Err(e) => Err(e.to_string()),
    }
}

/// Whether any of `patterns` matches `text`.
pub open spec fn any_glob_matches(patterns: Seq<Seq<char>>, text: Seq<char>) -> bool {
    exists|i: int| 0 <= i < patterns.len() && glob_matches(#[trigger] patterns[i], text)
}

/// Tests a path against a glob set with `globset::GlobSet::is_match`.
///
/// Claims what the crate documents: the set matches when any of its globs
/// does, each glob judged by [`glob_matches`].
#[verifier::external_body]
fn set_is_match(set: &globset::GlobSet, text: &str) -> (r: bool)
    ensures
        r == (exists|i: int| 0 <= i < set_globs(*set).len() && glob_matches(#[trigger] set_globs(*set)[i], text@)),
{
    set.is_match(text)
}

/// A compiled glob set.
pub struct PatternSet {
    set: globset::GlobSet,
}

impl View for PatternSet {
    type V = Seq<Seq<char>>;

    /// The patterns the set was built from, in order.
    closed spec fn view(&self) -> Seq<Seq<char>> {
        set_globs(self.set)
    }
}

impl PatternSet {
    /// Whether any pattern of the set matches `text`.
    pub fn is_match(&self, text: &str) -> (r: bool)
        ensures
            r == any_glob_matches(self@, text@),
    {
        set_is_match(&self.set, text)
    }
}

/// The first pattern, in order, that does not parse, and its message.
pub open spec fn first_parse_error(patterns: Seq<Seq<char>>) -> Option<Seq<char>>
    decreases patterns.len(),
{
    if patterns.len() == 0 {
        None
    } else {
        match first_parse_error(patterns.drop_last()) {
            Some(m) => Some(m),
            None => glob_parse_error(patterns.last()),
        }
    }
}

/// What building a glob set from `patterns` gives: the first parse error, else
/// the build error, else a set of exactly these patterns.
pub open spec fn pattern_set_outcome(patterns: Seq<Seq<char>>) -> Option<Seq<char>> {
    match first_parse_error(patterns) {
        Some(m) => Some(m),
        None => globset_build_error(patterns),
    }
}

/// Build a glob set from patterns; a pattern that does not parse, or a set
/// that cannot be built, is an invalid-glob error with `globset`'s message.
pub fn build_pattern_set(patterns: &Vec<String>) -> (r: Result<PatternSet, PathError>)
    ensures
        match pattern_set_outcome(strs(patterns@)) {
            Some(m) => r matches Err(e) && e@ == PathErrorSpec::InvalidGlob(m),
            None => r matches Ok(s) && s@ == strs(patterns@),
        },
{
    let mut builder = new_builder();
    let mut i: usize = 0;
    assert(strs(patterns@).take(0) =~= Seq::<Seq<char>>::empty());
    while i < patterns.len()
        invariant
            i <= patterns.len(),
            builder_globs(builder) == strs(patterns@).take(i as int),
            first_parse_error(strs(patterns@).take(i as int)) is None,
        decreases patterns.len() - i,
    {
        assert(strs(patterns@).take(i + 1).drop_last() =~= strs(patterns@).take(i as int));
        assert(strs(patterns@)[i as int] == patterns@[i as int]@);
        match parse_glob(patterns[i].as_str()) {
            Err(m) => {
                proof {
                    lemma_first_parse_error_extends(strs(patterns@), i as int + 1);
                }
                return Err(PathError::InvalidGlob { message: m });
            },
            Ok(g) => {
                builder_add(&mut builder, g);
            },
        }
        i = i + 1;
        assert(builder_globs(builder) =~= strs(patterns@).take(i as int));
    }
    assert(strs(patterns@).take(patterns.len() as int) =~= strs(patterns@));
    match builder_build(&builder) {
        Err(m) => Err(PathError::InvalidGlob { message: m }),
        Ok(set) => Ok(PatternSet { set }),
    }
}

proof fn lemma_first_parse_error_extends(s: Seq<Seq<char>>, k: int)
    requires
        0 < k <= s.len(),
        first_parse_error(s.take(k)) is Some,
    ensures
        first_parse_error(s) == first_parse_error(s.take(k)),
    decreases s.len() - k,
{
    if k < s.len() {
        assert(s.take(k + 1).drop_last() =~= s.take(k));
        lemma_first_parse_error_extends(s, k + 1);
    } else {
        assert(s.take(k) =~= s);
    }
}

/// Request for a glob-based search.
#[derive(Debug)]
pub struct SearchRequest {
    /// Root directory to search.
    pub root: String,
    /// Include glob patterns (matched against paths relative to `root` and file names).
    pub patterns: Vec<String>,
    /// Optional exclude patterns.
    pub exclude_patterns: Vec<String>,
    /// Listing / traversal options.
    pub options: ListOptions,
    /// Cache policy for this request; effective only with an explicit cache.
    pub cache: CachePolicy,
}

impl Default for SearchRequest {
    fn default() -> (r: Self)
        ensures
            r.root@ == seq!['.'],
            r.patterns@.len() == 0,
            r.exclude_patterns@.len() == 0,
            r.options == (ListOptions { recursive: true, ..default_list_options() }),
            r.cache == CachePolicy::Bypass,
    {
        let root = string_from_chars(vec!['.']);
        SearchRequest {
            root,
            patterns: Vec::new(),
            exclude_patterns: Vec::new(),
            options: ListOptions::default().recursive(true),
            cache: CachePolicy::Bypass,
        }
    }
}

impl SearchRequest {
    /// Create a search request with include patterns and default options.
    pub fn new(root: &str, patterns: Vec<String>) -> (r: Self)
        ensures
            r.root@ == root@,
            r.patterns@ == patterns@,
            r.exclude_patterns@.len() == 0,
            r.options == (ListOptions { recursive: true, ..default_list_options() }),
            r.cache == CachePolicy::Bypass,
    {
        SearchRequest { root: root.to_owned(), patterns, ..Self::default() }
    }

    /// Add exclude patterns.
    pub fn exclude(self, patterns: Vec<String>) -> (r: Self)
        ensures
            r.root == self.root,
            r.patterns == self.patterns,
            r.exclude_patterns@ == self.exclude_patterns@ + patterns@,
            r.options == self.options,
            r.cache == self.cache,
    {
        let mut s = self;
        let mut more = patterns;
        s.exclude_patterns.append(&mut more);
        s
    }

    /// Set list options.
    pub fn options(self, options: ListOptions) -> (r: Self)
        ensures
            r.root == self.root,
            r.patterns == self.patterns,
            r.exclude_patterns == self.exclude_patterns,
            r.options == options,
            r.cache == self.cache,
    {
        SearchRequest { options, ..self }
    }

    /// Set cache policy (only effective with an explicit cache).
    pub fn cache_policy(self, policy: CachePolicy) -> (r: Self)
        ensures
            r.root == self.root,
            r.patterns == self.patterns,
            r.exclude_patterns == self.exclude_patterns,
            r.options == self.options,
            r.cache == policy,
    {
        SearchRequest { cache: policy, ..self }
    }
}

/// The key of a search request: its root, patterns, exclude patterns and
/// every listing option.
pub open spec fn search_key(request: SearchRequest) -> CacheKeyView {
    CacheKeyView {
        root: request.root@,
        patterns: strs(request.patterns@),
        exclude_patterns: strs(request.exclude_patterns@),
        recursive: request.options.recursive,
        follow_symlinks: request.options.follow_symlinks,
        include_hidden: request.options.include_hidden,
        include_files: request.options.include_files,
        include_directories: request.options.include_directories,
        include_symlinks: request.options.include_symlinks,
        include_other: request.options.include_other,
        include_root: request.options.include_root,
        max_depth: request.options.max_depth,
        max_entries: request.options.max_entries,
        sort: request.options.sort,
        error_policy: request.options.error_policy,
    }
}

/// The cache key captures every input a search's result depends on besides
/// the filesystem: two requests with the same key have the same root, the
/// same include and exclude patterns and the same listing options (the
/// cache policy only decides whether a cache is consulted).
pub proof fn lemma_cache_key_captures_search_inputs(a: SearchRequest, b: SearchRequest)
    requires
        search_key(a) == search_key(b),
    ensures
        a.root@ == b.root@,
        strs(a.patterns@) == strs(b.patterns@),
        strs(a.exclude_patterns@) == strs(b.exclude_patterns@),
        a.options == b.options,
{
}

impl CacheKey {
    /// Build a key from a search request.
    pub fn from_search(request: &SearchRequest) -> (r: CacheKey)
        ensures
            r@ == search_key(*request),
            r.root@ == request.root@,
            strs(r.patterns@) == strs(request.patterns@),
            strs(r.exclude_patterns@) == strs(request.exclude_patterns@),
            r.recursive == request.options.recursive,
            r.follow_symlinks == request.options.follow_symlinks,
            r.include_hidden == request.options.include_hidden,
            r.include_files == request.options.include_files,
            r.include_directories == request.options.include_directories,
            r.include_symlinks == request.options.include_symlinks,
            r.include_other == request.options.include_other,
            r.include_root == request.options.include_root,
            r.max_depth == request.options.max_depth,
            r.max_entries == request.options.max_entries,
            r.sort == request.options.sort,
            r.error_policy == request.options.error_policy,
    {
        CacheKey {
            root: request.root.clone(),
            patterns: clone_strings(&request.patterns),
            exclude_patterns: clone_strings(&request.exclude_patterns),
            recursive: request.options.recursive,
            follow_symlinks: request.options.follow_symlinks,
            include_hidden: request.options.include_hidden,
            include_files: request.options.include_files,
            include_directories: request.options.include_directories,
            include_symlinks: request.options.include_symlinks,
            include_other: request.options.include_other,
            include_root: request.options.include_root,
            max_depth: request.options.max_depth,
            max_entries: request.options.max_entries,
            sort: request.options.sort,
            error_policy: request.options.error_policy,
        }
    }
}

/// Maximum accepted glob pattern length, in bytes.
pub const MAX_PATTERN_LENGTH: usize = 4096;

/// The number of bytes `c` takes in UTF-8.
pub open spec fn utf8_width(c: char) -> nat {
    if (c as u32) < 0x80 {
        1
    } else if (c as u32) < 0x800 {
        2
    } else if (c as u32) < 0x10000 {
        3
    } else {
        4
    }
}

/// The number of bytes `s` takes in UTF-8.
pub open spec fn utf8_len(s: Seq<char>) -> nat
    decreases s.len(),
{
    if s.len() == 0 {
        0
    } else {
        utf8_len(s.drop_last()) + utf8_width(s.last())
    }
}

fn utf8_width_exec(c: char) -> (r: usize)
    ensures
        r == utf8_width(c),
{
    if (c as u32) < 0x80 {
        1
    } else if (c as u32) < 0x800 {
        2
    } else if (c as u32) < 0x10000 {
        3
    } else {
        4
    }
}

/// Whether `s` takes more than `limit` bytes in UTF-8.
fn longer_than(s: &str, limit: usize) -> (r: bool)
    requires
        limit <= MAX_PATTERN_LENGTH,
    ensures
        r == (utf8_len(s@) > limit),
{
    let cs = chars_of(s);
    let mut n: usize = 0;
    let mut i: usize = 0;
    assert(cs@.take(0) =~= Seq::<char>::empty());
    while i < cs.len()
        invariant
            i <= cs.len(),
            limit <= MAX_PATTERN_LENGTH,
            cs@ == s@,
            n == utf8_len(cs@.take(i as int)),
            n <= limit,
        decreases cs.len() - i,
    {
        assert(cs@.take(i + 1).drop_last() =~= cs@.take(i as int));
        assert(cs@.take(i + 1).last() == cs@[i as int]);
        assert(utf8_len(cs@.take(i + 1)) == utf8_len(cs@.take(i as int)) + utf8_width(cs@[i as int]));
        n = n + utf8_width_exec(cs[i]);
        i = i + 1;
        if n > limit {
            proof {
                lemma_utf8_len_prefix(cs@, i as int);
            }
            return true;
        }
    }
    assert(cs@.take(cs.len() as int) =~= cs@);
    false
}

proof fn lemma_utf8_len_prefix(s: Seq<char>, k: int)
    requires
        0 <= k <= s.len(),
    ensures
        utf8_len(s.take(k)) <= utf8_len(s),
    decreases s.len() - k,
{
    if k < s.len() {
        assert(s.take(k + 1).drop_last() =~= s.take(k));
        lemma_utf8_len_prefix(s, k + 1);
    } else {
        assert(s.take(k) =~= s);
    }
}

/// Whether some pattern of `s` is longer than the maximum, in bytes.
pub open spec fn some_too_long(s: Seq<String>) -> bool {
    exists|i: int| 0 <= i < s.len() && utf8_len((#[trigger] s[i])@) > MAX_PATTERN_LENGTH
}

/// What pattern validation answers for a request's patterns.
pub open spec fn patterns_problem(patterns: Seq<String>, excludes: Seq<String>) -> Option<PathErrorSpec> {
    if patterns.len() == 0 {
        Some(PathErrorSpec::InvalidPath("search requires at least one pattern"@))
    } else if some_too_long(patterns) || some_too_long(excludes) {
        Some(PathErrorSpec::InvalidGlob("pattern exceeds maximum length (4096)"@))
    } else {
        None
    }
}

fn none_too_long(s: &Vec<String>) -> (r: bool)
    ensures
        r == !some_too_long(s@),
{
    let mut i: usize = 0;
    while i < s.len()
        invariant
            i <= s.len(),
            forall|j: int| 0 <= j < i ==> utf8_len((#[trigger] s@[j])@) <= MAX_PATTERN_LENGTH,
        decreases s.len() - i,
    {
        if longer_than(s[i].as_str(), MAX_PATTERN_LENGTH) {
            return false;
        }
        i = i + 1;
    }
    true
}

/// Validate a request's patterns: at least one include pattern, none longer
/// than [`MAX_PATTERN_LENGTH`] bytes.
pub fn validate_patterns(request: &SearchRequest) -> (r: Result<(), PathError>)
    ensures
        match patterns_problem(request.patterns@, request.exclude_patterns@) {
            None => r is Ok,
            Some(p) => r matches Err(e) && e@ == p,
        },
{
    if request.patterns.len() == 0 {
        return Err(PathError::invalid("search requires at least one pattern"));
    }
    if !none_too_long(&request.patterns) || !none_too_long(&request.exclude_patterns) {
        return Err(PathError::InvalidGlob { message: "pattern exceeds maximum length (4096)".to_owned() });
    }
    Ok(())
}

/// What a search compiles before listing: the include set, the exclude set
/// (when there are exclude patterns) and the listing options.
pub struct SearchPlan {
    /// Include patterns.
    pub includes: PatternSet,
    /// Exclude patterns, when any.
    pub excludes: Option<PatternSet>,
    /// Listing options (files are listed when no kind is asked for).
    pub list_options: ListOptions,
}

/// The listing options a search uses: the request's, with files included when
/// no kind at all is.
pub open spec fn search_list_options(o: ListOptions) -> ListOptions {
    if !o.include_files && !o.include_directories && !o.include_symlinks {
        ListOptions { include_files: true, ..o }
    } else {
        o
    }
}

/// Prepare a search: reject a root with NUL, validate the patterns and build
/// the glob sets.
pub fn plan_search(request: &SearchRequest) -> (r: Result<SearchPlan, PathError>)
    ensures
        has_nul(request.root@) ==> (r matches Err(e) && e@ == PathErrorSpec::EmbeddedNul),
        !has_nul(request.root@) && patterns_problem(request.patterns@, request.exclude_patterns@) is Some
            ==> (r matches Err(e) && Some(e@) == patterns_problem(request.patterns@, request.exclude_patterns@)),
        !has_nul(request.root@) && patterns_problem(request.patterns@, request.exclude_patterns@) is None ==> {
            match pattern_set_outcome(strs(request.patterns@)) {
                Some(m) => r matches Err(e) && e@ == PathErrorSpec::InvalidGlob(m),
                None => if request.exclude_patterns@.len() > 0 && pattern_set_outcome(strs(request.exclude_patterns@)) is Some {
                    r matches Err(e) && e@ == PathErrorSpec::InvalidGlob(pattern_set_outcome(strs(request.exclude_patterns@))->0)
                } else {
                    r matches Ok(p) && p.includes@ == strs(request.patterns@) && match p.excludes {
                        Some(x) => request.exclude_patterns@.len() > 0 && x@ == strs(request.exclude_patterns@),
                        None => request.exclude_patterns@.len() == 0,
                    } && p.list_options == search_list_options(request.options)
                },
            }
        },
{
    if has_nul_exec(&chars_of(request.root.as_str())) {
        return Err(PathError::EmbeddedNul);
    }
    match validate_patterns(request) {
        Err(e) => { return Err(e); },
        Ok(()) => {},
    }
    let includes = match build_pattern_set(&request.patterns) {
        Err(e) => { return Err(e); },
        Ok(s) => s,
    };
    let excludes = if request.exclude_patterns.len() == 0 {
        None
    } else {
        match build_pattern_set(&request.exclude_patterns) {
            Err(e) => { return Err(e); },
            Ok(s) => Some(s),
        }
    };
    let o = request.options;
    let list_options = if !o.include_files && !o.include_directories && !o.include_symlinks {
        ListOptions { include_files: true, ..o }
    } else {
        o
    };
    Ok(SearchPlan { includes, excludes, list_options })
}

/// The text an entry's relative path is matched as: `\` turned into `/`,
/// empty when it has none.
pub open spec fn match_rel(e: FileEntry) -> Seq<char> {
    match e.relative_path {
        Some(p) => replace_char(p@, '\\', '/'),
        None => Seq::empty(),
    }
}

/// The name an entry is matched as: its file name, empty when it has none.
pub open spec fn match_name(e: FileEntry) -> Seq<char> {
    match file_name(e.path@) {
        Some(n) => n,
        None => Seq::empty(),
    }
}

/// Whether a glob set matches an entry, by relative path or by name.
pub open spec fn set_matches_entry(patterns: Seq<Seq<char>>, e: FileEntry) -> bool {
    any_glob_matches(patterns, match_rel(e)) || any_glob_matches(patterns, match_name(e))
}

/// Whether a search keeps an entry: an include pattern matches it and no
/// exclude pattern does.
pub open spec fn search_keeps(includes: Seq<Seq<char>>, excludes: Option<Seq<Seq<char>>>, e: FileEntry) -> bool {
    set_matches_entry(includes, e) && match excludes {
        Some(x) => !set_matches_entry(x, e),
        None => true,
    }
}

/// The entries a search returns from the listed ones: those it keeps, in
/// order, stopping once `max_entries` are kept.
pub open spec fn search_results(
    listed: Seq<FileEntry>,
    includes: Seq<Seq<char>>,
    excludes: Option<Seq<Seq<char>>>,
    max_entries: Option<usize>,
) -> Seq<FileEntry>
    decreases listed.len(),
{
    if listed.len() == 0 {
        Seq::empty()
    } else {
        let prev = search_results(listed.drop_last(), includes, excludes, max_entries);
        let full = match max_entries {
            Some(m) => prev.len() >= m,
            None => false,
        };
        if !full && search_keeps(includes, excludes, listed.last()) {
            prev.push(listed.last())
        } else {
            prev
        }
    }
}

/// The view of an optional pattern set.
pub open spec fn opt_patterns(x: Option<PatternSet>) -> Option<Seq<Seq<char>>> {
    match x {
        Some(s) => Some(s@),
        None => None,
    }
}

fn entry_matches(set: &PatternSet, e: &FileEntry) -> (r: bool)
    ensures
        r == set_matches_entry(set@, *e),
{
    let rel = match &e.relative_path {
        Some(p) => string_from_chars(replace_char_exec(&chars_of(p.as_str()), '\\', '/')),
        None => string_from_chars(Vec::new()),
    };
    let name = match file_name_exec(&chars_of(e.path.as_str())) {
        Some(n) => string_from_chars(n),
        None => string_from_chars(Vec::new()),
    };
    set.is_match(rel.as_str()) || set.is_match(name.as_str())
}

/// Filter listed entries by the plan's patterns, keeping at most
/// `max_entries` of them.
pub fn filter_search_results(listed: Vec<FileEntry>, plan: &SearchPlan, max_entries: Option<usize>) -> (r: Vec<FileEntry>)
    ensures
        r@ == search_results(listed@, plan.includes@, opt_patterns(plan.excludes), max_entries),
{
    let ghost inc = plan.includes@;
    let ghost exc = opt_patterns(plan.excludes);
    let mut out: Vec<FileEntry> = Vec::new();
    let mut i: usize = 0;
    assert(listed@.take(0) =~= Seq::<FileEntry>::empty());
    while i < listed.len()
        invariant
            i <= listed.len(),
            inc == plan.includes@,
            exc == opt_patterns(plan.excludes),
            out@ == search_results(listed@.take(i as int), inc, exc, max_entries),
        decreases listed.len() - i,
    {
        assert(listed@.take(i + 1).drop_last() =~= listed@.take(i as int));
        assert(listed@.take(i + 1).last() == listed@[i as int]);
        let full = match max_entries {
            Some(m) => out.len() >= m,
            None => false,
        };
        if !full {
            let e = &listed[i];
            let keep = entry_matches(&plan.includes, e) && match &plan.excludes {
                Some(x) => !entry_matches(x, e),
                None => true,
            };
            if keep {
                out.push(e.clone());
            }
        }
        i = i + 1;
    }
    assert(listed@.take(listed.len() as int) =~= listed@);
    out
}

/// How a search consults an explicit cache.
#[derive(Debug, Clone, Copy, PartialEq, Eq, Structural)]
pub enum CacheStep {
    /// Scan only.
    Scan,
    /// Use a fresh cached value, else scan and store.
    ReadThenStore,
    /// Scan and store.
    ScanThenStore,
}

/// How a search with the given policy consults a cache, when it has one.
pub open spec fn cache_step_spec(policy: CachePolicy, has_cache: bool) -> CacheStep {
    if !has_cache {
        CacheStep::Scan
    } else {
        match policy {
            CachePolicy::Bypass => CacheStep::Scan,
            CachePolicy::ReadThrough => CacheStep::ReadThenStore,
            CachePolicy::Refresh => CacheStep::ScanThenStore,
        }
    }
}

/// How a search with the given policy consults a cache: without an explicit
/// cache it only scans; there is no process-global cache.
pub fn cache_step(policy: CachePolicy, has_cache: bool) -> (r: CacheStep)
    ensures
        r == cache_step_spec(policy, has_cache),
{
    if !has_cache {
        return CacheStep::Scan;
    }
    match policy {
        CachePolicy::Bypass => CacheStep::Scan,
        CachePolicy::ReadThrough => CacheStep::ReadThenStore,
        CachePolicy::Refresh => CacheStep::ScanThenStore,
    }
}

/// How each cache policy drives a search: without a cache, or with
/// [`CachePolicy::Bypass`], the search only scans and neither reads nor
/// stores; [`CachePolicy::Refresh`] scans and stores without reading;
/// [`CachePolicy::ReadThrough`] reads first and scans and stores only when the
/// cache has no fresh value; a stored value carries no time-to-live of its own.
pub proof fn lemma_cache_policy_steps(policy: CachePolicy, has_cache: bool)
    ensures
        !has_cache || policy == CachePolicy::Bypass ==> cache_step_spec(policy, has_cache) == CacheStep::Scan,
        has_cache && policy == CachePolicy::Refresh ==> cache_step_spec(policy, has_cache) == CacheStep::ScanThenStore,
        has_cache && policy == CachePolicy::ReadThrough ==> cache_step_spec(policy, has_cache)
            == CacheStep::ReadThenStore,
{
}

/// The entries a read-through search answers from a cached value at `now`:
/// those of a value that has not expired under its own time-to-live.
pub fn cached_entries_at(cached: Option<CacheValue>, now: u64) -> (r: Option<Vec<FileEntry>>)
    ensures
        match cached {
            Some(v) => if crate::cache::expired_at(v.stored_at, v.ttl, now) {
                r is None
            } else {
                r matches Some(x) && x@ == v.entries@
            },
            None => r is None,
        },
{
    match cached {
        Some(v) => if v.is_expired_at(now) {
            None
        } else {
            Some(v.entries)
        },
        None => None,
    }
}

/// The value a search stores for its result: stored now, without its own
/// time-to-live.
pub fn value_to_store(entries: &Vec<FileEntry>, now: u64) -> (r: CacheValue)
    ensures
        r.entries@ == entries@,
        r.stored_at == now,
        r.ttl is None,
{
    CacheValue { entries: crate::cache::clone_entries(entries), stored_at: now, ttl: None }
}

/// A search keeps an entry whose file name an include pattern matches, when
/// no exclude pattern matches its name or its relative path — whatever its
/// relative path is: with no cap, such a listed entry is in the result.
pub proof fn lemma_name_match_is_kept(
    listed: Seq<FileEntry>,
    includes: Seq<Seq<char>>,
    excludes: Option<Seq<Seq<char>>>,
    k: int,
    n: Seq<char>,
    i: int,
)
    requires
        0 <= k < listed.len(),
        file_name(listed[k].path@) == Some(n),
        0 <= i < includes.len(),
        glob_matches(includes[i], n),
        excludes matches Some(x) ==> forall|j: int| 0 <= j < x.len() ==> !glob_matches(#[trigger] x[j], n)
            && !glob_matches(x[j], match_rel(listed[k])),
    ensures
        search_results(listed, includes, excludes, None).contains(listed[k]),
    decreases listed.len(),
{
    let e = listed[k];
    assert(match_name(e) == n);
    assert(any_glob_matches(includes, match_name(e)));
    if let Some(x) = excludes {
        assert(!any_glob_matches(x, match_name(e)));
        assert(!any_glob_matches(x, match_rel(e)));
    }
    assert(search_keeps(includes, excludes, e));
    let prev = search_results(listed.drop_last(), includes, excludes, None);
    if k == listed.len() - 1 {
        assert(search_results(listed, includes, excludes, None) == prev.push(e));
        assert(prev.push(e)[prev.len() as int] == e);
    } else {
        assert(listed.drop_last()[k] == e);
        lemma_name_match_is_kept(listed.drop_last(), includes, excludes, k, n, i);
        let j = choose|j: int| 0 <= j < prev.len() && prev[j] == e;
        let r = search_results(listed, includes, excludes, None);
        assert(r == prev || r == prev.push(listed.last()));
        assert(r[j] == e);
    }
}

} // verus!
