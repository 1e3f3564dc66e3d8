//! Generic recursive directory discovery decisions.
//!
//! Skip rules are caller-configured; nothing product-specific is hardcoded.
//! The walk itself is performed by the caller, which feeds each walked item
//! through a [`DiscoveryState`]: the state decides what to skip, what to
//! inspect, what to keep, and in which order the kept directories come out.
//!
//! # Depth model
//!
//! - **Depth 0** — the walk root
//! - **Depth 1** — immediate children
//! - `recursive: false` limits the walk to depth 0 only (the root)
//! - `recursive: true` with `max_depth: Some(n)` walks to depth `n`

use vstd::prelude::*;
use crate::chars::{chars_of, chars_eq, clone_strings, extend_chars, extend_str, replace_char, replace_char_exec,
    starts_with_exec, string_from_chars, strs};
use crate::error::{PathError, PathErrorSpec};
use crate::identity::PathIdentityOptions;
use crate::inspect::DirectoryInspection;
use crate::lexical::{components, lexically_inside, path_components, components_prefix};
use crate::listing::{relative_path, relative_to};
use crate::metadata::{
    EntryKind, SortMode, TraversalErrorPolicy, insert_by, sort_by_spec, path_before, name_or_empty, sorted_by,
    strict_order, lemma_sort_by_permutation, lemma_sort_by_sorted, lemma_text_lt_irreflexive,
    lemma_text_lt_transitive, text_lt,
};
use crate::search::{PatternSet, build_pattern_set, pattern_set_outcome, any_glob_matches};

verus! {

/// Options for recursive directory discovery.
#[derive(Debug)]
pub struct DiscoveryOptions {
    /// Recurse into subdirectories.
    pub recursive: bool,
    /// Follow symbolic links.
    pub follow_symlinks: bool,
    /// Maximum walk depth relative to the root (`None` = unlimited when recursive).
    pub max_depth: Option<usize>,
    /// Maximum number of directories returned.
    pub max_entries: Option<usize>,
    /// Directory names to skip (exact match); never applied to the root itself.
    pub skip_directory_names: Vec<String>,
    /// Relative path prefixes (using `/` separators) to skip under the root.
    pub skip_relative_prefixes: Vec<String>,
    /// Glob patterns matched against relative paths and names.
    pub skip_globs: Vec<String>,
    /// Error handling policy.
    pub error_policy: TraversalErrorPolicy,
    /// Deduplicate results by identity key.
    pub deduplicate: bool,
    /// Identity options used when `deduplicate` is true.
    pub identity: PathIdentityOptions,
    /// Sort mode for the returned list.
    pub sort: SortMode,
}

impl Default for DiscoveryOptions {
    fn default() -> (r: Self)
        ensures
            r.recursive && !r.follow_symlinks,
            r.max_depth is None && r.max_entries is None,
            r.skip_directory_names@.len() == 0 && r.skip_relative_prefixes@.len() == 0 && r.skip_globs@.len() == 0,
            r.error_policy == TraversalErrorPolicy::FailFast,
            r.deduplicate,
            r.identity.normalize_lexically && r.identity.normalize_separators,
            r.identity.case == crate::text::CaseNormalization::PlatformDefault,
            !r.identity.resolve_existing_symlinks && !r.identity.strip_windows_verbatim_prefix
                && !r.identity.translate_wsl_paths,
            r.sort == SortMode::Path,
    {
        DiscoveryOptions {
            recursive: true,
            follow_symlinks: false,
            max_depth: None,
            max_entries: None,
            skip_directory_names: Vec::new(),
            skip_relative_prefixes: Vec::new(),
            skip_globs: Vec::new(),
            error_policy: TraversalErrorPolicy::FailFast,
            deduplicate: true,
            identity: PathIdentityOptions::default(),
            sort: SortMode::Path,
        }
    }
}

impl Clone for DiscoveryOptions {
    fn clone(&self) -> (r: Self)
        ensures
            r.recursive == self.recursive && r.follow_symlinks == self.follow_symlinks,
            r.max_depth == self.max_depth && r.max_entries == self.max_entries,
            r.skip_directory_names@ == self.skip_directory_names@,
            r.skip_relative_prefixes@ == self.skip_relative_prefixes@,
            r.skip_globs@ == self.skip_globs@,
            r.error_policy == self.error_policy && r.deduplicate == self.deduplicate,
            r.identity == self.identity && r.sort == self.sort,
    {
        DiscoveryOptions {
            recursive: self.recursive,
            follow_symlinks: self.follow_symlinks,
            max_depth: self.max_depth,
            max_entries: self.max_entries,
            skip_directory_names: clone_strings(&self.skip_directory_names),
            skip_relative_prefixes: clone_strings(&self.skip_relative_prefixes),
            skip_globs: clone_strings(&self.skip_globs),
            error_policy: self.error_policy,
            deduplicate: self.deduplicate,
            identity: self.identity,
            sort: self.sort,
        }
    }
}

impl DiscoveryOptions {
    /// Create default options.
    pub fn new() -> (r: Self)
        ensures
            r.recursive && !r.follow_symlinks,
            r.max_depth is None && r.max_entries is None,
            r.skip_directory_names@.len() == 0 && r.skip_relative_prefixes@.len() == 0 && r.skip_globs@.len() == 0,
            r.error_policy == TraversalErrorPolicy::FailFast,
            r.deduplicate,
            r.sort == SortMode::Path,
    {
        Self::default()
    }

    /// Enable or disable recursion.
    pub fn recursive(self, recursive: bool) -> (r: Self)
        ensures
            r == (DiscoveryOptions { recursive, ..self }),
    {
        DiscoveryOptions { recursive, ..self }
    }

    /// Follow symlinks when walking.
    pub fn follow_symlinks(self, follow: bool) -> (r: Self)
        ensures
            r == (DiscoveryOptions { follow_symlinks: follow, ..self }),
    {
        DiscoveryOptions { follow_symlinks: follow, ..self }
    }

    /// Skip exact directory names (e.g. `"node_modules"`).
    pub fn skip_names(self, names: Vec<String>) -> (r: Self)
        ensures
            r.skip_directory_names@ == self.skip_directory_names@ + names@,
            r.recursive == self.recursive && r.follow_symlinks == self.follow_symlinks,
            r.max_depth == self.max_depth && r.max_entries == self.max_entries,
            r.skip_relative_prefixes == self.skip_relative_prefixes && r.skip_globs == self.skip_globs,
            r.error_policy == self.error_policy && r.deduplicate == self.deduplicate,
            r.identity == self.identity && r.sort == self.sort,
    {
        let mut s = self;
        let mut more = names;
        s.skip_directory_names.append(&mut more);
        s
    }

    /// Skip relative path prefixes under the root.
    pub fn skip_relative_prefixes(self, prefixes: Vec<String>) -> (r: Self)
        ensures
            r.skip_relative_prefixes@ == self.skip_relative_prefixes@ + prefixes@,
            r.recursive == self.recursive && r.follow_symlinks == self.follow_symlinks,
            r.max_depth == self.max_depth && r.max_entries == self.max_entries,
            r.skip_directory_names == self.skip_directory_names && r.skip_globs == self.skip_globs,
            r.error_policy == self.error_policy && r.deduplicate == self.deduplicate,
            r.identity == self.identity && r.sort == self.sort,
    {
        let mut s = self;
        let mut more = prefixes;
        s.skip_relative_prefixes.append(&mut more);
        s
    }

    /// Set maximum depth.
    pub fn max_depth(self, depth: Option<usize>) -> (r: Self)
        ensures
            r == (DiscoveryOptions { max_depth: depth, ..self }),
    {
        DiscoveryOptions { max_depth: depth, ..self }
    }

    /// Set maximum number of returned directories.
    pub fn max_entries(self, max: Option<usize>) -> (r: Self)
        ensures
            r == (DiscoveryOptions { max_entries: max, ..self }),
    {
        DiscoveryOptions { max_entries: max, ..self }
    }

    /// Set error policy.
    pub fn error_policy(self, policy: TraversalErrorPolicy) -> (r: Self)
        ensures
            r == (DiscoveryOptions { error_policy: policy, ..self }),
    {
        DiscoveryOptions { error_policy: policy, ..self }
    }

    /// Enable or disable identity-key deduplication.
    pub fn deduplicate(self, deduplicate: bool) -> (r: Self)
        ensures
            r == (DiscoveryOptions { deduplicate, ..self }),
    {
        DiscoveryOptions { deduplicate, ..self }
    }

    /// Identity options used when deduplicating.
    pub fn identity(self, identity: PathIdentityOptions) -> (r: Self)
        ensures
            r == (DiscoveryOptions { identity, ..self }),
    {
        DiscoveryOptions { identity, ..self }
    }

    /// Sort mode for the returned list.
    pub fn sort(self, sort: SortMode) -> (r: Self)
        ensures
            r == (DiscoveryOptions { sort, ..self }),
    {
        DiscoveryOptions { sort, ..self }
    }
}

/// Control flow for visitor-based traversal.
#[derive(Debug, Clone, Copy, PartialEq, Eq, Structural)]
#[non_exhaustive]
pub enum VisitControl {
    /// Continue walking.
    Continue,
    /// Do not descend into the current directory's children.
    SkipChildren,
    /// Stop the walk entirely.
    Stop,
}

/// The deepest level a discovery walk visits.
pub open spec fn walk_max_depth_spec(recursive: bool, max_depth: Option<usize>) -> usize {
    if recursive {
        match max_depth {
            Some(d) => d,
            None => usize::MAX,
        }
    } else {
        0
    }
}

/// The deepest level a discovery walk visits: the root only when not
/// recursive, else `max_depth` (unlimited when unset).
pub fn walk_max_depth(options: &DiscoveryOptions) -> (r: usize)
    ensures
        r == walk_max_depth_spec(options.recursive, options.max_depth),
{
    if options.recursive {
        match options.max_depth {
            Some(d) => d,
            None => usize::MAX,
        }
    } else {
        0
    }
}

/// Check that a discovery root is an existing directory.
pub fn check_discovery_root(root: &str, inspection: &DirectoryInspection) -> (r: Result<(), PathError>)
    ensures
        inspection.exists && inspection.is_directory ==> r is Ok,
        !(inspection.exists && inspection.is_directory) ==> (r matches Err(e) && e@
            == PathErrorSpec::InvalidPath("discovery root is not a directory: "@ + root@)),
{
    if !inspection.exists || !inspection.is_directory {
        let mut m: Vec<char> = Vec::new();
        extend_str(&mut m, "discovery root is not a directory: ");
        extend_str(&mut m, root);
        return Err(PathError::InvalidPath { message: string_from_chars(m) });
    }
    Ok(())
}

/// Whether `path` lies strictly under one of the skipped directories.
pub open spec fn under_skipped(path: Seq<char>, skipped: Seq<Seq<char>>) -> bool {
    exists|i: int| 0 <= i < skipped.len() && lexically_inside(path, #[trigger] skipped[i])
        && components(path) != components(skipped[i])
}

/// Whether a relative path is one of the skipped prefixes or lies under one.
pub open spec fn rel_skipped(rel: Seq<char>, prefixes: Seq<Seq<char>>) -> bool {
    exists|i: int| 0 <= i < prefixes.len() && (rel == #[trigger] prefixes[i] || (prefixes[i] + seq!['/']).is_prefix_of(rel))
}

/// What screening a walked item decides: whether to inspect it, and whether
/// its subtree is from now on skipped.
pub open spec fn screen_spec(
    root: Seq<char>,
    names: Seq<Seq<char>>,
    prefixes: Seq<Seq<char>>,
    globs: Option<Seq<Seq<char>>>,
    follow: bool,
    skipped: Seq<Seq<char>>,
    path: Seq<char>,
    name: Seq<char>,
    is_dir: bool,
    is_symlink: bool,
) -> (bool, bool) {
    if !(is_dir || (follow && is_symlink)) {
        (false, false)
    } else if under_skipped(path, skipped) {
        (false, false)
    } else if components(path) == components(root) {
        (true, false)
    } else if names.contains(name) {
        (false, true)
    } else {
        match relative_to(path, root) {
            None => (true, false),
            Some(r0) => {
                let rel = replace_char(r0, '\\', '/');
                if rel_skipped(rel, prefixes) {
                    (false, true)
                } else if globs matches Some(g) && (any_glob_matches(g, rel) || any_glob_matches(g, name)) {
                    (false, true)
                } else {
                    (true, false)
                }
            },
        }
    }
}

/// What to do after inspecting a directory candidate.
#[derive(Debug)]
pub enum InspectStep {
    /// Stop the discovery with this error.
    Fail(PathError),
    /// Not a directory (or an error that is skipped): go on.
    Skip,
    /// A directory: ask the caller's predicate about it.
    Consult(DirectoryInspection),
}

/// The bookkeeping of a discovery walk.
pub struct DiscoveryState {
    /// The walk root.
    root: String,
    /// The discovery options.
    options: DiscoveryOptions,
    /// Compiled skip globs, when there are any.
    skip_globs: Option<PatternSet>,
    /// Directories kept so far, in walk order.
    found: Vec<String>,
    /// Identity keys of the kept directories (when deduplicating).
    seen: Vec<String>,
    /// Directories whose subtrees are skipped.
    skipped: Vec<String>,
}

/// What the bookkeeping of a discovery walk stands for.
pub struct DiscoveryStateView {
    pub root: Seq<char>,
    pub options: DiscoveryOptions,
    pub skip_globs: Option<Seq<Seq<char>>>,
    pub found: Seq<Seq<char>>,
    pub seen: Seq<Seq<char>>,
    pub skipped: Seq<Seq<char>>,
}

/// Whether `found` holds as many directories as `options` allow.
pub open spec fn discovery_full(v: DiscoveryStateView) -> bool {
    v.options.max_entries matches Some(m) && v.found.len() >= m
}

/// The view of optional compiled globs.
pub open spec fn globs_view(g: Option<PatternSet>) -> Option<Seq<Seq<char>>> {
    match g {
        Some(s) => Some(s@),
        None => None,
    }
}

fn contains_text(list: &Vec<String>, t: &Vec<char>) -> (r: bool)
    ensures
        r == strs(list@).contains(t@),
{
    let mut i: usize = 0;
    while i < list.len()
        invariant
            i <= list.len(),
            forall|j: int| 0 <= j < i ==> strs(list@)[j] != t@,
        decreases list.len() - i,
    {
        if chars_eq(&chars_of(list[i].as_str()), t) {
            assert(strs(list@)[i as int] == t@);
            return true;
        }
        i = i + 1;
    }
    false
}

fn under_skipped_exec(path: &Vec<char>, skipped: &Vec<String>) -> (r: bool)
    ensures
        r == under_skipped(path@, strs(skipped@)),
{
    let pc = path_components(path);
    let mut i: usize = 0;
    while i < skipped.len()
        invariant
            i <= skipped.len(),
            crate::chars::views(pc@) == components(path@),
            forall|j: int| 0 <= j < i ==> !(lexically_inside(path@, #[trigger] strs(skipped@)[j]) && components(path@)
                != components(strs(skipped@)[j])),
        decreases skipped.len() - i,
    {
        let sc = path_components(&chars_of(skipped[i].as_str()));
        assert(strs(skipped@)[i as int] == skipped@[i as int]@);
        let inside = components_prefix(&sc, &pc);
        let same = inside && sc.len() == pc.len();
        if inside && !same {
            assert(lexically_inside(path@, strs(skipped@)[i as int]));
            assert(components(path@).len() != components(strs(skipped@)[i as int]).len());
            return true;
        }
        if inside {
            assert(components(path@) =~= components(strs(skipped@)[i as int]));
        }
        i = i + 1;
    }
    false
}

fn rel_skipped_exec(rel: &Vec<char>, prefixes: &Vec<String>) -> (r: bool)
    ensures
        r == rel_skipped(rel@, strs(prefixes@)),
{
    let mut i: usize = 0;
    while i < prefixes.len()
        invariant
            i <= prefixes.len(),
            forall|j: int| 0 <= j < i ==> !(rel@ == #[trigger] strs(prefixes@)[j] || (strs(prefixes@)[j] + seq!['/']).is_prefix_of(rel@)),
        decreases prefixes.len() - i,
    {
        let p = chars_of(prefixes[i].as_str());
        assert(strs(prefixes@)[i as int] == p@);
        let mut ps = p.clone();
        ps.push('/');
        assert(ps@ =~= p@ + seq!['/']);
        if chars_eq(rel, &p) || starts_with_exec(rel, &ps) {
            return true;
        }
        i = i + 1;
    }
    false
}

/// Directories in the order a discovery returns them.
pub open spec fn path_order(mode: SortMode) -> spec_fn(Seq<char>, Seq<char>) -> bool {
    |a: Seq<char>, b: Seq<char>| path_before(a, EntryKind::Directory, b, EntryKind::Directory, mode)
}

/// The sorted form of found directories: unchanged for [`SortMode::Unsorted`].
pub open spec fn sorted_paths(s: Seq<Seq<char>>, mode: SortMode) -> Seq<Seq<char>> {
    if mode == SortMode::Unsorted {
        s
    } else {
        sort_by_spec(s, path_order(mode))
    }
}

proof fn lemma_insert_at_text(s: Seq<Seq<char>>, x: Seq<char>, before: spec_fn(Seq<char>, Seq<char>) -> bool, p: int)
    requires
        0 <= p <= s.len(),
        forall|j: int| 0 <= j < p ==> !before(x, #[trigger] s[j]),
        p < s.len() ==> before(x, s[p]),
    ensures
        insert_by(s, x, before) == s.insert(p, x),
    decreases s.len(),
{
    if s.len() == 0 {
        assert(s.insert(p, x) =~= seq![x]);
    } else if p == 0 {
        assert(s.insert(0, x) =~= seq![x] + s);
    } else {
        let t = s.drop_first();
        assert forall|j: int| 0 <= j < p - 1 implies !before(x, #[trigger] t[j]) by {
            assert(t[j] == s[j + 1]);
        }
        if p - 1 < t.len() {
            assert(t[p - 1] == s[p]);
        }
        assert(!before(x, s[0]));
        lemma_insert_at_text(t, x, before, p - 1);
        assert(seq![s[0]] + t.insert(p - 1, x) =~= s.insert(p, x));
    }
}

/// Sort directory paths: by path text for [`SortMode::Path`] and
/// [`SortMode::DirsFirst`], by file name then path for [`SortMode::Name`]; stable.
pub fn sort_paths(paths: &mut Vec<String>, mode: SortMode)
    ensures
        strs(final(paths)@) == sorted_paths(strs(old(paths)@), mode),
{
    if mode == SortMode::Unsorted {
        return;
    }
    let ghost orig = strs(paths@);
    let mut src: Vec<String> = Vec::new();
    std::mem::swap(&mut src, paths);
    let mut out: Vec<String> = Vec::new();
    let ghost mut k: int = 0;
    assert(orig.take(0) =~= Seq::<Seq<char>>::empty());
    assert(strs(src@) =~= orig.skip(0));
    while src.len() > 0
        invariant
            mode != SortMode::Unsorted,
            0 <= k <= orig.len(),
            strs(src@) =~= orig.skip(k),
            strs(out@) == sort_by_spec(orig.take(k), path_order(mode)),
        decreases src.len(),
    {
        let ghost src_before = src@;
        assert(strs(src_before).len() == src_before.len());
        assert(k < orig.len());
        assert(strs(src_before)[0] == orig.skip(k)[0]);
        let x = src.remove(0);
        assert(x == src_before[0]);
        assert(strs(src_before)[0] == src_before[0]@);
        assert(x@ == orig[k]);
        assert(src@ =~= src_before.drop_first());
        assert(strs(src@) =~= orig.skip(k + 1)) by {
            assert forall|a: int| 0 <= a < src@.len() implies strs(src@)[a] == orig.skip(k + 1)[a] by {
                assert(strs(src@)[a] == src@[a]@);
                assert(src@[a] == src_before[a + 1]);
                assert(strs(src_before)[a + 1] == src_before[a + 1]@);
                assert(strs(src_before)[a + 1] == orig.skip(k)[a + 1]);
            }
        }
        let xp = chars_of(x.as_str());
        let mut pos: usize = 0;
        while pos < out.len()
            invariant
                pos <= out.len(),
                xp@ == x@,
                forall|j: int| 0 <= j < pos ==> !path_before(x@, EntryKind::Directory, #[trigger] strs(out@)[j], EntryKind::Directory, mode),
            ensures
                pos <= out.len(),
                forall|j: int| 0 <= j < pos ==> !path_before(x@, EntryKind::Directory, #[trigger] strs(out@)[j], EntryKind::Directory, mode),
                pos < out.len() ==> path_before(x@, EntryKind::Directory, strs(out@)[pos as int], EntryKind::Directory, mode),
            decreases out.len() - pos,
        {
            let yp = chars_of(out[pos].as_str());
            assert(strs(out@)[pos as int] == yp@);
            if crate::metadata::path_before_exec(&xp, EntryKind::Directory, &yp, EntryKind::Directory, mode) {
                break;
            }
            pos = pos + 1;
        }
        let ghost out_before = out@;
        proof {
            let f = path_order(mode);
            assert forall|j: int| 0 <= j < pos implies !f(x@, #[trigger] strs(out@)[j]) by {
                assert(!path_before(x@, EntryKind::Directory, strs(out@)[j], EntryKind::Directory, mode));
            }
            lemma_insert_at_text(strs(out@), x@, f, pos as int);
            assert(orig.take(k + 1).drop_last() =~= orig.take(k));
            assert(orig.take(k + 1).last() == x@);
        }
        out.insert(pos, x);
        proof {
            assert(strs(out@) =~= strs(out_before).insert(pos as int, x@));
            k = k + 1;
        }
    }
    assert(orig.take(k) =~= orig);
    *paths = out;
}

impl View for DiscoveryState {
    type V = DiscoveryStateView;

    closed spec fn view(&self) -> DiscoveryStateView {
        DiscoveryStateView {
            root: self.root@,
            options: self.options,
            skip_globs: globs_view(self.skip_globs),
            found: strs(self.found@),
            seen: strs(self.seen@),
            skipped: strs(self.skipped@),
        }
    }
}

impl DiscoveryState {
    /// A discovery never keeps more directories than `max_entries` allows.
    #[verifier::type_invariant]
    spec fn within_cap(self) -> bool {
        self.options.max_entries matches Some(m) ==> self.found@.len() <= m
    }

    /// Start a discovery under `root` (whose inspection was checked), compiling
    /// the skip globs.
    pub fn new(root: &str, options: DiscoveryOptions) -> (r: Result<DiscoveryState, PathError>)
        ensures
            options.skip_globs@.len() > 0 && pattern_set_outcome(strs(options.skip_globs@)) is Some ==> (r matches Err(e)
                && e@ == PathErrorSpec::InvalidGlob(pattern_set_outcome(strs(options.skip_globs@))->0)),
            !(options.skip_globs@.len() > 0 && pattern_set_outcome(strs(options.skip_globs@)) is Some) ==> (r matches Ok(st)
                && st@.root == root@ && st@.found.len() == 0 && st@.seen.len() == 0 && st@.skipped.len() == 0
                && st@.skip_globs == (if options.skip_globs@.len() > 0 {
                Some(strs(options.skip_globs@))
            } else {
                None
            }) && st@.options == options),
    {
        let globs = if options.skip_globs.len() == 0 {
            None
        } else {
            match build_pattern_set(&options.skip_globs) {
                Err(e) => { return Err(e); },
                Ok(s) => Some(s),
            }
        };
        Ok(DiscoveryState {
            root: root.to_owned(),
            options,
            skip_globs: globs,
            found: Vec::new(),
            seen: Vec::new(),
            skipped: Vec::new(),
        })
    }

    /// Record that the subtree at `path` is skipped.
    fn skip_subtree(&mut self, path: &str)
        ensures
            final(self).root == old(self).root,
            final(self).options == old(self).options,
            final(self).skip_globs == old(self).skip_globs,
            final(self).found == old(self).found,
            final(self).seen == old(self).seen,
            strs(final(self).skipped@) == strs(old(self).skipped@).push(path@),
    {
        proof {
            use_type_invariant(&*self);
        }
        let mut skipped: Vec<String> = Vec::new();
        std::mem::swap(&mut skipped, &mut self.skipped);
        skipped.push(path.to_owned());
        self.skipped = skipped;
        assert(strs(self.skipped@) =~= strs(old(self).skipped@).push(path@));
    }

    /// Add `path` to the kept directories of a discovery that is not full.
    fn keep_found(&mut self, path: &str)
        requires
            !(old(self).options.max_entries matches Some(m) && old(self).found@.len() >= m),
        ensures
            final(self).root == old(self).root,
            final(self).options == old(self).options,
            final(self).skip_globs == old(self).skip_globs,
            final(self).seen == old(self).seen,
            final(self).skipped == old(self).skipped,
            strs(final(self).found@) == strs(old(self).found@).push(path@),
    {
        proof {
            use_type_invariant(&*self);
        }
        let mut found: Vec<String> = Vec::new();
        std::mem::swap(&mut found, &mut self.found);
        found.push(path.to_owned());
        self.found = found;
        assert(strs(self.found@) =~= strs(old(self).found@).push(path@));
    }

    /// Whether as many directories as allowed have been kept.
    pub fn is_full(&self) -> (r: bool)
        ensures
            r == discovery_full(self@),
    {
        match self.options.max_entries {
            Some(m) => self.found.len() >= m,
            None => false,
        }
    }

    /// What a walk error at `path` with `message` does: fail-fast stops with a
    /// traversal error, skip-errors goes on.
    pub fn walk_error(&self, message: &str, path: &str) -> (r: Option<PathError>)
        ensures
            self@.options.error_policy == TraversalErrorPolicy::FailFast ==> (r matches Some(e) && e@
                == PathErrorSpec::Traversal(message@ + " ("@ + path@ + ")"@)),
            self@.options.error_policy != TraversalErrorPolicy::FailFast ==> r is None,
    {
        match self.options.error_policy {
            TraversalErrorPolicy::FailFast => {
                let mut m: Vec<char> = Vec::new();
                extend_str(&mut m, message);
                extend_str(&mut m, " (");
                extend_str(&mut m, path);
                extend_str(&mut m, ")");
                Some(PathError::Traversal { message: string_from_chars(m) })
            },
            TraversalErrorPolicy::SkipErrors => None,
        }
    }

    /// Screen a walked item: returns whether to inspect it. Items that are not
    /// directories (or followed symlinks) and items under skipped trees are
    /// passed over; the root is always inspected; a directory matching a skip
    /// name, relative prefix or glob is passed over and its subtree skipped.
    pub fn screen(&mut self, path: &str, name: &str, is_dir: bool, is_symlink: bool) -> (r: bool)
        ensures
            ({
                let (go, skip) = screen_spec(
                    old(self)@.root,
                    strs(old(self)@.options.skip_directory_names@),
                    strs(old(self)@.options.skip_relative_prefixes@),
                    old(self)@.skip_globs,
                    old(self)@.options.follow_symlinks,
                    old(self)@.skipped,
                    path@,
                    name@,
                    is_dir,
                    is_symlink,
                );
                &&& r == go
                &&& final(self)@.skipped == if skip {
                    old(self)@.skipped.push(path@)
                } else {
                    old(self)@.skipped
                }
            }),
            final(self)@.root == old(self)@.root,
            final(self)@.options == old(self)@.options,
            final(self)@.skip_globs == old(self)@.skip_globs,
            final(self)@.found == old(self)@.found,
            final(self)@.seen == old(self)@.seen,
    {
        if !(is_dir || (self.options.follow_symlinks && is_symlink)) {
            return false;
        }
        let pc = chars_of(path);
        if under_skipped_exec(&pc, &self.skipped) {
            return false;
        }
        let pcomp = path_components(&pc);
        let rcomp = path_components(&chars_of(self.root.as_str()));
        let is_root = components_prefix(&rcomp, &pcomp) && rcomp.len() == pcomp.len();
        if is_root {
            assert(components(path@) =~= components(self.root@));
            return true;
        }
        let nc = chars_of(name);
        if contains_text(&self.options.skip_directory_names, &nc) {
            self.skip_subtree(path);
            assert(strs(self.skipped@) =~= strs(old(self).skipped@).push(path@));
            return false;
        }
        match relative_path(path, self.root.as_str()) {
            None => true,
            Some(r0) => {
                let rel = replace_char_exec(&chars_of(r0.as_str()), '\\', '/');
                if rel_skipped_exec(&rel, &self.options.skip_relative_prefixes) {
                    self.skip_subtree(path);
                    assert(strs(self.skipped@) =~= strs(old(self).skipped@).push(path@));
                    return false;
                }
                let glob_hit = match &self.skip_globs {
                    Some(g) => {
                        let rs = string_from_chars(rel);
                        g.is_match(rs.as_str()) || g.is_match(name)
                    },
                    None => false,
                };
                if glob_hit {
                    self.skip_subtree(path);
                    assert(strs(self.skipped@) =~= strs(old(self).skipped@).push(path@));
                    return false;
                }
                true
            },
        }
    }

    /// What to do with the inspection of a screened directory.
    pub fn inspected(&self, inspection: Result<DirectoryInspection, PathError>) -> (r: InspectStep)
        ensures
            match inspection {
                Err(e) => if self@.options.error_policy == TraversalErrorPolicy::FailFast {
                    r matches InspectStep::Fail(x) && x@ == e@
                } else {
                    r is Skip
                },
                Ok(i) => if i.is_directory {
                    r matches InspectStep::Consult(x) && x == i
                } else {
                    r is Skip
                },
            },
    {
        match inspection {
            Err(e) => match self.options.error_policy {
                TraversalErrorPolicy::FailFast => InspectStep::Fail(e),
                TraversalErrorPolicy::SkipErrors => InspectStep::Skip,
            },
            Ok(i) => if i.is_directory {
                InspectStep::Consult(i)
            } else {
                InspectStep::Skip
            },
        }
    }

    /// Keep a directory the predicate accepted. When deduplicating, `key` is
    /// its identity key: a key error stops the discovery, and a key already
    /// seen drops the directory. Without deduplication the key is not used.
    /// A discovery that is full keeps nothing more: the walk ends first.
    pub fn keep_directory(&mut self, path: &str, key: Result<String, PathError>) -> (r: Result<(), PathError>)
        requires
            !discovery_full(old(self)@),
        ensures
            final(self)@.root == old(self)@.root,
            final(self)@.options == old(self)@.options,
            final(self)@.skip_globs == old(self)@.skip_globs,
            final(self)@.skipped == old(self)@.skipped,
            !old(self)@.options.deduplicate ==> r is Ok && final(self)@.found == old(self)@.found.push(path@)
                && final(self)@.seen == old(self)@.seen,
            old(self)@.options.deduplicate ==> match key {
                Err(e) => r matches Err(x) && x@ == e@ && final(self)@.found == old(self)@.found && final(self)@.seen
                    == old(self)@.seen,
                Ok(k) => r is Ok && if old(self)@.seen.contains(k@) {
                    final(self)@.found == old(self)@.found && final(self)@.seen == old(self)@.seen
                } else {
                    final(self)@.found == old(self)@.found.push(path@) && final(self)@.seen == old(self)@.seen.push(k@)
                },
            },
    {
        proof {
            use_type_invariant(&*self);
        }
        if !self.options.deduplicate {
            self.keep_found(path);
            assert(strs(self.found@) =~= strs(old(self).found@).push(path@));
            return Ok(());
        }
        match key {
            Err(e) => Err(e),
            Ok(k) => {
                let kc = chars_of(k.as_str());
                if contains_text(&self.seen, &kc) {
                    return Ok(());
                }
                let mut seen: Vec<String> = Vec::new();
                std::mem::swap(&mut seen, &mut self.seen);
                seen.push(k);
                self.seen = seen;
                self.keep_found(path);
                assert(strs(self.found@) =~= strs(old(self).found@).push(path@));
                assert(strs(self.seen@) =~= strs(old(self).seen@).push(kc@));
                Ok(())
            },
        }
    }

    /// The kept directories, in the order of the sort mode; never more than
    /// `max_entries` of them.
    pub fn finish(self) -> (r: Vec<String>)
        ensures
            strs(r@) == sorted_paths(self@.found, self@.options.sort),
            self@.options.max_entries matches Some(m) ==> r@.len() <= m,
    {
        proof {
            use_type_invariant(&self);
            lemma_sort_paths_exact(strs(self.found@), self.options.sort);
            vstd::seq_lib::to_multiset_len(sorted_paths(strs(self.found@), self.options.sort));
            vstd::seq_lib::to_multiset_len(strs(self.found@));
        }
        let mut out = self.found;
        sort_paths(&mut out, self.options.sort);
        out
    }
}

/// What a visitor walk does after the visitor answered about an error.
#[derive(Debug)]
pub enum AfterError {
    /// End the walk successfully.
    Finish,
    /// End the walk with this error.
    Fail(PathError),
    /// Go on with the next item.
    Proceed,
}

/// The bookkeeping of a visitor walk.
pub struct VisitState {
    /// The walk root.
    root: String,
    /// Directory names to skip (never the root).
    skip_directory_names: Vec<String>,
    /// Error handling policy.
    error_policy: TraversalErrorPolicy,
    /// Directories whose subtrees are skipped.
    skipped: Vec<String>,
    /// Whether the visitor asked to stop.
    stopped: bool,
}

/// What the bookkeeping of a visitor walk stands for.
pub struct VisitStateView {
    pub root: Seq<char>,
    pub skip_directory_names: Seq<Seq<char>>,
    pub error_policy: TraversalErrorPolicy,
    pub skipped: Seq<Seq<char>>,
    pub stopped: bool,
}

impl View for VisitState {
    type V = VisitStateView;

    closed spec fn view(&self) -> VisitStateView {
        VisitStateView {
            root: self.root@,
            skip_directory_names: strs(self.skip_directory_names@),
            error_policy: self.error_policy,
            skipped: strs(self.skipped@),
            stopped: self.stopped,
        }
    }
}

/// What screening an item of a visitor walk decides: whether to inspect it,
/// and whether its subtree is from now on skipped.
pub open spec fn visit_screen_spec(
    root: Seq<char>,
    names: Seq<Seq<char>>,
    skipped: Seq<Seq<char>>,
    path: Seq<char>,
    name: Seq<char>,
    is_dir: bool,
) -> (bool, bool) {
    if !is_dir || under_skipped(path, skipped) {
        (false, false)
    } else if components(path) != components(root) && names.contains(name) {
        (false, true)
    } else {
        (true, false)
    }
}

impl VisitState {
    /// Start a visitor walk under `root`.
    pub fn new(root: &str, options: &DiscoveryOptions) -> (r: VisitState)
        ensures
            r@.root == root@,
            r@.skip_directory_names == strs(options.skip_directory_names@),
            r@.error_policy == options.error_policy,
            r@.skipped.len() == 0,
            !r@.stopped,
    {
        VisitState {
            root: root.to_owned(),
            skip_directory_names: clone_strings(&options.skip_directory_names),
            error_policy: options.error_policy,
            skipped: Vec::new(),
            stopped: false,
        }
    }

    /// Whether the visitor may still be called: not once it asked to stop.
    pub fn may_visit(&self) -> (r: bool)
        ensures
            r == !self@.stopped,
    {
        !self.stopped
    }

    /// Screen a walked item: only directories outside skipped trees are
    /// inspected; a directory other than the root with a skipped name is
    /// passed over and its subtree skipped. Nothing is inspected once the
    /// visitor asked to stop.
    pub fn screen(&mut self, path: &str, name: &str, is_dir: bool) -> (r: bool)
        ensures
            old(self)@.stopped ==> !r && final(self)@ == old(self)@,
            !old(self)@.stopped ==> ({
                let (go, skip) = visit_screen_spec(
                    old(self)@.root,
                    old(self)@.skip_directory_names,
                    old(self)@.skipped,
                    path@,
                    name@,
                    is_dir,
                );
                &&& r == go
                &&& final(self)@.skipped == if skip {
                    old(self)@.skipped.push(path@)
                } else {
                    old(self)@.skipped
                }
            }),
            final(self)@.root == old(self)@.root,
            final(self)@.skip_directory_names == old(self)@.skip_directory_names,
            final(self)@.error_policy == old(self)@.error_policy,
            final(self)@.stopped == old(self)@.stopped,
    {
        if self.stopped {
            return false;
        }
        if !is_dir {
            return false;
        }
        let pc = chars_of(path);
        if under_skipped_exec(&pc, &self.skipped) {
            return false;
        }
        let pcomp = path_components(&pc);
        let rcomp = path_components(&chars_of(self.root.as_str()));
        let is_root = components_prefix(&rcomp, &pcomp) && rcomp.len() == pcomp.len();
        if is_root {
            assert(components(path@) =~= components(self.root@));
            return true;
        }
        if contains_text(&self.skip_directory_names, &chars_of(name)) {
            self.skipped.push(path.to_owned());
            assert(strs(self.skipped@) =~= strs(old(self).skipped@).push(path@));
            return false;
        }
        true
    }

    /// What the walk does after the visitor answered `control` about `error`:
    /// stop ends it successfully, and the walk stays stopped; otherwise
    /// fail-fast ends it with the error and skip-errors goes on. A walk that
    /// was already stopped only finishes.
    pub fn after_error(&mut self, control: VisitControl, error: PathError) -> (r: AfterError)
        ensures
            old(self)@.stopped || control == VisitControl::Stop ==> r is Finish && final(self)@.stopped,
            !old(self)@.stopped && control != VisitControl::Stop && old(self)@.error_policy
                == TraversalErrorPolicy::FailFast ==> (r matches AfterError::Fail(e) && e@ == error@),
            !old(self)@.stopped && control != VisitControl::Stop && old(self)@.error_policy
                != TraversalErrorPolicy::FailFast ==> r is Proceed,
            !old(self)@.stopped && control != VisitControl::Stop ==> final(self)@ == old(self)@,
            final(self)@.root == old(self)@.root,
            final(self)@.skip_directory_names == old(self)@.skip_directory_names,
            final(self)@.error_policy == old(self)@.error_policy,
            final(self)@.skipped == old(self)@.skipped,
    {
        if self.stopped || control == VisitControl::Stop {
            self.stopped = true;
            return AfterError::Finish;
        }
        match self.error_policy {
            TraversalErrorPolicy::FailFast => AfterError::Fail(error),
            TraversalErrorPolicy::SkipErrors => AfterError::Proceed,
        }
    }

    /// Record the visitor's answer about the directory at `path`; returns
    /// whether the walk goes on. Skipping children skips the subtree; stopping
    /// stops the walk for good, and a stopped walk does not go on.
    pub fn after_visit(&mut self, path: &str, control: VisitControl) -> (r: bool)
        ensures
            r == (!old(self)@.stopped && control != VisitControl::Stop),
            final(self)@.stopped == (old(self)@.stopped || control == VisitControl::Stop),
            final(self)@.skipped == if !old(self)@.stopped && control == VisitControl::SkipChildren {
                old(self)@.skipped.push(path@)
            } else {
                old(self)@.skipped
            },
            final(self)@.root == old(self)@.root,
            final(self)@.skip_directory_names == old(self)@.skip_directory_names,
            final(self)@.error_policy == old(self)@.error_policy,
    {
        if self.stopped {
            return false;
        }
        match control {
            VisitControl::Continue => true,
            VisitControl::SkipChildren => {
                self.skipped.push(path.to_owned());
                assert(strs(self.skipped@) =~= strs(old(self).skipped@).push(path@));
                true
            },
            VisitControl::Stop => {
                self.stopped = true;
                false
            },
        }
    }
}

/// Sorting discovered directories keeps exactly the directories found, and
/// (for every mode but [`SortMode::Unsorted`]) no directory comes out before
/// one that sorts strictly before it.
pub proof fn lemma_sort_paths_exact(s: Seq<Seq<char>>, mode: SortMode)
    ensures
        sorted_paths(s, mode).to_multiset() == s.to_multiset(),
        mode != SortMode::Unsorted ==> sorted_by(sorted_paths(s, mode), path_order(mode)),
{
    if mode != SortMode::Unsorted {
        let f = path_order(mode);
        assert forall|a: Seq<char>| !(#[trigger] f(a, a)) by {
            lemma_text_lt_irreflexive(a);
            lemma_text_lt_irreflexive(name_or_empty(a));
        }
        assert forall|a: Seq<char>, b: Seq<char>, c: Seq<char>| #[trigger] f(a, b) && #[trigger] f(b, c) implies f(a, c) by {
            if text_lt(a, b) && text_lt(b, c) {
                lemma_text_lt_transitive(a, b, c);
            }
            if text_lt(name_or_empty(a), name_or_empty(b)) && text_lt(name_or_empty(b), name_or_empty(c)) {
                lemma_text_lt_transitive(name_or_empty(a), name_or_empty(b), name_or_empty(c));
            }
        }
        lemma_sort_by_permutation(s, f);
        lemma_sort_by_sorted(s, f);
    }
}

/// The walk root is inspected whatever its name: skip names, prefixes and
/// globs never apply to it (unless it lies under a skipped tree).
pub proof fn lemma_root_never_skipped_by_rules(
    root: Seq<char>,
    names: Seq<Seq<char>>,
    prefixes: Seq<Seq<char>>,
    globs: Option<Seq<Seq<char>>>,
    follow: bool,
    skipped: Seq<Seq<char>>,
    path: Seq<char>,
    name: Seq<char>,
    is_symlink: bool,
)
    requires
        components(path) == components(root),
        !under_skipped(path, skipped),
    ensures
        screen_spec(root, names, prefixes, globs, follow, skipped, path, name, true, is_symlink) == (true, false),
        visit_screen_spec(root, names, skipped, path, name, true) == (true, false),
{
}

/// Keeping a directory never puts a key into `seen` twice: when the seen keys
/// are distinct, they stay distinct.
pub proof fn lemma_seen_keys_stay_distinct(seen: Seq<Seq<char>>, k: Seq<char>)
    requires
        forall|i: int, j: int| 0 <= i < j < seen.len() ==> seen[i] != seen[j],
    ensures
        ({
            let after = if seen.contains(k) { seen } else { seen.push(k) };
            forall|i: int, j: int| 0 <= i < j < after.len() ==> after[i] != after[j]
        }),
{
    if !seen.contains(k) {
        let after = seen.push(k);
        assert forall|i: int, j: int| 0 <= i < j < after.len() implies after[i] != after[j] by {
            if j == seen.len() {
                assert(after[i] == seen[i]);
                assert(after[j] == k);
            } else {
                assert(after[i] == seen[i] && after[j] == seen[j]);
            }
        }
    }
}

} // verus!
