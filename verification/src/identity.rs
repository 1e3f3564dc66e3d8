//! Path identity keys, deduplication, and display records.
//!
//! An identity key is a comparison key, not proof that two paths refer to the
//! same filesystem object.

use vstd::prelude::*;
use crate::chars::{chars_of, replace_char, replace_char_exec, skip_chars, string_from_chars, chars_eq, clone_chars};
use crate::error::{PathError, PathErrorSpec, text_result, texts_result};
use crate::lexical::has_nul;
use crate::normalize::{normalize, normalize_spec};
use crate::platform::{is_verbatim, simplify_for_display, translate_wsl_path, translate_wsl_spec};
use crate::text::{CaseNormalization, apply_case, collapse_slashes, collapse_slashes_exec, is_sep};

verus! {

/// Options controlling how a path identity key is produced.
#[derive(Debug, Clone, Copy, PartialEq, Eq, Structural)]
pub struct PathIdentityOptions {
    /// Apply lexical normalization before keying.
    pub normalize_lexically: bool,
    /// Normalize path separators to `/` in the key string.
    pub normalize_separators: bool,
    /// Case policy for the key.
    pub case: CaseNormalization,
    /// When true, the canonical (symlink-resolved) form of an existing path is keyed.
    ///
    /// Resolution needs the filesystem; it is performed by the caller, which
    /// hands the canonical form to [`identity_key_from`]. A failed resolution
    /// falls back to the lexical form.
    pub resolve_existing_symlinks: bool,
    /// When true, simplify Windows verbatim prefixes for the key.
    pub strip_windows_verbatim_prefix: bool,
    /// When true and the path looks like `/mnt/<drive>/...`, translate to Windows form first.
    pub translate_wsl_paths: bool,
}

impl Default for PathIdentityOptions {
    fn default() -> (r: Self)
        ensures
            r.normalize_lexically && r.normalize_separators,
            r.case == CaseNormalization::PlatformDefault,
            !r.resolve_existing_symlinks && !r.strip_windows_verbatim_prefix && !r.translate_wsl_paths,
    {
        PathIdentityOptions {
            normalize_lexically: true,
            normalize_separators: true,
            case: CaseNormalization::PlatformDefault,
            resolve_existing_symlinks: false,
            strip_windows_verbatim_prefix: false,
            translate_wsl_paths: false,
        }
    }
}

impl PathIdentityOptions {
    /// Create default options.
    pub fn new() -> (r: Self)
        ensures
            r.normalize_lexically && r.normalize_separators,
            r.case == CaseNormalization::PlatformDefault,
            !r.resolve_existing_symlinks && !r.strip_windows_verbatim_prefix && !r.translate_wsl_paths,
    {
        Self::default()
    }
}

/// The path an identity key starts from: the input, or its WSL translation.
pub open spec fn key_source_spec(path: Seq<char>, o: PathIdentityOptions) -> Result<Seq<char>, PathErrorSpec> {
    if has_nul(path) {
        Err(PathErrorSpec::EmbeddedNul)
    } else if path.len() == 0 {
        Err(PathErrorSpec::EmptyInput)
    } else if o.translate_wsl_paths {
        match translate_wsl_spec(path) {
            Err(e) => Err(e),
            Ok(None) => Ok(path),
            Ok(Some(t)) => Ok(t),
        }
    } else {
        Ok(path)
    }
}

/// Whether a key is a drive root such as `C:/` that keeps its separator.
pub open spec fn drive_root_shape(s: Seq<char>) -> bool {
    s.len() == 3 && s[1] == ':' && (s[0] as u32) < 0x80
}

/// `s` with repeated `/` collapsed, keeping a leading `//`.
pub open spec fn collapse_interior(s: Seq<char>) -> Seq<char> {
    if s.len() >= 2 && s[0] == '/' && s[1] == '/' {
        seq!['/', '/'] + collapse_slashes(s.skip(2))
    } else {
        collapse_slashes(s)
    }
}

/// Trailing separators stripped while more than one character remains and
/// the text is not a drive root.
pub open spec fn strip_trailing_keep(s: Seq<char>) -> Seq<char>
    decreases s.len(),
{
    if s.len() > 1 && is_sep(s.last()) && !drive_root_shape(s) {
        strip_trailing_keep(s.drop_last())
    } else {
        s
    }
}

/// Trailing separators removed, except for root forms (`/`, `//`, `C:/`).
pub open spec fn trim_trailing_keep_root(s: Seq<char>) -> Seq<char> {
    if s == seq!['/', '/'] {
        s
    } else {
        strip_trailing_keep(s)
    }
}

/// `s` without its `.` segments, each removed together with the separator
/// that follows it; `at_start` tells whether `s` begins a segment.
pub open spec fn drop_dots_from(s: Seq<char>, at_start: bool) -> Seq<char>
    decreases s.len(),
{
    if s.len() == 0 {
        s
    } else if at_start && s[0] == '.' && (s.len() == 1 || s[1] == '/') {
        if s.len() == 1 {
            Seq::empty()
        } else {
            drop_dots_from(s.skip(2), true)
        }
    } else {
        seq![s[0]] + drop_dots_from(s.skip(1), s[0] == '/')
    }
}

/// The `/`-separated text `s` with its `.` segments dropped (`a/./b` is
/// `a/b`, `a/.` is `a/`, `/.` is `/`); a text made only of `.` segments is `.`.
pub open spec fn drop_dot_segments(s: Seq<char>) -> Seq<char> {
    let r = drop_dots_from(s, true);
    if r.len() == 0 && s.len() > 0 {
        seq!['.']
    } else {
        r
    }
}

/// The key text made of a (possibly normalized) working path: separators
/// unified to `/` and repeated ones collapsed, `.` segments dropped when the
/// path is normalized lexically, trailing separators trimmed off all but
/// root forms, then the case policy.
pub open spec fn key_text(w: Seq<char>, o: PathIdentityOptions) -> Seq<char> {
    let k = if o.normalize_separators {
        let c = collapse_interior(replace_char(w, '\\', '/'));
        let d = if o.normalize_lexically { drop_dot_segments(c) } else { c };
        trim_trailing_keep_root(d)
    } else {
        w
    };
    apply_case(o.case, k)
}

/// The identity key of a working path (after WSL translation and any symlink resolution).
pub open spec fn key_from_spec(w: Seq<char>, o: PathIdentityOptions) -> Result<Seq<char>, PathErrorSpec> {
    if o.normalize_lexically {
        match normalize_spec(w) {
            Err(e) => Err(e),
            Ok(n) => Ok(key_text(n, o)),
        }
    } else {
        Ok(key_text(w, o))
    }
}

/// The lexical identity key of `path` (no symlink resolution).
pub open spec fn identity_key_spec(path: Seq<char>, o: PathIdentityOptions) -> Result<Seq<char>, PathErrorSpec> {
    match key_source_spec(path, o) {
        Err(e) => Err(e),
        Ok(w) => key_from_spec(w, o),
    }
}

/// The path an identity key starts from: `path` checked for NUL and emptiness,
/// then WSL-translated when the options ask for it. With
/// `resolve_existing_symlinks`, this is the path to canonicalize.
pub fn identity_key_source(path: &str, options: PathIdentityOptions) -> (r: Result<String, PathError>)
    ensures
        text_result(r) == key_source_spec(path@, options),
{
    let p = chars_of(path);
    if crate::lexical::has_nul_exec(&p) {
        return Err(PathError::EmbeddedNul);
    }
    if p.len() == 0 {
        return Err(PathError::EmptyInput);
    }
    if options.translate_wsl_paths {
        match translate_wsl_path(path)? {
            Some(t) => return Ok(t),
            None => {},
        }
    }
    Ok(path.to_owned())
}

fn collapse_interior_exec(s: &Vec<char>) -> (r: Vec<char>)
    ensures
        r@ == collapse_interior(s@),
{
    if s.len() >= 2 && s[0] == '/' && s[1] == '/' {
        let rest = skip_chars(s, 2);
        let tail = collapse_slashes_exec(&rest);
        let mut r: Vec<char> = Vec::new();
        r.push('/');
        r.push('/');
        crate::chars::extend_chars(&mut r, &tail);
        assert(r@ =~= seq!['/', '/'] + tail@);
        r
    } else {
        collapse_slashes_exec(s)
    }
}

fn drop_dot_segments_exec(s: &Vec<char>) -> (r: Vec<char>)
    ensures
        r@ == drop_dot_segments(s@),
{
    let mut out: Vec<char> = Vec::new();
    let mut i: usize = 0;
    let mut at_start: bool = true;
    assert(s@.skip(0) =~= s@);
    while i < s.len()
        invariant
            i <= s.len(),
            drop_dots_from(s@, true) == out@ + drop_dots_from(s@.skip(i as int), at_start),
        decreases s.len() - i,
    {
        let ghost rest = s@.skip(i as int);
        if at_start && s[i] == '.' && (i + 1 == s.len() || s[i + 1] == '/') {
            if i + 1 == s.len() {
                assert(drop_dots_from(rest, at_start) =~= Seq::<char>::empty());
                assert(s@.skip(i + 1) =~= Seq::<char>::empty());
                i = i + 1;
                at_start = true;
            } else {
                assert(rest.skip(2) =~= s@.skip(i + 2));
                i = i + 2;
                at_start = true;
            }
        } else {
            let c = s[i];
            assert(rest.skip(1) =~= s@.skip(i + 1));
            assert(out@ + drop_dots_from(rest, at_start) =~= out@.push(c) + drop_dots_from(s@.skip(i + 1), c == '/'));
            out.push(c);
            at_start = c == '/';
            i = i + 1;
        }
    }
    assert(s@.skip(i as int) =~= Seq::<char>::empty());
    assert(out@ + Seq::<char>::empty() =~= out@);
    if out.len() == 0 && s.len() > 0 {
        let mut d: Vec<char> = Vec::new();
        d.push('.');
        assert(d@ =~= seq!['.']);
        d
    } else {
        out
    }
}

fn trim_trailing_keep_root_exec(s: &Vec<char>) -> (r: Vec<char>)
    ensures
        r@ == trim_trailing_keep_root(s@),
{
    if s.len() == 2 && s[0] == '/' && s[1] == '/' {
        assert(s@ =~= seq!['/', '/']);
        return clone_chars(s);
    }
    assert(s@ != seq!['/', '/']) by {
        if s@ == seq!['/', '/'] {
            assert(s@.len() == 2 && s@[0] == '/' && s@[1] == '/');
        }
    }
    let mut end: usize = s.len();
    assert(s@.take(end as int) =~= s@);
    while end > 1 && (s[end - 1] == '/' || s[end - 1] == '\\')
        && !(end == 3 && s[1] == ':' && (s[0] as u32) < 0x80)
        invariant
            end <= s.len(),
            strip_trailing_keep(s@) == strip_trailing_keep(s@.take(end as int)),
        decreases end,
    {
        assert(s@.take(end as int).drop_last() =~= s@.take(end - 1));
        end = end - 1;
    }
    crate::chars::sub_chars(s, 0, end)
}

/// The key of a working path: Windows verbatim prefixes simplified when asked,
/// lexical normalization when asked, separators unified when asked, then the case policy.
pub fn identity_key_from(working: &str, options: PathIdentityOptions) -> (r: Result<String, PathError>)
    ensures
        text_result(r) == key_from_spec(working@, options),
{
    let simplified = if options.strip_windows_verbatim_prefix && is_verbatim(working) {
        simplify_for_display(working)
    } else {
        working.to_owned()
    };
    let w = if options.normalize_lexically {
        normalize(simplified.as_str())?
    } else {
        simplified
    };
    let wc = chars_of(w.as_str());
    let k = if options.normalize_separators {
        let a = replace_char_exec(&wc, '\\', '/');
        let b = collapse_interior_exec(&a);
        let d = if options.normalize_lexically { drop_dot_segments_exec(&b) } else { b };
        trim_trailing_keep_root_exec(&d)
    } else {
        wc
    };
    let ks = string_from_chars(k);
    Ok(options.case.apply(ks.as_str()))
}

/// Produce a deterministic lexical path identity / comparison key.
///
/// The key is unsuitable for direct filesystem access. This function never
/// touches the filesystem, so it keys the lexical form also when
/// `resolve_existing_symlinks` is set — what a failed resolution falls back to.
/// [`path_identity_key_resolved`] keys a resolved form.
pub fn path_identity_key(path: &str, options: PathIdentityOptions) -> (r: Result<String, PathError>)
    ensures
        text_result(r) == identity_key_spec(path@, options),
{
    let source = identity_key_source(path, options)?;
    identity_key_from(source.as_str(), options)
}

/// The identity key of `path` when the canonical (symlink-resolved) form of
/// its key source is `canonical` (`None` when the path does not exist or
/// cannot be resolved): with `resolve_existing_symlinks` the canonical form
/// is keyed, else the lexical form.
pub open spec fn resolved_key_spec(
    path: Seq<char>,
    o: PathIdentityOptions,
    canonical: Option<Seq<char>>,
) -> Result<Seq<char>, PathErrorSpec> {
    match key_source_spec(path, o) {
        Err(e) => Err(e),
        Ok(w) => key_from_spec(
            if o.resolve_existing_symlinks {
                match canonical {
                    Some(c) => c,
                    None => w,
                }
            } else {
                w
            },
            o,
        ),
    }
}

/// The view of an optional text.
pub open spec fn opt_view(c: Option<String>) -> Option<Seq<char>> {
    match c {
        Some(s) => Some(s@),
        None => None,
    }
}

/// The identity key of `path`, given the canonical form of its key source
/// ([`identity_key_source`]) when the path exists and resolves; the caller
/// canonicalizes, since that needs the filesystem.
pub fn path_identity_key_resolved(path: &str, options: PathIdentityOptions, canonical: Option<String>) -> (r: Result<
    String,
    PathError,
>)
    ensures
        text_result(r) == resolved_key_spec(path@, options, opt_view(canonical)),
{
    let source = identity_key_source(path, options)?;
    let working = if options.resolve_existing_symlinks {
        match canonical {
            Some(c) => c,
            None => source,
        }
    } else {
        source
    };
    identity_key_from(working.as_str(), options)
}

/// The canonical form given for the path at index `i`, if any.
pub open spec fn canonical_at(canonical: Seq<Option<Seq<char>>>, i: int) -> Option<Seq<char>> {
    if 0 <= i < canonical.len() {
        canonical[i]
    } else {
        None
    }
}

/// First-occurrence deduplication by identity key: the kept paths and their
/// keys. `canonical[i]` is the canonical form given for `paths[i]`.
pub open spec fn dedup_state(
    paths: Seq<Seq<char>>,
    canonical: Seq<Option<Seq<char>>>,
    o: PathIdentityOptions,
) -> Result<(Seq<Seq<char>>, Seq<Seq<char>>), PathErrorSpec>
    decreases paths.len(),
{
    if paths.len() == 0 {
        Ok((Seq::empty(), Seq::empty()))
    } else {
        match dedup_state(paths.drop_last(), canonical, o) {
            Err(e) => Err(e),
            Ok((out, seen)) => match resolved_key_spec(paths.last(), o, canonical_at(canonical, paths.len() - 1)) {
                Err(e) => Err(e),
                Ok(k) => if seen.contains(k) {
                    Ok((out, seen))
                } else {
                    Ok((out.push(paths.last()), seen.push(k)))
                },
            },
        }
    }
}

/// What [`deduplicate_paths`] returns.
pub open spec fn dedup_spec(
    paths: Seq<Seq<char>>,
    canonical: Seq<Option<Seq<char>>>,
    o: PathIdentityOptions,
) -> Result<Seq<Seq<char>>, PathErrorSpec> {
    match dedup_state(paths, canonical, o) {
        Err(e) => Err(e),
        Ok((out, _)) => Ok(out),
    }
}

fn contains_key(seen: &Vec<Vec<char>>, k: &Vec<char>) -> (r: bool)
    ensures
        r == crate::chars::views(seen@).contains(k@),
{
    let mut i: usize = 0;
    while i < seen.len()
        invariant
            i <= seen.len(),
            forall|j: int| 0 <= j < i ==> crate::chars::views(seen@)[j] != k@,
        decreases seen.len() - i,
    {
        if chars_eq(&seen[i], k) {
            assert(crate::chars::views(seen@)[i as int] == k@);
            return true;
        }
        i = i + 1;
    }
    false
}

/// Deduplicate paths using identity keys; keep the first occurrence of each
/// key, in order. `canonical[i]` is the canonical form of the key source of
/// `paths[i]` when it exists and resolves (used only with
/// `resolve_existing_symlinks`; a missing entry counts as `None`).
///
/// Paths that fail key generation produce an error (fail-fast).
pub fn deduplicate_paths(paths: Vec<String>, canonical: Vec<Option<String>>, options: PathIdentityOptions) -> (r: Result<
    Vec<String>,
    PathError,
>)
    ensures
        texts_result(r) == dedup_spec(
            paths@.map_values(|s: String| s@),
            canonical@.map_values(|c: Option<String>| opt_view(c)),
            options,
        ),
{
    let ghost pv = paths@.map_values(|s: String| s@);
    let ghost cv = canonical@.map_values(|c: Option<String>| opt_view(c));
    let mut seen: Vec<Vec<char>> = Vec::new();
    let mut out: Vec<String> = Vec::new();
    let mut i: usize = 0;
    assert(pv.take(0) =~= Seq::<Seq<char>>::empty());
    assert(out@.map_values(|s: String| s@) =~= Seq::<Seq<char>>::empty());
    assert(crate::chars::views(seen@) =~= Seq::<Seq<char>>::empty());
    while i < paths.len()
        invariant
            i <= paths.len(),
            pv == paths@.map_values(|s: String| s@),
            cv == canonical@.map_values(|c: Option<String>| opt_view(c)),
            dedup_state(pv.take(i as int), cv, options) == Ok::<(Seq<Seq<char>>, Seq<Seq<char>>), PathErrorSpec>((out@.map_values(|s: String| s@), crate::chars::views(seen@))),
        decreases paths.len() - i,
    {
        assert(pv.take(i + 1).drop_last() =~= pv.take(i as int));
        assert(pv.take(i + 1).last() == paths@[i as int]@);
        let c = if i < canonical.len() {
            match &canonical[i] {
                Some(t) => Some(t.clone()),
                None => None,
            }
        } else {
            None
        };
        assert(opt_view(c) == canonical_at(cv, i as int));
        let key = path_identity_key_resolved(paths[i].as_str(), options, c);
        match key {
            Err(e) => {
                proof {
                    lemma_dedup_err_extends(pv, cv, options, i as int + 1);
                    assert(pv.take(pv.len() as int) =~= pv);
                }
                return Err(e);
            },
            Ok(k) => {
                let kc = chars_of(k.as_str());
                if !contains_key(&seen, &kc) {
                    let p = paths[i].clone();
                    assert(p@ == paths@[i as int]@);
                    let ghost old_out = out@;
                    out.push(p);
                    assert(out@.map_values(|s: String| s@) =~= old_out.map_values(|s: String| s@).push(paths@[i as int]@));
                    proof {
                        crate::lexical::lemma_views_push(seen@, kc);
                    }
                    seen.push(kc);
                }
            },
        }
        i = i + 1;
    }
    assert(pv.take(paths.len() as int) =~= pv);
    Ok(out)
}

proof fn lemma_dedup_err_extends(paths: Seq<Seq<char>>, canonical: Seq<Option<Seq<char>>>, o: PathIdentityOptions, k: int)
    requires
        0 <= k <= paths.len(),
        dedup_state(paths.take(k), canonical, o) is Err,
    ensures
        dedup_state(paths.take(paths.len() as int), canonical, o) == dedup_state(paths.take(k), canonical, o),
    decreases paths.len() - k,
{
    if k < paths.len() {
        assert(paths.take(k + 1).drop_last() =~= paths.take(k));
        lemma_dedup_err_extends(paths, canonical, o, k + 1);
    }
}

/// Deduplication keeps exactly one path per identity key: the kept paths are
/// input paths with pairwise different keys, and the key of every input path
/// is the key of a kept path.
pub proof fn lemma_dedup_one_per_key(paths: Seq<Seq<char>>, canonical: Seq<Option<Seq<char>>>, o: PathIdentityOptions)
    requires
        dedup_state(paths, canonical, o) is Ok,
    ensures
        ({
            let (out, seen) = dedup_state(paths, canonical, o)->Ok_0;
            &&& out.len() == seen.len()
            &&& forall|i: int| 0 <= i < out.len() ==> exists|j: int| 0 <= j < paths.len() && #[trigger] out[i] == paths[j]
                && resolved_key_spec(paths[j], o, canonical_at(canonical, j)) == Ok::<Seq<char>, PathErrorSpec>(seen[i])
            &&& seen.no_duplicates()
            &&& forall|i: int| 0 <= i < paths.len() ==> (resolved_key_spec(#[trigger] paths[i], o, canonical_at(canonical, i)) matches Ok(k) && seen.contains(k))
        }),
    decreases paths.len(),
{
    if paths.len() > 0 {
        let d = paths.drop_last();
        lemma_dedup_one_per_key(d, canonical, o);
        let (out0, seen0) = dedup_state(d, canonical, o)->Ok_0;
        let last = paths.last();
        let n = paths.len() - 1;
        let k = resolved_key_spec(last, o, canonical_at(canonical, n))->Ok_0;
        let (out, seen) = dedup_state(paths, canonical, o)->Ok_0;
        assert forall|i: int| 0 <= i < out0.len() implies exists|j: int| 0 <= j < paths.len() && #[trigger] out0[i] == paths[j]
            && resolved_key_spec(paths[j], o, canonical_at(canonical, j)) == Ok::<Seq<char>, PathErrorSpec>(seen0[i]) by {
            let j = choose|j: int| 0 <= j < d.len() && #[trigger] out0[i] == d[j]
                && resolved_key_spec(d[j], o, canonical_at(canonical, j)) == Ok::<Seq<char>, PathErrorSpec>(seen0[i]);
            assert(d[j] == paths[j]);
        }
        if seen0.contains(k) {
            assert forall|i: int| 0 <= i < paths.len() implies (resolved_key_spec(#[trigger] paths[i], o, canonical_at(canonical, i)) matches Ok(kk) && seen.contains(kk)) by {
                if i < d.len() {
                    assert(paths[i] == d[i]);
                }
            }
        } else {
            assert forall|i: int| 0 <= i < out.len() implies exists|j: int| 0 <= j < paths.len() && #[trigger] out[i] == paths[j]
                && resolved_key_spec(paths[j], o, canonical_at(canonical, j)) == Ok::<Seq<char>, PathErrorSpec>(seen[i]) by {
                if i < out0.len() {
                    assert(out[i] == out0[i]);
                    assert(seen[i] == seen0[i]);
                } else {
                    assert(out[i] == paths[n]);
                    assert(seen[i] == k);
                }
            }
            assert forall|a: int, b: int| 0 <= a < seen.len() && 0 <= b < seen.len() && a != b implies seen[a] != seen[b] by {
                if a < seen0.len() && b < seen0.len() {
                } else if a < seen0.len() {
                    assert(seen0.contains(seen0[a]));
                } else if b < seen0.len() {
                    assert(seen0.contains(seen0[b]));
                }
            }
            assert forall|i: int| 0 <= i < paths.len() implies (resolved_key_spec(#[trigger] paths[i], o, canonical_at(canonical, i)) matches Ok(kk) && seen.contains(kk)) by {
                if i < d.len() {
                    assert(paths[i] == d[i]);
                    let kk = resolved_key_spec(d[i], o, canonical_at(canonical, i))->Ok_0;
                    let j = choose|j: int| 0 <= j < seen0.len() && seen0[j] == kk;
                    assert(seen[j] == kk);
                } else {
                    assert(seen[seen.len() - 1] == k);
                }
            }
        }
    }
}

/// User-facing display string for a path (not an identity key).
pub fn path_display_string(path: &str) -> (r: String)
    ensures
        r@ == path@,
{
    path.to_owned()
}

/// A path together with display text and an optional identity key.
///
/// The identity key must never be used as a filesystem path.
#[derive(Debug)]
pub struct PathRecord {
    /// Path suitable for filesystem access.
    pub path: String,
    /// User-facing display string (not an identity key).
    pub display: String,
    /// Optional comparison key; never use for filesystem I/O.
    pub identity_key: Option<String>,
}

impl PathRecord {
    /// Build a record from a path, optionally computing an identity key;
    /// `canonical` is the canonical form of the key source when the path
    /// exists and resolves (used only with `resolve_existing_symlinks`).
    pub fn from_path(path: &str, identity: Option<PathIdentityOptions>, canonical: Option<String>) -> (r: Result<
        Self,
        PathError,
    >)
        ensures
            match identity {
                None => r matches Ok(rec) && rec.path@ == path@ && rec.display@ == path@ && rec.identity_key is None,
                Some(o) => match resolved_key_spec(path@, o, opt_view(canonical)) {
                    Err(e) => r matches Err(err) && err@ == e,
                    Ok(k) => r matches Ok(rec) && rec.path@ == path@ && rec.display@ == path@
                        && (rec.identity_key matches Some(key) && key@ == k),
                },
            },
    {
        let display = path_display_string(path);
        let identity_key = match identity {
            Some(opts) => Some(path_identity_key_resolved(path, opts, canonical)?),
            None => None,
        };
        Ok(PathRecord { path: path.to_owned(), display, identity_key })
    }
}

/// Whether `s` has no two separators `/` in a row.
pub open spec fn no_double_slash(s: Seq<char>) -> bool {
    forall|i: int| 0 <= i && i + 1 < s.len() ==> !(s[i] == '/' && #[trigger] s[i + 1] == '/')
}

/// Whether `s` has no `.` segment (a `.` alone between separators or ends).
pub open spec fn no_dot_segment(s: Seq<char>) -> bool {
    forall|i: int|
        0 <= i < s.len() && #[trigger] s[i] == '.' && (i == 0 || s[i - 1] == '/') ==> i + 1 < s.len() && s[i + 1]
            != '/'
}

/// Text that is already in identity-key form: normalization leaves it as it
/// is, it uses only `/` as separator, and it has no repeated or trailing
/// separator (but for `/` itself) and no `.` segment. Example: `/usr/bin/Tool`.
pub open spec fn key_form(s: Seq<char>) -> bool {
    &&& normalize_spec(s) == Ok::<Seq<char>, PathErrorSpec>(s)
    &&& !s.contains('\\')
    &&& no_double_slash(s)
    &&& no_dot_segment(s)
    &&& (s.len() <= 1 || s.last() != '/')
}

proof fn lemma_collapse_slashes_identity(s: Seq<char>)
    requires
        no_double_slash(s),
    ensures
        collapse_slashes(s) == s,
    decreases s.len(),
{
    if s.len() > 0 {
        let d = s.drop_last();
        assert(no_double_slash(d)) by {
            assert forall|i: int| 0 <= i && i + 1 < d.len() implies !(d[i] == '/' && #[trigger] d[i + 1] == '/') by {
                assert(d[i] == s[i] && d[i + 1] == s[i + 1]);
            }
        }
        lemma_collapse_slashes_identity(d);
        if s.last() == '/' && d.len() > 0 {
            let i: int = d.len() - 1;
            assert(!(s[i] == '/' && s[i + 1] == '/'));
        }
        assert(d.push(s.last()) =~= s);
    }
}

proof fn lemma_drop_dots_identity(s: Seq<char>, st: bool)
    requires
        forall|i: int|
            0 <= i < s.len() && #[trigger] s[i] == '.' && (if i == 0 { st } else { s[i - 1] == '/' }) ==> i + 1
                < s.len() && s[i + 1] != '/',
    ensures
        drop_dots_from(s, st) == s,
    decreases s.len(),
{
    if s.len() > 0 {
        let t = s.skip(1);
        let st2 = s[0] == '/';
        assert forall|i: int|
            0 <= i < t.len() && #[trigger] t[i] == '.' && (if i == 0 { st2 } else { t[i - 1] == '/' }) implies i + 1
                < t.len() && t[i + 1] != '/' by {
            assert(t[i] == s[i + 1]);
            assert(s[i + 1] == '.');
            if i > 0 {
                assert(t[i - 1] == s[i]);
            }
            if i + 1 < t.len() {
                assert(t[i + 1] == s[i + 2]);
            }
        }
        if st && s[0] == '.' {
            assert(1 < s.len() && s[1] != '/');
        }
        lemma_drop_dots_identity(t, st2);
        assert(seq![s[0]] + t =~= s);
    }
}

/// Text in identity-key form is its own key, up to the case policy: with
/// lexical normalization and separator unification (and no WSL translation),
/// its key is the text itself with the case policy applied.
pub proof fn lemma_key_form_is_own_key(s: Seq<char>, o: PathIdentityOptions)
    requires
        key_form(s),
        o.normalize_lexically,
        o.normalize_separators,
        !o.translate_wsl_paths,
    ensures
        identity_key_spec(s, o) == Ok::<Seq<char>, PathErrorSpec>(apply_case(o.case, s)),
{
    assert(!has_nul(s) && s.len() > 0);
    assert(key_source_spec(s, o) == Ok::<Seq<char>, PathErrorSpec>(s));
    assert(replace_char(s, '\\', '/') =~= s) by {
        assert forall|i: int| 0 <= i < s.len() implies s[i] != '\\' by {
            if s[i] == '\\' {
                assert(s.contains('\\'));
            }
        }
    }
    lemma_collapse_slashes_identity(s);
    if s.len() >= 2 && s[0] == '/' {
        let i: int = 0;
        assert(!(s[i] == '/' && s[i + 1] == '/'));
    }
    assert(collapse_interior(s) == s);
    lemma_drop_dots_identity(s, true);
    assert(drop_dot_segments(s) == s);
    assert(s != seq!['/', '/']) by {
        if s == seq!['/', '/'] {
            let i: int = 0;
            assert(!(s[i] == '/' && s[i + 1] == '/'));
        }
    }
    if s.len() > 1 {
        assert(s.last() != '\\') by {
            if s.last() == '\\' {
                assert(s.contains(s[s.len() - 1]));
            }
        }
    }
    assert(strip_trailing_keep(s) == s);
    assert(trim_trailing_keep_root(s) == s);
    assert(key_text(s, o) == apply_case(o.case, s));
}

} // verus!
