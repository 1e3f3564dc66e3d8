//! Entry metadata types shared by listing and search, and their deterministic sort.

use vstd::prelude::*;
use crate::chars::{chars_of, clone_chars, views};
use crate::lexical::{body, parent_item, path_body, is_parent_exec};

verus! {

/// Classification of a filesystem entry.
#[derive(Debug, Clone, Copy, PartialEq, Eq, Hash, Structural)]
#[non_exhaustive]
pub enum EntryKind {
    /// Regular file.
    File,
    /// Directory.
    Directory,
    /// Symbolic link (when not followed).
    Symlink,
    /// Other (socket, fifo, device, unknown).
    Other,
}

/// A discovered filesystem entry.
///
/// Times are nanoseconds since the Unix epoch. Metadata fields are
/// best-effort and may be `None`.
#[derive(Debug, PartialEq, Eq)]
pub struct FileEntry {
    /// Absolute or walk-produced path of the entry.
    pub path: String,
    /// Path relative to the walk root, when known.
    pub relative_path: Option<String>,
    /// Entry kind classification.
    pub kind: EntryKind,
    /// File size in bytes, when available.
    pub size: Option<u64>,
    /// Last modification time, when available.
    pub modified: Option<u64>,
    /// Read-only flag, when available.
    pub readonly: Option<bool>,
}

impl Clone for FileEntry {
    fn clone(&self) -> (r: Self)
        ensures
            r == *self,
    {
        let relative_path = match &self.relative_path {
            Some(p) => Some(p.clone()),
            None => None,
        };
        FileEntry {
            path: self.path.clone(),
            relative_path,
            kind: self.kind,
            size: self.size,
            modified: self.modified,
            readonly: self.readonly,
        }
    }
}

impl FileEntry {
    /// Create a minimal entry with the given path and kind.
    pub fn new(path: String, kind: EntryKind) -> (r: Self)
        ensures
            r.path@ == path@,
            r.kind == kind,
            r.relative_path is None,
            r.size is None,
            r.modified is None,
            r.readonly is None,
    {
        FileEntry { path, relative_path: None, kind, size: None, modified: None, readonly: None }
    }
}

/// Deterministic sort mode for listing and search results.
#[derive(Debug, Clone, Copy, PartialEq, Eq, Hash, Structural)]
#[non_exhaustive]
pub enum SortMode {
    /// Do not sort (walk order).
    Unsorted,
    /// Sort by full path.
    Path,
    /// Sort by file name, then by full path.
    Name,
    /// Directories first, then files, symlinks and others, each by path.
    DirsFirst,
}

impl Default for SortMode {
    fn default() -> (r: Self)
        ensures
            r == SortMode::Path,
    {
        SortMode::Path
    }
}

/// How to handle I/O errors during traversal.
#[derive(Debug, Clone, Copy, PartialEq, Eq, Hash, Structural)]
#[non_exhaustive]
pub enum TraversalErrorPolicy {
    /// Abort on the first error.
    FailFast,
    /// Skip entries that produce errors and continue.
    SkipErrors,
}

impl Default for TraversalErrorPolicy {
    fn default() -> (r: Self)
        ensures
            r == TraversalErrorPolicy::FailFast,
    {
        TraversalErrorPolicy::FailFast
    }
}

/// Strict lexicographic order of texts by character code, as `str` orders them.
pub open spec fn text_lt(a: Seq<char>, b: Seq<char>) -> bool
    decreases a.len(),
{
    if a.len() == 0 {
        b.len() > 0
    } else if b.len() == 0 {
        false
    } else if a[0] != b[0] {
        (a[0] as u32) < (b[0] as u32)
    } else {
        text_lt(a.drop_first(), b.drop_first())
    }
}

/// Whether `a` sorts strictly before `b`.
pub fn text_lt_exec(a: &Vec<char>, b: &Vec<char>) -> (r: bool)
    ensures
        r == text_lt(a@, b@),
{
    let mut i: usize = 0;
    assert(a@.skip(0) =~= a@ && b@.skip(0) =~= b@);
    while i < a.len() && i < b.len() && a[i] == b[i]
        invariant
            i <= a.len(),
            i <= b.len(),
            text_lt(a@, b@) == text_lt(a@.skip(i as int), b@.skip(i as int)),
        decreases a.len() - i,
    {
        assert(a@.skip(i as int).drop_first() =~= a@.skip(i + 1));
        assert(b@.skip(i as int).drop_first() =~= b@.skip(i + 1));
        assert(a@.skip(i as int)[0] == a@[i as int] && b@.skip(i as int)[0] == b@[i as int]);
        i = i + 1;
    }
    if i == a.len() {
        return i < b.len();
    }
    if i == b.len() {
        return false;
    }
    assert(a@.skip(i as int)[0] == a@[i as int] && b@.skip(i as int)[0] == b@[i as int]);
    (a[i] as u32) < (b[i] as u32)
}

/// The file name of a path: its last component when that is a name
/// (not the root, not `.`, not `..`).
pub open spec fn file_name(s: Seq<char>) -> Option<Seq<char>> {
    let b = body(s);
    if b.len() > 0 && b.last() != parent_item() {
        Some(b.last())
    } else {
        None
    }
}

/// The file name of `s`, or the empty text when it has none.
pub open spec fn name_or_empty(s: Seq<char>) -> Seq<char> {
    match file_name(s) {
        Some(n) => n,
        None => Seq::empty(),
    }
}

/// The file name of a path, when it has one.
pub fn file_name_exec(s: &Vec<char>) -> (r: Option<Vec<char>>)
    ensures
        match file_name(s@) {
            Some(n) => r matches Some(v) && v@ == n,
            None => r is None,
        },
{
    let items = path_body(s);
    if items.len() == 0 {
        return None;
    }
    let last = clone_chars(&items[items.len() - 1]);
    assert(views(items@).last() == items@[items.len() - 1]@);
    if is_parent_exec(&last) {
        return None;
    }
    Some(last)
}

fn name_or_empty_exec(s: &Vec<char>) -> (r: Vec<char>)
    ensures
        r@ == name_or_empty(s@),
{
    match file_name_exec(s) {
        Some(n) => n,
        None => Vec::new(),
    }
}

/// The rank of a kind when directories come first.
pub open spec fn kind_rank(kind: EntryKind) -> u8 {
    match kind {
        EntryKind::Directory => 0,
        EntryKind::File => 1,
        EntryKind::Symlink => 2,
        EntryKind::Other => 3,
    }
}

fn kind_rank_exec(kind: EntryKind) -> (r: u8)
    ensures
        r == kind_rank(kind),
{
    match kind {
        EntryKind::Directory => 0,
        EntryKind::File => 1,
        EntryKind::Symlink => 2,
        EntryKind::Other => 3,
    }
}

/// Whether the path `a` sorts strictly before the path `b` in `mode`, for
/// entries of kinds `ka` and `kb`.
pub open spec fn path_before(a: Seq<char>, ka: EntryKind, b: Seq<char>, kb: EntryKind, mode: SortMode) -> bool {
    match mode {
        SortMode::Unsorted => false,
        SortMode::Path => text_lt(a, b),
        SortMode::Name => text_lt(name_or_empty(a), name_or_empty(b)) || (name_or_empty(a) == name_or_empty(b)
            && text_lt(a, b)),
        SortMode::DirsFirst => kind_rank(ka) < kind_rank(kb) || (kind_rank(ka) == kind_rank(kb) && text_lt(a, b)),
    }
}

/// Whether entry `a` sorts strictly before entry `b` in `mode`.
pub open spec fn entry_before(a: FileEntry, b: FileEntry, mode: SortMode) -> bool {
    path_before(a.path@, a.kind, b.path@, b.kind, mode)
}

/// Whether the path `a` sorts strictly before the path `b` (see [`path_before`]).
pub fn path_before_exec(a: &Vec<char>, ka: EntryKind, b: &Vec<char>, kb: EntryKind, mode: SortMode) -> (r: bool)
    ensures
        r == path_before(a@, ka, b@, kb, mode),
{
    match mode {
        SortMode::Unsorted => false,
        SortMode::Path => text_lt_exec(a, b),
        SortMode::Name => {
            let an = name_or_empty_exec(a);
            let bn = name_or_empty_exec(b);
            if text_lt_exec(&an, &bn) {
                return true;
            }
            crate::chars::chars_eq(&an, &bn) && text_lt_exec(a, b)
        },
        SortMode::DirsFirst => {
            let ra = kind_rank_exec(ka);
            let rb = kind_rank_exec(kb);
            ra < rb || (ra == rb && text_lt_exec(a, b))
        },
    }
}

/// `x` put into `s` before the first element it sorts strictly before
/// (after every element that does not sort after it).
pub open spec fn insert_by<T>(s: Seq<T>, x: T, before: spec_fn(T, T) -> bool) -> Seq<T>
    decreases s.len(),
{
    if s.len() == 0 {
        seq![x]
    } else if before(x, s[0]) {
        seq![x] + s
    } else {
        seq![s[0]] + insert_by(s.drop_first(), x, before)
    }
}

/// Stable insertion sort of `s`.
pub open spec fn sort_by_spec<T>(s: Seq<T>, before: spec_fn(T, T) -> bool) -> Seq<T>
    decreases s.len(),
{
    if s.len() == 0 {
        s
    } else {
        insert_by(sort_by_spec(s.drop_last(), before), s.last(), before)
    }
}

/// The order of entries in `mode`.
pub open spec fn entry_order(mode: SortMode) -> spec_fn(FileEntry, FileEntry) -> bool {
    |a: FileEntry, b: FileEntry| entry_before(a, b, mode)
}

/// The entries as [`sort_entries`] leaves them: unchanged for [`SortMode::Unsorted`],
/// otherwise stably sorted by the mode's order.
pub open spec fn sorted_entries(s: Seq<FileEntry>, mode: SortMode) -> Seq<FileEntry> {
    if mode == SortMode::Unsorted {
        s
    } else {
        sort_by_spec(s, entry_order(mode))
    }
}

proof fn lemma_insert_at<T>(s: Seq<T>, x: T, before: spec_fn(T, T) -> bool, p: int)
    requires
        0 <= p <= s.len(),
        forall|j: int| 0 <= j < p ==> !before(x, #[trigger] s[j]),
        p < s.len() ==> before(x, s[p]),
    ensures
        insert_by(s, x, before) == s.insert(p, x),
    decreases s.len(),
{
    if s.len() == 0 {
        assert(s.insert(p, x) =~= seq![x]);
    } else if p == 0 {
        assert(s.insert(0, x) =~= seq![x] + s);
    } else {
        let t = s.drop_first();
        assert forall|j: int| 0 <= j < p - 1 implies !before(x, #[trigger] t[j]) by {
            assert(t[j] == s[j + 1]);
        }
        if p - 1 < t.len() {
            assert(t[p - 1] == s[p]);
        }
        assert(!before(x, s[0]));
        lemma_insert_at(t, x, before, p - 1);
        assert(seq![s[0]] + t.insert(p - 1, x) =~= s.insert(p, x));
    }
}

/// Apply sorting to a list of entries according to `mode`.
///
/// [`SortMode::Path`] orders by the full path text; [`SortMode::Name`] by file
/// name, then path; [`SortMode::DirsFirst`] by kind (directories, files,
/// symlinks, others), then path. Sorting is stable.
pub fn sort_entries(entries: &mut Vec<FileEntry>, mode: SortMode)
    ensures
        final(entries)@ == sorted_entries(old(entries)@, mode),
{
    if mode == SortMode::Unsorted {
        return;
    }
    let ghost orig = entries@;
    let mut src: Vec<FileEntry> = Vec::new();
    std::mem::swap(&mut src, entries);
    let mut out: Vec<FileEntry> = Vec::new();
    let ghost k: int = 0;
    assert(orig.take(0) =~= Seq::<FileEntry>::empty());
    assert(orig.skip(0) =~= orig);
    while src.len() > 0
        invariant
            mode != SortMode::Unsorted,
            0 <= k <= orig.len(),
            src@ == orig.skip(k),
            out@ == sort_by_spec(orig.take(k), entry_order(mode)),
        decreases src.len(),
    {
        let x = src.remove(0);
        assert(x == orig[k]);
        let xp = chars_of(x.path.as_str());
        let mut pos: usize = 0;
        while pos < out.len()
            invariant
                pos <= out.len(),
                xp@ == x.path@,
                forall|j: int| 0 <= j < pos ==> !entry_before(x, #[trigger] out@[j], mode),
            ensures
                pos <= out.len(),
                forall|j: int| 0 <= j < pos ==> !entry_before(x, #[trigger] out@[j], mode),
                pos < out.len() ==> entry_before(x, out@[pos as int], mode),
            decreases out.len() - pos,
        {
            let yp = chars_of(out[pos].path.as_str());
            if path_before_exec(&xp, x.kind, &yp, out[pos].kind, mode) {
                break;
            }
            pos = pos + 1;
        }
        proof {
            let f = entry_order(mode);
            assert forall|j: int| 0 <= j < pos implies !f(x, #[trigger] out@[j]) by {
                assert(!entry_before(x, out@[j], mode));
            }
            lemma_insert_at(out@, x, f, pos as int);
            assert(orig.take(k + 1).drop_last() =~= orig.take(k));
            assert(orig.take(k + 1).last() == x);
            assert(orig.skip(k).drop_first() =~= orig.skip(k + 1));
        }
        out.insert(pos, x);
        proof {
            k = k + 1;
        }
    }
    assert(orig.take(k) =~= orig);
    *entries = out;
}

/// Whether `before` is a strict order: irreflexive and transitive.
pub open spec fn strict_order<T>(before: spec_fn(T, T) -> bool) -> bool {
    &&& forall|a: T| !(#[trigger] before(a, a))
    &&& forall|a: T, b: T, c: T| #[trigger] before(a, b) && #[trigger] before(b, c) ==> before(a, c)
}

/// Whether no element of `s` sorts strictly before an earlier one.
pub open spec fn sorted_by<T>(s: Seq<T>, before: spec_fn(T, T) -> bool) -> bool {
    forall|i: int, j: int| 0 <= i < j < s.len() ==> !before(#[trigger] s[j], #[trigger] s[i])
}

proof fn lemma_insert_by_is_insert<T>(s: Seq<T>, x: T, before: spec_fn(T, T) -> bool) -> (p: int)
    ensures
        0 <= p <= s.len(),
        insert_by(s, x, before) == s.insert(p, x),
        forall|j: int| 0 <= j < p ==> !before(x, #[trigger] s[j]),
        p < s.len() ==> before(x, s[p]),
    decreases s.len(),
{
    if s.len() == 0 {
        assert(s.insert(0, x) =~= seq![x]);
        0
    } else if before(x, s[0]) {
        assert(s.insert(0, x) =~= seq![x] + s);
        0
    } else {
        let t = s.drop_first();
        let q = lemma_insert_by_is_insert(t, x, before);
        assert(seq![s[0]] + t.insert(q, x) =~= s.insert(q + 1, x));
        assert forall|j: int| 0 <= j < q + 1 implies !before(x, #[trigger] s[j]) by {
            if j > 0 {
                assert(s[j] == t[j - 1]);
            }
        }
        if q + 1 < s.len() {
            assert(s[q + 1] == t[q]);
        }
        q + 1
    }
}

/// Sorting keeps exactly the elements it was given.
pub proof fn lemma_sort_by_permutation<T>(s: Seq<T>, before: spec_fn(T, T) -> bool)
    ensures
        sort_by_spec(s, before).to_multiset() == s.to_multiset(),
    decreases s.len(),
{
    broadcast use vstd::seq_lib::group_to_multiset_ensures;

    if s.len() > 0 {
        lemma_sort_by_permutation(s.drop_last(), before);
        let t = sort_by_spec(s.drop_last(), before);
        let p = lemma_insert_by_is_insert(t, s.last(), before);
        assert(s.drop_last().push(s.last()) =~= s);
    }
}

/// With a strict order, insertion into a sorted sequence keeps it sorted.
proof fn lemma_insert_sorted<T>(s: Seq<T>, x: T, before: spec_fn(T, T) -> bool)
    requires
        strict_order(before),
        sorted_by(s, before),
    ensures
        sorted_by(insert_by(s, x, before), before),
{
    let p = lemma_insert_by_is_insert(s, x, before);
    let r = s.insert(p, x);
    assert forall|i: int, j: int| 0 <= i < j < r.len() implies !before(#[trigger] r[j], #[trigger] r[i]) by {
        if j < p {
            assert(r[i] == s[i] && r[j] == s[j]);
        } else if j == p {
            assert(r[i] == s[i]);
        } else if i < p {
            assert(r[i] == s[i] && r[j] == s[j - 1]);
        } else if i == p {
            assert(r[j] == s[j - 1]);
            if before(s[j - 1], x) {
                assert(before(x, s[p]));
                assert(before(s[j - 1], s[p]));
                if j - 1 > p {
                    assert(!before(s[j - 1], s[p]));
                }
            }
        } else {
            assert(r[i] == s[i - 1] && r[j] == s[j - 1]);
        }
    }
}

/// With a strict order, sorting yields a sorted sequence.
pub proof fn lemma_sort_by_sorted<T>(s: Seq<T>, before: spec_fn(T, T) -> bool)
    requires
        strict_order(before),
    ensures
        sorted_by(sort_by_spec(s, before), before),
    decreases s.len(),
{
    if s.len() > 0 {
        lemma_sort_by_sorted(s.drop_last(), before);
        lemma_insert_sorted(sort_by_spec(s.drop_last(), before), s.last(), before);
    }
}

/// No text sorts strictly before itself.
pub proof fn lemma_text_lt_irreflexive(a: Seq<char>)
    ensures
        !text_lt(a, a),
    decreases a.len(),
{
    if a.len() > 0 {
        lemma_text_lt_irreflexive(a.drop_first());
    }
}

/// Text order is transitive.
pub proof fn lemma_text_lt_transitive(a: Seq<char>, b: Seq<char>, c: Seq<char>)
    requires
        text_lt(a, b),
        text_lt(b, c),
    ensures
        text_lt(a, c),
    decreases a.len(),
{
    if a.len() > 0 && b.len() > 0 && c.len() > 0 && a[0] == b[0] && b[0] == c[0] {
        lemma_text_lt_transitive(a.drop_first(), b.drop_first(), c.drop_first());
    }
}

/// The order of every sort mode but [`SortMode::Unsorted`] is a strict order.
pub proof fn lemma_entry_order_strict(mode: SortMode)
    ensures
        strict_order(entry_order(mode)),
{
    let f = entry_order(mode);
    assert forall|a: FileEntry| !(#[trigger] f(a, a)) by {
        lemma_text_lt_irreflexive(a.path@);
        lemma_text_lt_irreflexive(name_or_empty(a.path@));
    }
    assert forall|a: FileEntry, b: FileEntry, c: FileEntry| #[trigger] f(a, b) && #[trigger] f(b, c) implies f(a, c) by {
        let (pa, pb, pc) = (a.path@, b.path@, c.path@);
        let (na, nb, nc) = (name_or_empty(pa), name_or_empty(pb), name_or_empty(pc));
        if text_lt(pa, pb) && text_lt(pb, pc) {
            lemma_text_lt_transitive(pa, pb, pc);
        }
        if text_lt(na, nb) && text_lt(nb, nc) {
            lemma_text_lt_transitive(na, nb, nc);
        }
    }
}

/// Sorting entries keeps exactly the entries it was given.
pub proof fn lemma_sort_entries_permutation(s: Seq<FileEntry>, mode: SortMode)
    ensures
        sorted_entries(s, mode).to_multiset() == s.to_multiset(),
{
    if mode != SortMode::Unsorted {
        lemma_sort_by_permutation(s, entry_order(mode));
    }
}

/// Sorted entries: no entry sorts strictly before an earlier one in the mode's order.
pub proof fn lemma_sort_entries_sorted(s: Seq<FileEntry>, mode: SortMode)
    requires
        mode != SortMode::Unsorted,
    ensures
        forall|i: int, j: int| 0 <= i < j < sorted_entries(s, mode).len()
            ==> !entry_before(#[trigger] sorted_entries(s, mode)[j], #[trigger] sorted_entries(s, mode)[i], mode),
{
    lemma_entry_order_strict(mode);
    lemma_sort_by_sorted(s, entry_order(mode));
    let r = sorted_entries(s, mode);
    assert forall|i: int, j: int| 0 <= i < j < r.len() implies !entry_before(#[trigger] r[j], #[trigger] r[i], mode) by {
        assert(!entry_order(mode)(r[j], r[i]));
    }
}

} // verus!
