//! Built-in entry predicates for common search filters.

use vstd::prelude::*;
use crate::chars::{chars_of, chars_eq, skip_chars};
use crate::metadata::{EntryKind, FileEntry, file_name, file_name_exec};

verus! {

/// A filter on entries.
#[derive(Debug)]
pub enum EntryPredicate {
    /// The file name's extension (without the dot) equals this text.
    Extension(String),
    /// The file name equals this text.
    Filename(String),
    /// The entry has this kind.
    Kind(EntryKind),
    /// The entry has a size of at least this many bytes.
    MinSize(u64),
    /// The entry has a size of at most this many bytes.
    MaxSize(u64),
    /// The entry was modified after this time (nanoseconds since the Unix epoch).
    ModifiedAfter(u64),
    /// The entry was modified before this time (nanoseconds since the Unix epoch).
    ModifiedBefore(u64),
    /// The file name starts with `.`.
    Hidden,
}

/// The position of the last `.` in `s`, if any.
pub open spec fn last_dot(s: Seq<char>) -> Option<nat>
    decreases s.len(),
{
    if s.len() == 0 {
        None
    } else if s.last() == '.' {
        Some((s.len() - 1) as nat)
    } else {
        last_dot(s.drop_last())
    }
}

/// The extension of a file name: the text after its last `.`, unless that
/// dot is the first character or there is none.
pub open spec fn name_extension(name: Seq<char>) -> Option<Seq<char>> {
    match last_dot(name) {
        Some(k) => if k == 0 {
            None
        } else {
            Some(name.skip(k as int + 1))
        },
        None => None,
    }
}

/// The extension of a path's file name.
pub open spec fn path_extension(path: Seq<char>) -> Option<Seq<char>> {
    match file_name(path) {
        Some(n) => name_extension(n),
        None => None,
    }
}

proof fn lemma_last_dot(s: Seq<char>, k: int)
    requires
        -1 <= k < s.len(),
        forall|j: int| k < j < s.len() ==> s[j] != '.',
        k >= 0 ==> s[k] == '.',
    ensures
        k >= 0 ==> last_dot(s) == Some(k as nat),
        k < 0 ==> last_dot(s) is None,
    decreases s.len(),
{
    if s.len() > 0 && s.len() - 1 != k {
        assert forall|j: int| k < j < s.drop_last().len() implies s.drop_last()[j] != '.' by {
            assert(s.drop_last()[j] == s[j]);
        }
        if k >= 0 {
            assert(s.drop_last()[k] == s[k]);
        }
        lemma_last_dot(s.drop_last(), k);
    }
}

fn name_extension_exec(name: &Vec<char>) -> (r: Option<Vec<char>>)
    ensures
        match name_extension(name@) {
            Some(x) => r matches Some(v) && v@ == x,
            None => r is None,
        },
{
    let mut k: usize = name.len();
    while k > 0 && name[k - 1] != '.'
        invariant
            k <= name.len(),
            forall|j: int| k <= j < name.len() ==> name@[j] != '.',
        decreases k,
    {
        k = k - 1;
    }
    proof {
        lemma_last_dot(name@, k - 1);
    }
    if k <= 1 {
        return None;
    }
    Some(skip_chars(name, k))
}

impl EntryPredicate {
    /// Whether `e` passes the filter.
    pub open spec fn holds(self, e: FileEntry) -> bool {
        match self {
            EntryPredicate::Extension(x) => path_extension(e.path@) == Some(x@),
            EntryPredicate::Filename(n) => file_name(e.path@) == Some(n@),
            EntryPredicate::Kind(k) => e.kind == k,
            EntryPredicate::MinSize(m) => e.size matches Some(s) && s >= m,
            EntryPredicate::MaxSize(m) => e.size matches Some(s) && s <= m,
            EntryPredicate::ModifiedAfter(t) => e.modified matches Some(m) && m > t,
            EntryPredicate::ModifiedBefore(t) => e.modified matches Some(m) && m < t,
            EntryPredicate::Hidden => file_name(e.path@) matches Some(n) && n.len() > 0 && n[0] == '.',
        }
    }

    /// Whether `entry` passes the filter.
    pub fn test(&self, entry: &FileEntry) -> (r: bool)
        ensures
            r == self.holds(*entry),
    {
        let path = chars_of(entry.path.as_str());
        match self {
            EntryPredicate::Extension(x) => match file_name_exec(&path) {
                Some(n) => match name_extension_exec(&n) {
                    Some(e) => chars_eq(&e, &chars_of(x.as_str())),
                    None => false,
                },
                None => false,
            },
            EntryPredicate::Filename(want) => match file_name_exec(&path) {
                Some(n) => chars_eq(&n, &chars_of(want.as_str())),
                None => false,
            },
            EntryPredicate::Kind(k) => entry.kind == *k,
            EntryPredicate::MinSize(m) => match entry.size {
                Some(s) => s >= *m,
                None => false,
            },
            EntryPredicate::MaxSize(m) => match entry.size {
                Some(s) => s <= *m,
                None => false,
            },
            EntryPredicate::ModifiedAfter(t) => match entry.modified {
                Some(m) => m > *t,
                None => false,
            },
            EntryPredicate::ModifiedBefore(t) => match entry.modified {
                Some(m) => m < *t,
                None => false,
            },
            EntryPredicate::Hidden => match file_name_exec(&path) {
                Some(n) => n.len() > 0 && n[0] == '.',
                None => false,
            },
        }
    }
}

/// Match entries with the given extension (without the dot), case-sensitive.
pub fn extension(ext: &str) -> (r: EntryPredicate)
    ensures
        r matches EntryPredicate::Extension(x) && x@ == ext@,
{
    EntryPredicate::Extension(ext.to_owned())
}

/// Match entries whose file name equals `name`.
pub fn filename(name: &str) -> (r: EntryPredicate)
    ensures
        r matches EntryPredicate::Filename(x) && x@ == name@,
{
    EntryPredicate::Filename(name.to_owned())
}

/// Match a specific entry kind.
pub fn kind(expected: EntryKind) -> (r: EntryPredicate)
    ensures
        r == EntryPredicate::Kind(expected),
{
    EntryPredicate::Kind(expected)
}

/// Match files with size >= `min`.
pub fn min_size(min: u64) -> (r: EntryPredicate)
    ensures
        r == EntryPredicate::MinSize(min),
{
    EntryPredicate::MinSize(min)
}

/// Match files with size <= `max`.
pub fn max_size(max: u64) -> (r: EntryPredicate)
    ensures
        r == EntryPredicate::MaxSize(max),
{
    EntryPredicate::MaxSize(max)
}

/// Match entries modified after `t`.
pub fn modified_after(t: u64) -> (r: EntryPredicate)
    ensures
        r == EntryPredicate::ModifiedAfter(t),
{
    EntryPredicate::ModifiedAfter(t)
}

/// Match entries modified before `t`.
pub fn modified_before(t: u64) -> (r: EntryPredicate)
    ensures
        r == EntryPredicate::ModifiedBefore(t),
{
    EntryPredicate::ModifiedBefore(t)
}

/// Match hidden names (leading `.`).
pub fn is_hidden() -> (r: EntryPredicate)
    ensures
        r == EntryPredicate::Hidden,
{
    EntryPredicate::Hidden
}

/// The entries that pass `predicate`, in order, at most `max_entries` of them.
pub open spec fn filtered(s: Seq<FileEntry>, p: EntryPredicate, max_entries: Option<usize>) -> Seq<FileEntry>
    decreases s.len(),
{
    if s.len() == 0 {
        s
    } else {
        let prev = filtered(s.drop_last(), p, max_entries);
        if p.holds(s.last()) && !(max_entries matches Some(m) && prev.len() >= m) {
            prev.push(s.last())
        } else {
            prev
        }
    }
}

/// Keep the listed entries that pass `predicate`, at most `max_entries` of them.
pub fn filter_entries(listed: Vec<FileEntry>, predicate: &EntryPredicate, max_entries: Option<usize>) -> (r: Vec<FileEntry>)
    ensures
        r@ == filtered(listed@, *predicate, max_entries),
{
    let mut out: Vec<FileEntry> = Vec::new();
    let mut i: usize = 0;
    assert(listed@.take(0) =~= Seq::<FileEntry>::empty());
    while i < listed.len()
        invariant
            i <= listed.len(),
            out@ == filtered(listed@.take(i as int), *predicate, max_entries),
        decreases listed.len() - i,
    {
        assert(listed@.take(i + 1).drop_last() =~= listed@.take(i as int));
        assert(listed@.take(i + 1).last() == listed@[i as int]);
        let full = match max_entries {
            Some(m) => out.len() >= m,
            None => false,
        };
        if !full && predicate.test(&listed[i]) {
            out.push(listed[i].clone());
        }
        i = i + 1;
    }
    assert(listed@.take(listed.len() as int) =~= listed@);
    out
}

/// Whether the caller's predicate accepted the entry at index `i`; an entry
/// without an answer is not accepted.
pub open spec fn accepted_at(keep: Seq<bool>, i: int) -> bool {
    0 <= i < keep.len() && keep[i]
}

/// The entries of `s` that the caller's predicate accepted, in order.
pub open spec fn picked(s: Seq<FileEntry>, keep: Seq<bool>) -> Seq<FileEntry>
    decreases s.len(),
{
    if s.len() == 0 {
        s
    } else if accepted_at(keep, s.len() - 1) {
        picked(s.drop_last(), keep).push(s.last())
    } else {
        picked(s.drop_last(), keep)
    }
}

/// The accepted entries, cut to `max_entries`.
pub open spec fn selected(s: Seq<FileEntry>, keep: Seq<bool>, max_entries: Option<usize>) -> Seq<FileEntry> {
    let p = picked(s, keep);
    match max_entries {
        Some(m) => if p.len() > m { p.take(m as int) } else { p },
        None => p,
    }
}

/// Keep the listed entries whose answer in `keep` (the caller's predicate,
/// asked once per listed entry, in order) is true, at most `max_entries` of
/// them.
pub fn select_entries(listed: Vec<FileEntry>, keep: &Vec<bool>, max_entries: Option<usize>) -> (r: Vec<FileEntry>)
    ensures
        r@ == selected(listed@, keep@, max_entries),
{
    let mut out: Vec<FileEntry> = Vec::new();
    let mut i: usize = 0;
    assert(listed@.take(0) =~= Seq::<FileEntry>::empty());
    while i < listed.len()
        invariant
            i <= listed.len(),
            out@ == picked(listed@.take(i as int), keep@),
        decreases listed.len() - i,
    {
        assert(listed@.take(i + 1).drop_last() =~= listed@.take(i as int));
        assert(listed@.take(i + 1).last() == listed@[i as int]);
        if i < keep.len() && keep[i] {
            out.push(listed[i].clone());
        }
        i = i + 1;
    }
    assert(listed@.take(listed.len() as int) =~= listed@);
    if let Some(m) = max_entries {
        if out.len() > m {
            out.truncate(m);
        }
    }
    out
}

} // verus!
