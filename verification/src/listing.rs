//! Directory listing decisions: options, depth bounds, entry filtering and
//! the streaming walk's per-item policy.
//!
//! # Depth model
//!
//! - **Depth 0** — the walk root itself
//! - **Depth 1** — immediate children of the root
//! - **Depth *n*** — *n* path components below the root
//!
//! | `recursive` | `max_depth` | Effect |
//! | --- | --- | --- |
//! | `false` | ignored | Only immediate children (depth 1). Optionally include root via `include_root`. |
//! | `true` | `None` | Unlimited depth |
//! | `true` | `Some(n)` | Walk to depth `n` (root is depth 0) |

use vstd::prelude::*;
use crate::chars::{chars_of, clone_chars, views, string_from_chars};
use crate::error::PathError;
use crate::lexical::{components, join_items, path_components, components_prefix, join_items_exec};
use crate::metadata::{EntryKind, FileEntry, SortMode, TraversalErrorPolicy, sort_entries, sorted_entries};
use crate::validation::{is_hidden_name, is_hidden_spec};

verus! {

/// Options controlling directory listing and traversal.
///
/// Defaults: non-recursive, do not follow symlinks, include files,
/// directories and symlinks, exclude hidden entries and other kinds,
/// fail fast, sort by path, root not included.
#[derive(Debug, Clone, Copy, PartialEq, Eq, Structural)]
pub struct ListOptions {
    /// Recurse into subdirectories.
    pub recursive: bool,
    /// Follow symbolic links.
    pub follow_symlinks: bool,
    /// Include regular files.
    pub include_files: bool,
    /// Include directories.
    pub include_directories: bool,
    /// Include symlink entries (when not followed into).
    pub include_symlinks: bool,
    /// Include hidden entries (names starting with `.`).
    pub include_hidden: bool,
    /// Include other entry types (sockets, devices, etc.).
    pub include_other: bool,
    /// Maximum walk depth when `recursive` is true (`None` = unlimited).
    pub max_depth: Option<usize>,
    /// Maximum number of returned entries.
    pub max_entries: Option<usize>,
    /// Result sort mode (lists only; streaming walks keep walk order).
    pub sort: SortMode,
    /// Error handling policy.
    pub error_policy: TraversalErrorPolicy,
    /// When true, include the root directory itself as an entry.
    pub include_root: bool,
}

/// The default listing options.
pub open spec fn default_list_options() -> ListOptions {
    ListOptions {
        recursive: false,
        follow_symlinks: false,
        include_files: true,
        include_directories: true,
        include_symlinks: true,
        include_hidden: false,
        include_other: false,
        max_depth: None,
        max_entries: None,
        sort: SortMode::Path,
        error_policy: TraversalErrorPolicy::FailFast,
        include_root: false,
    }
}

impl Default for ListOptions {
    fn default() -> (r: Self)
        ensures
            r == default_list_options(),
    {
        ListOptions {
            recursive: false,
            follow_symlinks: false,
            include_files: true,
            include_directories: true,
            include_symlinks: true,
            include_hidden: false,
            include_other: false,
            max_depth: None,
            max_entries: None,
            sort: SortMode::Path,
            error_policy: TraversalErrorPolicy::FailFast,
            include_root: false,
        }
    }
}

impl ListOptions {
    /// Create default options.
    pub fn new() -> (r: Self)
        ensures
            r == default_list_options(),
    {
        Self::default()
    }

    /// Enable or disable recursion.
    pub fn recursive(self, recursive: bool) -> (r: Self)
        ensures
            r == (ListOptions { recursive, ..self }),
    {
        ListOptions { recursive, ..self }
    }

    /// Follow symlinks when walking.
    pub fn follow_symlinks(self, follow: bool) -> (r: Self)
        ensures
            r == (ListOptions { follow_symlinks: follow, ..self }),
    {
        ListOptions { follow_symlinks: follow, ..self }
    }

    /// Include regular files.
    pub fn include_files(self, enabled: bool) -> (r: Self)
        ensures
            r == (ListOptions { include_files: enabled, ..self }),
    {
        ListOptions { include_files: enabled, ..self }
    }

    /// Include directories.
    pub fn include_directories(self, enabled: bool) -> (r: Self)
        ensures
            r == (ListOptions { include_directories: enabled, ..self }),
    {
        ListOptions { include_directories: enabled, ..self }
    }

    /// Include symlink entries.
    pub fn include_symlinks(self, enabled: bool) -> (r: Self)
        ensures
            r == (ListOptions { include_symlinks: enabled, ..self }),
    {
        ListOptions { include_symlinks: enabled, ..self }
    }

    /// Include other entry types.
    pub fn include_other(self, enabled: bool) -> (r: Self)
        ensures
            r == (ListOptions { include_other: enabled, ..self }),
    {
        ListOptions { include_other: enabled, ..self }
    }

    /// Include hidden files and directories.
    pub fn include_hidden(self, enabled: bool) -> (r: Self)
        ensures
            r == (ListOptions { include_hidden: enabled, ..self }),
    {
        ListOptions { include_hidden: enabled, ..self }
    }

    /// Set maximum depth (see the module's depth model).
    pub fn max_depth(self, depth: Option<usize>) -> (r: Self)
        ensures
            r == (ListOptions { max_depth: depth, ..self }),
    {
        ListOptions { max_depth: depth, ..self }
    }

    /// Set maximum number of entries.
    pub fn max_entries(self, max: Option<usize>) -> (r: Self)
        ensures
            r == (ListOptions { max_entries: max, ..self }),
    {
        ListOptions { max_entries: max, ..self }
    }

    /// Set sort mode.
    pub fn sort(self, sort: SortMode) -> (r: Self)
        ensures
            r == (ListOptions { sort, ..self }),
    {
        ListOptions { sort, ..self }
    }

    /// Set error policy.
    pub fn error_policy(self, policy: TraversalErrorPolicy) -> (r: Self)
        ensures
            r == (ListOptions { error_policy: policy, ..self }),
    {
        ListOptions { error_policy: policy, ..self }
    }

    /// Include the root directory itself.
    pub fn include_root(self, enabled: bool) -> (r: Self)
        ensures
            r == (ListOptions { include_root: enabled, ..self }),
    {
        ListOptions { include_root: enabled, ..self }
    }
}

/// The depths `(min, max)` a listing walks.
///
/// Non-recursive: only depth 1, or 0..=1 with the root included. Recursive:
/// from 0 (root included) or 1 up to `max_depth` (unlimited when unset); the
/// minimum never exceeds the maximum.
pub open spec fn depth_bounds(o: ListOptions) -> (usize, usize) {
    if o.recursive {
        let max = match o.max_depth {
            Some(d) => d,
            None => usize::MAX,
        };
        let min: usize = if o.include_root { 0 } else { 1 };
        (if min <= max { min } else { max }, max)
    } else if o.include_root {
        (0, 1)
    } else {
        (1, 1)
    }
}

/// Walk depth bounds for listing.
pub fn walk_depth_bounds(options: &ListOptions) -> (r: (usize, usize))
    ensures
        r == depth_bounds(*options),
{
    if options.recursive {
        let max = match options.max_depth {
            Some(d) => d,
            None => usize::MAX,
        };
        let min: usize = if options.include_root { 0 } else { 1 };
        (if min <= max { min } else { max }, max)
    } else if options.include_root {
        (0, 1)
    } else {
        (1, 1)
    }
}

/// Whether entries of `kind` are listed.
pub open spec fn kind_allowed_spec(kind: EntryKind, o: ListOptions) -> bool {
    match kind {
        EntryKind::File => o.include_files,
        EntryKind::Directory => o.include_directories,
        EntryKind::Symlink => o.include_symlinks,
        EntryKind::Other => o.include_other,
    }
}

/// Whether entries of `kind` are listed.
pub fn kind_allowed(kind: EntryKind, options: &ListOptions) -> (r: bool)
    ensures
        r == kind_allowed_spec(kind, *options),
{
    match kind {
        EntryKind::File => options.include_files,
        EntryKind::Directory => options.include_directories,
        EntryKind::Symlink => options.include_symlinks,
        EntryKind::Other => options.include_other,
    }
}

/// The path of `path` relative to `root`, when `root`'s components start
/// `path`'s: the remaining components joined with `/` (empty for the root).
pub open spec fn relative_to(path: Seq<char>, root: Seq<char>) -> Option<Seq<char>> {
    if components(root).is_prefix_of(components(path)) {
        Some(join_items(components(path).skip(components(root).len() as int)))
    } else {
        None
    }
}

/// The path of `path` relative to `root`, when it lies under it.
pub fn relative_path(path: &str, root: &str) -> (r: Option<String>)
    ensures
        match relative_to(path@, root@) {
            Some(t) => r matches Some(s) && s@ == t,
            None => r is None,
        },
{
    let pc = path_components(&chars_of(path));
    let rc = path_components(&chars_of(root));
    if !components_prefix(&rc, &pc) {
        return None;
    }
    let mut rest: Vec<Vec<char>> = Vec::new();
    let mut i: usize = rc.len();
    let ghost k = rc.len() as int;
    assert(views(pc@).skip(k).take(0) =~= Seq::<Seq<char>>::empty());
    while i < pc.len()
        invariant
            k <= i <= pc.len(),
            k == rc.len(),
            views(rest@) =~= views(pc@).skip(k).take(i - k),
        decreases pc.len() - i,
    {
        let ghost old_rest = rest@;
        let item = clone_chars(&pc[i]);
        rest.push(item);
        proof {
            assert(views(rest@) =~= views(old_rest).push(item@));
            assert(views(pc@)[i as int] == pc@[i as int]@);
            assert(views(pc@).skip(k).take(i + 1 - k) =~= views(pc@).skip(k).take(i - k).push(views(pc@)[i as int]));
        }
        i = i + 1;
    }
    assert(views(pc@).skip(k).take(pc.len() - k) =~= views(pc@).skip(k));
    Some(string_from_chars(join_items_exec(&rest)))
}

/// Whether a walked entry at `path` named `name`, of `kind`, is listed:
/// `.` and `..` never are; hidden names are left out unless asked for,
/// except for the walk root itself; and the kind must be included.
pub open spec fn entry_listed(root: Seq<char>, path: Seq<char>, name: Seq<char>, kind: EntryKind, o: ListOptions) -> bool {
    &&& name != seq!['.'] && name != seq!['.', '.']
    &&& (path == root || o.include_hidden || !is_hidden_spec(name))
    &&& kind_allowed_spec(kind, o)
}

/// Whether a walked entry is listed (see [`entry_listed`]).
pub fn entry_is_listed(root: &str, path: &str, name: &str, kind: EntryKind, options: &ListOptions) -> (r: bool)
    ensures
        r == entry_listed(root@, path@, name@, kind, *options),
{
    let n = chars_of(name);
    let is_dot = n.len() == 1 && n[0] == '.';
    let is_dotdot = n.len() == 2 && n[0] == '.' && n[1] == '.';
    assert(is_dot == (n@ == seq!['.'])) by {
        if n@ == seq!['.'] {
            assert(n@[0] == '.');
        }
        if is_dot {
            assert(n@ =~= seq!['.']);
        }
    }
    assert(is_dotdot == (n@ == seq!['.', '.'])) by {
        if n@ == seq!['.', '.'] {
            assert(n@[0] == '.' && n@[1] == '.');
        }
        if is_dotdot {
            assert(n@ =~= seq!['.', '.']);
        }
    }
    if is_dot || is_dotdot {
        return false;
    }
    let is_root = crate::chars::chars_eq(&chars_of(path), &chars_of(root));
    if !is_root && !options.include_hidden && is_hidden_name(name) {
        return false;
    }
    kind_allowed(kind, options)
}

/// Metadata read for a listed entry.
#[derive(Debug, Clone, Copy, PartialEq, Eq, Structural)]
pub struct EntryMetadata {
    /// Size in bytes when the entry is a regular file.
    pub size: Option<u64>,
    /// Modification time (nanoseconds since the Unix epoch), when available.
    pub modified: Option<u64>,
    /// Read-only permission flag.
    pub readonly: bool,
}

/// Build the entry for a listed path from its metadata.
///
/// When the metadata could not be read, fail-fast turns the error into the
/// result and skip-errors lists the entry without metadata.
pub fn build_entry(
    root: &str,
    path: &str,
    kind: EntryKind,
    metadata: Result<EntryMetadata, PathError>,
    options: &ListOptions,
) -> (r: Result<FileEntry, PathError>)
    ensures
        match metadata {
            Err(e) => if options.error_policy == TraversalErrorPolicy::FailFast {
                r matches Err(x) && x@ == e@
            } else {
                r matches Ok(f) && f.size is None && f.modified is None && f.readonly is None
            },
            Ok(m) => r matches Ok(f) && f.size == m.size && f.modified == m.modified && f.readonly == Some(m.readonly),
        },
        r matches Ok(f) ==> f.path@ == path@ && f.kind == kind && match relative_to(path@, root@) {
            Some(t) => f.relative_path matches Some(s) && s@ == t,
            None => f.relative_path is None,
        },
{
    let (size, modified, readonly) = match metadata {
        Ok(m) => (m.size, m.modified, Some(m.readonly)),
        Err(e) => match options.error_policy {
            TraversalErrorPolicy::FailFast => {
                return Err(e);
            },
            TraversalErrorPolicy::SkipErrors => (None, None, None),
        },
    };
    Ok(FileEntry {
        path: path.to_owned(),
        relative_path: relative_path(path, root),
        kind,
        size,
        modified,
        readonly,
    })
}

/// What the streaming walk does with one item.
#[derive(Debug)]
pub enum WalkAction {
    /// Hand this entry out.
    Yield(FileEntry),
    /// Stop with this error.
    Fail(PathError),
    /// Go on to the next item.
    Skip,
}

/// The state of a streaming walk: how many entries it has handed out.
#[derive(Debug, Clone, Copy)]
pub struct WalkCounter {
    /// Entries handed out so far.
    yielded: usize,
    /// Maximum number of entries to hand out.
    max_entries: Option<usize>,
    /// Error handling policy.
    error_policy: TraversalErrorPolicy,
}

/// What a walk counter stands for.
pub struct WalkCounterView {
    pub yielded: nat,
    pub max_entries: Option<usize>,
    pub error_policy: TraversalErrorPolicy,
}

impl View for WalkCounter {
    type V = WalkCounterView;

    closed spec fn view(&self) -> WalkCounterView {
        WalkCounterView {
            yielded: self.yielded as nat,
            max_entries: self.max_entries,
            error_policy: self.error_policy,
        }
    }
}

impl WalkCounter {
    /// A walk that has handed out nothing yet.
    pub fn new(options: &ListOptions) -> (r: Self)
        ensures
            r@.yielded == 0,
            r@.max_entries == options.max_entries,
            r@.error_policy == options.error_policy,
    {
        WalkCounter { yielded: 0, max_entries: options.max_entries, error_policy: options.error_policy }
    }

    /// Whether the walk has handed out as many entries as it may.
    pub fn exhausted(&self) -> (r: bool)
        ensures
            r == (self@.max_entries matches Some(m) && self@.yielded >= m),
    {
        match self.max_entries {
            Some(m) => self.yielded >= m,
            None => false,
        }
    }

    /// Decide what to do with the next walk item: an error of the walk itself,
    /// or the outcome of building a listed entry (`None` when not listed).
    pub fn step(&mut self, item: Result<Option<FileEntry>, PathError>) -> (r: WalkAction)
        requires
            !(old(self)@.max_entries matches Some(m) && old(self)@.yielded >= m),
            old(self)@.yielded < usize::MAX,
        ensures
            final(self)@.max_entries == old(self)@.max_entries,
            final(self)@.error_policy == old(self)@.error_policy,
            match item {
                Ok(Some(e)) => r matches WalkAction::Yield(x) && x == e && final(self)@.yielded == old(self)@.yielded + 1,
                Ok(None) => r is Skip && final(self)@.yielded == old(self)@.yielded,
                Err(e) => final(self)@.yielded == old(self)@.yielded && if old(self)@.error_policy
                    == TraversalErrorPolicy::FailFast {
                    r matches WalkAction::Fail(x) && x@ == e@
                } else {
                    r is Skip
                },
            },
    {
        match item {
            Ok(Some(e)) => {
                self.yielded = self.yielded + 1;
                WalkAction::Yield(e)
            },
            Ok(None) => WalkAction::Skip,
            Err(e) => match self.error_policy {
                TraversalErrorPolicy::FailFast => WalkAction::Fail(e),
                TraversalErrorPolicy::SkipErrors => WalkAction::Skip,
            },
        }
    }
}

/// The entries a list ends with: sorted by the options' mode, then cut to
/// `max_entries`.
pub open spec fn finished_listing(s: Seq<FileEntry>, o: ListOptions) -> Seq<FileEntry> {
    let sorted = sorted_entries(s, o.sort);
    match o.max_entries {
        Some(m) => if sorted.len() > m { sorted.take(m as int) } else { sorted },
        None => sorted,
    }
}

/// Sort collected entries and cut them to `max_entries`.
pub fn finish_listing(entries: &mut Vec<FileEntry>, options: &ListOptions)
    ensures
        final(entries)@ == finished_listing(old(entries)@, *options),
{
    sort_entries(entries, options.sort);
    if let Some(m) = options.max_entries {
        if entries.len() > m {
            entries.truncate(m);
        }
    }
}

/// The kind of a walked entry from its file type: a symlink is a symlink
/// even when it points at a directory.
pub open spec fn entry_kind_spec(is_symlink: bool, is_dir: bool, is_file: bool) -> EntryKind {
    if is_symlink {
        EntryKind::Symlink
    } else if is_dir {
        EntryKind::Directory
    } else if is_file {
        EntryKind::File
    } else {
        EntryKind::Other
    }
}

/// The kind of a walked entry from its file type.
pub fn entry_kind(is_symlink: bool, is_dir: bool, is_file: bool) -> (r: EntryKind)
    ensures
        r == entry_kind_spec(is_symlink, is_dir, is_file),
{
    if is_symlink {
        EntryKind::Symlink
    } else if is_dir {
        EntryKind::Directory
    } else if is_file {
        EntryKind::File
    } else {
        EntryKind::Other
    }
}

/// What probing a listing root found.
#[derive(Debug)]
pub enum RootProbe {
    /// Reading the root's own metadata failed with this message.
    Failed(String),
    /// The root is a directory.
    Directory,
    /// The root is a symlink; following it gave whether its target is a
    /// directory, or the message of the error following it.
    Symlink(Result<bool, String>),
    /// The root is something else.
    Other,
}

/// Check that a listing root is a directory, or a symlink to one.
pub fn check_listable_root(root: &str, probe: RootProbe) -> (r: Result<(), PathError>)
    ensures
        match probe {
            RootProbe::Failed(m) => r matches Err(e) && e@ == crate::error::PathErrorSpec::Filesystem(root@, m@),
            RootProbe::Directory => r is Ok,
            RootProbe::Symlink(Ok(true)) => r is Ok,
            RootProbe::Symlink(Err(m)) => r matches Err(e) && e@ == crate::error::PathErrorSpec::Filesystem(root@, m@),
            _ => r matches Err(e) && e@ == crate::error::PathErrorSpec::InvalidPath(
                "list root is not a directory: "@ + root@,
            ),
        },
{
    match probe {
        RootProbe::Failed(m) => Err(PathError::Filesystem { path: root.to_owned(), message: m }),
        RootProbe::Directory => Ok(()),
        RootProbe::Symlink(Ok(true)) => Ok(()),
        RootProbe::Symlink(Err(m)) => Err(PathError::Filesystem { path: root.to_owned(), message: m }),
        _ => {
            let mut m: Vec<char> = Vec::new();
            crate::chars::extend_str(&mut m, "list root is not a directory: ");
            crate::chars::extend_str(&mut m, root);
            Err(PathError::InvalidPath { message: string_from_chars(m) })
        },
    }
}

} // verus!
