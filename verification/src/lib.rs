//! Cross-platform path expansion, normalization, resolution, matching,
//! traversal decisions, searching and caching.
//!
//! Path mechanics only: product-specific logic (repository inventories, VCS
//! roots, watchers) belongs in applications that compose these functions.
//! Paths are handled as text in Unix syntax. Environment variables, the
//! current directory, directory walks and filesystem probes are handed in by
//! the caller; platform directories come from the `dirs` crate and the time
//! from the system clock.

pub mod chars;
pub mod lexical;
pub mod error;
pub mod normalize;
pub mod containment;
pub mod resolve;
pub mod platform;
pub mod text;
pub mod identity;
pub mod match_path;
pub mod expand;
pub mod validation;
pub mod metadata;
pub mod cache;
pub mod listing;
pub mod search;
pub mod predicates;
pub mod inspect;
pub mod discovery;
pub mod dirs;
pub mod utf8;

pub use containment::{ensure_inside, is_lexically_inside};
pub use dirs::{
    AppPaths, AppPathsOptions, AppRootPolicy, PlatformDirs, app_directories, cache_dir, config_dir, data_dir,
    platform_app_paths, resolve_app_paths, rooted_app_paths,
};
pub use error::PathError;
pub use expand::{
    DirLookup, EnvValue, Environment, ExpandOptions, expand_dollar_variables, expand_input, expand_input_with,
    expand_percent_variables, expand_tilde, expand_tilde_with,
};
pub use identity::{
    PathIdentityOptions, PathRecord, deduplicate_paths, identity_key_from, identity_key_source,
    path_display_string, path_identity_key, path_identity_key_resolved,
};
pub use inspect::{DirectoryInspection, MetadataSummary, Probe, inspection_from, require_directory};
pub use match_path::{
    CommandLinePathMatchOptions, ExecutableMatchOptions, command_line_contains_path, executable_paths_match,
};
pub use metadata::{EntryKind, FileEntry, SortMode, TraversalErrorPolicy, sort_entries};
pub use normalize::normalize;
pub use platform::{
    is_device_namespace, is_drive_relative, is_reserved_windows_name, is_unc, is_verbatim,
    path_contains_reserved_name, simplify_for_display, translate_wsl_path,
};
pub use resolve::{absolute_with_cwd, join_relative, resolve_against, resolve_inside};
pub use text::{CaseNormalization, TextNormalizationOptions, normalize_path_token};
pub use utf8::{logical_path_key, path_to_string_lossy, path_to_utf8};
pub use cache::{
    CacheKey, CacheMode, CacheOptions, CachePolicy, CacheValue, DiscoveryCache, MemoryCache,
    PersistentCacheFile, PersistentCacheRecord, PersistentKey,
};
pub use discovery::{DiscoveryOptions, DiscoveryState, VisitControl, VisitState};
pub use listing::{ListOptions, WalkCounter};
pub use search::SearchRequest;
pub use validation::validate_app_name;
