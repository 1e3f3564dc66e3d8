//! Directory inspection results and the decisions made from them.
//!
//! The filesystem is probed by the caller; these functions turn what a probe
//! found into an inspection, and an inspection into a verdict.

use vstd::prelude::*;
use crate::chars::{chars_of, extend_chars, extend_str, string_from_chars};
use crate::error::{PathError, PathErrorSpec};
use crate::lexical::{has_nul, has_nul_exec};

verus! {

/// Summary of filesystem metadata.
#[derive(Debug, Clone, Copy, PartialEq, Eq, Structural)]
pub struct MetadataSummary {
    /// File size in bytes (for files).
    pub len: u64,
    /// Whether the entry is read-only according to permissions.
    pub readonly: bool,
    /// Modification time (nanoseconds since the Unix epoch), when available.
    pub modified: Option<u64>,
}

/// Result of inspecting a path as a potential directory.
///
/// `is_symlink` describes the path itself; `is_directory` follows a symlink
/// (a broken symlink is not a directory).
#[derive(Debug, PartialEq, Eq)]
pub struct DirectoryInspection {
    /// Path that was inspected.
    pub path: String,
    /// Whether the path exists.
    pub exists: bool,
    /// Whether the path is a directory (symlink-to-dir counts).
    pub is_directory: bool,
    /// Whether the path itself is a symbolic link.
    pub is_symlink: bool,
    /// Whether the directory could be read (`None` when not a directory).
    pub is_readable: Option<bool>,
    /// Metadata of the path itself, when it exists.
    pub metadata: Option<MetadataSummary>,
}

impl Clone for DirectoryInspection {
    fn clone(&self) -> (r: Self)
        ensures
            r == *self,
    {
        DirectoryInspection {
            path: self.path.clone(),
            exists: self.exists,
            is_directory: self.is_directory,
            is_symlink: self.is_symlink,
            is_readable: self.is_readable,
            metadata: self.metadata,
        }
    }
}

/// What probing a path found.
#[derive(Debug)]
pub enum Probe {
    /// Nothing is at the path.
    Missing,
    /// The path could not be probed; the I/O error's message.
    Failed(String),
    /// Something is at the path.
    Found {
        /// The path itself is a symbolic link.
        is_symlink: bool,
        /// The path is a directory (for a symlink: its target is one).
        is_directory: bool,
        /// For a directory, whether listing it succeeded.
        readable: bool,
        /// The metadata of the path itself.
        metadata: MetadataSummary,
    },
}

/// The inspection a probe of `path` gives.
pub fn inspection_from(path: &str, probe: Probe) -> (r: Result<DirectoryInspection, PathError>)
    ensures
        match probe {
            Probe::Missing => r matches Ok(i) && i.path@ == path@ && !i.exists && !i.is_directory && !i.is_symlink
                && i.is_readable is None && i.metadata is None,
            Probe::Failed(m) => r matches Err(e) && e@ == PathErrorSpec::Filesystem(path@, m@),
            Probe::Found { is_symlink, is_directory, readable, metadata } => r matches Ok(i) && i.path@ == path@
                && i.exists && i.is_directory == is_directory && i.is_symlink == is_symlink && i.metadata == Some(
                metadata,
            ) && i.is_readable == (if is_directory {
                Some(readable)
            } else {
                None
            }),
        },
{
    match probe {
        Probe::Missing => Ok(DirectoryInspection {
            path: path.to_owned(),
            exists: false,
            is_directory: false,
            is_symlink: false,
            is_readable: None,
            metadata: None,
        }),
        Probe::Failed(m) => Err(PathError::Filesystem { path: path.to_owned(), message: m }),
        Probe::Found { is_symlink, is_directory, readable, metadata } => Ok(DirectoryInspection {
            path: path.to_owned(),
            exists: true,
            is_directory,
            is_symlink,
            is_readable: if is_directory { Some(readable) } else { None },
            metadata: Some(metadata),
        }),
    }
}

/// What requiring a directory at `path` answers, given its inspection.
pub open spec fn require_directory_spec(path: Seq<char>, inspection: Result<DirectoryInspection, PathErrorSpec>) -> Result<
    Seq<char>,
    PathErrorSpec,
> {
    if has_nul(path) {
        Err(PathErrorSpec::EmbeddedNul)
    } else {
        match inspection {
            Err(e) => Err(e),
            Ok(i) => if !i.exists {
                Err(PathErrorSpec::InvalidPath("path does not exist: "@ + path))
            } else if !i.is_directory {
                Err(PathErrorSpec::InvalidPath("path is not a directory: "@ + path))
            } else {
                Ok(path)
            },
        }
    }
}

/// The view of an inspection outcome.
pub open spec fn inspection_result(r: Result<DirectoryInspection, PathError>) -> Result<DirectoryInspection, PathErrorSpec> {
    match r {
        Ok(i) => Ok(i),
        Err(e) => Err(e@),
    }
}

/// Require that `path` exists and is a directory, given its inspection;
/// return its path on success.
pub fn require_directory(path: &str, inspection: Result<DirectoryInspection, PathError>) -> (r: Result<String, PathError>)
    ensures
        crate::error::text_result(r) == require_directory_spec(path@, inspection_result(inspection)),
{
    if has_nul_exec(&chars_of(path)) {
        return Err(PathError::EmbeddedNul);
    }
    match inspection {
        Err(e) => Err(e),
        Ok(i) => {
            if !i.exists {
                let mut m: Vec<char> = Vec::new();
                extend_str(&mut m, "path does not exist: ");
                extend_str(&mut m, path);
                return Err(PathError::InvalidPath { message: string_from_chars(m) });
            }
            if !i.is_directory {
                let mut m: Vec<char> = Vec::new();
                extend_str(&mut m, "path is not a directory: ");
                extend_str(&mut m, path);
                return Err(PathError::InvalidPath { message: string_from_chars(m) });
            }
            Ok(path.to_owned())
        },
    }
}

} // verus!
