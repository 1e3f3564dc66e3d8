//! Path resolution and safe joining.
//!
//! These helpers only manipulate path text. They do not expand environment
//! variables or glob patterns and never touch the filesystem.

use vstd::prelude::*;
use crate::chars::{chars_of, string_from_chars};
use crate::error::{PathError, PathErrorSpec, text_result};
use crate::lexical::{
    has_nul, has_nul_exec, has_root, has_root_exec, join_path, join_path_exec, lexically_inside,
    normalized,
};
use crate::normalize::{normalize, normalize_chars, normalizable, normalize_spec};
use crate::containment::is_lexically_inside;

verus! {

/// What [`resolve_against`] returns for `base` and `input`.
pub open spec fn resolve_against_spec(base: Seq<char>, input: Seq<char>) -> Result<Seq<char>, PathErrorSpec> {
    if has_nul(base) || has_nul(input) {
        Err(PathErrorSpec::EmbeddedNul)
    } else {
        normalize_spec(join_path(base, input))
    }
}

fn normalize_joined(base: &Vec<char>, child: &Vec<char>) -> (r: Result<String, PathError>)
    ensures
        text_result(r) == normalize_spec(join_path(base@, child@)),
{
    let joined = join_path_exec(base, child);
    match normalize_chars(&joined) {
        Ok(out) => Ok(string_from_chars(out)),
        Err(e) => Err(e),
    }
}

/// Resolve `input` against `base`.
///
/// An absolute `input` is normalized on its own (the base is ignored); a
/// relative one is joined to `base` and the result normalized.
pub fn resolve_against(base: &str, input: &str) -> (r: Result<String, PathError>)
    ensures
        text_result(r) == resolve_against_spec(base@, input@),
{
    let b = chars_of(base);
    let i = chars_of(input);
    if has_nul_exec(&b) || has_nul_exec(&i) {
        return Err(PathError::EmbeddedNul);
    }
    normalize_joined(&b, &i)
}

/// What [`join_relative`] returns for `base` and `child`.
pub open spec fn join_relative_spec(base: Seq<char>, child: Seq<char>) -> Result<Seq<char>, PathErrorSpec> {
    if has_nul(base) || has_nul(child) {
        Err(PathErrorSpec::EmbeddedNul)
    } else if has_root(child) {
        Err(PathErrorSpec::AbsoluteChildPath(child))
    } else {
        normalize_spec(join_path(base, child))
    }
}

/// Join a relative `child` under `base`, rejecting absolute children.
pub fn join_relative(base: &str, child: &str) -> (r: Result<String, PathError>)
    ensures
        text_result(r) == join_relative_spec(base@, child@),
{
    let b = chars_of(base);
    let c = chars_of(child);
    if has_nul_exec(&b) || has_nul_exec(&c) {
        return Err(PathError::EmbeddedNul);
    }
    if has_root_exec(&c) {
        return Err(PathError::absolute_child(child));
    }
    normalize_joined(&b, &c)
}

/// What [`resolve_inside`] returns for `root` and `child`.
pub open spec fn resolve_inside_spec(root: Seq<char>, child: Seq<char>) -> Result<Seq<char>, PathErrorSpec> {
    if has_nul(root) || has_nul(child) {
        Err(PathErrorSpec::EmbeddedNul)
    } else if has_root(child) {
        Err(PathErrorSpec::AbsoluteChildPath(child))
    } else if !normalizable(join_path(root, child)) {
        normalize_spec(join_path(root, child))
    } else if !normalizable(root) {
        normalize_spec(root)
    } else if lexically_inside(normalized(join_path(root, child)), normalized(root)) {
        Ok(normalized(join_path(root, child)))
    } else {
        Err(PathErrorSpec::RootEscape(normalized(join_path(root, child))))
    }
}

/// Resolve `child` under `root`, ensuring the result stays inside `root` lexically.
///
/// Lexical containment is not symlink-safe.
pub fn resolve_inside(root: &str, child: &str) -> (r: Result<String, PathError>)
    ensures
        text_result(r) == resolve_inside_spec(root@, child@),
        r matches Ok(s) ==> lexically_inside(s@, normalized(root@)),
{
    let joined = join_relative(root, child)?;
    let root_norm = normalize(root)?;
    if !is_lexically_inside(joined.as_str(), root_norm.as_str()) {
        return Err(PathError::root_escape(joined.as_str()));
    }
    Ok(joined)
}

/// What making `path` absolute gives, given the current directory (or the
/// message of the error reading it).
pub open spec fn absolute_spec(path: Seq<char>, cwd: Result<Seq<char>, Seq<char>>) -> Result<Seq<char>, PathErrorSpec> {
    if has_nul(path) {
        Err(PathErrorSpec::EmbeddedNul)
    } else if has_root(path) {
        normalize_spec(path)
    } else {
        match cwd {
            Err(m) => Err(PathErrorSpec::CurrentDirectoryUnavailable(m)),
            Ok(c) => normalize_spec(join_path(c, path)),
        }
    }
}

/// The view of a current-directory reading.
pub open spec fn cwd_view(cwd: &Result<String, String>) -> Result<Seq<char>, Seq<char>> {
    match cwd {
        Ok(c) => Ok(c@),
        Err(m) => Err(m@),
    }
}

/// Make `path` absolute against the current directory `cwd` and normalize it.
///
/// An absolute path is only normalized; a relative one is joined onto the
/// current directory, whose reading may have failed. Nothing is resolved
/// against the filesystem.
pub fn absolute_with_cwd(path: &str, cwd: &Result<String, String>) -> (r: Result<String, PathError>)
    ensures
        text_result(r) == absolute_spec(path@, cwd_view(cwd)),
{
    let p = chars_of(path);
    if has_nul_exec(&p) {
        return Err(PathError::EmbeddedNul);
    }
    if has_root_exec(&p) {
        return normalize(path);
    }
    match cwd {
        Err(m) => Err(PathError::CurrentDirectoryUnavailable { message: m.clone() }),
        Ok(c) => {
            let joined = string_from_chars(join_path_exec(&chars_of(c.as_str()), &p));
            normalize(joined.as_str())
        },
    }
}

} // verus!
