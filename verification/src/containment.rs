//! Lexical root containment checks.
//!
//! Lexical containment does not account for symbolic links: a path that is
//! lexically inside a root may still resolve outside it on the filesystem.

use vstd::prelude::*;
use crate::chars::chars_of;
use crate::error::{PathError, PathErrorSpec, text_result};
use crate::lexical::{components, lexically_inside, normalized, path_components, components_prefix};
use crate::normalize::{normalize, normalizable, normalize_spec};

verus! {

/// Returns `true` if `path` is lexically equal to or beneath `root`: the
/// components of `root` are the first components of `path`.
///
/// Both paths should already be normalized for reliable results. Prefer
/// [`ensure_inside`] which normalizes first.
pub fn is_lexically_inside(path: &str, root: &str) -> (r: bool)
    ensures
        r == lexically_inside(path@, root@),
{
    let p = chars_of(path);
    let q = chars_of(root);
    let pc = path_components(&p);
    let qc = path_components(&q);
    components_prefix(&qc, &pc)
}

/// What [`ensure_inside`] returns for `root` and `path`.
pub open spec fn ensure_inside_spec(root: Seq<char>, path: Seq<char>) -> Result<Seq<char>, PathErrorSpec> {
    if !normalizable(root) {
        normalize_spec(root)
    } else if !normalizable(path) {
        normalize_spec(path)
    } else if lexically_inside(normalized(path), normalized(root)) {
        Ok(normalized(path))
    } else {
        Err(PathErrorSpec::RootEscape(normalized(path)))
    }
}

/// Normalize both paths and ensure `path` stays inside `root`.
///
/// Returns the normalized path on success. Not symlink-safe.
pub fn ensure_inside(root: &str, path: &str) -> (r: Result<String, PathError>)
    ensures
        text_result(r) == ensure_inside_spec(root@, path@),
        r matches Ok(s) ==> lexically_inside(s@, normalized(root@)),
{
    let root_n = normalize(root)?;
    let path_n = normalize(path)?;
    if is_lexically_inside(path_n.as_str(), root_n.as_str()) {
        Ok(path_n)
    } else {
        Err(PathError::root_escape(path_n.as_str()))
    }
}

/// Every path is lexically inside itself.
pub proof fn lemma_inside_reflexive(p: Seq<char>)
    ensures
        lexically_inside(p, p),
{
    assert(components(p).is_prefix_of(components(p)));
}

/// Lexical containment is transitive.
pub proof fn lemma_inside_transitive(a: Seq<char>, b: Seq<char>, c: Seq<char>)
    requires
        lexically_inside(a, b),
        lexically_inside(b, c),
    ensures
        lexically_inside(a, c),
{
    let ca = components(a);
    let cb = components(b);
    let cc = components(c);
    assert forall|i: int| 0 <= i < cc.len() implies cc[i] == ca[i] by {
        assert(cc[i] == cb[i]);
        assert(cb[i] == ca[i]);
    }
}

} // verus!
