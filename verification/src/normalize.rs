//! Lexical path normalization.
//!
//! [`normalize`] is lexical: it never looks at the filesystem and does not follow
//! symbolic links.

use vstd::prelude::*;
use crate::chars::{chars_of, string_from_chars};
use crate::error::{PathError, PathErrorSpec, text_result};
use crate::lexical::{
    has_nul, has_nul_exec, has_root, has_root_exec, normalize_items, normalized, path_body, render_exec,
    lemma_normalized_idempotent, lemma_normalized_no_nul, components, parent_item, root_item, body, norm_items,
    lemma_body_ok, lemma_norm_items_normal, lemma_parse_render,
};

verus! {

/// What [`normalize`] returns for the path text `p`.
pub open spec fn normalize_spec(p: Seq<char>) -> Result<Seq<char>, PathErrorSpec> {
    if has_nul(p) {
        Err(PathErrorSpec::EmbeddedNul)
    } else if p.len() == 0 {
        Err(PathErrorSpec::EmptyInput)
    } else {
        Ok(normalized(p))
    }
}

/// Whether [`normalize`] accepts the path text `p`.
pub open spec fn normalizable(p: Seq<char>) -> bool {
    !has_nul(p) && p.len() > 0
}

/// Normalizes a path held as characters.
pub fn normalize_chars(p: &Vec<char>) -> (r: Result<Vec<char>, PathError>)
    ensures
        match r {
            Ok(s) => normalize_spec(p@) == Ok::<Seq<char>, PathErrorSpec>(s@),
            Err(e) => normalize_spec(p@) == Err::<Seq<char>, PathErrorSpec>(e@),
        },
{
    if has_nul_exec(p) {
        return Err(PathError::EmbeddedNul);
    }
    if p.len() == 0 {
        return Err(PathError::EmptyInput);
    }
    let abs = has_root_exec(p);
    let items = path_body(p);
    let out = normalize_items(abs, &items);
    Ok(render_exec(abs, &out))
}

/// Lexically normalize a path without accessing the filesystem.
///
/// Collapses `.`, resolves `..` where possible, and removes empty segments
/// produced by repeated separators. Leading `..` components on relative paths
/// are preserved. Absolute paths that would escape the root via `..` stop at
/// the root. An empty result of a relative path is `.`.
pub fn normalize(path: &str) -> (r: Result<String, PathError>)
    ensures
        text_result(r) == normalize_spec(path@),
{
    let p = chars_of(path);
    match normalize_chars(&p) {
        Ok(out) => Ok(string_from_chars(out)),
        Err(e) => Err(e),
    }
}

/// Normalization is idempotent: a normalized path is accepted again and
/// normalizes to itself.
pub proof fn lemma_normalize_idempotent(p: Seq<char>)
    requires
        normalizable(p),
    ensures
        normalizable(normalized(p)),
        normalized(normalized(p)) == normalized(p),
{
    lemma_normalized_idempotent(p);
    lemma_normalized_no_nul(p);
}

/// Normalizing an absolute path keeps it absolute and never leaves a `..`
/// component: a path cannot climb above the root.
pub proof fn lemma_normalize_absolute_stays_under_root(p: Seq<char>)
    requires
        normalizable(p),
        has_root(p),
    ensures
        has_root(normalized(p)),
        forall|i: int| 0 <= i < components(normalized(p)).len() ==> #[trigger] components(normalized(p))[i] != parent_item(),
{
    lemma_body_ok(p);
    lemma_norm_items_normal(true, body(p));
    let n = norm_items(true, body(p));
    lemma_parse_render(true, n);
    let c = components(normalized(p));
    assert(c == seq![root_item()] + n);
    assert forall|i: int| 0 <= i < c.len() implies #[trigger] c[i] != parent_item() by {
        if i > 0 {
            assert(c[i] == n[i - 1]);
        } else {
            assert(c[0] == root_item());
            assert(root_item() != parent_item()) by {
                assert(root_item()[0] != parent_item()[0]);
            }
        }
    }
}

} // verus!
