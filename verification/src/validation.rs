//! Input validation helpers: application names and hidden entry names.

use vstd::prelude::*;
use crate::chars::{chars_of, contains_char, contains_seq, contains_seq_exec, extend_chars, extend_str, string_from_chars};
use crate::error::{PathError, PathErrorSpec};
use crate::lexical::{has_nul, has_nul_exec};
use crate::platform::{is_reserved_name, is_reserved_windows_name};

verus! {

/// The message of the error an application name is rejected with, if any.
///
/// Rules, checked in this order: non-empty, no NUL, no path separators, not
/// `.` or `..`, no `..` anywhere, not a Windows reserved device name.
pub open spec fn app_name_problem(n: Seq<char>) -> Option<Seq<char>> {
    if n.len() == 0 {
        Some("application name must not be empty"@)
    } else if has_nul(n) {
        Some("application name must not contain NUL"@)
    } else if n.contains('/') || n.contains('\\') {
        Some("application name must not contain path separators"@)
    } else if n == seq!['.'] || n == seq!['.', '.'] {
        Some("application name must not be '.' or '..'"@)
    } else if contains_seq(n, seq!['.', '.']) {
        Some("application name must not contain '..'"@)
    } else if is_reserved_name(n) {
        Some("application name collides with a Windows reserved name: "@ + n)
    } else {
        None
    }
}

/// Validate an application name used when building platform subdirectories.
///
/// A name without separators that is neither `.` nor `..` is a single path
/// component, so the rules of [`app_name_problem`] are all that is checked.
pub fn validate_app_name(app_name: &str) -> (r: Result<(), PathError>)
    ensures
        match app_name_problem(app_name@) {
            None => r is Ok,
            Some(m) => r matches Err(e) && e@ == PathErrorSpec::InvalidAppName(m),
        },
{
    proof {
        reveal_strlit("application name must not be empty");
        reveal_strlit("application name must not contain NUL");
        reveal_strlit("application name must not contain path separators");
        reveal_strlit("application name must not be '.' or '..'");
        reveal_strlit("application name must not contain '..'");
        reveal_strlit("application name collides with a Windows reserved name: ");
    }
    let n = chars_of(app_name);
    if n.len() == 0 {
        return Err(PathError::InvalidAppName { message: "application name must not be empty".to_owned() });
    }
    if has_nul_exec(&n) {
        return Err(PathError::InvalidAppName { message: "application name must not contain NUL".to_owned() });
    }
    if contains_char(&n, '/') || contains_char(&n, '\\') {
        return Err(PathError::InvalidAppName {
            message: "application name must not contain path separators".to_owned(),
        });
    }
    let is_dot = n.len() == 1 && n[0] == '.';
    let is_dotdot = n.len() == 2 && n[0] == '.' && n[1] == '.';
    assert(is_dot == (n@ == seq!['.'])) by {
        if n@ == seq!['.'] {
            assert(n@[0] == '.');
        }
        if is_dot {
            assert(n@ =~= seq!['.']);
        }
    }
    assert(is_dotdot == (n@ == seq!['.', '.'])) by {
        if n@ == seq!['.', '.'] {
            assert(n@[0] == '.' && n@[1] == '.');
        }
        if is_dotdot {
            assert(n@ =~= seq!['.', '.']);
        }
    }
    if is_dot || is_dotdot {
        return Err(PathError::InvalidAppName {
            message: "application name must not be '.' or '..'".to_owned(),
        });
    }
    let mut dd: Vec<char> = Vec::new();
    dd.push('.');
    dd.push('.');
    assert(dd@ =~= seq!['.', '.']);
    if contains_seq_exec(&n, &dd) {
        return Err(PathError::InvalidAppName { message: "application name must not contain '..'".to_owned() });
    }
    if is_reserved_windows_name(app_name) {
        let mut m: Vec<char> = Vec::new();
        extend_str(&mut m, "application name collides with a Windows reserved name: ");
        extend_chars(&mut m, &n);
        return Err(PathError::InvalidAppName { message: string_from_chars(m) });
    }
    Ok(())
}

/// Whether an entry name counts as hidden: it starts with `.`.
pub open spec fn is_hidden_spec(name: Seq<char>) -> bool {
    name.len() > 0 && name[0] == '.'
}

/// True if the path component name should be treated as hidden.
pub fn is_hidden_name(name: &str) -> (r: bool)
    ensures
        r == is_hidden_spec(name@),
{
    let n = chars_of(name);
    n.len() > 0 && n[0] == '.'
}

} // verus!
