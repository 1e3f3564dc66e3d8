//! Generic text/path-token normalization (no repository or VCS semantics).

use vstd::prelude::*;
use crate::chars::{
    ascii_lower_seq, ascii_lower_vec, chars_of, replace_char, replace_char_exec, string_from_chars,
    trim, trim_exec,
};

verus! {

/// How to transform letter case in a comparison key or token.
///
/// Case folding is not proof of filesystem identity.
#[derive(Debug, Clone, Copy, PartialEq, Eq, Structural)]
#[non_exhaustive]
pub enum CaseNormalization {
    /// Leave case unchanged.
    Preserve,
    /// ASCII A–Z → a–z only.
    AsciiLowercase,
    /// Unicode lowercase mapping (`str::to_lowercase`).
    UnicodeLowercase,
    /// Platform-oriented default: ASCII lowercase on Windows; preserve elsewhere.
    /// The host is not Windows, so this preserves case.
    PlatformDefault,
}

impl Default for CaseNormalization {
    fn default() -> (r: Self)
        ensures
            r == CaseNormalization::Preserve,
    {
        CaseNormalization::Preserve
    }
}

/// The full Unicode lowercase mapping of a text, as `str::to_lowercase` computes it.
pub uninterp spec fn unicode_lowercase(s: Seq<char>) -> Seq<char>;

/// Unicode lowercase of a text.
///
/// Calls `str::to_lowercase`, whose result depends on the text alone; the
/// contract names that result without describing the Unicode tables.
#[verifier::external_body]
fn to_unicode_lowercase(value: &str) -> (r: String)
    ensures
        r@ == unicode_lowercase(value@),
{
    value.to_lowercase()
}

/// The text a case policy makes of `value`.
pub open spec fn apply_case(case: CaseNormalization, value: Seq<char>) -> Seq<char> {
    match case {
        CaseNormalization::Preserve => value,
        CaseNormalization::AsciiLowercase => ascii_lower_seq(value),
        CaseNormalization::UnicodeLowercase => unicode_lowercase(value),
        CaseNormalization::PlatformDefault => value,
    }
}

impl CaseNormalization {
    /// Apply this case policy to `value`.
    pub fn apply(self, value: &str) -> (r: String)
        ensures
            r@ == apply_case(self, value@),
    {
        match self {
            CaseNormalization::Preserve => value.to_owned(),
            CaseNormalization::AsciiLowercase => {
                let cs = chars_of(value);
                string_from_chars(ascii_lower_vec(&cs))
            },
            CaseNormalization::UnicodeLowercase => to_unicode_lowercase(value),
            CaseNormalization::PlatformDefault => value.to_owned(),
        }
    }
}

/// Options for generic path/token string normalization.
#[derive(Debug, Clone, Copy, PartialEq, Eq, Structural)]
pub struct TextNormalizationOptions {
    /// Trim leading and trailing Unicode whitespace.
    pub trim_whitespace: bool,
    /// Strip trailing `/` and `\` characters.
    pub trim_trailing_separators: bool,
    /// Rewrite `\` to `/` and collapse repeated `/` for separator-normalized comparison.
    pub normalize_separators: bool,
    /// Case policy for the result.
    pub case: CaseNormalization,
}

impl Default for TextNormalizationOptions {
    fn default() -> (r: Self)
        ensures
            r.trim_whitespace && r.trim_trailing_separators && r.normalize_separators,
            r.case == CaseNormalization::Preserve,
    {
        TextNormalizationOptions {
            trim_whitespace: true,
            trim_trailing_separators: true,
            normalize_separators: true,
            case: CaseNormalization::Preserve,
        }
    }
}

impl TextNormalizationOptions {
    /// Create default options.
    pub fn new() -> (r: Self)
        ensures
            r.trim_whitespace && r.trim_trailing_separators && r.normalize_separators,
            r.case == CaseNormalization::Preserve,
    {
        Self::default()
    }
}

/// Whether `c` is a path separator (`/` or `\`).
pub open spec fn is_sep(c: char) -> bool {
    c == '/' || c == '\\'
}

/// `s` without its trailing separators.
pub open spec fn trim_trailing_seps(s: Seq<char>) -> Seq<char>
    decreases s.len(),
{
    if s.len() > 0 && is_sep(s.last()) {
        trim_trailing_seps(s.drop_last())
    } else {
        s
    }
}

/// `s` with every run of `/` written as a single `/`.
pub open spec fn collapse_slashes(s: Seq<char>) -> Seq<char>
    decreases s.len(),
{
    if s.len() == 0 {
        s
    } else {
        let c = collapse_slashes(s.drop_last());
        if s.last() == '/' && c.len() > 0 && c.last() == '/' {
            c
        } else {
            c.push(s.last())
        }
    }
}

/// `s` without its trailing separators.
pub fn trim_trailing_seps_exec(s: &Vec<char>) -> (r: Vec<char>)
    ensures
        r@ == trim_trailing_seps(s@),
{
    let mut end: usize = s.len();
    assert(s@.take(end as int) =~= s@);
    while end > 0 && (s[end - 1] == '/' || s[end - 1] == '\\')
        invariant
            end <= s.len(),
            trim_trailing_seps(s@) == trim_trailing_seps(s@.take(end as int)),
        decreases end,
    {
        assert(s@.take(end as int).drop_last() =~= s@.take(end - 1));
        end = end - 1;
    }
    assert(s@.take(end as int).len() == 0 || !is_sep(s@.take(end as int).last()));
    crate::chars::sub_chars(s, 0, end)
}

/// `s` with every run of `/` written as a single `/`.
pub fn collapse_slashes_exec(s: &Vec<char>) -> (r: Vec<char>)
    ensures
        r@ == collapse_slashes(s@),
{
    let mut r: Vec<char> = Vec::new();
    let mut i: usize = 0;
    while i < s.len()
        invariant
            i <= s.len(),
            r@ == collapse_slashes(s@.take(i as int)),
        decreases s.len() - i,
    {
        assert(s@.take(i + 1).drop_last() =~= s@.take(i as int));
        let c = s[i];
        if !(c == '/' && r.len() > 0 && r[r.len() - 1] == '/') {
            r.push(c);
        }
        i = i + 1;
    }
    assert(s@.take(s.len() as int) =~= s@);
    r
}

/// The comparison token [`normalize_path_token`] makes of `value`.
pub open spec fn path_token(value: Seq<char>, o: TextNormalizationOptions) -> Seq<char> {
    let a = if o.trim_whitespace { trim(value) } else { value };
    let b = if o.trim_trailing_separators { trim_trailing_seps(a) } else { a };
    let c = if o.normalize_separators { collapse_slashes(replace_char(b, '\\', '/')) } else { b };
    apply_case(o.case, c)
}

/// Normalize a path-like text token for comparison or matching.
///
/// The result is suitable for comparison only — not necessarily a valid filesystem path.
pub fn normalize_path_token(value: &str, options: &TextNormalizationOptions) -> (r: String)
    ensures
        r@ == path_token(value@, *options),
{
    let raw = chars_of(value);
    let a = if options.trim_whitespace { trim_exec(&raw) } else { raw };
    let b = if options.trim_trailing_separators { trim_trailing_seps_exec(&a) } else { a };
    let c = if options.normalize_separators {
        let replaced = replace_char_exec(&b, '\\', '/');
        collapse_slashes_exec(&replaced)
    } else {
        b
    };
    let s = string_from_chars(c);
    options.case.apply(s.as_str())
}

} // verus!
