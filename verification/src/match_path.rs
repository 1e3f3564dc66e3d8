//! Executable and command-line path matching (no process or shell execution).

use vstd::prelude::*;
use crate::chars::{
    chars_of, clone_chars, contains_seq, contains_seq_exec, is_ws, is_ws_exec, occurs_at,
    occurs_at_exec, replace_char, replace_char_exec, string_from_chars, trim, trim_exec, views,
    chars_eq,
};
use crate::error::{PathError, PathErrorSpec, bool_result};
use crate::identity::{PathIdentityOptions, identity_key_spec, path_identity_key};
use crate::lexical::{body, has_nul, has_nul_exec, parent_item, path_body, is_parent_exec, lemma_views_push};
use crate::platform::{is_verbatim, simplify_for_display, translate_wsl_path, translate_wsl_spec};
use crate::text::{CaseNormalization, apply_case};

verus! {

/// Options for comparing two executable paths.
#[derive(Debug, Clone, Copy, PartialEq, Eq, Structural)]
pub struct ExecutableMatchOptions {
    /// Key the canonical (symlink-resolved) form of existing paths; see
    /// [`PathIdentityOptions::resolve_existing_symlinks`].
    pub resolve_existing_symlinks: bool,
    /// Compare with ASCII case folding when true; preserve case when false.
    pub normalize_case: bool,
    /// Strip Windows verbatim prefixes for comparison when true.
    pub strip_verbatim_prefix: bool,
}

impl Default for ExecutableMatchOptions {
    fn default() -> (r: Self)
        ensures
            !r.resolve_existing_symlinks && r.normalize_case && r.strip_verbatim_prefix,
    {
        ExecutableMatchOptions {
            resolve_existing_symlinks: false,
            normalize_case: true,
            strip_verbatim_prefix: true,
        }
    }
}

impl ExecutableMatchOptions {
    /// Create default options.
    pub fn new() -> (r: Self)
        ensures
            !r.resolve_existing_symlinks && r.normalize_case && r.strip_verbatim_prefix,
    {
        Self::default()
    }
}

/// The identity options used to compare executables.
pub open spec fn executable_key_options(o: ExecutableMatchOptions) -> PathIdentityOptions {
    PathIdentityOptions {
        normalize_lexically: true,
        normalize_separators: true,
        case: if o.normalize_case { CaseNormalization::AsciiLowercase } else { CaseNormalization::Preserve },
        resolve_existing_symlinks: o.resolve_existing_symlinks,
        strip_windows_verbatim_prefix: o.strip_verbatim_prefix,
        translate_wsl_paths: false,
    }
}

/// What [`executable_paths_match`] returns.
pub open spec fn executable_match_spec(expected: Seq<char>, actual: Seq<char>, o: ExecutableMatchOptions) -> Result<bool, PathErrorSpec> {
    if has_nul(expected) || has_nul(actual) {
        Err(PathErrorSpec::EmbeddedNul)
    } else {
        match identity_key_spec(expected, executable_key_options(o)) {
            Err(e) => Err(e),
            Ok(a) => match identity_key_spec(actual, executable_key_options(o)) {
                Err(e) => Err(e),
                Ok(b) => Ok(a == b),
            },
        }
    }
}

/// Returns true if two executable paths have the same identity key:
/// lexically normalized, separators unified, and ASCII case folded when asked.
pub fn executable_paths_match(expected: &str, actual: &str, options: ExecutableMatchOptions) -> (r: Result<bool, PathError>)
    ensures
        bool_result(r) == executable_match_spec(expected@, actual@, options),
{
    let e = chars_of(expected);
    let a = chars_of(actual);
    if has_nul_exec(&e) || has_nul_exec(&a) {
        return Err(PathError::EmbeddedNul);
    }
    let case = if options.normalize_case { CaseNormalization::AsciiLowercase } else { CaseNormalization::Preserve };
    let identity = PathIdentityOptions {
        normalize_lexically: true,
        normalize_separators: true,
        case,
        resolve_existing_symlinks: options.resolve_existing_symlinks,
        strip_windows_verbatim_prefix: options.strip_verbatim_prefix,
        translate_wsl_paths: false,
    };
    let ka = path_identity_key(expected, identity)?;
    let kb = path_identity_key(actual, identity)?;
    let ca = chars_of(ka.as_str());
    let cb = chars_of(kb.as_str());
    Ok(chars_eq(&ca, &cb))
}

/// Options for detecting a path inside a command-line string.
#[derive(Debug, Clone, Copy, PartialEq, Eq, Structural)]
pub struct CommandLinePathMatchOptions {
    /// Compare with ASCII case folding when true.
    pub case_insensitive: bool,
    /// Normalize `\` and `/` before matching.
    pub normalize_separators: bool,
    /// Parse double- and single-quoted tokens.
    pub support_quotes: bool,
    /// Translate `/mnt/<drive>/...` paths before matching.
    pub support_wsl_translation: bool,
    /// Also match the path basename as a token (intentionally fuzzy).
    pub match_basename: bool,
    /// Require path separators at token boundaries (reduces `repo` vs `repository` false positives).
    pub require_component_boundary: bool,
}

impl Default for CommandLinePathMatchOptions {
    /// Defaults for the host (not Windows): case-sensitive comparison.
    fn default() -> (r: Self)
        ensures
            !r.case_insensitive && r.normalize_separators && r.support_quotes,
            !r.support_wsl_translation && !r.match_basename && r.require_component_boundary,
    {
        CommandLinePathMatchOptions {
            case_insensitive: false,
            normalize_separators: true,
            support_quotes: true,
            support_wsl_translation: false,
            match_basename: false,
            require_component_boundary: true,
        }
    }
}

impl CommandLinePathMatchOptions {
    /// Create default options.
    pub fn new() -> (r: Self)
        ensures
            !r.case_insensitive && r.normalize_separators && r.support_quotes,
            !r.support_wsl_translation && !r.match_basename && r.require_component_boundary,
    {
        Self::default()
    }
}

// ---------------------------------------------------------------------------
// Tokenizer.

/// State of the command-line tokenizer: finished tokens, the current token,
/// inside double quotes, inside single quotes, and a backslash inside double
/// quotes waiting for the next character.
pub struct TokState {
    pub tokens: Seq<Seq<char>>,
    pub cur: Seq<char>,
    pub dq: bool,
    pub sq: bool,
    pub esc: bool,
}

/// The tokenizer's reaction to one character when no backslash is pending.
pub open spec fn tok_plain(st: TokState, c: char) -> TokState {
    if c == '\\' && st.dq {
        TokState { esc: true, ..st }
    } else if c == '"' && !st.sq {
        TokState { dq: !st.dq, ..st }
    } else if c == '\'' && !st.dq {
        TokState { sq: !st.sq, ..st }
    } else if is_ws(c) && !st.dq && !st.sq {
        if st.cur.len() > 0 {
            TokState { tokens: st.tokens.push(st.cur), cur: Seq::empty(), ..st }
        } else {
            st
        }
    } else {
        TokState { cur: st.cur.push(c), ..st }
    }
}

/// The tokenizer's reaction to one character.
pub open spec fn tok_step(st: TokState, c: char) -> TokState {
    if st.esc {
        if c == '"' || c == '\\' {
            TokState { cur: st.cur.push(c), esc: false, ..st }
        } else {
            tok_plain(TokState { cur: st.cur.push('\\'), esc: false, ..st }, c)
        }
    } else {
        tok_plain(st, c)
    }
}

/// Tokenizer state after reading `s`.
pub open spec fn tok_state(s: Seq<char>) -> TokState
    decreases s.len(),
{
    if s.len() == 0 {
        TokState { tokens: Seq::empty(), cur: Seq::empty(), dq: false, sq: false, esc: false }
    } else {
        tok_step(tok_state(s.drop_last()), s.last())
    }
}

/// Whitespace-separated tokens with `"..."` and `'...'` quoting; inside double
/// quotes `\"` and `\\` stand for `"` and `\`.
pub open spec fn tokenize(s: Seq<char>) -> Seq<Seq<char>> {
    let st = tok_state(s);
    let cur = if st.esc { st.cur.push('\\') } else { st.cur };
    if cur.len() > 0 {
        st.tokens.push(cur)
    } else {
        st.tokens
    }
}

/// State of whitespace splitting: finished tokens and the current token.
pub open spec fn ws_state(s: Seq<char>) -> (Seq<Seq<char>>, Seq<char>)
    decreases s.len(),
{
    if s.len() == 0 {
        (Seq::empty(), Seq::empty())
    } else {
        let (toks, cur) = ws_state(s.drop_last());
        if is_ws(s.last()) {
            if cur.len() > 0 {
                (toks.push(cur), Seq::empty())
            } else {
                (toks, cur)
            }
        } else {
            (toks, cur.push(s.last()))
        }
    }
}

/// Whitespace-separated tokens without quoting (as `str::split_whitespace`).
pub open spec fn split_ws(s: Seq<char>) -> Seq<Seq<char>> {
    let (toks, cur) = ws_state(s);
    if cur.len() > 0 {
        toks.push(cur)
    } else {
        toks
    }
}

fn tokenize_exec(s: &Vec<char>) -> (r: Vec<Vec<char>>)
    ensures
        views(r@) == tokenize(s@),
{
    let mut tokens: Vec<Vec<char>> = Vec::new();
    let mut cur: Vec<char> = Vec::new();
    let mut dq = false;
    let mut sq = false;
    let mut esc = false;
    let mut i: usize = 0;
    assert(views(tokens@) =~= Seq::<Seq<char>>::empty());
    assert(cur@ =~= Seq::<char>::empty());
    assert(s@.take(0) =~= Seq::<char>::empty());
    while i < s.len()
        invariant
            i <= s.len(),
            tok_state(s@.take(i as int)) == (TokState { tokens: views(tokens@), cur: cur@, dq, sq, esc }),
        decreases s.len() - i,
    {
        assert(s@.take(i + 1).drop_last() =~= s@.take(i as int));
        let c = s[i];
        let mut plain = true;
        if esc {
            esc = false;
            if c == '"' || c == '\\' {
                cur.push(c);
                plain = false;
            } else {
                cur.push('\\');
            }
        }
        if plain {
            if c == '\\' && dq {
                esc = true;
            } else if c == '"' && !sq {
                dq = !dq;
            } else if c == '\'' && !dq {
                sq = !sq;
            } else if is_ws_exec(c) && !dq && !sq {
                if cur.len() > 0 {
                    let done = cur;
                    proof {
                        lemma_views_push(tokens@, done);
                    }
                    tokens.push(done);
                    cur = Vec::new();
                    assert(cur@ =~= Seq::<char>::empty());
                }
            } else {
                cur.push(c);
            }
        }
        i = i + 1;
    }
    assert(s@.take(s.len() as int) =~= s@);
    if esc {
        cur.push('\\');
    }
    if cur.len() > 0 {
        proof {
            lemma_views_push(tokens@, cur);
        }
        tokens.push(cur);
    }
    tokens
}

fn split_ws_exec(s: &Vec<char>) -> (r: Vec<Vec<char>>)
    ensures
        views(r@) == split_ws(s@),
{
    let mut tokens: Vec<Vec<char>> = Vec::new();
    let mut cur: Vec<char> = Vec::new();
    let mut i: usize = 0;
    while i < s.len()
        invariant
            i <= s.len(),
            ws_state(s@.take(i as int)) == (views(tokens@), cur@),
        decreases s.len() - i,
    {
        assert(s@.take(i + 1).drop_last() =~= s@.take(i as int));
        let c = s[i];
        if is_ws_exec(c) {
            if cur.len() > 0 {
                let done = cur;
                proof {
                    lemma_views_push(tokens@, done);
                }
                tokens.push(done);
                cur = Vec::new();
                assert(cur@ =~= Seq::<char>::empty());
            }
        } else {
            cur.push(c);
        }
        i = i + 1;
    }
    assert(s@.take(s.len() as int) =~= s@);
    if cur.len() > 0 {
        proof {
            lemma_views_push(tokens@, cur);
        }
        tokens.push(cur);
    }
    tokens
}

// ---------------------------------------------------------------------------
// Token comparison.

/// `s` without leading and trailing `q` characters (as `str::trim_matches`).
pub open spec fn trim_char(s: Seq<char>, q: char) -> Seq<char>
    decreases s.len(),
{
    if s.len() > 0 && s[0] == q {
        trim_char(s.drop_first(), q)
    } else if s.len() > 0 && s.last() == q {
        trim_char(s.drop_last(), q)
    } else {
        s
    }
}

fn trim_char_exec(s: &Vec<char>, q: char) -> (r: Vec<char>)
    ensures
        r@ == trim_char(s@, q),
{
    let mut lo: usize = 0;
    let mut hi: usize = s.len();
    assert(s@.subrange(0, s.len() as int) =~= s@);
    while lo < hi && (s[lo] == q || s[hi - 1] == q)
        invariant
            lo <= hi <= s.len(),
            trim_char(s@, q) == trim_char(s@.subrange(lo as int, hi as int), q),
        decreases hi - lo,
    {
        let ghost t = s@.subrange(lo as int, hi as int);
        if s[lo] == q {
            assert(t[0] == q);
            assert(t.drop_first() =~= s@.subrange(lo + 1, hi as int));
            lo = lo + 1;
        } else {
            assert(t.last() == q);
            assert(t.drop_last() =~= s@.subrange(lo as int, hi - 1));
            hi = hi - 1;
        }
    }
    crate::chars::sub_chars(s, lo, hi)
}

/// The comparison form of a token: trimmed, quotes stripped, separators
/// unified when asked, then the case policy.
pub open spec fn prepare_token(s: Seq<char>, o: CommandLinePathMatchOptions, case: CaseNormalization) -> Seq<char> {
    let t = trim_char(trim_char(trim(s), '"'), '\'');
    let u = if o.normalize_separators { replace_char(t, '\\', '/') } else { t };
    apply_case(case, u)
}

fn prepare_token_exec(s: &Vec<char>, o: CommandLinePathMatchOptions, case: CaseNormalization) -> (r: Vec<char>)
    ensures
        r@ == prepare_token(s@, o, case),
{
    let a = trim_exec(s);
    let b = trim_char_exec(&a, '"');
    let c = trim_char_exec(&b, '\'');
    let u = if o.normalize_separators { replace_char_exec(&c, '\\', '/') } else { c };
    let us = string_from_chars(u);
    let r = case.apply(us.as_str());
    chars_of(r.as_str())
}

/// Characters that delimit a path at a component-ish boundary.
pub open spec fn is_boundary_char(c: char) -> bool {
    c == '/' || c == '\\' || c == ' ' || c == '\t' || c == '\n' || c == '\r' || c == '"'
        || c == '\'' || c == '=' || c == ':' || c == ',' || c == ';'
}

fn is_boundary_char_exec(c: char) -> (r: bool)
    ensures
        r == is_boundary_char(c),
{
    c == '/' || c == '\\' || c == ' ' || c == '\t' || c == '\n' || c == '\r' || c == '"'
        || c == '\'' || c == '=' || c == ':' || c == ',' || c == ';'
}

/// `needle` occurs at `i` in `hay` with a boundary (or the text's end) on both sides.
pub open spec fn boundary_occurrence(hay: Seq<char>, needle: Seq<char>, i: int) -> bool {
    &&& occurs_at(hay, needle, i)
    &&& (i == 0 || is_boundary_char(hay[i - 1]))
    &&& (i + needle.len() == hay.len() || is_boundary_char(hay[i + needle.len()]))
}

/// `needle` (non-empty) appears in `hay` at a component-ish boundary.
pub open spec fn boundary_contains(hay: Seq<char>, needle: Seq<char>) -> bool {
    needle.len() > 0 && exists|i: int| boundary_occurrence(hay, needle, i)
}

fn boundary_contains_exec(hay: &Vec<char>, needle: &Vec<char>) -> (r: bool)
    ensures
        r == boundary_contains(hay@, needle@),
{
    if needle.len() == 0 {
        return false;
    }
    let mut i: usize = 0;
    while i < hay.len()
        invariant
            i <= hay.len(),
            needle.len() > 0,
            forall|j: int| 0 <= j < i ==> !boundary_occurrence(hay@, needle@, j),
        decreases hay.len() - i,
    {
        if occurs_at_exec(hay, needle, i) {
            let before_ok = i == 0 || is_boundary_char_exec(hay[i - 1]);
            let end = i + needle.len();
            let after_ok = end == hay.len() || is_boundary_char_exec(hay[end]);
            if before_ok && after_ok {
                assert(boundary_occurrence(hay@, needle@, i as int));
                return true;
            }
        }
        i = i + 1;
    }
    assert forall|j: int| !boundary_occurrence(hay@, needle@, j) by {
        if j >= hay.len() {
            assert(!occurs_at(hay@, needle@, j));
        }
    }
    false
}

/// Whether a prepared token matches a prepared candidate.
pub open spec fn token_matches(token: Seq<char>, cand: Seq<char>, o: CommandLinePathMatchOptions) -> bool {
    token == cand || (if o.require_component_boundary {
        boundary_contains(token, cand)
    } else {
        contains_seq(token, cand)
    })
}

/// Whether the prepared whole line matches a prepared candidate.
pub open spec fn line_matches(line: Seq<char>, cand: Seq<char>, o: CommandLinePathMatchOptions) -> bool {
    if o.require_component_boundary {
        boundary_contains(line, cand)
    } else {
        contains_seq(line, cand)
    }
}

/// The basename matched when `match_basename` is set: the last name of the
/// path with `\` read as a separator too, unless the path ends in `..`.
pub open spec fn basename(path: Seq<char>) -> Option<Seq<char>> {
    let items = body(replace_char(path, '\\', '/'));
    if items.len() > 0 && items.last() != parent_item() {
        Some(items.last())
    } else {
        None
    }
}

/// The identity options used for the lexical key candidate.
pub open spec fn cli_key_options(o: CommandLinePathMatchOptions) -> PathIdentityOptions {
    PathIdentityOptions {
        normalize_lexically: true,
        normalize_separators: true,
        case: if o.case_insensitive { CaseNormalization::AsciiLowercase } else { CaseNormalization::Preserve },
        resolve_existing_symlinks: false,
        strip_windows_verbatim_prefix: true,
        translate_wsl_paths: o.support_wsl_translation,
    }
}

/// The spellings of `path` that are looked for in the command line.
pub open spec fn candidates(path: Seq<char>, o: CommandLinePathMatchOptions) -> Result<Seq<Seq<char>>, PathErrorSpec> {
    let c1 = if o.normalize_separators {
        seq![path, replace_char(path, '\\', '/'), replace_char(path, '/', '\\')]
    } else {
        seq![path]
    };
    let c2 = if o.support_wsl_translation {
        match translate_wsl_spec(path) {
            Ok(Some(w)) => c1 + seq![w, replace_char(w, '\\', '/')],
            _ => c1,
        }
    } else {
        c1
    };
    match identity_key_spec(path, cli_key_options(o)) {
        Err(e) => Err(e),
        Ok(key) => {
            let c3 = c2.push(key);
            if o.match_basename {
                match basename(path) {
                    Some(b) => Ok(c3.push(b)),
                    None => Ok(c3),
                }
            } else {
                Ok(c3)
            }
        },
    }
}

/// The case policy used for command-line matching.
pub open spec fn cli_case(o: CommandLinePathMatchOptions) -> CaseNormalization {
    if o.case_insensitive { CaseNormalization::AsciiLowercase } else { CaseNormalization::Preserve }
}

/// The tokens of a command line.
pub open spec fn cli_tokens(cmd: Seq<char>, o: CommandLinePathMatchOptions) -> Seq<Seq<char>> {
    if o.support_quotes { tokenize(cmd) } else { split_ws(cmd) }
}

/// Whether some candidate matches some token or the whole line.
pub open spec fn cli_found(cmd: Seq<char>, cands: Seq<Seq<char>>, o: CommandLinePathMatchOptions) -> bool {
    let case = cli_case(o);
    let toks = cli_tokens(cmd, o);
    ||| exists|t: int, c: int|
        0 <= t < toks.len() && 0 <= c < cands.len()
            && prepare_token(#[trigger] cands[c], o, case).len() > 0
            && token_matches(prepare_token(#[trigger] toks[t], o, case), prepare_token(cands[c], o, case), o)
    ||| exists|c: int|
        0 <= c < cands.len() && prepare_token(#[trigger] cands[c], o, case).len() > 0
            && line_matches(prepare_token(cmd, o, case), prepare_token(cands[c], o, case), o)
}

/// What [`command_line_contains_path`] returns.
pub open spec fn command_line_spec(cmd: Seq<char>, path: Seq<char>, o: CommandLinePathMatchOptions) -> Result<bool, PathErrorSpec> {
    if has_nul(path) {
        Err(PathErrorSpec::EmbeddedNul)
    } else if path.len() == 0 {
        Err(PathErrorSpec::EmptyInput)
    } else {
        match candidates(path, o) {
            Err(e) => Err(e),
            Ok(cands) => Ok(cli_found(cmd, cands, o)),
        }
    }
}

fn push_chars(v: &mut Vec<Vec<char>>, x: Vec<char>)
    ensures
        views(final(v)@) == views(old(v)@).push(x@),
{
    proof {
        lemma_views_push(v@, x);
    }
    v.push(x);
}

fn basename_exec(path: &Vec<char>) -> (r: Option<Vec<char>>)
    ensures
        match basename(path@) {
            Some(b) => r matches Some(x) && x@ == b,
            None => r is None,
        },
{
    let unified = replace_char_exec(path, '\\', '/');
    let items = path_body(&unified);
    if items.len() > 0 && !is_parent_exec(&items[items.len() - 1]) {
        Some(clone_chars(&items[items.len() - 1]))
    } else {
        None
    }
}

fn candidates_exec(path: &str, o: CommandLinePathMatchOptions) -> (r: Result<Vec<Vec<char>>, PathError>)
    ensures
        match candidates(path@, o) {
            Err(e) => r matches Err(err) && err@ == e,
            Ok(cs) => r matches Ok(v) && views(v@) == cs,
        },
{
    let p = chars_of(path);
    let mut cands: Vec<Vec<char>> = Vec::new();
    push_chars(&mut cands, clone_chars(&p));
    if o.normalize_separators {
        push_chars(&mut cands, replace_char_exec(&p, '\\', '/'));
        push_chars(&mut cands, replace_char_exec(&p, '/', '\\'));
    }
    if is_verbatim(path) {
        let simplified = simplify_for_display(path);
        let sc = chars_of(simplified.as_str());
        push_chars(&mut cands, clone_chars(&sc));
        if o.normalize_separators {
            push_chars(&mut cands, replace_char_exec(&sc, '\\', '/'));
        }
    }
    if o.support_wsl_translation {
        match translate_wsl_path(path) {
            Ok(Some(w)) => {
                let wc = chars_of(w.as_str());
                push_chars(&mut cands, clone_chars(&wc));
                push_chars(&mut cands, replace_char_exec(&wc, '\\', '/'));
            },
            _ => {},
        }
    }
    let case = if o.case_insensitive { CaseNormalization::AsciiLowercase } else { CaseNormalization::Preserve };
    let key = path_identity_key(
        path,
        PathIdentityOptions {
            normalize_lexically: true,
            normalize_separators: true,
            case,
            resolve_existing_symlinks: false,
            strip_windows_verbatim_prefix: true,
            translate_wsl_paths: o.support_wsl_translation,
        },
    )?;
    push_chars(&mut cands, chars_of(key.as_str()));
    if o.match_basename {
        match basename_exec(&p) {
            Some(b) => push_chars(&mut cands, b),
            None => {},
        }
    }
    proof {
        let c1 = if o.normalize_separators {
            seq![path@, replace_char(path@, '\\', '/'), replace_char(path@, '/', '\\')]
        } else {
            seq![path@]
        };
        assert(c1 =~= c1);
    }
    Ok(cands)
}

/// Returns true if `command_line` appears to reference `path`.
///
/// A heuristic matcher for tooling, not a shell parser; nothing is executed.
/// The path's spellings (as given, with either separator, WSL-translated when
/// asked, its lexical identity key, and its basename when asked) are looked for
/// in each token and in the whole line, at component boundaries when asked.
#[verifier::loop_isolation(false)]
pub fn command_line_contains_path(command_line: &str, path: &str, options: CommandLinePathMatchOptions) -> (r: Result<bool, PathError>)
    ensures
        bool_result(r) == command_line_spec(command_line@, path@, options),
{
    let p = chars_of(path);
    if has_nul_exec(&p) {
        return Err(PathError::EmbeddedNul);
    }
    if p.len() == 0 {
        return Err(PathError::EmptyInput);
    }
    let cands = candidates_exec(path, options)?;
    let case = if options.case_insensitive { CaseNormalization::AsciiLowercase } else { CaseNormalization::Preserve };
    let cmd = chars_of(command_line);
    let tokens = if options.support_quotes { tokenize_exec(&cmd) } else { split_ws_exec(&cmd) };
    let ghost cs = views(cands@);
    let ghost ts = views(tokens@);
    let mut t: usize = 0;
    while t < tokens.len()
        invariant
            t <= tokens.len(),
            cs == views(cands@),
            ts == views(tokens@),
            ts == cli_tokens(command_line@, options),
            case == cli_case(options),
            forall|tt: int, c: int|
                0 <= tt < t && 0 <= c < cs.len() ==> !(prepare_token(#[trigger] cs[c], options, case).len() > 0
                    && token_matches(prepare_token(#[trigger] ts[tt], options, case), prepare_token(cs[c], options, case), options)),
        decreases tokens.len() - t,
    {
        let token_text = prepare_token_exec(&tokens[t], options, case);
        let mut c: usize = 0;
        while c < cands.len()
            invariant
                t < tokens.len(),
                c <= cands.len(),
                cs == views(cands@),
                ts == views(tokens@),
                token_text@ == prepare_token(ts[t as int], options, case),
                forall|tt: int, cc: int|
                    0 <= tt < t && 0 <= cc < cs.len() ==> !(prepare_token(#[trigger] cs[cc], options, case).len() > 0
                        && token_matches(prepare_token(#[trigger] ts[tt], options, case), prepare_token(cs[cc], options, case), options)),
                forall|cc: int|
                    0 <= cc < c ==> !(prepare_token(#[trigger] cs[cc], options, case).len() > 0
                        && token_matches(token_text@, prepare_token(cs[cc], options, case), options)),
            decreases cands.len() - c,
        {
            let cand_text = prepare_token_exec(&cands[c], options, case);
            if cand_text.len() > 0 {
                let hit = chars_eq(&token_text, &cand_text) || (if options.require_component_boundary {
                    boundary_contains_exec(&token_text, &cand_text)
                } else {
                    contains_seq_exec(&token_text, &cand_text)
                });
                if hit {
                    assert(prepare_token(cs[c as int], options, case).len() > 0
                        && token_matches(prepare_token(ts[t as int], options, case), prepare_token(cs[c as int], options, case), options));
                    return Ok(true);
                }
            }
            c = c + 1;
        }
        t = t + 1;
    }
    let line = prepare_token_exec(&cmd, options, case);
    let mut c: usize = 0;
    while c < cands.len()
        invariant
            c <= cands.len(),
            cs == views(cands@),
            line@ == prepare_token(command_line@, options, case),
            forall|cc: int|
                0 <= cc < c ==> !(prepare_token(#[trigger] cs[cc], options, case).len() > 0
                    && line_matches(line@, prepare_token(cs[cc], options, case), options)),
        decreases cands.len() - c,
    {
        let cand_text = prepare_token_exec(&cands[c], options, case);
        if cand_text.len() > 0 {
            let hit = if options.require_component_boundary {
                boundary_contains_exec(&line, &cand_text)
            } else {
                contains_seq_exec(&line, &cand_text)
            };
            if hit {
                assert(prepare_token(cs[c as int], options, case).len() > 0
                    && line_matches(prepare_token(command_line@, options, case), prepare_token(cs[c as int], options, case), options));
                return Ok(true);
            }
        }
        c = c + 1;
    }
    Ok(false)
}

/// Executable matching is symmetric: swapping the two paths gives the same answer.
pub proof fn lemma_executable_match_symmetric(a: Seq<char>, b: Seq<char>, o: ExecutableMatchOptions)
    requires
        executable_match_spec(a, b, o) is Ok,
    ensures
        executable_match_spec(b, a, o) == executable_match_spec(a, b, o),
{
}

/// A path always matches itself as an executable when its key can be made.
pub proof fn lemma_executable_match_reflexive(a: Seq<char>, o: ExecutableMatchOptions)
    requires
        !has_nul(a),
        identity_key_spec(a, executable_key_options(o)) is Ok,
    ensures
        executable_match_spec(a, a, o) == Ok::<bool, PathErrorSpec>(true),
{
}

/// An occurrence at a component boundary is an occurrence.
proof fn lemma_boundary_contains_is_contains(hay: Seq<char>, needle: Seq<char>)
    requires
        boundary_contains(hay, needle),
    ensures
        contains_seq(hay, needle),
{
    let i = choose|i: int| boundary_occurrence(hay, needle, i);
    assert(occurs_at(hay, needle, i));
}

/// Dropping the component-boundary requirement only adds matches: a path
/// found in a command line with the requirement is found without it.
pub proof fn lemma_dropping_boundary_only_adds_matches(cmd: Seq<char>, path: Seq<char>, o: CommandLinePathMatchOptions)
    requires
        o.require_component_boundary,
        command_line_spec(cmd, path, o) == Ok::<bool, PathErrorSpec>(true),
    ensures
        command_line_spec(cmd, path, CommandLinePathMatchOptions { require_component_boundary: false, ..o })
            == Ok::<bool, PathErrorSpec>(true),
{
    let o2 = CommandLinePathMatchOptions { require_component_boundary: false, ..o };
    assert(cli_key_options(o2) == cli_key_options(o));
    assert(candidates(path, o2) == candidates(path, o));
    let cands = candidates(path, o)->Ok_0;
    let case = cli_case(o);
    assert(cli_case(o2) == case);
    let toks = cli_tokens(cmd, o);
    assert(cli_tokens(cmd, o2) == toks);
    assert(cli_found(cmd, cands, o));
    if exists|t: int, c: int|
        0 <= t < toks.len() && 0 <= c < cands.len()
            && prepare_token(#[trigger] cands[c], o, case).len() > 0
            && token_matches(prepare_token(#[trigger] toks[t], o, case), prepare_token(cands[c], o, case), o) {
        let (t, c) = choose|t: int, c: int|
            0 <= t < toks.len() && 0 <= c < cands.len()
                && prepare_token(#[trigger] cands[c], o, case).len() > 0
                && token_matches(prepare_token(#[trigger] toks[t], o, case), prepare_token(cands[c], o, case), o);
        let tk = prepare_token(toks[t], o, case);
        let cd = prepare_token(cands[c], o, case);
        assert(prepare_token(toks[t], o2, case) == tk);
        assert(prepare_token(cands[c], o2, case) == cd);
        if tk != cd {
            lemma_boundary_contains_is_contains(tk, cd);
        }
        assert(token_matches(prepare_token(toks[t], o2, case), prepare_token(cands[c], o2, case), o2));
    } else {
        let c = choose|c: int|
            0 <= c < cands.len() && prepare_token(#[trigger] cands[c], o, case).len() > 0
                && line_matches(prepare_token(cmd, o, case), prepare_token(cands[c], o, case), o);
        let ln = prepare_token(cmd, o, case);
        let cd = prepare_token(cands[c], o, case);
        assert(prepare_token(cmd, o2, case) == ln);
        assert(prepare_token(cands[c], o2, case) == cd);
        lemma_boundary_contains_is_contains(ln, cd);
        assert(line_matches(prepare_token(cmd, o2, case), prepare_token(cands[c], o2, case), o2));
    }
}

/// For paths already in identity-key form (such as `/usr/bin/Tool`), matching
/// is plain text equality without case folding, and ASCII case-insensitive
/// equality with it: without folding, paths that differ only in letter case
/// do not match.
pub proof fn lemma_key_form_paths_match_exactly(a: Seq<char>, b: Seq<char>, o: ExecutableMatchOptions)
    requires
        crate::identity::key_form(a),
        crate::identity::key_form(b),
    ensures
        executable_match_spec(a, b, o) == Ok::<bool, PathErrorSpec>(
            if o.normalize_case {
                crate::chars::ascii_lower_seq(a) == crate::chars::ascii_lower_seq(b)
            } else {
                a == b
            },
        ),
{
    crate::identity::lemma_key_form_is_own_key(a, executable_key_options(o));
    crate::identity::lemma_key_form_is_own_key(b, executable_key_options(o));
    assert(!has_nul(a) && !has_nul(b));
}

/// The character a command-line text holds after token preparation (no trim
/// applies): `\` read as `/` when separators are unified, then the case policy.
pub open spec fn prepared_char(c: char, o: CommandLinePathMatchOptions) -> char {
    let u = if o.normalize_separators && c == '\\' { '/' } else { c };
    if o.case_insensitive { crate::chars::ascii_lower(u) } else { u }
}

/// Whether a character is neither whitespace nor a quote, so that token
/// preparation does not trim it at an end of a text.
pub open spec fn untrimmed_end(c: char) -> bool {
    !crate::chars::is_ws(c) && c != '"' && c != '\''
}

proof fn lemma_prepare_untrimmed(t: Seq<char>, o: CommandLinePathMatchOptions)
    requires
        t.len() > 0,
        untrimmed_end(t[0]),
        untrimmed_end(t.last()),
    ensures
        prepare_token(t, o, cli_case(o)) == t.map_values(|c: char| prepared_char(c, o)),
{
    assert(crate::chars::lead_ws(t) == 0);
    assert(t.skip(0) =~= t);
    assert(trim(t) == t);
    assert(trim_char(t, '"') == t);
    assert(trim_char(t, '\'') == t);
    let u = if o.normalize_separators { replace_char(t, '\\', '/') } else { t };
    assert(apply_case(cli_case(o), u) =~= t.map_values(|c: char| prepared_char(c, o)));
}

/// A path written after `=` at the end of a command line (as in
/// `tool --root=/repo`) is found there, with or without component boundaries:
/// `=` delimits a path. It holds for every path the matcher accepts whose
/// ends are neither whitespace nor quotes, after any text that does not start
/// with whitespace or a quote.
pub proof fn lemma_path_after_equals_is_found(pre: Seq<char>, p: Seq<char>, o: CommandLinePathMatchOptions)
    requires
        pre.len() > 0,
        untrimmed_end(pre[0]),
        p.len() > 0,
        untrimmed_end(p[0]),
        untrimmed_end(p.last()),
        command_line_spec(pre + seq!['='] + p, p, o) is Ok,
    ensures
        command_line_spec(pre + seq!['='] + p, p, o) == Ok::<bool, PathErrorSpec>(true),
{
    let cmd = pre + seq!['='] + p;
    let cands = candidates(p, o)->Ok_0;
    assert(candidates(p, o) is Ok);
    assert(cands.len() > 0 && cands[0] == p);
    let case = cli_case(o);
    assert(cmd[0] == pre[0]);
    assert(cmd.last() == p.last());
    lemma_prepare_untrimmed(cmd, o);
    lemma_prepare_untrimmed(p, o);
    let hay = prepare_token(cmd, o, case);
    let needle = prepare_token(p, o, case);
    let i: int = pre.len() as int + 1;
    assert(hay.len() == cmd.len());
    assert(needle.len() == p.len());
    assert(hay.subrange(i, i + needle.len()) =~= needle);
    assert(hay[i - 1] == prepared_char('=', o));
    assert(hay[i - 1] == '=');
    assert(occurs_at(hay, needle, i));
    assert(boundary_occurrence(hay, needle, i));
    assert(line_matches(hay, needle, o));
    assert(needle.len() > 0);
    assert(0 <= 0 < cands.len() && prepare_token(cands[0], o, case).len() > 0
        && line_matches(prepare_token(cmd, o, case), prepare_token(cands[0], o, case), o));
    assert(cli_found(cmd, cands, o));
}

} // verus!
