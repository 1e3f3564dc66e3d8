//! User path input expansion: `~`, `%VAR%`, `$VAR`, `${VAR}`, and optional WSL translation.
//!
//! Expansion never invokes a shell, never expands `$(...)` or backticks, and
//! reads variables from an explicit [`Environment`] snapshot.

use vstd::prelude::*;
use crate::chars::{
    chars_eq, chars_of, clone_chars, extend_chars, extend_str, skip_chars, string_from_chars,
    sub_chars, trim, trim_exec,
};
use crate::error::{PathError, PathErrorSpec, text_result};
use crate::lexical::{has_nul, has_nul_exec};
use crate::platform::{translate_wsl_path, translate_wsl_spec};

verus! {

/// The value of an environment variable.
#[derive(Debug)]
pub enum EnvValue {
    /// A value that is valid Unicode.
    Unicode(String),
    /// A value that is not valid Unicode.
    NotUnicode,
}

/// A snapshot of environment variables, looked up by exact name.
#[derive(Debug)]
pub struct Environment {
    vars: Vec<(String, EnvValue)>,
}

/// What looking a name up in an environment gives.
pub enum Lookup {
    NotPresent,
    Value(Seq<char>),
    NotUnicode,
}

/// The view of a variable's value: `None` when it is not Unicode.
pub open spec fn value_view(v: EnvValue) -> Option<Seq<char>> {
    match v {
        EnvValue::Unicode(s) => Some(s@),
        EnvValue::NotUnicode => None,
    }
}

/// The view of one environment entry.
pub open spec fn entry_view(e: (String, EnvValue)) -> (Seq<char>, Option<Seq<char>>) {
    (e.0@, value_view(e.1))
}

impl View for Environment {
    type V = Seq<(Seq<char>, Option<Seq<char>>)>;

    closed spec fn view(&self) -> Seq<(Seq<char>, Option<Seq<char>>)> {
        self.vars@.map_values(|e: (String, EnvValue)| entry_view(e))
    }
}

/// The first entry for `name` in `env`.
pub open spec fn env_lookup(env: Seq<(Seq<char>, Option<Seq<char>>)>, name: Seq<char>) -> Lookup
    decreases env.len(),
{
    if env.len() == 0 {
        Lookup::NotPresent
    } else if env[0].0 == name {
        match env[0].1 {
            Some(v) => Lookup::Value(v),
            None => Lookup::NotUnicode,
        }
    } else {
        env_lookup(env.drop_first(), name)
    }
}

impl Environment {
    /// An environment without variables.
    pub fn new() -> (r: Self)
        ensures
            r@.len() == 0,
    {
        let r = Environment { vars: Vec::new() };
        assert(r@ =~= Seq::<(Seq<char>, Option<Seq<char>>)>::empty());
        r
    }

    /// Adds a variable; an earlier entry of the same name takes precedence.
    pub fn push(&mut self, name: &str, value: EnvValue)
        ensures
            final(self)@ == old(self)@.push((name@, value_view(value))),
    {
        let n = name.to_owned();
        let ghost e = (n, value);
        self.vars.push((n, value));
        assert(self@ =~= old(self)@.push(entry_view(e)));
    }

    /// Looks a name up.
    pub fn lookup(&self, name: &Vec<char>) -> (r: Option<EnvValue>)
        ensures
            match env_lookup(self@, name@) {
                Lookup::NotPresent => r is None,
                Lookup::Value(v) => r matches Some(EnvValue::Unicode(s)) && s@ == v,
                Lookup::NotUnicode => r matches Some(EnvValue::NotUnicode),
            },
    {
        let mut i: usize = 0;
        assert(self@.skip(0) =~= self@);
        while i < self.vars.len()
            invariant
                i <= self.vars.len(),
                env_lookup(self@, name@) == env_lookup(self@.skip(i as int), name@),
            decreases self.vars.len() - i,
        {
            let ghost rest = self@.skip(i as int);
            assert(rest[0] == entry_view(self.vars@[i as int]));
            assert(rest.drop_first() =~= self@.skip(i + 1));
            let entry_name = chars_of(self.vars[i].0.as_str());
            if chars_eq(&entry_name, name) {
                return match &self.vars[i].1 {
                    EnvValue::Unicode(v) => Some(EnvValue::Unicode(v.clone())),
                    EnvValue::NotUnicode => Some(EnvValue::NotUnicode),
                };
            }
            i = i + 1;
        }
        None
    }
}

/// The outcome of asking the platform for one of its standard directories.
#[derive(Debug)]
pub enum DirLookup {
    /// The platform knows no such directory.
    Missing,
    /// The directory is not valid UTF-8.
    NotUtf8,
    /// The directory.
    Found(String),
}

/// The home directory text, or the error its lookup gives.
pub open spec fn home_spec(h: DirLookup) -> Result<Seq<char>, PathErrorSpec> {
    match h {
        DirLookup::Missing => Err(PathErrorSpec::HomeDirectoryUnavailable),
        DirLookup::NotUtf8 => Err(PathErrorSpec::NotUtf8),
        DirLookup::Found(s) => Ok(s@),
    }
}

/// The home directory of the current user, as `dirs::home_dir` reports it.
///
/// The result depends on the process environment and the platform, so
/// nothing is stated of it.
#[verifier::external_body]
pub(crate) fn home_dir_lookup() -> (r: DirLookup) {
    match dirs::home_dir() {
        None => DirLookup::Missing,
        Some(p) => match p.into_os_string().into_string() {
            Ok(s) => DirLookup::Found(s),
            Err(_) => DirLookup::NotUtf8,
        },
    }
}

/// Options controlling how user path input is expanded.
#[derive(Debug, Clone, Copy, PartialEq, Eq, Structural)]
pub struct ExpandOptions {
    /// Expand a leading `~` or `~/` / `~\` to the home directory.
    pub expand_tilde: bool,
    /// Expand `%VAR%` style variables.
    pub expand_percent_variables: bool,
    /// Expand `$VAR` and `${VAR}` style variables.
    pub expand_dollar_variables: bool,
    /// Translate `/mnt/<drive>/...` to a Windows path when applicable.
    pub translate_wsl_paths: bool,
    /// When `true`, undefined variables produce an error; when `false`, they are left unchanged.
    pub reject_undefined_variables: bool,
    /// Trim leading and trailing whitespace from the input.
    pub trim_cli_input: bool,
    /// Maximum nested expansion passes (defensive limit).
    pub max_expansion_depth: u32,
}

/// Maximum environment expansion depth (defensive limit).
pub const MAX_EXPANSION_DEPTH: u32 = 8;

/// The default expansion options: tilde, `%VAR%` and `$VAR` expansion on,
/// undefined variables rejected, input trimmed, no WSL translation.
pub open spec fn default_expand_options() -> ExpandOptions {
    ExpandOptions {
        expand_tilde: true,
        expand_percent_variables: true,
        expand_dollar_variables: true,
        translate_wsl_paths: false,
        reject_undefined_variables: true,
        trim_cli_input: true,
        max_expansion_depth: MAX_EXPANSION_DEPTH,
    }
}

impl Default for ExpandOptions {
    fn default() -> (r: Self)
        ensures
            r.expand_tilde && r.expand_percent_variables && r.expand_dollar_variables,
            !r.translate_wsl_paths && r.reject_undefined_variables && r.trim_cli_input,
            r.max_expansion_depth == MAX_EXPANSION_DEPTH,
    {
        ExpandOptions {
            expand_tilde: true,
            expand_percent_variables: true,
            expand_dollar_variables: true,
            translate_wsl_paths: false,
            reject_undefined_variables: true,
            trim_cli_input: true,
            max_expansion_depth: MAX_EXPANSION_DEPTH,
        }
    }
}

impl ExpandOptions {
    /// Create default options.
    pub fn new() -> (r: Self)
        ensures
            r.expand_tilde && r.expand_percent_variables && r.expand_dollar_variables,
            !r.translate_wsl_paths && r.reject_undefined_variables && r.trim_cli_input,
            r.max_expansion_depth == MAX_EXPANSION_DEPTH,
    {
        Self::default()
    }

    /// Create options with all expansion disabled.
    pub fn none() -> (r: Self)
        ensures
            !r.expand_tilde && !r.expand_percent_variables && !r.expand_dollar_variables,
            !r.translate_wsl_paths && r.reject_undefined_variables && !r.trim_cli_input,
            r.max_expansion_depth == MAX_EXPANSION_DEPTH,
    {
        ExpandOptions {
            expand_tilde: false,
            expand_percent_variables: false,
            expand_dollar_variables: false,
            translate_wsl_paths: false,
            reject_undefined_variables: true,
            trim_cli_input: false,
            max_expansion_depth: MAX_EXPANSION_DEPTH,
        }
    }
}

/// `x` put in front of the text of a successful result.
pub open spec fn prepend(x: Seq<char>, r: Result<Seq<char>, PathErrorSpec>) -> Result<Seq<char>, PathErrorSpec> {
    match r {
        Ok(t) => Ok(x + t),
        Err(e) => Err(e),
    }
}

/// What [`expand_tilde`] makes of `input` given the home directory lookup.
pub open spec fn tilde_spec(input: Seq<char>, home: DirLookup) -> Result<Seq<char>, PathErrorSpec> {
    if has_nul(input) {
        Err(PathErrorSpec::EmbeddedNul)
    } else if input == seq!['~'] {
        home_spec(home)
    } else if input.len() >= 2 && input[0] == '~' && (input[1] == '/' || input[1] == '\\') {
        match home_spec(home) {
            Err(e) => Err(e),
            Ok(h) => Ok(h + input.skip(1)),
        }
    } else {
        Ok(input)
    }
}

/// Expand a leading `~` component given the home directory lookup.
pub fn expand_tilde_with(input: &str, home: &DirLookup) -> (r: Result<String, PathError>)
    ensures
        text_result(r) == tilde_spec(input@, *home),
{
    let cs = chars_of(input);
    if has_nul_exec(&cs) {
        return Err(PathError::EmbeddedNul);
    }
    let is_tilde = cs.len() == 1 && cs[0] == '~';
    let is_prefixed = cs.len() >= 2 && cs[0] == '~' && (cs[1] == '/' || cs[1] == '\\');
    assert(is_tilde == (input@ == seq!['~'])) by {
        if input@ == seq!['~'] {
            assert(input@[0] == '~');
        }
        if is_tilde {
            assert(input@ =~= seq!['~']);
        }
    }
    if is_tilde || is_prefixed {
        let h = match home {
            DirLookup::Missing => { return Err(PathError::HomeDirectoryUnavailable); },
            DirLookup::NotUtf8 => { return Err(PathError::NotUtf8); },
            DirLookup::Found(h) => h,
        };
        if is_tilde {
            return Ok(h.clone());
        }
        let mut out = chars_of(h.as_str());
        let tail = skip_chars(&cs, 1);
        extend_chars(&mut out, &tail);
        return Ok(string_from_chars(out));
    }
    Ok(input.to_owned())
}

/// Expand a leading `~` component to the home directory.
///
/// Only expands when `~` is the entire input or the first component (`~/...`,
/// `~\...`); `~user` and mid-path `~` are left alone. The home directory comes
/// from the platform; whatever it is, the result is the one
/// [`expand_tilde_with`] gives for it.
pub fn expand_tilde(input: &str) -> (r: Result<String, PathError>)
    ensures
        exists|h: DirLookup| text_result(r) == tilde_spec(input@, h),
{
    let home = if input.len() > 0 && input.as_bytes()[0] == 126u8 { home_dir_lookup() } else { DirLookup::Missing };
    let r = expand_tilde_with(input, &home);
    assert(text_result(r) == tilde_spec(input@, home));
    r
}


/// Index of the first `c` in `s`.
pub open spec fn find_char(s: Seq<char>, c: char) -> Option<nat>
    decreases s.len(),
{
    if s.len() == 0 {
        None
    } else if s[0] == c {
        Some(0)
    } else {
        match find_char(s.drop_first(), c) {
            Some(k) => Some(k + 1),
            None => None,
        }
    }
}

proof fn lemma_find_char(s: Seq<char>, c: char, k: int)
    requires
        0 <= k <= s.len(),
        forall|j: int| 0 <= j < k ==> s[j] != c,
        k < s.len() ==> s[k] == c,
    ensures
        k < s.len() ==> find_char(s, c) == Some(k as nat),
        k == s.len() ==> find_char(s, c) is None,
    decreases s.len(),
{
    if s.len() > 0 && k > 0 {
        assert forall|j: int| 0 <= j < k - 1 implies s.drop_first()[j] != c by {
            assert(s.drop_first()[j] == s[j + 1]);
        }
        if k - 1 < s.drop_first().len() {
            assert(s.drop_first()[k - 1] == s[k]);
        }
        lemma_find_char(s.drop_first(), c, k - 1);
    }
}

/// First character of a variable name: an ASCII letter or `_`.
pub open spec fn is_env_name_start(c: char) -> bool {
    ('a' <= c && c <= 'z') || ('A' <= c && c <= 'Z') || c == '_'
}

/// Later character of a variable name: an ASCII letter, digit or `_`.
pub open spec fn is_env_name_continue(c: char) -> bool {
    is_env_name_start(c) || ('0' <= c && c <= '9')
}

/// A variable name `[A-Za-z_][A-Za-z0-9_]*`.
pub open spec fn is_valid_env_name(n: Seq<char>) -> bool {
    n.len() > 0 && is_env_name_start(n[0]) && forall|i: int| 1 <= i < n.len() ==> is_env_name_continue(#[trigger] n[i])
}

fn is_env_name_start_exec(c: char) -> (r: bool)
    ensures
        r == is_env_name_start(c),
{
    ('a' <= c && c <= 'z') || ('A' <= c && c <= 'Z') || c == '_'
}

fn is_env_name_continue_exec(c: char) -> (r: bool)
    ensures
        r == is_env_name_continue(c),
{
    is_env_name_start_exec(c) || ('0' <= c && c <= '9')
}

fn is_valid_env_name_exec(n: &Vec<char>) -> (r: bool)
    ensures
        r == is_valid_env_name(n@),
{
    if n.len() == 0 || !is_env_name_start_exec(n[0]) {
        return false;
    }
    let mut i: usize = 1;
    while i < n.len()
        invariant
            1 <= i <= n.len(),
            forall|j: int| 1 <= j < i ==> is_env_name_continue(#[trigger] n@[j]),
        decreases n.len() - i,
    {
        if !is_env_name_continue_exec(n[i]) {
            return false;
        }
        i = i + 1;
    }
    true
}

/// The message for a variable whose value is not Unicode.
pub open spec fn not_unicode_message(name: Seq<char>) -> Seq<char> {
    "environment variable "@ + name + " is not valid Unicode"@
}

fn not_unicode_error(name: &Vec<char>) -> (r: PathError)
    ensures
        r@ == PathErrorSpec::InvalidPath(not_unicode_message(name@)),
{
    let mut m: Vec<char> = Vec::new();
    extend_str(&mut m, "environment variable ");
    extend_chars(&mut m, name);
    extend_str(&mut m, " is not valid Unicode");
    let ms = string_from_chars(m);
    PathError::InvalidPath { message: ms }
}

proof fn lemma_prepend_assoc(a: Seq<char>, b: Seq<char>, r: Result<Seq<char>, PathErrorSpec>)
    ensures
        prepend(a, prepend(b, r)) == prepend(a + b, r),
{
    match r {
        Ok(t) => {
            assert(a + (b + t) =~= (a + b) + t);
        },
        Err(_) => {},
    }
}

/// One left-to-right pass of `%VAR%` expansion over `s` (after the NUL check).
pub open spec fn pct(s: Seq<char>, reject: bool, env: Seq<(Seq<char>, Option<Seq<char>>)>) -> Result<Seq<char>, PathErrorSpec>
    decreases s.len(),
{
    if s.len() == 0 {
        Ok(Seq::empty())
    } else if s[0] != '%' {
        prepend(seq![s[0]], pct(s.drop_first(), reject, env))
    } else if s.len() >= 2 && s[1] == '%' {
        prepend(seq!['%'], pct(s.skip(2), reject, env))
    } else {
        let rest = s.drop_first();
        match find_char(rest, '%') {
            None => if reject {
                Err(PathErrorSpec::MalformedEnvironmentVariable(s))
            } else {
                Ok(s)
            },
            Some(end) => if end < rest.len() {
                let name = rest.take(end as int);
                let after = rest.skip(end as int + 1);
                let token = seq!['%'] + name + seq!['%'];
                if !is_valid_env_name(name) {
                    if reject {
                        Err(PathErrorSpec::MalformedEnvironmentVariable(token))
                    } else {
                        prepend(token, pct(after, reject, env))
                    }
                } else {
                    match env_lookup(env, name) {
                        Lookup::Value(v) => prepend(v, pct(after, reject, env)),
                        Lookup::NotPresent => if reject {
                            Err(PathErrorSpec::UndefinedEnvironmentVariable(name))
                        } else {
                            prepend(token, pct(after, reject, env))
                        },
                        Lookup::NotUnicode => Err(PathErrorSpec::InvalidPath(not_unicode_message(name))),
                    }
                }
            } else {
                Ok(s)
            },
        }
    }
}

/// What [`expand_percent_variables`] returns.
pub open spec fn percent_spec(input: Seq<char>, reject: bool, env: Seq<(Seq<char>, Option<Seq<char>>)>) -> Result<Seq<char>, PathErrorSpec> {
    if has_nul(input) {
        Err(PathErrorSpec::EmbeddedNul)
    } else {
        pct(input, reject, env)
    }
}

/// What one step of the `%` scanner at position `i` promises: either the text
/// it produced and the position it moved to, or the error of the whole pass.
pub open spec fn percent_step_ok(
    cs: Seq<char>,
    i: int,
    reject: bool,
    env: Seq<(Seq<char>, Option<Seq<char>>)>,
    r: Result<(Vec<char>, usize), PathError>,
) -> bool {
    match r {
        Ok((piece, next)) => i < next <= cs.len() && pct(cs.skip(i), reject, env) == prepend(
            piece@,
            pct(cs.skip(next as int), reject, env),
        ),
        Err(e) => pct(cs.skip(i), reject, env) == Err::<Seq<char>, PathErrorSpec>(e@),
    }
}

/// The step at any `%`.
fn percent_step(cs: &Vec<char>, i: usize, reject: bool, env: &Environment) -> (r: Result<(Vec<char>, usize), PathError>)
    requires
        i < cs.len(),
        cs@[i as int] == '%',
    ensures
        percent_step_ok(cs@, i as int, reject, env@, r),
{
    let ghost s = cs@.skip(i as int);
    assert(s[0] == cs@[i as int]);
    if i + 1 < cs.len() && cs[i + 1] == '%' {
        let mut pc: Vec<char> = Vec::new();
        pc.push('%');
        assert(pc@ =~= seq!['%']);
        assert(s[1] == cs@[i + 1]);
        assert(s.skip(2) =~= cs@.skip(i + 2));
        return Ok((pc, i + 2));
    }
    let start = i + 1;
    let mut end = start;
    while end < cs.len() && cs[end] != '%'
        invariant
            start <= end <= cs.len(),
            forall|j: int| start <= j < end ==> cs@[j] != '%',
        decreases cs.len() - end,
    {
        end = end + 1;
    }
    let ghost rest = s.drop_first();
    assert(rest =~= cs@.skip(start as int));
    proof {
        lemma_find_char(rest, '%', end - start);
        if i + 1 < cs.len() {
            assert(s[1] == cs@[i + 1]);
        }
    }
    if end >= cs.len() {
        let fragment = skip_chars(cs, i);
        if reject {
            return Err(PathError::MalformedEnvironmentVariable { input: string_from_chars(fragment) });
        }
        proof {
            assert(cs@.skip(cs.len() as int) =~= Seq::<char>::empty());
            assert(fragment@ + Seq::<char>::empty() =~= fragment@);
        }
        return Ok((fragment, cs.len()));
    }
    let name = sub_chars(cs, start, end);
    assert(name@ =~= rest.take(end - start));
    assert(rest.skip(end - start + 1) =~= cs@.skip(end + 1));
    let mut token: Vec<char> = Vec::new();
    token.push('%');
    extend_chars(&mut token, &name);
    token.push('%');
    assert(token@ =~= seq!['%'] + name@ + seq!['%']);
    if !is_valid_env_name_exec(&name) {
        if reject {
            return Err(PathError::MalformedEnvironmentVariable { input: string_from_chars(token) });
        }
        return Ok((token, end + 1));
    }
    match env.lookup(&name) {
        Some(EnvValue::Unicode(value)) => Ok((chars_of(value.as_str()), end + 1)),
        None => {
            if reject {
                return Err(PathError::UndefinedEnvironmentVariable { name: string_from_chars(name) });
            }
            Ok((token, end + 1))
        },
        Some(EnvValue::NotUnicode) => Err(not_unicode_error(&name)),
    }
}

/// Expand `%VAR%` style variables from `env` in one left-to-right pass.
///
/// - `%%` becomes a literal `%`
/// - An unclosed `%VAR` (or a lone `%`) errors when `reject_undefined` is true
///   and is kept as-is otherwise
/// - A name that is not `[A-Za-z_][A-Za-z0-9_]*`, or an undefined variable,
///   errors when `reject_undefined` is true and is kept as `%NAME%` otherwise
/// - A variable whose value is not Unicode is an error
pub fn expand_percent_variables(input: &str, reject_undefined: bool, env: &Environment) -> (r: Result<String, PathError>)
    ensures
        text_result(r) == percent_spec(input@, reject_undefined, env@),
{
    let cs = chars_of(input);
    if has_nul_exec(&cs) {
        return Err(PathError::EmbeddedNul);
    }
    let ghost full = pct(cs@, reject_undefined, env@);
    let mut out: Vec<char> = Vec::new();
    let mut i: usize = 0;
    assert(cs@.skip(0) =~= cs@);
    proof {
        match pct(cs@, reject_undefined, env@) {
            Ok(t) => { assert(Seq::<char>::empty() + t =~= t); },
            Err(_) => {},
        }
    }
    while i < cs.len()
        invariant
            i <= cs.len(),
            cs@ == input@,
            !has_nul(input@),
            full == pct(cs@, reject_undefined, env@),
            full == prepend(out@, pct(cs@.skip(i as int), reject_undefined, env@)),
        decreases cs.len() - i,
    {
        let ghost s = cs@.skip(i as int);
        let ghost before = out@;
        assert(s[0] == cs@[i as int]);
        if cs[i] != '%' {
            out.push(cs[i]);
            assert(s.drop_first() =~= cs@.skip(i + 1));
            proof {
                lemma_prepend_assoc(before, seq![cs@[i as int]], pct(cs@.skip(i + 1), reject_undefined, env@));
                assert(before + seq![cs@[i as int]] =~= out@);
            }
            i = i + 1;
        } else {
            match percent_step(&cs, i, reject_undefined, env) {
                Err(e) => {
                    assert(pct(s, reject_undefined, env@) == Err::<Seq<char>, PathErrorSpec>(e@));
                    assert(full == Err::<Seq<char>, PathErrorSpec>(e@));
                    return Err(e);
                },
                Ok((piece, next)) => {
                    extend_chars(&mut out, &piece);
                    proof {
                        lemma_prepend_assoc(before, piece@, pct(cs@.skip(next as int), reject_undefined, env@));
                    }
                    i = next;
                },
            }
        }
    }
    proof {
        assert(cs@.skip(i as int) =~= Seq::<char>::empty());
        assert(out@ + Seq::<char>::empty() =~= out@);
    }
    Ok(string_from_chars(out))
}

/// Length of the longest prefix of `s` made of variable-name characters.
pub open spec fn name_span(s: Seq<char>) -> nat
    decreases s.len(),
{
    if s.len() == 0 || !is_env_name_continue(s[0]) {
        0
    } else {
        1 + name_span(s.drop_first())
    }
}

proof fn lemma_name_span(s: Seq<char>, k: int)
    requires
        0 <= k <= s.len(),
        forall|j: int| 0 <= j < k ==> is_env_name_continue(#[trigger] s[j]),
        k < s.len() ==> !is_env_name_continue(s[k]),
    ensures
        name_span(s) == k,
    decreases s.len(),
{
    if s.len() > 0 && k > 0 {
        assert forall|j: int| 0 <= j < k - 1 implies is_env_name_continue(#[trigger] s.drop_first()[j]) by {
            assert(s.drop_first()[j] == s[j + 1]);
        }
        if k - 1 < s.drop_first().len() {
            assert(s.drop_first()[k - 1] == s[k]);
        }
        lemma_name_span(s.drop_first(), k - 1);
    }
}

/// One left-to-right pass of `$VAR` / `${VAR}` expansion over `s` (after the NUL check).
pub open spec fn dol(s: Seq<char>, reject: bool, env: Seq<(Seq<char>, Option<Seq<char>>)>) -> Result<Seq<char>, PathErrorSpec>
    decreases s.len(),
{
    if s.len() == 0 {
        Ok(Seq::empty())
    } else if s[0] != '$' {
        prepend(seq![s[0]], dol(s.drop_first(), reject, env))
    } else if s.len() == 1 {
        if reject {
            Err(PathErrorSpec::MalformedEnvironmentVariable(seq!['$']))
        } else {
            Ok(seq!['$'])
        }
    } else if s[1] == '$' {
        prepend(seq!['$'], dol(s.skip(2), reject, env))
    } else if s[1] == '(' {
        prepend(seq!['$'], dol(s.drop_first(), reject, env))
    } else if s[1] == '{' {
        let rest = s.skip(2);
        match find_char(rest, '}') {
            None => if reject {
                Err(PathErrorSpec::MalformedEnvironmentVariable(s))
            } else {
                Ok(s)
            },
            Some(end) => if end < rest.len() {
                let name = rest.take(end as int);
                let after = rest.skip(end as int + 1);
                let token = seq!['$', '{'] + name + seq!['}'];
                if !is_valid_env_name(name) {
                    if reject {
                        Err(PathErrorSpec::MalformedEnvironmentVariable(token))
                    } else {
                        prepend(token, dol(after, reject, env))
                    }
                } else {
                    match env_lookup(env, name) {
                        Lookup::Value(v) => prepend(v, dol(after, reject, env)),
                        Lookup::NotPresent => if reject {
                            Err(PathErrorSpec::UndefinedEnvironmentVariable(name))
                        } else {
                            prepend(token, dol(after, reject, env))
                        },
                        Lookup::NotUnicode => Err(PathErrorSpec::InvalidPath(not_unicode_message(name))),
                    }
                }
            } else {
                Ok(s)
            },
        }
    } else if is_env_name_start(s[1]) {
        let rest = s.drop_first();
        let k = name_span(rest);
        if k <= rest.len() {
            let name = rest.take(k as int);
            let after = rest.skip(k as int);
            match env_lookup(env, name) {
                Lookup::Value(v) => prepend(v, dol(after, reject, env)),
                Lookup::NotPresent => if reject {
                    Err(PathErrorSpec::UndefinedEnvironmentVariable(name))
                } else {
                    prepend(seq!['$'] + name, dol(after, reject, env))
                },
                Lookup::NotUnicode => Err(PathErrorSpec::InvalidPath(not_unicode_message(name))),
            }
        } else {
            Ok(s)
        }
    } else {
        prepend(seq!['$'], dol(s.drop_first(), reject, env))
    }
}

/// What [`expand_dollar_variables`] returns.
pub open spec fn dollar_spec(input: Seq<char>, reject: bool, env: Seq<(Seq<char>, Option<Seq<char>>)>) -> Result<Seq<char>, PathErrorSpec> {
    if has_nul(input) {
        Err(PathErrorSpec::EmbeddedNul)
    } else {
        dol(input, reject, env)
    }
}

/// What one step of the `$` scanner at position `i` promises: either the text
/// it produced and the position it moved to, or the error of the whole pass.
pub open spec fn dollar_step_ok(
    cs: Seq<char>,
    i: int,
    reject: bool,
    env: Seq<(Seq<char>, Option<Seq<char>>)>,
    r: Result<(Vec<char>, usize), PathError>,
) -> bool {
    match r {
        Ok((piece, next)) => i < next <= cs.len() && dol(cs.skip(i), reject, env) == prepend(
            piece@,
            dol(cs.skip(next as int), reject, env),
        ),
        Err(e) => dol(cs.skip(i), reject, env) == Err::<Seq<char>, PathErrorSpec>(e@),
    }
}

/// The step at a `${`.
fn braced_step(cs: &Vec<char>, i: usize, reject: bool, env: &Environment) -> (r: Result<(Vec<char>, usize), PathError>)
    requires
        i + 1 < cs.len(),
        cs@[i as int] == '$',
        cs@[i + 1] == '{',
    ensures
        dollar_step_ok(cs@, i as int, reject, env@, r),
{
    let ghost s = cs@.skip(i as int);
    assert(s[0] == cs@[i as int] && s[1] == cs@[i + 1]);
    let start = i + 2;
    let mut end = start;
    while end < cs.len() && cs[end] != '}'
        invariant
            start <= end <= cs.len(),
            forall|j: int| start <= j < end ==> cs@[j] != '}',
        decreases cs.len() - end,
    {
        end = end + 1;
    }
    let ghost rest = s.skip(2);
    assert(rest =~= cs@.skip(start as int));
    proof {
        lemma_find_char(rest, '}', end - start);
    }
    if end >= cs.len() {
        let fragment = skip_chars(cs, i);
        if reject {
            return Err(PathError::MalformedEnvironmentVariable { input: string_from_chars(fragment) });
        }
        proof {
            assert(cs@.skip(cs.len() as int) =~= Seq::<char>::empty());
            assert(fragment@ + Seq::<char>::empty() =~= fragment@);
        }
        return Ok((fragment, cs.len()));
    }
    let name = sub_chars(cs, start, end);
    assert(name@ =~= rest.take(end - start));
    assert(rest.skip(end - start + 1) =~= cs@.skip(end + 1));
    let mut token: Vec<char> = Vec::new();
    token.push('$');
    token.push('{');
    extend_chars(&mut token, &name);
    token.push('}');
    assert(token@ =~= seq!['$', '{'] + name@ + seq!['}']);
    if !is_valid_env_name_exec(&name) {
        if reject {
            return Err(PathError::MalformedEnvironmentVariable { input: string_from_chars(token) });
        }
        return Ok((token, end + 1));
    }
    match env.lookup(&name) {
        Some(EnvValue::Unicode(value)) => Ok((chars_of(value.as_str()), end + 1)),
        None => {
            if reject {
                return Err(PathError::UndefinedEnvironmentVariable { name: string_from_chars(name) });
            }
            Ok((token, end + 1))
        },
        Some(EnvValue::NotUnicode) => Err(not_unicode_error(&name)),
    }
}

/// The step at a `$` followed by the start of a name.
fn named_step(cs: &Vec<char>, i: usize, reject: bool, env: &Environment) -> (r: Result<(Vec<char>, usize), PathError>)
    requires
        i + 1 < cs.len(),
        cs@[i as int] == '$',
        is_env_name_start(cs@[i + 1]),
    ensures
        dollar_step_ok(cs@, i as int, reject, env@, r),
{
    let ghost s = cs@.skip(i as int);
    assert(s[0] == cs@[i as int] && s[1] == cs@[i + 1]);
    let start = i + 1;
    let mut end = start + 1;
    while end < cs.len() && is_env_name_continue_exec(cs[end])
        invariant
            start < end <= cs.len(),
            is_env_name_start(cs@[start as int]),
            forall|j: int| start <= j < end ==> is_env_name_continue(#[trigger] cs@[j]),
        decreases cs.len() - end,
    {
        end = end + 1;
    }
    let ghost rest = s.drop_first();
    assert(rest =~= cs@.skip(start as int));
    proof {
        assert forall|j: int| 0 <= j < end - start implies is_env_name_continue(#[trigger] rest[j]) by {
            assert(rest[j] == cs@[start + j]);
        }
        if end < cs.len() {
            assert(rest[end - start] == cs@[end as int]);
        }
        lemma_name_span(rest, end - start);
    }
    let name = sub_chars(cs, start, end);
    assert(name@ =~= rest.take(end - start));
    assert(rest.skip(end - start) =~= cs@.skip(end as int));
    match env.lookup(&name) {
        Some(EnvValue::Unicode(value)) => Ok((chars_of(value.as_str()), end)),
        None => {
            if reject {
                return Err(PathError::UndefinedEnvironmentVariable { name: string_from_chars(name) });
            }
            let mut token: Vec<char> = Vec::new();
            token.push('$');
            extend_chars(&mut token, &name);
            assert(token@ =~= seq!['$'] + name@);
            Ok((token, end))
        },
        Some(EnvValue::NotUnicode) => Err(not_unicode_error(&name)),
    }
}

/// The step at any `$`.
fn dollar_step(cs: &Vec<char>, i: usize, reject: bool, env: &Environment) -> (r: Result<(Vec<char>, usize), PathError>)
    requires
        i < cs.len(),
        cs@[i as int] == '$',
    ensures
        dollar_step_ok(cs@, i as int, reject, env@, r),
{
    let ghost s = cs@.skip(i as int);
    assert(s[0] == cs@[i as int]);
    let mut dollar: Vec<char> = Vec::new();
    dollar.push('$');
    assert(dollar@ =~= seq!['$']);
    if i + 1 >= cs.len() {
        if reject {
            return Err(PathError::MalformedEnvironmentVariable { input: string_from_chars(dollar) });
        }
        assert(s.len() == 1);
        assert(cs@.skip(cs.len() as int) =~= Seq::<char>::empty());
        assert(dollar@ + Seq::<char>::empty() =~= dollar@);
        return Ok((dollar, cs.len()));
    }
    assert(s[1] == cs@[i + 1]);
    if cs[i + 1] == '$' {
        assert(s.skip(2) =~= cs@.skip(i + 2));
        return Ok((dollar, i + 2));
    }
    if cs[i + 1] == '(' {
        assert(s.drop_first() =~= cs@.skip(i + 1));
        return Ok((dollar, i + 1));
    }
    if cs[i + 1] == '{' {
        return braced_step(cs, i, reject, env);
    }
    if is_env_name_start_exec(cs[i + 1]) {
        return named_step(cs, i, reject, env);
    }
    assert(s.drop_first() =~= cs@.skip(i + 1));
    Ok((dollar, i + 1))
}

/// Expand `$VAR` and `${VAR}` style variables from `env` in one left-to-right pass.
///
/// - `$$` becomes a literal `$`
/// - `${VAR}` needs a closing `}`; an unclosed one errors when `reject_undefined`
///   is true and is kept as-is otherwise
/// - `$VAR` takes the longest name `[A-Za-z_][A-Za-z0-9_]*`
/// - `$123`, `$(` and a `$` before any other character are kept literally
/// - An undefined variable errors when `reject_undefined` is true and is kept otherwise
/// - A lone trailing `$` errors when `reject_undefined` is true
pub fn expand_dollar_variables(input: &str, reject_undefined: bool, env: &Environment) -> (r: Result<String, PathError>)
    ensures
        text_result(r) == dollar_spec(input@, reject_undefined, env@),
{
    let cs = chars_of(input);
    if has_nul_exec(&cs) {
        return Err(PathError::EmbeddedNul);
    }
    let ghost full = dol(cs@, reject_undefined, env@);
    let mut out: Vec<char> = Vec::new();
    let mut i: usize = 0;
    assert(cs@.skip(0) =~= cs@);
    proof {
        match dol(cs@, reject_undefined, env@) {
            Ok(t) => { assert(Seq::<char>::empty() + t =~= t); },
            Err(_) => {},
        }
    }
    while i < cs.len()
        invariant
            i <= cs.len(),
            cs@ == input@,
            !has_nul(input@),
            full == dol(cs@, reject_undefined, env@),
            full == prepend(out@, dol(cs@.skip(i as int), reject_undefined, env@)),
        decreases cs.len() - i,
    {
        let ghost s = cs@.skip(i as int);
        let ghost before = out@;
        assert(s[0] == cs@[i as int]);
        if cs[i] != '$' {
            out.push(cs[i]);
            assert(s.drop_first() =~= cs@.skip(i + 1));
            proof {
                lemma_prepend_assoc(before, seq![cs@[i as int]], dol(cs@.skip(i + 1), reject_undefined, env@));
                assert(before + seq![cs@[i as int]] =~= out@);
            }
            i = i + 1;
        } else {
            match dollar_step(&cs, i, reject_undefined, env) {
                Err(e) => {
                    assert(dol(s, reject_undefined, env@) == Err::<Seq<char>, PathErrorSpec>(e@));
                    assert(full == Err::<Seq<char>, PathErrorSpec>(e@));
                    return Err(e);
                },
                Ok((piece, next)) => {
                    extend_chars(&mut out, &piece);
                    proof {
                        lemma_prepend_assoc(before, piece@, dol(cs@.skip(next as int), reject_undefined, env@));
                    }
                    i = next;
                },
            }
        }
    }
    proof {
        assert(cs@.skip(i as int) =~= Seq::<char>::empty());
        assert(out@ + Seq::<char>::empty() =~= out@);
    }
    Ok(string_from_chars(out))
}

/// One expansion pass: `%VAR%` forms, then `$VAR` forms, as the options enable them.
pub open spec fn one_pass(s: Seq<char>, o: ExpandOptions, env: Seq<(Seq<char>, Option<Seq<char>>)>) -> Result<Seq<char>, PathErrorSpec> {
    let a = if o.expand_percent_variables {
        percent_spec(s, o.reject_undefined_variables, env)
    } else {
        Ok(s)
    };
    match a {
        Err(e) => Err(e),
        Ok(t) => if o.expand_dollar_variables {
            dollar_spec(t, o.reject_undefined_variables, env)
        } else {
            Ok(t)
        },
    }
}

/// Repeated passes until the text is stable, with `n` further passes allowed
/// after this one; a text still changing when none is left is an error.
pub open spec fn run_passes(s: Seq<char>, n: nat, o: ExpandOptions, env: Seq<(Seq<char>, Option<Seq<char>>)>) -> Result<Seq<char>, PathErrorSpec>
    decreases n,
{
    match one_pass(s, o, env) {
        Err(e) => Err(e),
        Ok(t) => if t == s {
            if has_nul(t) {
                Err(PathErrorSpec::EmbeddedNul)
            } else {
                Ok(t)
            }
        } else if n == 0 {
            Err(PathErrorSpec::ExpansionDepthExceeded(o.max_expansion_depth))
        } else {
            run_passes(t, (n - 1) as nat, o, env)
        },
    }
}

/// What [`expand_input`] returns for `input`, given the variables and the home
/// directory lookup.
pub open spec fn input_spec(
    input: Seq<char>,
    o: ExpandOptions,
    env: Seq<(Seq<char>, Option<Seq<char>>)>,
    home: DirLookup,
) -> Result<Seq<char>, PathErrorSpec> {
    let s0 = if o.trim_cli_input { trim(input) } else { input };
    if has_nul(s0) {
        Err(PathErrorSpec::EmbeddedNul)
    } else if s0.len() == 0 {
        Err(PathErrorSpec::EmptyInput)
    } else {
        let w = if o.translate_wsl_paths { translate_wsl_spec(s0) } else { Ok(None) };
        match w {
            Err(e) => Err(e),
            Ok(Some(t)) => Ok(t),
            Ok(None) => {
                let s1 = if o.expand_tilde { tilde_spec(s0, home) } else { Ok(s0) };
                match s1 {
                    Err(e) => Err(e),
                    Ok(t) => run_passes(t, o.max_expansion_depth as nat, o, env),
                }
            },
        }
    }
}

fn one_pass_exec(s: &str, options: &ExpandOptions, env: &Environment) -> (r: Result<String, PathError>)
    ensures
        text_result(r) == one_pass(s@, *options, env@),
{
    let a = if options.expand_percent_variables {
        expand_percent_variables(s, options.reject_undefined_variables, env)
    } else {
        Ok(s.to_owned())
    };
    match a {
        Err(e) => Err(e),
        Ok(t) => if options.expand_dollar_variables {
            expand_dollar_variables(t.as_str(), options.reject_undefined_variables, env)
        } else {
            Ok(t)
        },
    }
}

/// Expand user path input given the variables and the home directory lookup.
///
/// Pipeline:
/// 1. Optional trim
/// 2. Reject NUL and empty input
/// 3. Optional WSL translation (a translated path is returned as it is)
/// 4. Optional tilde expansion
/// 5. Percent and dollar passes, repeated until the text is stable, at most
///    `max_expansion_depth` times plus one check that nothing changes any more
pub fn expand_input_with(input: &str, options: &ExpandOptions, env: &Environment, home: &DirLookup) -> (r: Result<String, PathError>)
    ensures
        text_result(r) == input_spec(input@, *options, env@, *home),
{
    let raw = chars_of(input);
    let s0 = if options.trim_cli_input { trim_exec(&raw) } else { raw };
    if has_nul_exec(&s0) {
        return Err(PathError::EmbeddedNul);
    }
    if s0.len() == 0 {
        return Err(PathError::EmptyInput);
    }
    let s0s = string_from_chars(s0);
    if options.translate_wsl_paths {
        match translate_wsl_path(s0s.as_str()) {
            Err(e) => { return Err(e); },
            Ok(Some(t)) => { return Ok(t); },
            Ok(None) => {},
        }
    }
    let mut s: String = if options.expand_tilde {
        match expand_tilde_with(s0s.as_str(), home) {
            Err(e) => { return Err(e); },
            Ok(t) => t,
        }
    } else {
        s0s
    };
    let depth = options.max_expansion_depth;
    let ghost goal = run_passes(s@, depth as nat, *options, env@);
    assert(goal == input_spec(input@, *options, env@, *home));
    let mut k: u32 = 0;
    while k < depth
        invariant
            k <= depth,
            depth == options.max_expansion_depth,
            goal == run_passes(s@, (depth - k) as nat, *options, env@),
            goal == input_spec(input@, *options, env@, *home),
        decreases depth - k,
    {
        let next = match one_pass_exec(s.as_str(), options, env) {
            Err(e) => { return Err(e); },
            Ok(t) => t,
        };
        let a = chars_of(next.as_str());
        let b = chars_of(s.as_str());
        if chars_eq(&a, &b) {
            if has_nul_exec(&a) {
                return Err(PathError::EmbeddedNul);
            }
            return Ok(next);
        }
        s = next;
        k = k + 1;
    }
    let next = match one_pass_exec(s.as_str(), options, env) {
        Err(e) => { return Err(e); },
        Ok(t) => t,
    };
    let a = chars_of(next.as_str());
    let b = chars_of(s.as_str());
    if !chars_eq(&a, &b) {
        return Err(PathError::ExpansionDepthExceeded { max_depth: depth });
    }
    if has_nul_exec(&a) {
        return Err(PathError::EmbeddedNul);
    }
    Ok(next)
}

/// Expand user path input according to `options`, reading variables from `env`.
///
/// Expansion never invokes a shell or runs commands, and expanded values are
/// untrusted input: expansion is no containment check. The home directory
/// comes from the platform; whatever it is, the result is the one
/// [`expand_input_with`] gives for it.
pub fn expand_input(input: &str, options: &ExpandOptions, env: &Environment) -> (r: Result<String, PathError>)
    ensures
        exists|h: DirLookup| text_result(r) == input_spec(input@, *options, env@, h),
{
    let home = if options.expand_tilde { home_dir_lookup() } else { DirLookup::Missing };
    let r = expand_input_with(input, options, env, &home);
    assert(text_result(r) == input_spec(input@, *options, env@, home));
    r
}

/// With every expansion switched off, input that is neither empty nor holds a
/// NUL comes back unchanged, whatever the variables and the home directory.
pub proof fn lemma_expand_none_is_identity(
    input: Seq<char>,
    o: ExpandOptions,
    env: Seq<(Seq<char>, Option<Seq<char>>)>,
    home: DirLookup,
)
    requires
        !o.expand_tilde,
        !o.expand_percent_variables,
        !o.expand_dollar_variables,
        !o.translate_wsl_paths,
        !o.trim_cli_input,
        !has_nul(input),
        input.len() > 0,
    ensures
        input_spec(input, o, env, home) == Ok::<Seq<char>, PathErrorSpec>(input),
{
    assert(one_pass(input, o, env) == Ok::<Seq<char>, PathErrorSpec>(input));
}

/// A `%` pass leaves text without `%` unchanged.
pub proof fn lemma_pct_plain(s: Seq<char>, reject: bool, env: Seq<(Seq<char>, Option<Seq<char>>)>)
    requires
        !s.contains('%'),
    ensures
        pct(s, reject, env) == Ok::<Seq<char>, PathErrorSpec>(s),
    decreases s.len(),
{
    if s.len() > 0 {
        assert(s[0] != '%');
        assert(!s.drop_first().contains('%')) by {
            if s.drop_first().contains('%') {
                let k = choose|k: int| 0 <= k < s.drop_first().len() && s.drop_first()[k] == '%';
                assert(s[k + 1] == '%');
            }
        }
        lemma_pct_plain(s.drop_first(), reject, env);
        assert(seq![s[0]] + s.drop_first() =~= s);
        assert(pct(s, reject, env) == prepend(seq![s[0]], pct(s.drop_first(), reject, env)));
    } else {
        assert(s =~= Seq::<char>::empty());
    }
}

/// A `$` pass leaves text without `$` unchanged.
pub proof fn lemma_dol_plain(s: Seq<char>, reject: bool, env: Seq<(Seq<char>, Option<Seq<char>>)>)
    requires
        !s.contains('$'),
    ensures
        dol(s, reject, env) == Ok::<Seq<char>, PathErrorSpec>(s),
    decreases s.len(),
{
    if s.len() > 0 {
        assert(s[0] != '$');
        assert(!s.drop_first().contains('$')) by {
            if s.drop_first().contains('$') {
                let k = choose|k: int| 0 <= k < s.drop_first().len() && s.drop_first()[k] == '$';
                assert(s[k + 1] == '$');
            }
        }
        lemma_dol_plain(s.drop_first(), reject, env);
        assert(seq![s[0]] + s.drop_first() =~= s);
        assert(dol(s, reject, env) == prepend(seq![s[0]], dol(s.drop_first(), reject, env)));
    } else {
        assert(s =~= Seq::<char>::empty());
    }
}

/// Input without `%`, `$` or a leading `~`, already trimmed, not empty and
/// without NUL, expands to itself under the default options, whatever the
/// variables: expansion only acts on its own syntax.
pub proof fn lemma_expand_plain_text_unchanged(
    input: Seq<char>,
    env: Seq<(Seq<char>, Option<Seq<char>>)>,
    home: DirLookup,
)
    requires
        !input.contains('%'),
        !input.contains('$'),
        input.len() > 0 && input[0] != '~',
        !has_nul(input),
        trim(input) == input,
    ensures
        input_spec(input, default_expand_options(), env, home) == Ok::<Seq<char>, PathErrorSpec>(input),
{
    let o = default_expand_options();
    lemma_pct_plain(input, true, env);
    lemma_dol_plain(input, true, env);
    assert(tilde_spec(input, home) == Ok::<Seq<char>, PathErrorSpec>(input));
    assert(one_pass(input, o, env) == Ok::<Seq<char>, PathErrorSpec>(input));
}

/// Whether `s` has no `$$` (which a `$` pass writes as a single `$`).
pub open spec fn no_dollar_pair(s: Seq<char>) -> bool {
    forall|i: int| 0 <= i && i + 1 < s.len() ==> !(s[i] == '$' && #[trigger] s[i + 1] == '$')
}

proof fn lemma_no_dollar_pair_skip(s: Seq<char>, j: int)
    requires
        no_dollar_pair(s),
        0 <= j <= s.len(),
    ensures
        no_dollar_pair(s.skip(j)),
{
    assert forall|i: int| 0 <= i && i + 1 < s.skip(j).len() implies !(s.skip(j)[i] == '$' && #[trigger] s.skip(j)[i + 1] == '$') by {
        assert(s.skip(j)[i] == s[i + j]);
        assert(s.skip(j)[i + 1] == s[i + j + 1]);
    }
}

proof fn lemma_find_char_found(s: Seq<char>, c: char)
    ensures
        find_char(s, c) matches Some(k) ==> k < s.len() && s[k as int] == c,
    decreases s.len(),
{
    if s.len() > 0 && s[0] != c {
        lemma_find_char_found(s.drop_first(), c);
    }
}

proof fn lemma_dol_undefined_unchanged(s: Seq<char>, env: Seq<(Seq<char>, Option<Seq<char>>)>)
    requires
        forall|n: Seq<char>| #[trigger] env_lookup(env, n) == Lookup::NotPresent,
        no_dollar_pair(s),
    ensures
        dol(s, false, env) == Ok::<Seq<char>, PathErrorSpec>(s),
    decreases s.len(),
{
    if s.len() == 0 {
        assert(s =~= Seq::<char>::empty());
    } else if s[0] != '$' {
        lemma_no_dollar_pair_skip(s, 1);
        assert(s.drop_first() =~= s.skip(1));
        lemma_dol_undefined_unchanged(s.drop_first(), env);
        assert(seq![s[0]] + s.drop_first() =~= s);
    } else if s.len() == 1 {
        assert(s =~= seq!['$']);
    } else if s[1] == '$' {
        let i: int = 0;
        assert(!(s[i] == '$' && s[i + 1] == '$'));
    } else if s[1] == '(' || !(s[1] == '{' || is_env_name_start(s[1])) {
        lemma_no_dollar_pair_skip(s, 1);
        assert(s.drop_first() =~= s.skip(1));
        lemma_dol_undefined_unchanged(s.drop_first(), env);
        assert(seq!['$'] + s.drop_first() =~= s);
    } else if s[1] == '{' {
        let rest = s.skip(2);
        lemma_find_char_found(rest, '}');
        match find_char(rest, '}') {
            None => {},
            Some(end) => {
                if end < rest.len() {
                    let name = rest.take(end as int);
                    let after = rest.skip(end as int + 1);
                    let token = seq!['$', '{'] + name + seq!['}'];
                    lemma_no_dollar_pair_skip(s, end as int + 3);
                    assert(after =~= s.skip(end as int + 3));
                    lemma_dol_undefined_unchanged(after, env);
                    assert(env_lookup(env, name) == Lookup::NotPresent);
                    assert(token + after =~= s);
                }
            },
        }
    } else {
        let rest = s.drop_first();
        let k = name_span(rest);
        if k <= rest.len() {
            let name = rest.take(k as int);
            let after = rest.skip(k as int);
            lemma_no_dollar_pair_skip(s, k as int + 1);
            assert(after =~= s.skip(k as int + 1));
            lemma_dol_undefined_unchanged(after, env);
            assert(env_lookup(env, name) == Lookup::NotPresent);
            assert(seq!['$'] + name + after =~= s);
        }
    }
}

/// Leaving undefined variables in place means leaving them unchanged: with
/// `reject_undefined` false, text whose `$NAME` and `${NAME}` variables are
/// all undefined comes back exactly as it was (as long as it holds no NUL and
/// no `$$`, which stands for a single `$`).
pub proof fn lemma_undefined_dollar_variables_unchanged(input: Seq<char>, env: Seq<(Seq<char>, Option<Seq<char>>)>)
    requires
        forall|n: Seq<char>| #[trigger] env_lookup(env, n) == Lookup::NotPresent,
        !has_nul(input),
        no_dollar_pair(input),
    ensures
        dollar_spec(input, false, env) == Ok::<Seq<char>, PathErrorSpec>(input),
{
    lemma_dol_undefined_unchanged(input, env);
}

} // verus!
