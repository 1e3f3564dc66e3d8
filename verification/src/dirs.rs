//! Platform directory locations and application-level roots.
//!
//! Platform-native directories come from the `dirs` crate. The global
//! application root is never the current working directory or a repository
//! unless an explicit policy says so, and no product-specific subdirectory
//! names are built in.

use vstd::prelude::*;
use crate::chars::{chars_of, string_from_chars, trim, trim_exec, extend_str};
use crate::error::{PathError, PathErrorSpec, text_result};
use crate::expand::{
    DirLookup, Environment, EnvValue, ExpandOptions, Lookup, default_expand_options, env_lookup, expand_input_with,
    input_spec, not_unicode_message, home_spec, home_dir_lookup,
};
use crate::lexical::{has_root, has_root_exec, join_path, join_path_exec};
use crate::normalize::{normalize, normalize_spec};
use crate::resolve::{absolute_spec, absolute_with_cwd, cwd_view};
use crate::validation::{app_name_problem, validate_app_name};

verus! {

/// The platform's configuration directory, as `dirs::config_dir` reports it.
///
/// The result depends on the environment and the platform, so nothing is
/// stated of it.
#[verifier::external_body]
fn config_dir_lookup() -> (r: DirLookup) {
    match dirs::config_dir() {
        None => DirLookup::Missing,
        Some(p) => match p.into_os_string().into_string() {
            Ok(s) => DirLookup::Found(s),
            Err(_) => DirLookup::NotUtf8,
        },
    }
}

/// The platform's data directory, as `dirs::data_dir` reports it.
///
/// The result depends on the environment and the platform, so nothing is
/// stated of it.
#[verifier::external_body]
fn data_dir_lookup() -> (r: DirLookup) {
    match dirs::data_dir() {
        None => DirLookup::Missing,
        Some(p) => match p.into_os_string().into_string() {
            Ok(s) => DirLookup::Found(s),
            Err(_) => DirLookup::NotUtf8,
        },
    }
}

/// The platform's cache directory, as `dirs::cache_dir` reports it.
///
/// The result depends on the environment and the platform, so nothing is
/// stated of it.
#[verifier::external_body]
fn cache_dir_lookup() -> (r: DirLookup) {
    match dirs::cache_dir() {
        None => DirLookup::Missing,
        Some(p) => match p.into_os_string().into_string() {
            Ok(s) => DirLookup::Found(s),
            Err(_) => DirLookup::NotUtf8,
        },
    }
}

/// Platform-standard directories for the current user / process.
#[derive(Debug, PartialEq, Eq)]
pub struct PlatformDirs {
    /// User home directory.
    pub home: String,
    /// User configuration directory.
    pub config: String,
    /// User data directory.
    pub data: String,
    /// User cache directory.
    pub cache: String,
    /// User state directory, when available.
    pub state: Option<String>,
    /// Runtime directory, when available.
    pub runtime: Option<String>,
    /// Temporary directory.
    pub temp: String,
}

/// The error for a platform directory the platform does not know.
pub open spec fn unavailable(what: Seq<char>) -> PathErrorSpec {
    PathErrorSpec::InvalidPath(what + " directory is unavailable on this platform"@)
}

/// A platform directory, or the error its lookup gives.
pub open spec fn base_dir_spec(base: DirLookup, what: Seq<char>) -> Result<Seq<char>, PathErrorSpec> {
    match base {
        DirLookup::Missing => Err(unavailable(what)),
        DirLookup::NotUtf8 => Err(PathErrorSpec::NotUtf8),
        DirLookup::Found(b) => Ok(b@),
    }
}

/// The application-specific directory `{base}/{app}` for a validated name.
pub open spec fn app_dir_spec(app: Seq<char>, base: DirLookup, what: Seq<char>) -> Result<Seq<char>, PathErrorSpec> {
    match app_name_problem(app) {
        Some(m) => Err(PathErrorSpec::InvalidAppName(m)),
        None => match base_dir_spec(base, what) {
            Err(e) => Err(e),
            Ok(b) => Ok(join_path(b, app)),
        },
    }
}

/// The application-specific directory `{base}/{app_name}`, given the lookup of
/// the platform directory `base` (named `what` in errors).
pub fn app_dir_with(app_name: &str, base: &DirLookup, what: &str) -> (r: Result<String, PathError>)
    ensures
        text_result(r) == app_dir_spec(app_name@, *base, what@),
{
    match validate_app_name(app_name) {
        Err(e) => { return Err(e); },
        Ok(()) => {},
    }
    match base {
        DirLookup::Missing => {
            let mut m: Vec<char> = Vec::new();
            extend_str(&mut m, what);
            extend_str(&mut m, " directory is unavailable on this platform");
            Err(PathError::InvalidPath { message: string_from_chars(m) })
        },
        DirLookup::NotUtf8 => Err(PathError::NotUtf8),
        DirLookup::Found(b) => Ok(string_from_chars(join_path_exec(&chars_of(b.as_str()), &chars_of(app_name)))),
    }
}

/// Application-specific configuration directory: `{config}/{app_name}`.
///
/// Validates `app_name`; does not create the directory.
pub fn config_dir(app_name: &str) -> (r: Result<String, PathError>)
    ensures
        exists|b: DirLookup| text_result(r) == app_dir_spec(app_name@, b, "config"@),
{
    let base = match validate_app_name(app_name) {
        Err(_) => DirLookup::Missing,
        Ok(()) => config_dir_lookup(),
    };
    app_dir_with(app_name, &base, "config")
}

/// Application-specific data directory: `{data}/{app_name}`.
///
/// Validates `app_name`; does not create the directory.
pub fn data_dir(app_name: &str) -> (r: Result<String, PathError>)
    ensures
        exists|b: DirLookup| text_result(r) == app_dir_spec(app_name@, b, "data"@),
{
    let base = match validate_app_name(app_name) {
        Err(_) => DirLookup::Missing,
        Ok(()) => data_dir_lookup(),
    };
    app_dir_with(app_name, &base, "data")
}

/// Application-specific cache directory: `{cache}/{app_name}`.
///
/// Validates `app_name`; does not create the directory.
pub fn cache_dir(app_name: &str) -> (r: Result<String, PathError>)
    ensures
        exists|b: DirLookup| text_result(r) == app_dir_spec(app_name@, b, "cache"@),
{
    let base = match validate_app_name(app_name) {
        Err(_) => DirLookup::Missing,
        Ok(()) => cache_dir_lookup(),
    };
    app_dir_with(app_name, &base, "cache")
}

/// Application-level platform roots for a named tool.
#[derive(Debug, PartialEq, Eq)]
pub struct AppPaths {
    /// Validated application name.
    pub application_name: String,
    /// Primary application root directory.
    pub root_dir: String,
    /// Configuration directory for the application.
    pub config_dir: String,
    /// Data directory for the application.
    pub data_dir: String,
    /// Cache directory for the application.
    pub cache_dir: String,
    /// State directory when available.
    pub state_dir: Option<String>,
    /// Temporary directory (system temp).
    pub temp_dir: String,
}

/// What a set of application paths holds.
pub struct AppPathsView {
    pub application_name: Seq<char>,
    pub root_dir: Seq<char>,
    pub config_dir: Seq<char>,
    pub data_dir: Seq<char>,
    pub cache_dir: Seq<char>,
    pub state_dir: Option<Seq<char>>,
    pub temp_dir: Seq<char>,
}

impl View for AppPaths {
    type V = AppPathsView;

    open spec fn view(&self) -> AppPathsView {
        AppPathsView {
            application_name: self.application_name@,
            root_dir: self.root_dir@,
            config_dir: self.config_dir@,
            data_dir: self.data_dir@,
            cache_dir: self.cache_dir@,
            state_dir: match self.state_dir {
                Some(s) => Some(s@),
                None => None,
            },
            temp_dir: self.temp_dir@,
        }
    }
}

/// The view of a result that carries application paths.
pub open spec fn paths_result(r: Result<AppPaths, PathError>) -> Result<AppPathsView, PathErrorSpec> {
    match r {
        Ok(p) => Ok(p@),
        Err(e) => Err(e@),
    }
}

/// How to choose the application root.
#[derive(Debug, PartialEq, Eq)]
#[non_exhaustive]
pub enum AppRootPolicy {
    /// Use platform-native application directories.
    PlatformDefault,
    /// Prefer an environment variable when set and non-empty; else platform default.
    EnvironmentOverride {
        /// Name of the environment variable (not its value).
        variable: String,
    },
    /// Use an explicit root path.
    Explicit {
        /// Explicit application root.
        path: String,
    },
}

impl Clone for AppRootPolicy {
    fn clone(&self) -> (r: Self)
        ensures
            r == *self,
    {
        match self {
            AppRootPolicy::PlatformDefault => AppRootPolicy::PlatformDefault,
            AppRootPolicy::EnvironmentOverride { variable } => AppRootPolicy::EnvironmentOverride {
                variable: variable.clone(),
            },
            AppRootPolicy::Explicit { path } => AppRootPolicy::Explicit { path: path.clone() },
        }
    }
}

/// Options for resolving [`AppPaths`].
#[derive(Debug, PartialEq, Eq)]
pub struct AppPathsOptions {
    /// Application name (validated).
    pub application_name: String,
    /// Optional environment variable name used as root override when set.
    pub environment_override: Option<String>,
    /// When true, create the resolved directories.
    pub create_directories: bool,
    /// Explicit root policy; takes precedence over `environment_override`.
    pub root_policy: Option<AppRootPolicy>,
}

impl AppPathsOptions {
    /// Build options for `application_name` with platform defaults.
    pub fn new(application_name: &str) -> (r: Self)
        ensures
            r.application_name@ == application_name@,
            r.environment_override is None,
            !r.create_directories,
            r.root_policy is None,
    {
        AppPathsOptions {
            application_name: application_name.to_owned(),
            environment_override: None,
            create_directories: false,
            root_policy: None,
        }
    }
}

/// The policy that applies: the explicit one, else an environment override
/// when a variable is named, else the platform default.
pub open spec fn policy_spec(o: AppPathsOptions) -> AppRootPolicy {
    match o.root_policy {
        Some(p) => p,
        None => match o.environment_override {
            Some(v) => AppRootPolicy::EnvironmentOverride { variable: v },
            None => AppRootPolicy::PlatformDefault,
        },
    }
}

/// The policy that applies to `options`.
pub fn select_root_policy(options: &AppPathsOptions) -> (r: AppRootPolicy)
    ensures
        r == policy_spec(*options),
{
    match &options.root_policy {
        Some(p) => p.clone(),
        None => match &options.environment_override {
            Some(v) => AppRootPolicy::EnvironmentOverride { variable: v.clone() },
            None => AppRootPolicy::PlatformDefault,
        },
    }
}

/// The platform-default application paths: the data directory is the root.
pub open spec fn platform_paths_spec(
    app: Seq<char>,
    data: DirLookup,
    config: DirLookup,
    cache: DirLookup,
    state: DirLookup,
    temp: Seq<char>,
) -> Result<AppPathsView, PathErrorSpec> {
    match app_dir_spec(app, data, "data"@) {
        Err(e) => Err(e),
        Ok(d) => match app_dir_spec(app, config, "config"@) {
            Err(e) => Err(e),
            Ok(c) => match app_dir_spec(app, cache, "cache"@) {
                Err(e) => Err(e),
                Ok(k) => match state {
                    DirLookup::NotUtf8 => Err(PathErrorSpec::NotUtf8),
                    _ => Ok(
                        AppPathsView {
                            application_name: app,
                            root_dir: d,
                            config_dir: c,
                            data_dir: d,
                            cache_dir: k,
                            state_dir: match state {
                                DirLookup::Found(s) => Some(join_path(s@, app)),
                                _ => None,
                            },
                            temp_dir: temp,
                        },
                    ),
                },
            },
        },
    }
}

/// The platform-default application paths, given the platform's lookups.
pub fn platform_app_paths(
    application_name: &str,
    data: &DirLookup,
    config: &DirLookup,
    cache: &DirLookup,
    state: &DirLookup,
    temp: &str,
) -> (r: Result<AppPaths, PathError>)
    ensures
        paths_result(r) == platform_paths_spec(application_name@, *data, *config, *cache, *state, temp@),
{
    let d = app_dir_with(application_name, data, "data")?;
    let c = app_dir_with(application_name, config, "config")?;
    let k = app_dir_with(application_name, cache, "cache")?;
    let state_dir = match state {
        DirLookup::NotUtf8 => { return Err(PathError::NotUtf8); },
        DirLookup::Missing => None,
        DirLookup::Found(s) => Some(string_from_chars(join_path_exec(&chars_of(s.as_str()), &chars_of(application_name)))),
    };
    Ok(AppPaths {
        application_name: application_name.to_owned(),
        root_dir: d.clone(),
        config_dir: c,
        data_dir: d,
        cache_dir: k,
        state_dir,
        temp_dir: temp.to_owned(),
    })
}

/// The application paths rooted at `root`: configuration and data at the
/// root itself, `cache` and `state` beneath it.
pub open spec fn rooted_paths_spec(app: Seq<char>, root: Seq<char>, temp: Seq<char>) -> Result<AppPathsView, PathErrorSpec> {
    match normalize_spec(root) {
        Err(e) => Err(e),
        Ok(n) => if n.len() == 0 {
            Err(PathErrorSpec::EmptyInput)
        } else {
            Ok(
                AppPathsView {
                    application_name: app,
                    root_dir: n,
                    config_dir: n,
                    data_dir: n,
                    cache_dir: join_path(n, "cache"@),
                    state_dir: Some(join_path(n, "state"@)),
                    temp_dir: temp,
                },
            )
        },
    }
}

/// The application paths rooted at an explicit directory.
pub fn rooted_app_paths(application_name: &str, root: &str, temp: &str) -> (r: Result<AppPaths, PathError>)
    ensures
        paths_result(r) == rooted_paths_spec(application_name@, root@, temp@),
{
    let n = normalize(root)?;
    if chars_of(n.as_str()).len() == 0 {
        return Err(PathError::EmptyInput);
    }
    let cache = string_from_chars(join_path_exec(&chars_of(n.as_str()), &chars_of("cache")));
    let state = string_from_chars(join_path_exec(&chars_of(n.as_str()), &chars_of("state")));
    Ok(AppPaths {
        application_name: application_name.to_owned(),
        root_dir: n.clone(),
        config_dir: n.clone(),
        data_dir: n,
        cache_dir: cache,
        state_dir: Some(state),
        temp_dir: temp.to_owned(),
    })
}

/// The root an override value names: the value trimmed and expanded (tilde,
/// `%VAR%`, `$VAR`, undefined variables rejected), then made absolute.
pub open spec fn override_root_spec(
    value: Seq<char>,
    env: Seq<(Seq<char>, Option<Seq<char>>)>,
    home: DirLookup,
    cwd: Result<Seq<char>, Seq<char>>,
) -> Result<Seq<char>, PathErrorSpec> {
    match input_spec(trim(value), default_expand_options(), env, home) {
        Err(e) => Err(e),
        Ok(x) => if has_root(x) {
            normalize_spec(x)
        } else {
            absolute_spec(x, cwd)
        },
    }
}

/// The application paths that `o` resolves to, given the environment, the
/// home directory, the platform's directories, the temporary directory and
/// the current directory.
pub open spec fn app_paths_spec(
    o: AppPathsOptions,
    env: Seq<(Seq<char>, Option<Seq<char>>)>,
    home: DirLookup,
    data: DirLookup,
    config: DirLookup,
    cache: DirLookup,
    state: DirLookup,
    temp: Seq<char>,
    cwd: Result<Seq<char>, Seq<char>>,
) -> Result<AppPathsView, PathErrorSpec> {
    let app = o.application_name@;
    match app_name_problem(app) {
        Some(m) => Err(PathErrorSpec::InvalidAppName(m)),
        None => match policy_spec(o) {
            AppRootPolicy::PlatformDefault => platform_paths_spec(app, data, config, cache, state, temp),
            AppRootPolicy::Explicit { path } => rooted_paths_spec(app, path@, temp),
            AppRootPolicy::EnvironmentOverride { variable } => match env_lookup(env, variable@) {
                Lookup::NotUnicode => Err(PathErrorSpec::InvalidPath(not_unicode_message(variable@))),
                Lookup::NotPresent => platform_paths_spec(app, data, config, cache, state, temp),
                Lookup::Value(v) => if trim(v).len() == 0 {
                    platform_paths_spec(app, data, config, cache, state, temp)
                } else {
                    match override_root_spec(v, env, home, cwd) {
                        Err(e) => Err(e),
                        Ok(root) => rooted_paths_spec(app, root, temp),
                    }
                },
            },
        },
    }
}

/// Resolve application paths for `options`, given the environment, the home
/// directory, the platform's directory lookups, the temporary directory and
/// the current directory (needed only for a relative override).
///
/// When an override variable is set and not blank, its value is expanded and
/// made absolute, and becomes the application root. Nothing is created or
/// checked on disk.
pub fn resolve_app_paths(
    options: &AppPathsOptions,
    env: &Environment,
    home: &DirLookup,
    data: &DirLookup,
    config: &DirLookup,
    cache: &DirLookup,
    state: &DirLookup,
    temp: &str,
    cwd: &Result<String, String>,
) -> (r: Result<AppPaths, PathError>)
    ensures
        paths_result(r) == app_paths_spec(*options, env@, *home, *data, *config, *cache, *state, temp@, cwd_view(cwd)),
{
    let app = options.application_name.as_str();
    validate_app_name(app)?;
    let policy = select_root_policy(options);
    match policy {
        AppRootPolicy::PlatformDefault => platform_app_paths(app, data, config, cache, state, temp),
        AppRootPolicy::Explicit { path } => rooted_app_paths(app, path.as_str(), temp),
        AppRootPolicy::EnvironmentOverride { variable } => {
            let name = chars_of(variable.as_str());
            match env.lookup(&name) {
                Some(EnvValue::NotUnicode) => {
                    let mut m: Vec<char> = Vec::new();
                    extend_str(&mut m, "environment variable ");
                    extend_str(&mut m, variable.as_str());
                    extend_str(&mut m, " is not valid Unicode");
                    Err(PathError::InvalidPath { message: string_from_chars(m) })
                },
                None => platform_app_paths(app, data, config, cache, state, temp),
                Some(EnvValue::Unicode(value)) => {
                    let t = trim_exec(&chars_of(value.as_str()));
                    if t.len() == 0 {
                        return platform_app_paths(app, data, config, cache, state, temp);
                    }
                    let ts = string_from_chars(t);
                    let expanded = expand_input_with(ts.as_str(), &ExpandOptions::default(), env, home)?;
                    let root = if has_root_exec(&chars_of(expanded.as_str())) {
                        normalize(expanded.as_str())?
                    } else {
                        absolute_with_cwd(expanded.as_str(), cwd)?
                    };
                    rooted_app_paths(app, root.as_str(), temp)
                },
            }
        },
    }
}

/// The directories that creating application paths makes: the root, the
/// configuration, data and cache directories, and the state directory when
/// there is one.
pub fn app_directories(paths: &AppPaths) -> (r: Vec<String>)
    ensures
        r@.len() == (if paths.state_dir is Some { 5int } else { 4int }),
        r@[0] == paths.root_dir && r@[1] == paths.config_dir && r@[2] == paths.data_dir && r@[3] == paths.cache_dir,
        paths.state_dir matches Some(s) ==> r@[4] == s,
{
    let mut r: Vec<String> = Vec::new();
    r.push(paths.root_dir.clone());
    r.push(paths.config_dir.clone());
    r.push(paths.data_dir.clone());
    r.push(paths.cache_dir.clone());
    if let Some(s) = &paths.state_dir {
        r.push(s.clone());
    }
    r
}

/// The view of an optional platform directory: `None` when missing.
pub open spec fn optional_dir(d: DirLookup) -> Result<Option<Seq<char>>, PathErrorSpec> {
    match d {
        DirLookup::Missing => Ok(None),
        DirLookup::NotUtf8 => Err(PathErrorSpec::NotUtf8),
        DirLookup::Found(s) => Ok(Some(s@)),
    }
}

fn optional_dir_exec(d: DirLookup) -> (r: Result<Option<String>, PathError>)
    ensures
        match optional_dir(d) {
            Ok(Some(s)) => r matches Ok(Some(x)) && x@ == s,
            Ok(None) => r matches Ok(None),
            Err(e) => r matches Err(x) && x@ == e,
        },
{
    match d {
        DirLookup::Missing => Ok(None),
        DirLookup::NotUtf8 => Err(PathError::NotUtf8),
        DirLookup::Found(s) => Ok(Some(s)),
    }
}

fn required_dir(d: DirLookup, what: &str) -> (r: Result<String, PathError>)
    ensures
        text_result(r) == base_dir_spec(d, what@),
{
    match d {
        DirLookup::Missing => {
            let mut m: Vec<char> = Vec::new();
            extend_str(&mut m, what);
            extend_str(&mut m, " directory is unavailable on this platform");
            Err(PathError::InvalidPath { message: string_from_chars(m) })
        },
        DirLookup::NotUtf8 => Err(PathError::NotUtf8),
        DirLookup::Found(s) => Ok(s),
    }
}

/// What a set of platform directories holds.
pub struct PlatformDirsView {
    pub home: Seq<char>,
    pub config: Seq<char>,
    pub data: Seq<char>,
    pub cache: Seq<char>,
    pub state: Option<Seq<char>>,
    pub runtime: Option<Seq<char>>,
    pub temp: Seq<char>,
}

/// The view of an optional text.
pub open spec fn opt_text(s: Option<String>) -> Option<Seq<char>> {
    match s {
        Some(x) => Some(x@),
        None => None,
    }
}

/// The view of a result that carries platform directories.
pub open spec fn dirs_result(r: Result<PlatformDirs, PathError>) -> Result<PlatformDirsView, PathErrorSpec> {
    match r {
        Ok(p) => Ok(
            PlatformDirsView {
                home: p.home@,
                config: p.config@,
                data: p.data@,
                cache: p.cache@,
                state: opt_text(p.state),
                runtime: opt_text(p.runtime),
                temp: p.temp@,
            },
        ),
        Err(e) => Err(e@),
    }
}

/// The platform directories the lookups give: home, configuration, data and
/// cache must be known (checked in that order); state and runtime are optional.
pub open spec fn platform_dirs_spec(
    home: DirLookup,
    config: DirLookup,
    data: DirLookup,
    cache: DirLookup,
    state: DirLookup,
    runtime: DirLookup,
    temp: Seq<char>,
) -> Result<PlatformDirsView, PathErrorSpec> {
    match (home_spec(home), base_dir_spec(config, "config"@), base_dir_spec(data, "data"@), base_dir_spec(cache, "cache"@)) {
        (Err(e), _, _, _) => Err(e),
        (Ok(_), Err(e), _, _) => Err(e),
        (Ok(_), Ok(_), Err(e), _) => Err(e),
        (Ok(_), Ok(_), Ok(_), Err(e)) => Err(e),
        (Ok(h), Ok(c), Ok(d), Ok(k)) => match (optional_dir(state), optional_dir(runtime)) {
            (Err(e), _) => Err(e),
            (Ok(_), Err(e)) => Err(e),
            (Ok(st), Ok(rt)) => Ok(
                PlatformDirsView { home: h, config: c, data: d, cache: k, state: st, runtime: rt, temp },
            ),
        },
    }
}

/// The platform directories from the platform's lookups.
pub fn platform_dirs_from(
    home: DirLookup,
    config: DirLookup,
    data: DirLookup,
    cache: DirLookup,
    state: DirLookup,
    runtime: DirLookup,
    temp: String,
) -> (r: Result<PlatformDirs, PathError>)
    ensures
        dirs_result(r) == platform_dirs_spec(home, config, data, cache, state, runtime, temp@),
{
    let home = match home {
        DirLookup::Missing => { return Err(PathError::HomeDirectoryUnavailable); },
        DirLookup::NotUtf8 => { return Err(PathError::NotUtf8); },
        DirLookup::Found(h) => h,
    };
    let config = required_dir(config, "config")?;
    let data = required_dir(data, "data")?;
    let cache = required_dir(cache, "cache")?;
    let state = optional_dir_exec(state)?;
    let runtime = optional_dir_exec(runtime)?;
    Ok(PlatformDirs { home, config, data, cache, state, runtime, temp })
}

/// The platform's state directory, as `dirs::state_dir` reports it.
///
/// The result depends on the environment and the platform, so nothing is
/// stated of it.
#[verifier::external_body]
fn state_dir_lookup() -> (r: DirLookup) {
    match dirs::state_dir() {
        None => DirLookup::Missing,
        Some(p) => match p.into_os_string().into_string() {
            Ok(s) => DirLookup::Found(s),
            Err(_) => DirLookup::NotUtf8,
        },
    }
}

/// The platform's runtime directory, as `dirs::runtime_dir` reports it.
///
/// The result depends on the environment and the platform, so nothing is
/// stated of it.
#[verifier::external_body]
fn runtime_dir_lookup() -> (r: DirLookup) {
    match dirs::runtime_dir() {
        None => DirLookup::Missing,
        Some(p) => match p.into_os_string().into_string() {
            Ok(s) => DirLookup::Found(s),
            Err(_) => DirLookup::NotUtf8,
        },
    }
}

/// Standard platform directories for the current user, with `temp` as the
/// temporary directory. Whatever the platform reports, the result is the one
/// [`platform_dirs_from`] gives for it.
pub fn platform_dirs(temp: String) -> (r: Result<PlatformDirs, PathError>)
    ensures
        exists|h: DirLookup, c: DirLookup, d: DirLookup, k: DirLookup, st: DirLookup, rt: DirLookup|
            dirs_result(r) == platform_dirs_spec(h, c, d, k, st, rt, temp@),
{
    let h = home_dir_lookup();
    let c = config_dir_lookup();
    let d = data_dir_lookup();
    let k = cache_dir_lookup();
    let st = state_dir_lookup();
    let rt = runtime_dir_lookup();
    let ghost (gh, gc, gd, gk, gst, grt) = (h, c, d, k, st, rt);
    let r = platform_dirs_from(h, c, d, k, st, rt, temp);
    assert(dirs_result(r) == platform_dirs_spec(gh, gc, gd, gk, gst, grt, temp@));
    r
}

/// Resolve application paths for `options` with the platform's own
/// directories and home directory; `env`, `temp` and `cwd` as in
/// [`resolve_app_paths`]. Whatever the platform reports, the result is the one
/// [`resolve_app_paths`] gives for it. Nothing is created or checked on disk;
/// an invalid application name is refused before the platform is asked.
pub fn resolve_app_paths_on_platform(
    options: &AppPathsOptions,
    env: &Environment,
    temp: &str,
    cwd: &Result<String, String>,
) -> (r: Result<AppPaths, PathError>)
    ensures
        exists|h: DirLookup, d: DirLookup, c: DirLookup, k: DirLookup, st: DirLookup|
            paths_result(r) == app_paths_spec(*options, env@, h, d, c, k, st, temp@, cwd_view(cwd)),
{
    if let Err(_) = validate_app_name(options.application_name.as_str()) {
        let r = resolve_app_paths(
            options,
            env,
            &DirLookup::Missing,
            &DirLookup::Missing,
            &DirLookup::Missing,
            &DirLookup::Missing,
            &DirLookup::Missing,
            temp,
            cwd,
        );
        assert(paths_result(r) == app_paths_spec(
            *options,
            env@,
            DirLookup::Missing,
            DirLookup::Missing,
            DirLookup::Missing,
            DirLookup::Missing,
            DirLookup::Missing,
            temp@,
            cwd_view(cwd),
        ));
        return r;
    }
    let h = home_dir_lookup();
    let d = data_dir_lookup();
    let c = config_dir_lookup();
    let k = cache_dir_lookup();
    let st = state_dir_lookup();
    let r = resolve_app_paths(options, env, &h, &d, &c, &k, &st, temp, cwd);
    assert(paths_result(r) == app_paths_spec(*options, env@, h, d, c, k, st, temp@, cwd_view(cwd)));
    r
}

} // verus!
