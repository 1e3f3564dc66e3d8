//! Structured error type for the crate's operations.

use vstd::prelude::*;
use crate::chars::{string_from_chars, extend_str};

verus! {

/// Primary error type returned by the crate's operations.
///
/// Errors include enough context to diagnose the failing path or operation.
/// Underlying I/O failures are carried as their message text.
#[derive(Debug)]
#[non_exhaustive]
pub enum PathError {
    /// The provided path input was empty after optional trimming.
    EmptyInput,
    /// The path contains an embedded NUL character.
    EmbeddedNul,
    /// An environment variable referenced during expansion is not defined.
    UndefinedEnvironmentVariable {
        /// Name of the missing variable.
        name: String,
    },
    /// Environment variable syntax was malformed (e.g. unclosed `%VAR` or `${VAR`).
    MalformedEnvironmentVariable {
        /// The malformed input fragment.
        input: String,
    },
    /// Home directory could not be determined.
    HomeDirectoryUnavailable,
    /// Current working directory could not be determined.
    CurrentDirectoryUnavailable {
        /// Message of the underlying I/O error.
        message: String,
    },
    /// A Windows drive-relative path such as `C:foo` or `C:` was encountered.
    DriveRelativePath {
        /// Display form of the path.
        path: String,
    },
    /// An absolute child path was supplied where a relative path is required.
    AbsoluteChildPath {
        /// Display form of the path.
        path: String,
    },
    /// A path escapes the permitted root after normalization.
    RootEscape {
        /// Display form of the path.
        path: String,
    },
    /// A path is not valid UTF-8 and a UTF-8 conversion was requested.
    NotUtf8,
    /// Generic invalid path condition with a human-readable message.
    InvalidPath {
        /// Description of the problem.
        message: String,
    },
    /// A filesystem operation failed.
    Filesystem {
        /// Display form of the path involved.
        path: String,
        /// Message of the underlying I/O error.
        message: String,
    },
    /// Directory traversal failed (permission, depth limit, etc.).
    Traversal {
        /// Description of the failure.
        message: String,
    },
    /// A glob pattern is invalid.
    InvalidGlob {
        /// Description of the pattern error.
        message: String,
    },
    /// A cache operation failed.
    Cache {
        /// Description of the failure.
        message: String,
    },
    /// Application name validation failed.
    InvalidAppName {
        /// Description of the problem.
        message: String,
    },
    /// Expansion exceeded the maximum allowed depth.
    ExpansionDepthExceeded {
        /// Configured maximum depth.
        max_depth: u32,
    },
}

/// The content of a [`PathError`], with texts as character sequences.
pub enum PathErrorSpec {
    EmptyInput,
    EmbeddedNul,
    UndefinedEnvironmentVariable(Seq<char>),
    MalformedEnvironmentVariable(Seq<char>),
    HomeDirectoryUnavailable,
    CurrentDirectoryUnavailable(Seq<char>),
    DriveRelativePath(Seq<char>),
    AbsoluteChildPath(Seq<char>),
    RootEscape(Seq<char>),
    NotUtf8,
    InvalidPath(Seq<char>),
    Filesystem(Seq<char>, Seq<char>),
    Traversal(Seq<char>),
    InvalidGlob(Seq<char>),
    Cache(Seq<char>),
    InvalidAppName(Seq<char>),
    ExpansionDepthExceeded(u32),
}

impl View for PathError {
    type V = PathErrorSpec;

    open spec fn view(&self) -> PathErrorSpec {
        match self {
            PathError::EmptyInput => PathErrorSpec::EmptyInput,
            PathError::EmbeddedNul => PathErrorSpec::EmbeddedNul,
            PathError::UndefinedEnvironmentVariable { name } => PathErrorSpec::UndefinedEnvironmentVariable(name@),
            PathError::MalformedEnvironmentVariable { input } => PathErrorSpec::MalformedEnvironmentVariable(input@),
            PathError::HomeDirectoryUnavailable => PathErrorSpec::HomeDirectoryUnavailable,
            PathError::CurrentDirectoryUnavailable { message } => PathErrorSpec::CurrentDirectoryUnavailable(message@),
            PathError::DriveRelativePath { path } => PathErrorSpec::DriveRelativePath(path@),
            PathError::AbsoluteChildPath { path } => PathErrorSpec::AbsoluteChildPath(path@),
            PathError::RootEscape { path } => PathErrorSpec::RootEscape(path@),
            PathError::NotUtf8 => PathErrorSpec::NotUtf8,
            PathError::InvalidPath { message } => PathErrorSpec::InvalidPath(message@),
            PathError::Filesystem { path, message } => PathErrorSpec::Filesystem(path@, message@),
            PathError::Traversal { message } => PathErrorSpec::Traversal(message@),
            PathError::InvalidGlob { message } => PathErrorSpec::InvalidGlob(message@),
            PathError::Cache { message } => PathErrorSpec::Cache(message@),
            PathError::InvalidAppName { message } => PathErrorSpec::InvalidAppName(message@),
            PathError::ExpansionDepthExceeded { max_depth } => PathErrorSpec::ExpansionDepthExceeded(*max_depth),
        }
    }
}

/// The view of a result that carries a text.
pub open spec fn text_result(r: Result<String, PathError>) -> Result<Seq<char>, PathErrorSpec> {
    match r {
        Ok(s) => Ok(s@),
        Err(e) => Err(e@),
    }
}

/// The view of a result that carries a list of texts.
pub open spec fn texts_result(r: Result<Vec<String>, PathError>) -> Result<Seq<Seq<char>>, PathErrorSpec> {
    match r {
        Ok(v) => Ok(v@.map_values(|s: String| s@)),
        Err(e) => Err(e@),
    }
}

/// The view of a result that carries a flag.
pub open spec fn bool_result(r: Result<bool, PathError>) -> Result<bool, PathErrorSpec> {
    match r {
        Ok(b) => Ok(b),
        Err(e) => Err(e@),
    }
}

/// Decimal digits of `n`.
pub open spec fn decimal(n: nat) -> Seq<char>
    decreases n,
{
    if n < 10 {
        seq![digit_char(n)]
    } else {
        decimal(n / 10).push(digit_char(n % 10))
    }
}

/// The character for a decimal digit.
pub open spec fn digit_char(d: nat) -> char {
    (('0' as u32) + d) as char
}

/// Decimal rendering of a number.
pub fn decimal_exec(n: u32) -> (r: Vec<char>)
    ensures
        r@ == decimal(n as nat),
    decreases n,
{
    if n < 10 {
        let mut r: Vec<char> = Vec::new();
        r.push(((n as u8) + 48u8) as char);
        assert(r@ =~= decimal(n as nat));
        r
    } else {
        let mut r = decimal_exec(n / 10);
        let d = n % 10;
        r.push(((d as u8) + 48u8) as char);
        r
    }
}

/// The message that describes an error.
pub open spec fn error_message(e: PathError) -> Seq<char> {
    match e {
        PathError::EmptyInput => "path input is empty"@,
        PathError::EmbeddedNul => "path contains an embedded NUL byte"@,
        PathError::UndefinedEnvironmentVariable { name } => "environment variable is not defined: "@ + name@,
        PathError::MalformedEnvironmentVariable { input } => "environment variable syntax is malformed: "@ + input@,
        PathError::HomeDirectoryUnavailable => "home directory is unavailable"@,
        PathError::CurrentDirectoryUnavailable { message } => "current directory is unavailable: "@ + message@,
        PathError::DriveRelativePath { path } => "drive-relative Windows path is not supported: "@ + path@,
        PathError::AbsoluteChildPath { path } => "absolute child path is not allowed: "@ + path@,
        PathError::RootEscape { path } => "path escapes the permitted root: "@ + path@,
        PathError::NotUtf8 => "path is not valid UTF-8"@,
        PathError::InvalidPath { message } => "invalid path: "@ + message@,
        PathError::Filesystem { path, message } => "filesystem operation failed for "@ + path@ + ": "@ + message@,
        PathError::Traversal { message } => "directory traversal failed: "@ + message@,
        PathError::InvalidGlob { message } => "glob pattern is invalid: "@ + message@,
        PathError::Cache { message } => "cache operation failed: "@ + message@,
        PathError::InvalidAppName { message } => "invalid application name: "@ + message@,
        PathError::ExpansionDepthExceeded { max_depth } => "path expansion exceeded maximum depth ("@ + decimal(max_depth as nat) + ")"@,
    }
}

fn message_of(prefix: &str, detail: &String) -> (r: String)
    ensures
        r@ == prefix@ + detail@,
{
    let mut v: Vec<char> = Vec::new();
    extend_str(&mut v, prefix);
    extend_str(&mut v, detail.as_str());
    string_from_chars(v)
}

fn literal(text: &str) -> (r: String)
    ensures
        r@ == text@,
{
    let mut v: Vec<char> = Vec::new();
    extend_str(&mut v, text);
    assert(v@ =~= text@);
    string_from_chars(v)
}

impl PathError {
    /// Human-readable description of the error.
    pub fn to_string(&self) -> (r: String)
        ensures
            r@ == error_message(*self),
    {
        match self {
            PathError::EmptyInput => literal("path input is empty"),
            PathError::EmbeddedNul => literal("path contains an embedded NUL byte"),
            PathError::UndefinedEnvironmentVariable { name } => message_of("environment variable is not defined: ", name),
            PathError::MalformedEnvironmentVariable { input } => message_of("environment variable syntax is malformed: ", input),
            PathError::HomeDirectoryUnavailable => literal("home directory is unavailable"),
            PathError::CurrentDirectoryUnavailable { message } => message_of("current directory is unavailable: ", message),
            PathError::DriveRelativePath { path } => message_of("drive-relative Windows path is not supported: ", path),
            PathError::AbsoluteChildPath { path } => message_of("absolute child path is not allowed: ", path),
            PathError::RootEscape { path } => message_of("path escapes the permitted root: ", path),
            PathError::NotUtf8 => literal("path is not valid UTF-8"),
            PathError::InvalidPath { message } => message_of("invalid path: ", message),
            PathError::Filesystem { path, message } => {
                let mut v: Vec<char> = Vec::new();
                extend_str(&mut v, "filesystem operation failed for ");
                extend_str(&mut v, path.as_str());
                extend_str(&mut v, ": ");
                extend_str(&mut v, message.as_str());
                string_from_chars(v)
            },
            PathError::Traversal { message } => message_of("directory traversal failed: ", message),
            PathError::InvalidGlob { message } => message_of("glob pattern is invalid: ", message),
            PathError::Cache { message } => message_of("cache operation failed: ", message),
            PathError::InvalidAppName { message } => message_of("invalid application name: ", message),
            PathError::ExpansionDepthExceeded { max_depth } => {
                let mut v: Vec<char> = Vec::new();
                extend_str(&mut v, "path expansion exceeded maximum depth (");
                let digits = decimal_exec(*max_depth);
                crate::chars::extend_chars(&mut v, &digits);
                extend_str(&mut v, ")");
                string_from_chars(v)
            },
        }
    }

    /// Create a filesystem error for `path` carrying the I/O error's message.
    pub fn filesystem(path: &str, message: &str) -> (r: Self)
        ensures
            r@ == PathErrorSpec::Filesystem(path@, message@),
    {
        PathError::Filesystem { path: path.to_owned(), message: message.to_owned() }
    }

    /// Create an invalid-path error with a message.
    pub fn invalid(message: &str) -> (r: Self)
        ensures
            r@ == PathErrorSpec::InvalidPath(message@),
    {
        PathError::InvalidPath { message: message.to_owned() }
    }

    /// Create a traversal error with a message.
    pub fn traversal(message: &str) -> (r: Self)
        ensures
            r@ == PathErrorSpec::Traversal(message@),
    {
        PathError::Traversal { message: message.to_owned() }
    }

    /// Create a cache error with a message.
    pub fn cache(message: &str) -> (r: Self)
        ensures
            r@ == PathErrorSpec::Cache(message@),
    {
        PathError::Cache { message: message.to_owned() }
    }

    /// Create a root-escape error for `path`.
    pub fn root_escape(path: &str) -> (r: Self)
        ensures
            r@ == PathErrorSpec::RootEscape(path@),
    {
        PathError::RootEscape { path: path.to_owned() }
    }

    /// Create an absolute-child error for `path`.
    pub fn absolute_child(path: &str) -> (r: Self)
        ensures
            r@ == PathErrorSpec::AbsoluteChildPath(path@),
    {
        PathError::AbsoluteChildPath { path: path.to_owned() }
    }

    /// Create a drive-relative error for `path`.
    pub fn drive_relative(path: &str) -> (r: Self)
        ensures
            r@ == PathErrorSpec::DriveRelativePath(path@),
    {
        PathError::DriveRelativePath { path: path.to_owned() }
    }
}

} // verus!
