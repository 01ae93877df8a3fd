//! The library's error, with the message each kind of error shows.
use vstd::prelude::*;
use crate::text::{push_str, to_owned_string};

verus! {

/// What went wrong, as plain text.
#[derive(Debug, Clone, PartialEq, Eq)]
pub enum Error {
    /// The source could not be parsed.
    Parse { message: String },
    /// Type-based analysis failed.
    Semantic { message: String },
    /// A configuration file is wrong.
    Config { path: String, message: String },
    /// A configuration file could not be parsed; the parser's message.
    ConfigParse(String),
    /// A lint name that no lint has.
    UnknownLint(String),
    /// Reading or writing failed; the system's message.
    Io(String),
    /// The Move package could not be read.
    Package(String),
    /// A test fixture failed.
    Fixture(String),
    /// An error with what was being done when it happened.
    WithContext { context: String, message: String },
    /// Anything else.
    Other(String),
}

/// The message an error shows.
pub open spec fn error_text(e: Error) -> Seq<char> {
    match e {
        Error::Parse { message } => "parse error: "@ + message@,
        Error::Semantic { message } => "semantic analysis failed: "@ + message@,
        Error::Config { path, message } => "configuration error in "@ + path@ + ": "@ + message@,
        Error::ConfigParse(m) => "failed to parse configuration: "@ + m@,
        Error::UnknownLint(name) => "unknown lint: "@ + name@,
        Error::Io(m) => "I/O error: "@ + m@,
        Error::Package(m) => "package error: "@ + m@,
        Error::Fixture(m) => "fixture failure: "@ + m@,
        Error::WithContext { context, message } => context@ + ": "@ + message@,
        Error::Other(m) => m@,
    }
}

/// `prefix` followed by `rest`.
fn joined(prefix: &str, rest: &str) -> (r: String)
    ensures
        r@ == prefix@ + rest@,
{
    let mut s = to_owned_string(prefix);
    push_str(&mut s, rest);
    s
}

impl Error {
    pub fn parse(message: String) -> (r: Self)
        ensures
            r == (Error::Parse { message }),
    {
        Error::Parse { message }
    }

    pub fn semantic(message: String) -> (r: Self)
        ensures
            r == (Error::Semantic { message }),
    {
        Error::Semantic { message }
    }

    pub fn config(path: String, message: String) -> (r: Self)
        ensures
            r == (Error::Config { path, message }),
    {
        Error::Config { path, message }
    }

    pub fn unknown_lint(name: String) -> (r: Self)
        ensures
            r == Error::UnknownLint(name),
    {
        Error::UnknownLint(name)
    }

    pub fn package(message: String) -> (r: Self)
        ensures
            r == Error::Package(message),
    {
        Error::Package(message)
    }

    pub fn fixture(message: String) -> (r: Self)
        ensures
            r == Error::Fixture(message),
    {
        Error::Fixture(message)
    }

    pub fn other(message: String) -> (r: Self)
        ensures
            r == Error::Other(message),
    {
        Error::Other(message)
    }

    /// The message this error shows.
    pub fn message(&self) -> (r: String)
        ensures
            r@ == error_text(*self),
    {
        match self {
            Error::Parse { message } => joined("parse error: ", message.as_str()),
            Error::Semantic { message } => joined("semantic analysis failed: ", message.as_str()),
            Error::Config { path, message } => {
                let mut s = joined("configuration error in ", path.as_str());
                push_str(&mut s, ": ");
                push_str(&mut s, message.as_str());
                s
            },
            Error::ConfigParse(m) => joined("failed to parse configuration: ", m.as_str()),
            Error::UnknownLint(name) => joined("unknown lint: ", name.as_str()),
            Error::Io(m) => joined("I/O error: ", m.as_str()),
            Error::Package(m) => joined("package error: ", m.as_str()),
            Error::Fixture(m) => joined("fixture failure: ", m.as_str()),
            Error::WithContext { context, message } => {
                let mut s = joined(context.as_str(), ": ");
                push_str(&mut s, message.as_str());
                s
            },
            Error::Other(m) => to_owned_string(m.as_str()),
        }
    }

    /// This error, with `context` put before its message.
    pub fn with_context(self, context: String) -> (r: Self)
        ensures
            r matches Error::WithContext { context: c, message: m } && c == context && m@ == error_text(self),
    {
        let message = self.message();
        Error::WithContext { context, message }
    }
}

/// The message of `err` and of what it wraps.
pub fn format_error_chain(err: &Error) -> (r: String)
    ensures
        r@ == error_text(*err),
{
    err.message()
}

} // verus!
