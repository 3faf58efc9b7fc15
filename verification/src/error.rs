//! What can go wrong while a document is parsed and evaluated.

use vstd::prelude::*;
use vstd::string::StringExecFns;
use crate::text::joined;
use crate::value::{written, Json, JsonTree};

verus! {

/// A failure of parsing or evaluation. Each variant carries the token, the
/// path or the value that caused it.
#[derive(Debug, PartialEq, Eq)]
pub enum Error {
    /// A header token `!tag` whose tag names no known processor.
    InvalidProcess(String),
    /// A header token `~fmt` whose format is not known.
    InvalidFormat(String),
    /// A header token that begins with none of `@`, `$`, `~` and `!`.
    InvalidInput(String),
    /// A body or a template that its decoder refused; the decoder's message.
    Decode(String),
    /// A reference marker whose `$ref` is no string; the value found there.
    RefNotString(Json),
    /// No section in scope has the path that was asked for.
    NotFound(String),
    /// A reference marker names a path that no section in scope has, and
    /// gives no default.
    Unresolved(String),
    /// Sub-grafts are nested deeper than the parser follows them.
    TooDeep,
}

/// What an `Error` stands for.
pub ghost enum ErrorView {
    InvalidProcess(Seq<char>),
    InvalidFormat(Seq<char>),
    InvalidInput(Seq<char>),
    Decode(Seq<char>),
    RefNotString(JsonTree),
    NotFound(Seq<char>),
    Unresolved(Seq<char>),
    TooDeep,
}

impl View for Error {
    type V = ErrorView;

    open spec fn view(&self) -> ErrorView {
        match self {
            Error::InvalidProcess(token) => ErrorView::InvalidProcess(token@),
            Error::InvalidFormat(token) => ErrorView::InvalidFormat(token@),
            Error::InvalidInput(token) => ErrorView::InvalidInput(token@),
            Error::Decode(message) => ErrorView::Decode(message@),
            Error::RefNotString(value) => ErrorView::RefNotString(value@),
            Error::NotFound(path) => ErrorView::NotFound(path@),
            Error::Unresolved(path) => ErrorView::Unresolved(path@),
            Error::TooDeep => ErrorView::TooDeep,
        }
    }
}

impl ErrorView {
    /// The line of text that describes the failure.
    pub open spec fn message(self) -> Seq<char> {
        match self {
            ErrorView::InvalidProcess(token) => "invalid process: "@ + token,
            ErrorView::InvalidFormat(token) => "invalid format: "@ + token,
            ErrorView::InvalidInput(token) => "invalid input: "@ + token,
            ErrorView::Decode(message) => message,
            ErrorView::RefNotString(value) => "$ref is not a string: "@ + written(value),
            ErrorView::NotFound(path) => "not found: "@ + path,
            ErrorView::Unresolved(path) => "'"@ + path + "' not found"@,
            ErrorView::TooDeep => "sub-grafts are nested too deep"@,
        }
    }
}

impl Error {
    /// The line of text that describes the failure.
    pub fn message(&self) -> (line: String)
        ensures
            line@ == self@.message(),
    {
        match self {
            Error::InvalidProcess(token) => joined("invalid process: ", token.as_str()),
            Error::InvalidFormat(token) => joined("invalid format: ", token.as_str()),
            Error::InvalidInput(token) => joined("invalid input: ", token.as_str()),
            Error::Decode(message) => message.clone(),
            Error::RefNotString(value) => {
                let found = value.write();
                joined("$ref is not a string: ", found.as_str())
            },
            Error::NotFound(path) => joined("not found: ", path.as_str()),
            Error::Unresolved(path) => {
                let quoted = joined("'", path.as_str());
                joined(quoted.as_str(), "' not found")
            },
            Error::TooDeep => String::from_str("sub-grafts are nested too deep"),
        }
    }
}

} // verus!
