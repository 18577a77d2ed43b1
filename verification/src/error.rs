//! The single error kind used uniformly by every parser in this library.

use vstd::prelude::*;
use vstd::string::*;

verus! {

/// The kind of a failure; parsing is the only operation that can fail.
#[derive(Debug, PartialEq, Eq)]
pub enum ErrorType {
    ParseError,
}

/// A failure report: the kind and a short diagnostic message. It records
/// that parsing failed and why, not where.
#[derive(Debug)]
pub struct Error {
    pub error: ErrorType,
    pub error_msg: String,
}

/// The fixed tag each error kind renders as.
pub open spec fn error_type_render(t: ErrorType) -> Seq<char> {
    match t {
        ErrorType::ParseError => "PARSER ERROR"@,
    }
}

impl ErrorType {
    /// Renders this kind as its fixed tag.
    pub fn render(&self) -> (r: &'static str)
        ensures
            r@ == error_type_render(*self),
    {
        match self {
            ErrorType::ParseError => "PARSER ERROR",
        }
    }
}

impl Error {
    /// A parse error carrying the given diagnostic message.
    pub fn parse_error(msg: &str) -> (r: Error)
        ensures
            r.error == ErrorType::ParseError,
            r.error_msg@ == msg@,
    {
        Error { error: ErrorType::ParseError, error_msg: String::from_str(msg) }
    }

    /// Renders this error as `"<kind>: <message>"`.
    pub fn render(&self) -> (r: String)
        ensures
            r@ == error_type_render(self.error) + ": "@ + self.error_msg@,
    {
        let mut r = String::from_str(self.error.render());
        r.append(": ");
        r.append(self.error_msg.as_str());
        r
    }
}

} // verus!
