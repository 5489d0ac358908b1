//! The error reported for a lexical, syntactic or runtime failure.

use vstd::prelude::*;
use crate::text::{push_signed_decimal, push_text, signed_decimal};

verus! {

/// `std::io::Error`, of which nothing is known here: it is only carried.
#[verifier::external_type_specification]
#[verifier::external_body]
pub struct ExIoError(std::io::Error);

/// What an error says: its message and the source line it points at.
pub struct ErrorModel {
    pub message: Seq<char>,
    pub line: int,
}

/// A failure with a human-readable message and a source line, and the I/O
/// failure underneath it where there is one.
#[derive(Debug)]
pub struct LoxError {
    line: i32,
    err: std::string::String,
    lower: Option<std::io::Error>,
}

impl View for LoxError {
    type V = ErrorModel;

    closed spec fn view(&self) -> ErrorModel {
        ErrorModel { message: self.err@, line: self.line as int }
    }
}

/// The rendered form of an error: `Error: {message} in line {line}` and a
/// line feed.
pub open spec fn rendered(e: ErrorModel) -> Seq<char> {
    "Error: "@ + e.message + " in line "@ + signed_decimal(e.line) + seq!['\n']
}

/// The models of a sequence of errors, in order.
pub open spec fn error_models(items: Seq<LoxError>) -> Seq<ErrorModel> {
    Seq::new(items.len(), |i: int| items[i]@)
}

impl LoxError {
    /// The I/O failure that caused this error, if any.
    pub closed spec fn lower(&self) -> Option<std::io::Error> {
        self.lower
    }

    /// An error with message `s` at line `l`, without an underlying cause.
    pub fn new(s: std::string::String, l: i32) -> (r: LoxError)
        ensures
            r@ == (ErrorModel { message: s@, line: l as int }),
            r.lower() is None,
    {
        LoxError { line: l, err: s, lower: None }
    }

    /// An error with message `s` at line `l`, caused by the I/O failure `e`.
    pub fn with_lower(s: std::string::String, l: i32, e: std::io::Error) -> (r: LoxError)
        ensures
            r@ == (ErrorModel { message: s@, line: l as int }),
            r.lower() == Some(e),
    {
        LoxError { line: l, err: s, lower: Some(e) }
    }

    /// The message.
    pub fn description(&self) -> (r: &str)
        ensures
            r@ == self@.message,
    {
        self.err.as_str()
    }

    /// The line the error points at.
    pub fn line(&self) -> (r: i32)
        ensures
            r == self@.line,
    {
        self.line
    }

    /// The I/O failure underneath, if any.
    pub fn cause(&self) -> (r: Option<&std::io::Error>)
        ensures
            r is Some == self.lower() is Some,
            r is Some ==> *r->0 == self.lower()->0,
    {
        match &self.lower {
            Some(e) => Some(e),
            None => None,
        }
    }

    /// The error as shown to a user.
    pub fn to_string(&self) -> (r: std::string::String)
        ensures
            r@ == rendered(self@),
    {
        let mut out = std::string::String::new();
        push_text(&mut out, "Error: ");
        push_text(&mut out, self.err.as_str());
        push_text(&mut out, " in line ");
        push_signed_decimal(&mut out, self.line);
        out.push('\n');
        out
    }

    /// A copy of message and line. The cause is not copied: an I/O failure
    /// cannot be duplicated.
    pub fn restated(&self) -> (r: LoxError)
        ensures
            r@ == self@,
            r.lower() is None,
    {
        LoxError { line: self.line, err: self.err.clone(), lower: None }
    }
}

} // verus!
