//! Why a configuration text is rejected.

use vstd::prelude::*;
use vstd::string::StringExecFns;

verus! {

/// Why a configuration text is rejected, as a mathematical value.
pub enum ParseFailure {
    /// A line that is neither blank nor a comment holds no space. `line` is
    /// that line without the white space around it.
    MalformedLine { line: Seq<char> },
    /// A directive other than `Host` stands before the first `Host` line.
    /// `name` is the directive's name.
    OrphanDirective { name: Seq<char> },
}

impl ParseFailure {
    /// The text that reports this failure.
    pub open spec fn message(self) -> Seq<char> {
        match self {
            ParseFailure::MalformedLine { line } => "No parameter value found in line: "@ + line,
            ParseFailure::OrphanDirective { name } => "No Host directive before parameter "@ + name,
        }
    }
}

/// Why a configuration text is rejected.
#[derive(Debug, PartialEq, Eq)]
pub enum ParseError {
    /// A line that is neither blank nor a comment holds no space. `line` is
    /// that line without the white space around it.
    MalformedLine { line: String },
    /// A directive other than `Host` stands before the first `Host` line.
    /// `name` is the directive's name.
    OrphanDirective { name: String },
}

impl View for ParseError {
    type V = ParseFailure;

    open spec fn view(&self) -> ParseFailure {
        match self {
            ParseError::MalformedLine { line } => ParseFailure::MalformedLine { line: line@ },
            ParseError::OrphanDirective { name } => ParseFailure::OrphanDirective { name: name@ },
        }
    }
}

impl ParseError {
    /// The text that reports this error.
    pub fn message(&self) -> (text: String)
        ensures
            text@ == self@.message(),
    {
        match self {
            ParseError::MalformedLine { line } => {
                String::from_str("No parameter value found in line: ").concat(line.as_str())
            },
            ParseError::OrphanDirective { name } => {
                String::from_str("No Host directive before parameter ").concat(name.as_str())
            },
        }
    }
}

} // verus!
