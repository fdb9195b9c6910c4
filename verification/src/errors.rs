//! The fatal errors of the engine. Every one is unrecoverable: the caller
//! reports the message and stops.

use vstd::prelude::*;
use vstd::string::StringExecFns;
use crate::text::{dec_digits, usize_to_string};

verus! {

/// What went wrong, each variant naming the offending input.
#[derive(Debug, PartialEq, Eq)]
pub enum Error {
    /// An intermediate path segment named no child collection.
    CollectionNotFound { id: String },
    /// The final path segment named no target of the collection.
    TargetNotFound { id: String },
    /// A target referenced a listing function that is not defined.
    UnknownFunctionId { id: String },
    /// The option (display-name) regex did not compile.
    InvalidOptionRegex { pattern: String },
    /// The argument regex did not compile.
    InvalidArgRegex { pattern: String },
    /// A listing line yielded no argument capture.
    NoArgCapture { line: String },
    /// A listing line yielded several argument captures.
    MultipleArgCaptures { line: String, count: usize },
    /// Shell-style expansion of a substituted template failed.
    ExpansionFailed { text: String },
}

/// The report each error prints.
pub open spec fn message_view(e: Error) -> Seq<char> {
    match e {
        Error::CollectionNotFound { id } => "expected collection with id "@ + id@
            + ", but found none"@,
        Error::TargetNotFound { id } => "no target with id "@ + id@,
        Error::UnknownFunctionId { id } => "unknown function id "@ + id@,
        Error::InvalidOptionRegex { pattern } => "invalid option regex "@ + pattern@,
        Error::InvalidArgRegex { pattern } => "invalid argument regex "@ + pattern@,
        Error::NoArgCapture { line } => "unable to extract arg from "@ + line@,
        Error::MultipleArgCaptures { line, count } => "unable to handle multiple args per option (found "@
            + dec_digits(count as nat) + ") in "@ + line@,
        Error::ExpansionFailed { text } => "failed to expand "@ + text@,
    }
}

impl Error {
    /// The message a caller reports before aborting.
    pub fn message(&self) -> (r: String)
        ensures
            r@ == message_view(*self),
    {
        match self {
            Error::CollectionNotFound { id } => {
                let mut r = String::from_str("expected collection with id ");
                r.append(id.as_str());
                r.append(", but found none");
                r
            },
            Error::TargetNotFound { id } => {
                let mut r = String::from_str("no target with id ");
                r.append(id.as_str());
                r
            },
            Error::UnknownFunctionId { id } => {
                let mut r = String::from_str("unknown function id ");
                r.append(id.as_str());
                r
            },
            Error::InvalidOptionRegex { pattern } => {
                let mut r = String::from_str("invalid option regex ");
                r.append(pattern.as_str());
                r
            },
            Error::InvalidArgRegex { pattern } => {
                let mut r = String::from_str("invalid argument regex ");
                r.append(pattern.as_str());
                r
            },
            Error::NoArgCapture { line } => {
                let mut r = String::from_str("unable to extract arg from ");
                r.append(line.as_str());
                r
            },
            Error::MultipleArgCaptures { line, count } => {
                let mut r = String::from_str("unable to handle multiple args per option (found ");
                r.append(usize_to_string(*count).as_str());
                r.append(") in ");
                r.append(line.as_str());
                r
            },
            Error::ExpansionFailed { text } => {
                let mut r = String::from_str("failed to expand ");
                r.append(text.as_str());
                r
            },
        }
    }
}

} // verus!
