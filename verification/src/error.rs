//! The library's error type.

use vstd::prelude::*;
use crate::text::IntParseError;

verus! {

/// Errors reported to the user interface.
#[derive(Debug, PartialEq, Eq)]
pub enum AppError {
    /// An unexpected failure, with a description.
    CustomError(String),
    /// A request that the library refuses, with the reason.
    GeneralLogicalErr(String),
    /// The application could not start up properly.
    StartupError(String),
    /// A number in a text could not be read.
    IntParse(IntParseError),
    /// A date in a text could not be read; the parser's message.
    DateParse(String),
    /// A file system operation failed; the system's message.
    Io(String),
    /// A snapshot database operation failed; the database's message.
    Database(String),
    /// An event could not be delivered to the user interface.
    Event(String),
    /// The operating system's launch-at-login setting could not be changed.
    Autostart(String),
}

/// `e` is a refusal with the message `msg`.
pub open spec fn is_logical_error(e: AppError, msg: Seq<char>) -> bool {
    e matches AppError::GeneralLogicalErr(m) && m@ == msg
}

/// A refusal carrying the given message.
pub fn logical_error(msg: &str) -> (e: AppError)
    ensures
        is_logical_error(e, msg@),
{
    AppError::GeneralLogicalErr(String::from_str(msg))
}

} // verus!
