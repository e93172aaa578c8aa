//! The errors of the library, and how a failure reported by the native
//! library is told apart from a negative answer.
use vstd::prelude::*;

use crate::text::{chars_of, contains_chars, contains_seq};

verus! {

/// Errors of this crate.
///
/// The `bool` beside a native message says whether the native library
/// reported the failure as an error (`true`) or only as a warning.
#[derive(Debug)]
pub enum Error {
    /// Writing an option into the session data was refused.
    DataSet(String, bool),
    /// A command was refused.
    Cmd(String, bool),
    /// The set type could not be resolved for a command.
    TypeGet(String, bool),
    /// The list output could not be read.
    InvalidOutput(String),
    /// Saving or restoring through a file failed.
    SaveRestore(String),
    /// Text is not an IP address.
    AddrParse,
    /// Text is not a number of the expected width.
    ParseInt,
    /// A name holds a NUL character.
    Nul,
    /// A creation option does not apply to the set type.
    CAOption(String),
    /// A data field could not be read.
    DataParse(String),
}

/// Whether an error is a hard native error rather than a warning.
pub open spec fn spec_is_error(e: Error) -> bool {
    match e {
        Error::DataSet(_, fatal) => fatal,
        Error::Cmd(_, fatal) => fatal,
        Error::TypeGet(_, fatal) => fatal,
        _ => false,
    }
}

/// Whether `e` is a refused command whose message holds `m`.
pub open spec fn spec_cmd_contains(e: Error, m: Seq<char>) -> bool {
    match e {
        Error::Cmd(message, _) => contains_seq(message@, m),
        _ => false,
    }
}

impl Error {
    /// Whether this is a refused command whose message holds `m`.
    pub fn cmd_contains(&self, m: &str) -> (r: bool)
        ensures
            r == spec_cmd_contains(*self, m@),
    {
        match self {
            Error::Cmd(message, _) => {
                let s = chars_of(message.as_str());
                let t = chars_of(m);
                contains_chars(&s, &t)
            },
            _ => false,
        }
    }

    /// Whether the native library reported this as an error, not a warning.
    pub fn is_error(&self) -> (r: bool)
        ensures
            r == spec_is_error(*self),
    {
        match self {
            Error::DataSet(_, error) => *error,
            Error::Cmd(_, error) => *error,
            Error::TypeGet(_, error) => *error,
            _ => false,
        }
    }
}

} // verus!
