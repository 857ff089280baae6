//! The error type shared by every operation of the library.

use vstd::prelude::*;
use crate::raw::RawString;

verus! {

/// Specification-level mirror of [`ArgError`]: the same variants over plain
/// sequences.
pub enum ErrorModel {
    ExitSuccessfully,
    InvalidUnicode(Seq<u8>),
    UnexpectedFlag(Seq<char>),
    UnexpectedArgument(Seq<u8>),
    UnexpectedParameter(Seq<char>),
    ParameterMissing(Seq<char>),
    ArgumentMissing(Seq<char>),
    ErrorMessage(Seq<char>),
}

/// Error type for argument processing.
#[derive(Debug, PartialEq, Eq)]
#[non_exhaustive]
pub enum ArgError {
    /// Not a real error: the application has already printed usage or
    /// version information and should exit successfully. Propagated through
    /// the error channel so one top-level handler can map it to success.
    ExitSuccessfully,
    /// An argument could not be decoded as valid Unicode.
    InvalidUnicode(RawString),
    /// User code did not recognize a given flag.
    UnexpectedFlag(String),
    /// A stashed argument was found when no more arguments were expected.
    UnexpectedArgument(RawString),
    /// The previous flag had an attached parameter which was never
    /// retrieved, for example `--fruit=banana`.
    UnexpectedParameter(String),
    /// A parameter was required but none is available.
    ParameterMissing(String),
    /// Another argument was requested but none is available.
    ArgumentMissing(String),
    /// For use by caller code, usually through [`ArgError::message`].
    ErrorMessage(String),
}

impl Clone for ArgError {
    /// The copy carries the same model.
    fn clone(&self) -> (r: Self)
        ensures
            r@ == self@,
    {
        match self {
            ArgError::ExitSuccessfully => ArgError::ExitSuccessfully,
            ArgError::InvalidUnicode(a) => ArgError::InvalidUnicode(a.clone()),
            ArgError::UnexpectedFlag(f) => ArgError::UnexpectedFlag(f.clone()),
            ArgError::UnexpectedArgument(a) => ArgError::UnexpectedArgument(a.clone()),
            ArgError::UnexpectedParameter(f) => ArgError::UnexpectedParameter(f.clone()),
            ArgError::ParameterMissing(f) => ArgError::ParameterMissing(f.clone()),
            ArgError::ArgumentMissing(d) => ArgError::ArgumentMissing(d.clone()),
            ArgError::ErrorMessage(m) => ArgError::ErrorMessage(m.clone()),
        }
    }
}

impl View for ArgError {
    type V = ErrorModel;

    open spec fn view(&self) -> ErrorModel {
        match self {
            ArgError::ExitSuccessfully => ErrorModel::ExitSuccessfully,
            ArgError::InvalidUnicode(a) => ErrorModel::InvalidUnicode(a@),
            ArgError::UnexpectedFlag(f) => ErrorModel::UnexpectedFlag(f@),
            ArgError::UnexpectedArgument(a) => ErrorModel::UnexpectedArgument(a@),
            ArgError::UnexpectedParameter(f) => ErrorModel::UnexpectedParameter(f@),
            ArgError::ParameterMissing(f) => ErrorModel::ParameterMissing(f@),
            ArgError::ArgumentMissing(d) => ErrorModel::ArgumentMissing(d@),
            ArgError::ErrorMessage(m) => ErrorModel::ErrorMessage(m@),
        }
    }
}

impl ArgError {
    /// Create an [`ArgError::ErrorMessage`].
    pub fn message(msg: &str) -> (r: ArgError)
        ensures
            r@ == ErrorModel::ErrorMessage(msg@),
    {
        ArgError::ErrorMessage(msg.to_owned())
    }

    /// Create an [`ArgError::UnexpectedFlag`].
    pub fn unknown_flag(flag: &str) -> (r: ArgError)
        ensures
            r@ == ErrorModel::UnexpectedFlag(flag@),
    {
        ArgError::UnexpectedFlag(flag.to_owned())
    }

    /// Create an [`ArgError::UnexpectedArgument`].
    pub fn unexpected_argument(arg: RawString) -> (r: ArgError)
        ensures
            r@ == ErrorModel::UnexpectedArgument(arg@),
    {
        ArgError::UnexpectedArgument(arg)
    }

    /// Create an [`ArgError::ExitSuccessfully`].
    pub fn exit_successfully() -> (r: ArgError)
        ensures
            r@ == ErrorModel::ExitSuccessfully,
    {
        ArgError::ExitSuccessfully
    }
}

} // verus!
