//! The standard error of the contracts' shared helpers.
use vstd::prelude::*;

verus! {

/// The errors that the shared helpers return: an arithmetic overflow, or a
/// generic error with its message.
#[derive(Clone, Debug, PartialEq, Eq)]
pub enum StdError {
    Overflow,
    DivideByZero,
    GenericErr { msg: String },
}

/// The message of a generic error in `r`, if `r` is one.
pub open spec fn generic_msg<T>(r: Result<T, StdError>) -> Option<Seq<char>> {
    match r {
        Err(StdError::GenericErr { msg }) => Some(msg@),
        _ => None,
    }
}

impl StdError {
    /// A generic error carrying `msg`.
    pub fn generic_err(msg: &str) -> (r: StdError)
        ensures
            r matches StdError::GenericErr { msg: m } && m@ == msg@,
    {
        StdError::GenericErr { msg: String::from_str(msg) }
    }
}

} // verus!
