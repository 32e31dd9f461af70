//! The three ways an operation can end without effect.

use vstd::prelude::*;

verus! {

/// Why an operation did not complete. Every variant is final for the operation
/// that returned it: nothing is retried and nothing of the operation is kept.
#[derive(Clone, Copy, Debug, PartialEq, Eq, Structural)]
pub enum CoreError {
    /// The input breaks a rule: an empty title, or a choice that is not the poll's.
    Validation,
    /// No poll carries the reference that was given.
    NotFound,
    /// The store could not complete a write.
    Store,
}

impl CoreError {
    /// The HTTP status that an adapter should answer with.
    pub open spec fn status_of(self) -> u16 {
        match self {
            CoreError::Validation => 400,
            CoreError::NotFound => 404,
            CoreError::Store => 500,
        }
    }

    /// The HTTP status that an adapter should answer with.
    pub fn status(&self) -> (code: u16)
        ensures
            code == self.status_of(),
    {
        match self {
            CoreError::Validation => 400,
            CoreError::NotFound => 404,
            CoreError::Store => 500,
        }
    }
}


/// Why the reference in a request's path could not be read.
#[derive(Clone, Copy, Debug, PartialEq, Eq, Structural)]
pub enum ParamError {
    /// The path holds no reference.
    Missing,
    /// What the path holds is not a UUID.
    Invalid,
}

impl ParamError {
    /// The HTTP status that an adapter should answer with: a bad request either way.
    pub fn status(&self) -> (code: u16)
        ensures
            code == 400,
    {
        400
    }

    /// The words that an adapter should answer with.
    pub fn message(&self) -> (words: String)
        ensures
            words@ == match *self {
                ParamError::Missing => "No uuid specified"@,
                ParamError::Invalid => "Invalid uuid specified"@,
            },
    {
        match self {
            ParamError::Missing => "No uuid specified".to_owned(),
            ParamError::Invalid => "Invalid uuid specified".to_owned(),
        }
    }
}

} // verus!
