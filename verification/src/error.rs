//! What can go wrong.

use vstd::prelude::*;
use vstd::string::*;

verus! {

/// Why a running text cannot be made.
#[derive(Debug, Clone, Copy, PartialEq, Eq, Structural)]
pub enum ConstructionError {
    /// A window of no width was asked for.
    ZeroWidth,
    /// The pattern of a replacement rule is empty.
    EmptyPattern,
    /// The text is to run, and there is nothing in it.
    EmptyContent,
}

impl ConstructionError {
    /// The error as a text.
    pub fn to_string(&self) -> (r: String)
        ensures
            r@ == match *self {
                ConstructionError::ZeroWidth => "the window must have a width of at least 1"@,
                ConstructionError::EmptyPattern => "the pattern of a replacement is empty"@,
                ConstructionError::EmptyContent => "a text without content cannot run"@,
            },
    {
        match self {
            ConstructionError::ZeroWidth => "the window must have a width of at least 1".to_owned(),
            ConstructionError::EmptyPattern => "the pattern of a replacement is empty".to_owned(),
            ConstructionError::EmptyContent => "a text without content cannot run".to_owned(),
        }
    }
}

/// A source could not give its content. The message says why; the engine hands it on as it
/// is.
#[derive(Debug)]
pub struct SourceError {
    pub message: String,
}

impl SourceError {
    /// An error with the given message.
    pub fn new(message: String) -> (r: Self)
        ensures
            r.message@ == message@,
    {
        SourceError { message }
    }

    /// The message of the error.
    pub fn to_string(&self) -> (r: String)
        ensures
            r@ == self.message@,
    {
        self.message.clone()
    }
}

} // verus!
