//! The error type of the library.
use vstd::prelude::*;

verus! {

/// Errors reported to the caller: a message, or the absence of an
/// initialised workspace.
pub enum AppError {
    Message(String),
    RootNotInitialized,
}

impl AppError {
    /// The error is a message with exactly this text.
    pub open spec fn is_message(&self, text: Seq<char>) -> bool {
        match self {
            AppError::Message(m) => m@ == text,
            AppError::RootNotInitialized => false,
        }
    }
}

/// A message error with the given text.
pub fn message(text: &str) -> (e: AppError)
    ensures
        e.is_message(text@),
{
    AppError::Message(text.to_owned())
}

} // verus!
