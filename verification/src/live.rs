//! Errors of the live platforms.

use vstd::prelude::*;

verus! {

/// Why a room could not be read.
#[derive(Debug)]
pub enum LiveError {
    /// A reason in words.
    Custom(String),
    /// A time or a number is beyond what can be counted.
    Overflow,
}

/// The error tells `text`.
pub open spec fn tells(error: LiveError, text: Seq<char>) -> bool {
    error matches LiveError::Custom(t) && t@ == text
}

impl LiveError {
    /// An error with a reason in words.
    pub fn custom(text: &str) -> (error: Self)
        ensures
            tells(error, text@),
    {
        LiveError::Custom(text.to_owned())
    }

    /// An error with a reason in words and what lies behind it.
    pub fn because(text: &str, cause: &str) -> (error: Self)
        ensures
            tells(error, text@ + cause@),
    {
        let mut whole: String = text.to_owned();
        whole.append(cause);
        LiveError::Custom(whole)
    }
}

} // verus!
