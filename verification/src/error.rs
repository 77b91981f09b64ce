//! The domain errors an operation can report.

use vstd::prelude::*;

verus! {

/// Why an operation refused to run.
#[derive(Debug, Clone, PartialEq, Eq)]
pub enum ProgramError {
    /// The sidecar files are absent; nothing is staged yet.
    NotInitialized,
    /// The sidecar files are misaligned and must be re-edited first.
    NotClean,
    /// An underlying operation failed; the caller carries the detail.
    InternalError,
}

/// The text each error is reported with.
pub open spec fn message_spec(e: ProgramError) -> Seq<char> {
    match e {
        ProgramError::NotInitialized => "Not initialized"@,
        ProgramError::NotClean => "Not clean"@,
        ProgramError::InternalError => "Internal error"@,
    }
}

impl ProgramError {
    /// The text the error is reported with.
    pub fn message(&self) -> (r: String)
        ensures
            r@ == message_spec(*self),
    {
        match self {
            ProgramError::NotInitialized => String::from_str("Not initialized"),
            ProgramError::NotClean => String::from_str("Not clean"),
            ProgramError::InternalError => String::from_str("Internal error"),
        }
    }
}

} // verus!
