//! The error taxonomy of the storage core.

use vstd::prelude::*;

verus! {

/// Every failure an operation of this crate can report.
///
/// `InvalidMnemonic` and `NotFound` are deliberately uninformative to a
/// caller: a wrong phrase and a deleted record must be indistinguishable.
#[derive(Clone, Copy, Debug, PartialEq, Eq, Structural)]
pub enum AppError {
    /// The phrase is malformed: wrong word count, a word outside the
    /// wordlist, or a bad separator. Reported before any key is derived.
    InvalidMnemonic,
    /// The phrase is well formed but no record matches its address.
    NotFound,
    /// Authentication failed on the filename or on a content chunk.
    IntegrityError,
    /// An external collaborator (disk, random source) failed.
    StorageIoError,
    /// A record with the same storage address already exists.
    Conflict,
}

impl AppError {
    /// A short description, equal for the two phrase-related failures'
    /// user-visible purposes but distinct values for programmatic handling.
    pub fn message(&self) -> &'static str {
        match self {
            AppError::InvalidMnemonic => "access denied",
            AppError::NotFound => "access denied",
            AppError::IntegrityError => "integrity check failed",
            AppError::StorageIoError => "storage failure",
            AppError::Conflict => "address conflict",
        }
    }
}

} // verus!
