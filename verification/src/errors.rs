//! The errors that the dispatch core reports to its callers.

use crate::storage_backend::StorageFailure;
use vstd::prelude::*;
use vstd::string::*;

verus! {

/// What can go wrong in an operation on a topic. None of these is fatal to
/// the process: the caller decides whether to retry, rewind or give up.
#[derive(Debug)]
pub enum ReliableDispatchError {
    /// The storage backend failed; the text is the backend's own message.
    StorageError(String),
    /// A dispatcher was requested for a subscription that was never added.
    SubscriptionNotFound(String),
    /// The segment a cursor stands on has been reclaimed.
    SegmentNotFound(usize),
    /// An operation would have broken an invariant of the log, such as an
    /// append to a closed segment.
    InvariantViolation(String),
    /// The topic has been shut down.
    ShuttingDown,
}

impl ReliableDispatchError {
    /// The error that a failure of the storage backend is reported as: a
    /// storage error with the backend's own message.
    pub fn from_storage_failure(failure: StorageFailure) -> (error: Self)
        ensures
            error == ReliableDispatchError::StorageError(failure.message),
    {
        ReliableDispatchError::StorageError(failure.message)
    }

    /// A short human-readable name of the kind of error.
    pub fn kind(&self) -> (text: String)
        ensures
            text@ == (match *self {
                ReliableDispatchError::StorageError(_) => "storage error"@,
                ReliableDispatchError::SubscriptionNotFound(_) => "subscription not found"@,
                ReliableDispatchError::SegmentNotFound(_) => "segment not found"@,
                ReliableDispatchError::InvariantViolation(_) => "invariant violation"@,
                ReliableDispatchError::ShuttingDown => "shutting down"@,
            }),
    {
        match self {
            ReliableDispatchError::StorageError(_) => String::from_str("storage error"),
            ReliableDispatchError::SubscriptionNotFound(_) => String::from_str(
                "subscription not found",
            ),
            ReliableDispatchError::SegmentNotFound(_) => String::from_str("segment not found"),
            ReliableDispatchError::InvariantViolation(_) => String::from_str(
                "invariant violation",
            ),
            ReliableDispatchError::ShuttingDown => String::from_str("shutting down"),
        }
    }
}

} // verus!
