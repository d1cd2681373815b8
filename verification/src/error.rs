//! The failures a counter operation can report.

use vstd::prelude::*;

verus! {

/// Why a counter operation did not produce a count.
#[derive(Clone, Copy, Debug, PartialEq, Eq, Structural)]
pub enum StoreError {
    /// No key was supplied.
    KeyMissing,
    /// The store could not be reached; nothing was read or written by the step.
    BackendUnavailable,
    /// The store was reached but the read failed.
    ReadFailed,
    /// The read succeeded but the write failed; the count must be read again
    /// before another write is attempted.
    WriteFailed,
    /// Every allowed attempt of a conditional write found the value changed.
    Contention,
    /// Stored text is not a count. Reads recover from this by counting zero.
    MalformedValue,
    /// The counter holds the largest count there is and cannot be incremented.
    Overflow,
}

/// How a request to the backend failed.
#[derive(Clone, Copy, Debug, PartialEq, Eq, Structural)]
pub enum BackendFault {
    /// The store could not be reached.
    Unavailable,
    /// The store was reached and refused or failed the request.
    Failed,
}

} // verus!
