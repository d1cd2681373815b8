//! The decisions of the counter operations, apart from the store.
//!
//! A read of a count is one request to the store; an increment is a read and
//! then a write. Whoever talks to the store hands each reply to the function
//! for that step and does what comes back: nothing here waits, retries on its
//! own or keeps state between calls.

use vstd::prelude::*;

use crate::codec::{
    decimal_text, parse_count, parse_text, render_count, stored_count, Count, DEFAULT_COUNT,
};
use crate::error::{BackendFault, StoreError};

verus! {

/// How many conditional writes one increment attempts before it gives up.
pub const MAX_ATTEMPTS: u32 = 5;

/// The write that an increment asks for after its read.
#[derive(Debug, PartialEq, Eq)]
pub struct PlannedWrite {
    /// The count after the increment.
    pub count: Count,
    /// The text to store for it.
    pub text: String,
}

/// What an increment does after a conditional write has been answered.
#[derive(Clone, Copy, Debug, PartialEq, Eq, Structural)]
pub enum WriteVerdict {
    /// The write was applied: the increment returns this count.
    Done(Count),
    /// The value had changed: read again, as the attempt with this number.
    Retry { attempt: u32 },
    /// The increment ends with this error.
    Failed(StoreError),
}

/// A read's reply with its text as a sequence of characters.
pub open spec fn reply_text(reply: Result<Option<String>, BackendFault>) -> Result<
    Option<Seq<char>>,
    BackendFault,
> {
    match reply {
        Ok(stored) => Ok(stored.deep_view()),
        Err(fault) => Err(fault),
    }
}

/// The error that a failed read is reported as.
pub open spec fn read_error(fault: BackendFault) -> StoreError {
    match fault {
        BackendFault::Unavailable => StoreError::BackendUnavailable,
        BackendFault::Failed => StoreError::ReadFailed,
    }
}

/// The error that a failed write is reported as.
pub open spec fn write_error(fault: BackendFault) -> StoreError {
    match fault {
        BackendFault::Unavailable => StoreError::BackendUnavailable,
        BackendFault::Failed => StoreError::WriteFailed,
    }
}

/// The result of reading a count, given the store's reply.
pub open spec fn read_outcome(reply: Result<Option<Seq<char>>, BackendFault>) -> Result<
    Count,
    StoreError,
> {
    match reply {
        Ok(stored) => Ok(stored_count(stored)),
        Err(fault) => Err(read_error(fault)),
    }
}

/// The count that an increment sets out to write over the stored text
/// `stored`: one more than its count, unless that is the largest count.
pub open spec fn next_count(stored: Option<Seq<char>>) -> Result<Count, StoreError> {
    if stored_count(stored) < Count::MAX {
        Ok((stored_count(stored) + 1) as Count)
    } else {
        Err(StoreError::Overflow)
    }
}

/// The count that an increment sets out to write, given the reply to its read.
pub open spec fn planned_count(reply: Result<Option<Seq<char>>, BackendFault>) -> Result<
    Count,
    StoreError,
> {
    match reply {
        Ok(stored) => next_count(stored),
        Err(fault) => Err(read_error(fault)),
    }
}

/// `plan` asks to write `wanted` as its stored text, or fails as `wanted` does.
pub open spec fn is_plan_for(
    plan: Result<PlannedWrite, StoreError>,
    wanted: Result<Count, StoreError>,
) -> bool {
    match wanted {
        Ok(count) => plan is Ok && plan->Ok_0.count == count && plan->Ok_0.text@ == decimal_text(
            count as nat,
        ),
        Err(error) => plan is Err && plan->Err_0 == error,
    }
}

/// The result of an increment whose unconditional write of `count` was
/// answered by `reply`.
pub open spec fn write_outcome(count: Count, reply: Result<(), BackendFault>) -> Result<
    Count,
    StoreError,
> {
    match reply {
        Ok(_) => Ok(count),
        Err(fault) => Err(write_error(fault)),
    }
}

/// What follows the conditional write of `count` in attempt number `attempt`
/// (the first attempt has number 1). The reply says whether the write was
/// applied.
pub open spec fn conditional_outcome(
    attempt: u32,
    count: Count,
    reply: Result<bool, BackendFault>,
) -> WriteVerdict {
    match reply {
        Ok(applied) => if applied {
            WriteVerdict::Done(count)
        } else if attempt < MAX_ATTEMPTS {
            WriteVerdict::Retry { attempt: (attempt + 1) as u32 }
        } else {
            WriteVerdict::Failed(StoreError::Contention)
        },
        Err(fault) => WriteVerdict::Failed(write_error(fault)),
    }
}

/// Tells whether `key` names a counter: every key but the empty one does.
pub fn check_key(key: &str) -> (checked: Result<(), StoreError>)
    ensures
        checked == if key@.len() == 0 {
            Err::<(), StoreError>(StoreError::KeyMissing)
        } else {
            Ok(())
        },
{
    if key.is_empty() {
        Err(StoreError::KeyMissing)
    } else {
        Ok(())
    }
}

/// The count of a counter whose stored text is `stored`.
pub fn count_of(stored: &Option<String>) -> (count: Count)
    ensures
        count == stored_count(stored.deep_view()),
{
    match stored {
        Some(text) => match parse_count(text.as_str()) {
            Ok(count) => count,
            Err(_) => DEFAULT_COUNT,
        },
        None => DEFAULT_COUNT,
    }
}

/// Turns the store's reply to a read into the count that is reported.
pub fn count_from_read(reply: &Result<Option<String>, BackendFault>) -> (outcome: Result<
    Count,
    StoreError,
>)
    ensures
        outcome == read_outcome(reply_text(*reply)),
{
    match reply {
        Ok(stored) => Ok(count_of(stored)),
        Err(BackendFault::Unavailable) => Err(StoreError::BackendUnavailable),
        Err(BackendFault::Failed) => Err(StoreError::ReadFailed),
    }
}

/// Decides what an increment writes over the stored text `stored`.
pub fn plan_write(stored: &Option<String>) -> (plan: Result<PlannedWrite, StoreError>)
    ensures
        is_plan_for(plan, next_count(stored.deep_view())),
{
    let current = count_of(stored);
    if current == Count::MAX {
        return Err(StoreError::Overflow);
    }
    let count: Count = current + 1;
    Ok(PlannedWrite { count, text: render_count(count) })
}

/// Decides what an increment writes, given the store's reply to its read.
pub fn plan_increment(reply: &Result<Option<String>, BackendFault>) -> (plan: Result<
    PlannedWrite,
    StoreError,
>)
    ensures
        is_plan_for(plan, planned_count(reply_text(*reply))),
{
    match reply {
        Ok(stored) => plan_write(stored),
        Err(BackendFault::Unavailable) => Err(StoreError::BackendUnavailable),
        Err(BackendFault::Failed) => Err(StoreError::ReadFailed),
    }
}

/// Ends an increment whose unconditional write of `count` was answered by
/// `reply`.
pub fn settle_write(count: Count, reply: Result<(), BackendFault>) -> (outcome: Result<
    Count,
    StoreError,
>)
    ensures
        outcome == write_outcome(count, reply),
{
    match reply {
        Ok(_) => Ok(count),
        Err(BackendFault::Unavailable) => Err(StoreError::BackendUnavailable),
        Err(BackendFault::Failed) => Err(StoreError::WriteFailed),
    }
}

/// Decides what follows the conditional write of `count` in attempt number
/// `attempt`, given the store's reply.
pub fn settle_conditional_write(
    attempt: u32,
    count: Count,
    reply: Result<bool, BackendFault>,
) -> (verdict: WriteVerdict)
    ensures
        verdict == conditional_outcome(attempt, count, reply),
{
    match reply {
        Ok(true) => WriteVerdict::Done(count),
        Ok(false) => if attempt < MAX_ATTEMPTS {
            WriteVerdict::Retry { attempt: attempt + 1 }
        } else {
            WriteVerdict::Failed(StoreError::Contention)
        },
        Err(BackendFault::Unavailable) => WriteVerdict::Failed(StoreError::BackendUnavailable),
        Err(BackendFault::Failed) => WriteVerdict::Failed(StoreError::WriteFailed),
    }
}

/// Stored text that denotes no count reads as the count zero, not as an
/// error, and an increment over it writes 1.
pub proof fn law_malformed_reads_as_zero(text: Seq<char>)
    requires
        parse_text(text) is None,
    ensures
        read_outcome(Ok(Some(text))) == Ok::<Count, StoreError>(0),
        planned_count(Ok(Some(text))) == Ok::<Count, StoreError>(1),
{
}

/// A counter that was never written reads as the count zero.
pub proof fn law_absent_reads_as_zero()
    ensures
        read_outcome(Ok(None)) == Ok::<Count, StoreError>(0),
        planned_count(Ok(None)) == Ok::<Count, StoreError>(1),
{
}

/// A failed read and a failed write are told apart: a read never ends in
/// `WriteFailed` and a write never in `ReadFailed`. Malformed text is never
/// reported as an error by either.
pub proof fn law_failures_are_told_apart(
    read: Result<Option<Seq<char>>, BackendFault>,
    attempt: u32,
    count: Count,
    written: Result<(), BackendFault>,
    applied: Result<bool, BackendFault>,
)
    ensures
        read_outcome(read) != Err::<Count, StoreError>(StoreError::WriteFailed),
        read_outcome(read) != Err::<Count, StoreError>(StoreError::MalformedValue),
        planned_count(read) != Err::<Count, StoreError>(StoreError::WriteFailed),
        planned_count(read) != Err::<Count, StoreError>(StoreError::MalformedValue),
        write_outcome(count, written) != Err::<Count, StoreError>(StoreError::ReadFailed),
        write_outcome(count, written) != Err::<Count, StoreError>(StoreError::MalformedValue),
        conditional_outcome(attempt, count, applied) != WriteVerdict::Failed(
            StoreError::ReadFailed,
        ),
        conditional_outcome(attempt, count, applied) != WriteVerdict::Failed(
            StoreError::MalformedValue,
        ),
{
}

} // verus!
