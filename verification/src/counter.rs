//! The counter operations on a store in memory, and what holds of calls that
//! follow one another.

use vstd::prelude::*;

use crate::adapter::{
    count_of, next_count, plan_write, settle_conditional_write, WriteVerdict, MAX_ATTEMPTS,
};
use crate::codec::{decimal_text, law_round_trip, stored_count, Count};
use crate::error::StoreError;
use crate::store::MemoryStore;

verus! {

/// The count of the counter `key` in `store`.
pub open spec fn count_at(store: Map<Seq<char>, Seq<char>>, key: Seq<char>) -> Count {
    stored_count(store.get(key))
}

/// What an increment of the counter `key` returns on `store`.
pub open spec fn increment_result(store: Map<Seq<char>, Seq<char>>, key: Seq<char>) -> Result<
    Count,
    StoreError,
> {
    next_count(store.get(key))
}

/// The store after an increment of the counter `key`.
pub open spec fn after_increment(store: Map<Seq<char>, Seq<char>>, key: Seq<char>) -> Map<
    Seq<char>,
    Seq<char>,
> {
    match next_count(store.get(key)) {
        Ok(count) => store.insert(key, decimal_text(count as nat)),
        Err(_) => store,
    }
}

/// Reads the counter `key`.
pub fn get_count(store: &MemoryStore, key: &str) -> (outcome: Result<Count, StoreError>)
    requires
        key@.len() > 0,
    ensures
        outcome == Ok::<Count, StoreError>(count_at(store@, key@)),
{
    let stored = store.get(key);
    Ok(count_of(&stored))
}

/// Increments the counter `key` by a read and an unconditional write.
pub fn increment_count(store: &mut MemoryStore, key: &str) -> (outcome: Result<Count, StoreError>)
    requires
        key@.len() > 0,
    ensures
        outcome == increment_result(old(store)@, key@),
        final(store)@ == after_increment(old(store)@, key@),
{
    let stored = store.get(key);
    match plan_write(&stored) {
        Ok(write) => {
            store.put(key, write.text);
            Ok(write.count)
        },
        Err(error) => Err(error),
    }
}

/// Increments the counter `key` by a read and a write that is applied only if
/// the key still holds what was read, and starts over where it does not, up to
/// `MAX_ATTEMPTS` attempts. With the store to itself the first attempt is
/// applied.
pub fn increment_count_guarded(store: &mut MemoryStore, key: &str) -> (outcome: Result<
    Count,
    StoreError,
>)
    requires
        key@.len() > 0,
    ensures
        outcome == increment_result(old(store)@, key@),
        final(store)@ == after_increment(old(store)@, key@),
{
    let mut attempt: u32 = 1;
    loop
        invariant
            1 <= attempt <= MAX_ATTEMPTS,
            store@ == old(store)@,
        decreases MAX_ATTEMPTS - attempt,
    {
        let stored = store.get(key);
        let write = match plan_write(&stored) {
            Ok(write) => write,
            Err(error) => {
                return Err(error);
            },
        };
        let applied = store.put_if_unchanged(key, &stored, write.text);
        match settle_conditional_write(attempt, write.count, Ok(applied)) {
            WriteVerdict::Done(count) => {
                return Ok(count);
            },
            WriteVerdict::Retry { attempt: next } => {
                attempt = next;
            },
            WriteVerdict::Failed(error) => {
                return Err(error);
            },
        }
    }
}

/// One call on a counter.
pub enum Call {
    /// A read of the count.
    Get,
    /// An increment.
    Increment,
}

/// What `call` returns for the counter `key` on `store`.
pub open spec fn call_result(
    store: Map<Seq<char>, Seq<char>>,
    key: Seq<char>,
    call: Call,
) -> Result<Count, StoreError> {
    match call {
        Call::Get => Ok(count_at(store, key)),
        Call::Increment => increment_result(store, key),
    }
}

/// The store after `call` for the counter `key`.
pub open spec fn after_call(
    store: Map<Seq<char>, Seq<char>>,
    key: Seq<char>,
    call: Call,
) -> Map<Seq<char>, Seq<char>> {
    match call {
        Call::Get => store,
        Call::Increment => after_increment(store, key),
    }
}

/// The store after `calls` for the counter `key`, made one after another.
pub open spec fn after_calls(
    store: Map<Seq<char>, Seq<char>>,
    key: Seq<char>,
    calls: Seq<Call>,
) -> Map<Seq<char>, Seq<char>>
    decreases calls.len(),
{
    if calls.len() == 0 {
        store
    } else {
        after_call(after_calls(store, key, calls.drop_last()), key, calls.last())
    }
}

/// How many of `calls` are increments.
pub open spec fn increments_in(calls: Seq<Call>) -> nat
    decreases calls.len(),
{
    if calls.len() == 0 {
        0
    } else {
        increments_in(calls.drop_last()) + if calls.last() is Increment {
            1nat
        } else {
            0nat
        }
    }
}

/// The first increment of a counter that was never written returns 1 and
/// stores the text "1".
pub proof fn law_first_increment(store: Map<Seq<char>, Seq<char>>, key: Seq<char>)
    requires
        !store.contains_key(key),
    ensures
        increment_result(store, key) == Ok::<Count, StoreError>(1),
        after_increment(store, key).get(key) == Some(seq!['1']),
{
}

/// An increment below the largest count returns one more than the count read,
/// leaves that count stored, and touches no other key.
pub proof fn law_increment_adds_one(store: Map<Seq<char>, Seq<char>>, key: Seq<char>)
    requires
        count_at(store, key) < Count::MAX,
    ensures
        increment_result(store, key) == Ok::<Count, StoreError>(
            (count_at(store, key) + 1) as Count,
        ),
        count_at(after_increment(store, key), key) == count_at(store, key) + 1,
        forall|other: Seq<char>|
            other != key ==> after_increment(store, key).get(other) == store.get(other),
{
    law_round_trip((count_at(store, key) + 1) as Count);
}

/// Calls made one after another leave the counter at its first count plus the
/// number of increments among them, however many reads stand between them,
/// and leave every other key as it was. From a counter that was never
/// written, `n` increments leave the count `n`, stored as the decimal text of
/// `n`.
pub proof fn law_sequential_calls(
    store: Map<Seq<char>, Seq<char>>,
    key: Seq<char>,
    calls: Seq<Call>,
)
    requires
        count_at(store, key) + increments_in(calls) <= Count::MAX,
    ensures
        count_at(after_calls(store, key, calls), key) == count_at(store, key) + increments_in(
            calls,
        ),
        call_result(after_calls(store, key, calls), key, Call::Get) == Ok::<Count, StoreError>(
            (count_at(store, key) + increments_in(calls)) as Count,
        ),
        increments_in(calls) > 0 ==> after_calls(store, key, calls).get(key) == Some(
            decimal_text((count_at(store, key) + increments_in(calls)) as nat),
        ),
        increments_in(calls) == 0 ==> after_calls(store, key, calls) == store,
        forall|other: Seq<char>|
            other != key ==> after_calls(store, key, calls).get(other) == store.get(other),
    decreases calls.len(),
{
    if calls.len() > 0 {
        let before = after_calls(store, key, calls.drop_last());
        law_sequential_calls(store, key, calls.drop_last());
        if calls.last() is Increment {
            law_increment_adds_one(before, key);
        }
    }
}

/// A read changes nothing, so a read that follows a read returns the same.
pub proof fn law_read_is_idempotent(store: Map<Seq<char>, Seq<char>>, key: Seq<char>)
    ensures
        after_call(store, key, Call::Get) == store,
        call_result(after_call(store, key, Call::Get), key, Call::Get) == call_result(
            store,
            key,
            Call::Get,
        ),
{
}

} // verus!
