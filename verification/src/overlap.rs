//! Increments of one counter whose reads and writes interleave.
//!
//! Several increments are under way at once, each a read followed by a write,
//! and a schedule says whose step comes next. Keys do not affect each other, so
//! one counter is followed. The store answers every request; an increment ends
//! as the step functions of the adapter say.
//!
//! With unconditional writes an increment can overwrite another's: the count
//! never exceeds the increments issued, and can fall short of them. With
//! writes that are applied only to an unchanged value, the count is exactly
//! the number of increments that returned a count.

use vstd::prelude::*;
use vstd::set_lib::{lemma_int_range, set_int_range};

use crate::adapter::{conditional_outcome, next_count, write_outcome, WriteVerdict, MAX_ATTEMPTS};
use crate::codec::{decimal_text, law_round_trip, stored_count, Count};
use crate::error::StoreError;

verus! {

/// How the store treats a write.
pub enum WriteRule {
    /// Every write is applied: the last writer wins.
    Unconditional,
    /// A write is applied only if the counter still holds what its increment
    /// read.
    IfUnchanged,
}

/// One step of the increment with number `who`.
pub enum Move {
    /// It reads the counter.
    Read { who: int },
    /// It writes what it planned after its read.
    Write { who: int },
}

/// Where an increment stands.
pub enum Progress {
    /// It reads next, as its attempt with this number.
    Reading { attempt: u32 },
    /// It has read `seen` and writes the text of `count` next.
    Writing { attempt: u32, seen: Option<Seq<char>>, count: Count },
    /// It has returned.
    Finished(Result<Count, StoreError>),
}

/// A write that the store applied.
pub struct AppliedWrite {
    /// The increment that wrote.
    pub who: int,
    /// What that increment had read: the token its write was bound to.
    pub seen: Option<Seq<char>>,
    /// The count it wrote.
    pub count: Count,
}

/// One counter and the increments under way on it.
pub struct World {
    /// The counter's stored text.
    pub stored: Option<Seq<char>>,
    /// The increments that have made a step.
    pub calls: Map<int, Progress>,
    /// The writes that were applied, oldest first.
    pub applied: Seq<AppliedWrite>,
}

/// A counter holding `stored` on which no increment has made a step.
pub open spec fn start(stored: Option<Seq<char>>) -> World {
    World { stored, calls: Map::empty(), applied: Seq::empty() }
}

/// Where the increment `who` stands: one that has made no step reads next,
/// as its first attempt.
pub open spec fn progress_of(world: World, who: int) -> Progress {
    if world.calls.contains_key(who) {
        world.calls[who]
    } else {
        Progress::Reading { attempt: 1 }
    }
}

/// Whether the write of an increment that read `seen` is applied to `world`.
pub open spec fn is_applied(rule: WriteRule, world: World, seen: Option<Seq<char>>) -> bool {
    rule is Unconditional || seen == world.stored
}

/// Where an increment stands once its write was answered.
pub open spec fn after_write(
    rule: WriteRule,
    attempt: u32,
    count: Count,
    applied: bool,
) -> Progress {
    match rule {
        WriteRule::Unconditional => Progress::Finished(write_outcome(count, Ok(()))),
        WriteRule::IfUnchanged => match conditional_outcome(attempt, count, Ok(applied)) {
            WriteVerdict::Done(count) => Progress::Finished(Ok(count)),
            WriteVerdict::Retry { attempt } => Progress::Reading { attempt },
            WriteVerdict::Failed(error) => Progress::Finished(Err(error)),
        },
    }
}

/// The world after one step. A step that its increment is not due to make
/// changes nothing.
pub open spec fn step(rule: WriteRule, world: World, next: Move) -> World {
    match next {
        Move::Read { who } => match progress_of(world, who) {
            Progress::Reading { attempt } => World {
                calls: world.calls.insert(
                    who,
                    match next_count(world.stored) {
                        Ok(count) => Progress::Writing { attempt, seen: world.stored, count },
                        Err(error) => Progress::Finished(Err(error)),
                    },
                ),
                ..world
            },
            _ => world,
        },
        Move::Write { who } => match progress_of(world, who) {
            Progress::Writing { attempt, seen, count } => {
                let applied = is_applied(rule, world, seen);
                World {
                    stored: if applied {
                        Some(decimal_text(count as nat))
                    } else {
                        world.stored
                    },
                    calls: world.calls.insert(who, after_write(rule, attempt, count, applied)),
                    applied: if applied {
                        world.applied.push(AppliedWrite { who, seen, count })
                    } else {
                        world.applied
                    },
                }
            },
            _ => world,
        },
    }
}

/// The world after the steps of `schedule`, taken in order from `world`.
pub open spec fn run(rule: WriteRule, world: World, schedule: Seq<Move>) -> World
    decreases schedule.len(),
{
    if schedule.len() == 0 {
        world
    } else {
        step(rule, run(rule, world, schedule.drop_last()), schedule.last())
    }
}

/// What holds of every world reached with unconditional writes from a counter
/// of count `first`.
spec fn unconditional_inv(world: World, first: Count) -> bool {
    let issued = world.calls.dom().len();
    &&& world.calls.dom().finite()
    &&& first <= stored_count(world.stored) <= first + issued
    &&& world.applied.len() > 0 ==> first < stored_count(world.stored)
    &&& forall|who: int| #[trigger]
        world.calls.contains_key(who) ==> match world.calls[who] {
            Progress::Reading { .. } => false,
            Progress::Writing { count, .. } => first < count <= first + issued,
            Progress::Finished(_) => true,
        }
}

proof fn lemma_unconditional_step(world: World, first: Count, next: Move)
    requires
        unconditional_inv(world, first),
    ensures
        unconditional_inv(step(WriteRule::Unconditional, world, next), first),
{
    if let Move::Write { who } = next {
        if let Progress::Writing { count, .. } = progress_of(world, who) {
            law_round_trip(count);
        }
    }
}

proof fn lemma_unconditional_run(stored: Option<Seq<char>>, schedule: Seq<Move>)
    ensures
        unconditional_inv(
            run(WriteRule::Unconditional, start(stored), schedule),
            stored_count(stored),
        ),
    decreases schedule.len(),
{
    if schedule.len() > 0 {
        lemma_unconditional_run(stored, schedule.drop_last());
        lemma_unconditional_step(
            run(WriteRule::Unconditional, start(stored), schedule.drop_last()),
            stored_count(stored),
            schedule.last(),
        );
    }
}

/// With unconditional writes, however the steps of the increments interleave,
/// the count never falls below where it started and never exceeds that by
/// more than the number of increments issued; once a write was applied it is
/// above where it started. Each increment reads once, so the increments
/// issued are those that have made a step.
pub proof fn law_overlap_never_overcounts(stored: Option<Seq<char>>, schedule: Seq<Move>)
    ensures
        ({
            let world = run(WriteRule::Unconditional, start(stored), schedule);
            &&& world.calls.dom().finite()
            &&& stored_count(stored) <= stored_count(world.stored) <= stored_count(stored)
                + world.calls.dom().len()
            &&& world.applied.len() > 0 ==> stored_count(stored) < stored_count(world.stored)
        }),
{
    lemma_unconditional_run(stored, schedule);
}

/// With unconditional writes, two increments that both read before either
/// writes both return the same count, and the counter rises by one, not two.
pub proof fn law_overlap_loses_update(stored: Option<Seq<char>>, one: int, other: int)
    requires
        one != other,
        stored_count(stored) < Count::MAX,
    ensures
        ({
            let schedule = seq![
                Move::Read { who: one },
                Move::Read { who: other },
                Move::Write { who: one },
                Move::Write { who: other },
            ];
            let world = run(WriteRule::Unconditional, start(stored), schedule);
            let count = (stored_count(stored) + 1) as Count;
            &&& progress_of(world, one) == Progress::Finished(Ok(count))
            &&& progress_of(world, other) == Progress::Finished(Ok(count))
            &&& world.stored == Some(decimal_text(count as nat))
            &&& stored_count(world.stored) == stored_count(stored) + 1
        }),
{
    let schedule = seq![
        Move::Read { who: one },
        Move::Read { who: other },
        Move::Write { who: one },
        Move::Write { who: other },
    ];
    let rule = WriteRule::Unconditional;
    let three = schedule.drop_last();
    let two = three.drop_last();
    let one_step = two.drop_last();
    let at_start = start(stored);
    assert(run(rule, at_start, one_step.drop_last()) == at_start);
    let after_one = step(rule, at_start, one_step.last());
    assert(run(rule, at_start, one_step) == after_one);
    let after_two = step(rule, after_one, two.last());
    assert(run(rule, at_start, two) == after_two);
    let after_three = step(rule, after_two, three.last());
    assert(run(rule, at_start, three) == after_three);
    law_round_trip((stored_count(stored) + 1) as Count);
}

/// The applied write at place `place` was bound to the count that the
/// writes before it had left, wrote the next count, and is the write with
/// which its increment returned.
spec fn applied_in_turn(world: World, first: Count, place: int) -> bool {
    let write = world.applied[place];
    &&& stored_count(write.seen) == first + place
    &&& write.count == first + place + 1
    &&& world.calls.contains_key(write.who)
    &&& world.calls[write.who] == Progress::Finished(Ok(write.count))
}

/// The increment `who` is within its attempts, writes one more than it read,
/// and has returned a count only with an applied write of its own.
spec fn call_in_order(world: World, who: int) -> bool {
    match world.calls[who] {
        Progress::Reading { attempt } => 1 <= attempt <= MAX_ATTEMPTS,
        Progress::Writing { attempt, seen, count } => 1 <= attempt <= MAX_ATTEMPTS && next_count(
            seen,
        ) == Ok::<Count, StoreError>(count),
        Progress::Finished(Ok(count)) => exists|place: int|
            0 <= place < world.applied.len() && (#[trigger] world.applied[place]).who == who
                && world.applied[place].count == count,
        Progress::Finished(Err(_)) => true,
    }
}

/// What holds of every world reached with conditional writes from a counter
/// of count `first`.
spec fn conditional_inv(world: World, first: Count) -> bool {
    &&& stored_count(world.stored) == first + world.applied.len()
    &&& forall|place: int|
        0 <= place < world.applied.len() ==> #[trigger] applied_in_turn(world, first, place)
    &&& forall|who: int| #[trigger]
        world.calls.contains_key(who) ==> call_in_order(world, who)
}

proof fn lemma_conditional_step(world: World, first: Count, next: Move)
    requires
        conditional_inv(world, first),
    ensures
        conditional_inv(step(WriteRule::IfUnchanged, world, next), first),
{
    let after = step(WriteRule::IfUnchanged, world, next);
    if let Move::Write { who } = next {
        if let Progress::Writing { count, .. } = progress_of(world, who) {
            law_round_trip(count);
        }
    }
    assert forall|place: int| 0 <= place < after.applied.len() implies #[trigger] applied_in_turn(
        after,
        first,
        place,
    ) by {
        if place < world.applied.len() {
            assert(applied_in_turn(world, first, place));
        }
    }
    assert forall|who: int| #[trigger] after.calls.contains_key(who) implies call_in_order(
        after,
        who,
    ) by {
        if world.calls.contains_key(who) {
            assert(call_in_order(world, who));
            if let Progress::Finished(Ok(count)) = world.calls[who] {
                let place = choose|place: int|
                    0 <= place < world.applied.len() && (#[trigger] world.applied[place]).who
                        == who && world.applied[place].count == count;
                assert(after.applied[place] == world.applied[place]);
            }
        }
        if let Progress::Finished(Ok(_)) = after.calls[who] {
            if after.applied.len() > world.applied.len() {
                assert(after.applied[world.applied.len() as int].count == first
                    + world.applied.len() + 1);
            }
        }
    }
}

proof fn lemma_conditional_run(stored: Option<Seq<char>>, schedule: Seq<Move>)
    ensures
        conditional_inv(run(WriteRule::IfUnchanged, start(stored), schedule), stored_count(stored)),
    decreases schedule.len(),
{
    if schedule.len() > 0 {
        lemma_conditional_run(stored, schedule.drop_last());
        lemma_conditional_step(
            run(WriteRule::IfUnchanged, start(stored), schedule.drop_last()),
            stored_count(stored),
            schedule.last(),
        );
    }
}

/// With conditional writes, however the steps of the increments interleave,
/// the count is where it started plus the number of writes applied, and the
/// applied writes count upwards from there without a gap. No two of them were
/// bound to the same value read, and no two are of the same increment.
pub proof fn law_applied_writes_count_exactly(stored: Option<Seq<char>>, schedule: Seq<Move>)
    ensures
        ({
            let world = run(WriteRule::IfUnchanged, start(stored), schedule);
            &&& stored_count(world.stored) == stored_count(stored) + world.applied.len()
            &&& forall|i: int|
                0 <= i < world.applied.len() ==> (#[trigger] world.applied[i]).count
                    == stored_count(stored) + i + 1
            &&& forall|i: int, j: int|
                0 <= i < j < world.applied.len() ==> (#[trigger] world.applied[i]).seen != (
                #[trigger] world.applied[j]).seen
            &&& forall|i: int, j: int|
                0 <= i < j < world.applied.len() ==> (#[trigger] world.applied[i]).who != (
                #[trigger] world.applied[j]).who
        }),
{
    let first = stored_count(stored);
    let world = run(WriteRule::IfUnchanged, start(stored), schedule);
    lemma_conditional_run(stored, schedule);
    assert forall|i: int| 0 <= i < world.applied.len() implies (#[trigger] world.applied[i]).count
        == first + i + 1 by {
        assert(applied_in_turn(world, first, i));
    }
    assert forall|i: int, j: int| 0 <= i < j < world.applied.len() implies (
    #[trigger] world.applied[i]).seen != (#[trigger] world.applied[j]).seen && world.applied[i].who
        != world.applied[j].who by {
        assert(applied_in_turn(world, first, i));
        assert(applied_in_turn(world, first, j));
    }
}

/// With conditional writes, an increment has returned a count exactly if one
/// of the applied writes is its own, and the count it returned is the one it
/// wrote.
pub proof fn law_returned_counts_are_applied(
    stored: Option<Seq<char>>,
    schedule: Seq<Move>,
    who: int,
    count: Count,
)
    ensures
        ({
            let world = run(WriteRule::IfUnchanged, start(stored), schedule);
            progress_of(world, who) == Progress::Finished(Ok(count)) <==> exists|i: int|
                0 <= i < world.applied.len() && (#[trigger] world.applied[i]).who == who
                    && world.applied[i].count == count
        }),
{
    let world = run(WriteRule::IfUnchanged, start(stored), schedule);
    lemma_conditional_run(stored, schedule);
    if progress_of(world, who) == Progress::Finished(Ok(count)) {
        assert(world.calls.contains_key(who));
        assert(call_in_order(world, who));
    }
    if exists|i: int|
        0 <= i < world.applied.len() && (#[trigger] world.applied[i]).who == who
            && world.applied[i].count == count {
        let i = choose|i: int|
            0 <= i < world.applied.len() && (#[trigger] world.applied[i]).who == who
                && world.applied[i].count == count;
        assert(applied_in_turn(world, stored_count(stored), i));
    }
}

/// With conditional writes, no increment goes beyond its attempt number
/// `MAX_ATTEMPTS`.
pub proof fn law_attempts_are_bounded(stored: Option<Seq<char>>, schedule: Seq<Move>, who: int)
    ensures
        match progress_of(run(WriteRule::IfUnchanged, start(stored), schedule), who) {
            Progress::Reading { attempt } => 1 <= attempt <= MAX_ATTEMPTS,
            Progress::Writing { attempt, .. } => 1 <= attempt <= MAX_ATTEMPTS,
            Progress::Finished(_) => true,
        },
{
    let world = run(WriteRule::IfUnchanged, start(stored), schedule);
    lemma_conditional_run(stored, schedule);
    if world.calls.contains_key(who) {
        assert(call_in_order(world, who));
    }
}

/// With conditional writes, if the increments with the numbers from 0 up to
/// `issued` are all that made a step and each has returned a count, the
/// counter stands at where it started plus `issued`.
pub proof fn law_all_returned_counts_all(
    stored: Option<Seq<char>>,
    schedule: Seq<Move>,
    issued: nat,
)
    requires
        ({
            let world = run(WriteRule::IfUnchanged, start(stored), schedule);
            &&& forall|who: int|
                0 <= who < issued ==> #[trigger] progress_of(world, who) is Finished
                    && progress_of(world, who)->Finished_0 is Ok
            &&& forall|who: int| #[trigger]
                world.calls.contains_key(who) ==> 0 <= who < issued
        }),
    ensures
        stored_count(run(WriteRule::IfUnchanged, start(stored), schedule).stored) == stored_count(
            stored,
        ) + issued,
{
    let world = run(WriteRule::IfUnchanged, start(stored), schedule);
    law_applied_writes_count_exactly(stored, schedule);
    let writers = world.applied.map_values(|write: AppliedWrite| write.who);
    assert forall|i: int, j: int|
        0 <= i < writers.len() && 0 <= j < writers.len() && i != j implies writers[i]
        != writers[j] by {
        assert(world.applied[i].who != world.applied[j].who);
    }
    assert forall|who: int| writers.to_set().contains(who) implies 0 <= who < issued by {
        let i = choose|i: int| 0 <= i < writers.len() && writers[i] == who;
        law_returned_counts_are_applied(stored, schedule, who, world.applied[i].count);
        assert(world.calls.contains_key(who));
    }
    assert forall|who: int| 0 <= who < issued implies writers.to_set().contains(who) by {
        let count = progress_of(world, who)->Finished_0->Ok_0;
        law_returned_counts_are_applied(stored, schedule, who, count);
        let i = choose|i: int|
            0 <= i < world.applied.len() && (#[trigger] world.applied[i]).who == who
                && world.applied[i].count == count;
        assert(writers[i] == who);
    }
    assert(writers.to_set() =~= set_int_range(0, issued as int));
    writers.unique_seq_to_set();
    lemma_int_range(0, issued as int);
}

} // verus!
