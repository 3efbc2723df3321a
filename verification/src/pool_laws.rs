//! What each operation of a pool does to it, said of the pool before and after and of what
//! comes out.
//!
//! A law here speaks of a call: `call_ensures` of an operation, what goes in and what comes out
//! holds of the calls that the contract of the operation allows.

use crate::channel::{answers, Told, Waiter};
use crate::ledger::{
    alive_only, deaf_in, law_the_dead_go, law_the_living_stay, lemma_alive_only_len, Ledger,
};
use crate::pool::{Acquire, Counting, Opening, SubprocessPool};
use vstd::prelude::*;

verus! {

/// Whether a pool is in order: no more places and no more processes than its limit, a place for
/// every process on loan, and nobody waits while a place is free.
pub open spec fn is_sound<P, W>(pool: SubprocessPool<P, W>) -> bool {
    &&& 0 < pool.max_size
    &&& pool.lent <= pool.taken <= pool.max_size
    &&& pool.idle@.len() + pool.lent <= pool.max_size
    &&& pool.waiting@.len() > 0 ==> pool.taken == pool.max_size
}

/// The numbers from none up to `n`, without `n`.
pub open spec fn positions(n: nat) -> Seq<int> {
    Seq::new(n, |i: int| i)
}

/// The positions that are marked.
pub open spec fn marked(alive: Seq<bool>) -> spec_fn(int) -> bool {
    |i: int| i < alive.len() && alive[i]
}

/// Those of `processes` whose positions are marked, in their order.
pub open spec fn survivors<P>(processes: Seq<P>, alive: Seq<bool>) -> Seq<P> {
    positions(processes.len()).filter(marked(alive)).map_values(|i: int| processes[i])
}

/// Those among the first `n` that stay are those at the marked positions.
proof fn lemma_survivors_of_first<P>(processes: Seq<P>, alive: Seq<bool>, n: nat)
    requires
        n <= processes.len(),
    ensures
        alive_only(processes.take(n as int), alive) == positions(n).filter(
            marked(alive),
        ).map_values(|i: int| processes[i]),
    decreases n,
{
    reveal(Seq::filter);
    let those = positions(n).filter(marked(alive)).map_values(|i: int| processes[i]);
    let first = processes.take(n as int);
    if n == 0 {
        assert(those =~= Seq::empty());
    } else {
        let m = (n - 1) as nat;
        lemma_survivors_of_first(processes, alive, m);
        assert(positions(n).drop_last() =~= positions(m));
        assert(first.drop_last() =~= processes.take(m as int));
        assert(alive_only(first, alive) =~= those);
    }
}

/// Dropping the dead keeps exactly the processes whose positions are marked, in their order.
pub proof fn law_the_living_keep_their_order<P>(processes: Seq<P>, alive: Seq<bool>)
    ensures
        alive_only(processes, alive) == survivors(processes, alive),
{
    lemma_survivors_of_first(processes, alive, processes.len());
    assert(processes.take(processes.len() as int) =~= processes);
}

/// If all are marked, all survive; if none is, none does.
pub proof fn law_survivors<P>(processes: Seq<P>, alive: Seq<bool>)
    ensures
        processes.len() <= alive.len() && (forall|i: int|
            0 <= i < processes.len() ==> #[trigger] alive[i]) ==> survivors(processes, alive)
            == processes,
        (forall|i: int| 0 <= i < alive.len() ==> !#[trigger] alive[i]) ==> survivors(
            processes,
            alive,
        ) == Seq::<P>::empty(),
        survivors(processes, alive).len() <= processes.len(),
{
    law_the_living_keep_their_order(processes, alive);
    lemma_alive_only_len(processes, alive);
    if processes.len() <= alive.len() && (forall|i: int|
        0 <= i < processes.len() ==> #[trigger] alive[i]) {
        law_the_living_stay(processes, alive);
    }
    if forall|i: int| 0 <= i < alive.len() ==> !#[trigger] alive[i] {
        law_the_dead_go(processes, alive);
    }
}

/// Asking for a place touches no process. The task has a place at once if and only if one is
/// free; else it is the last in the queue.
pub proof fn law_asking_touches_no_process<P, W, E>(
    pool: &mut SubprocessPool<P, W>,
    waiter: W,
    r: Acquire<P, E>,
)
    requires
        is_sound(*old(pool)),
        call_ensures(SubprocessPool::<P, W>::acquire::<E>, (pool, waiter), r),
    ensures
        is_sound(*final(pool)),
        final(pool).idle@ == old(pool).idle@,
        final(pool).lent == old(pool).lent,
        final(pool).max_size == old(pool).max_size,
        if old(pool).taken < old(pool).max_size {
            &&& r is Inspect
            &&& final(pool).taken == old(pool).taken + 1
            &&& final(pool).waiting@ == old(pool).waiting@
        } else {
            &&& r is AwaitTurn
            &&& final(pool).taken == old(pool).taken
            &&& final(pool).waiting@ == old(pool).waiting@.push(waiter)
        },
{
}

/// Dropping the dead touches nothing but the idle processes, and of those it keeps exactly the
/// living.
pub proof fn law_only_the_dead_are_dropped<P, W>(
    pool: &mut SubprocessPool<P, W>,
    alive: &[bool],
    r: (),
)
    requires
        is_sound(*old(pool)),
        call_ensures(SubprocessPool::<P, W>::retain_alive, (pool, alive), r),
    ensures
        is_sound(*final(pool)),
        final(pool).idle@ == survivors(old(pool).idle@, alive@),
        final(pool).lent == old(pool).lent,
        final(pool).max_size == old(pool).max_size,
        final(pool).taken == old(pool).taken,
        final(pool).waiting@ == old(pool).waiting@,
{
    law_the_living_keep_their_order(old(pool).idle@, alive@);
}

/// A task with a place asks for a start as long as processes lack. Else it takes the process
/// that has been idle longest among the living, and leaves the others as they were.
pub proof fn law_the_first_of_the_living_is_taken<P, W, E>(
    pool: &mut SubprocessPool<P, W>,
    alive: &[bool],
    r: Acquire<P, E>,
)
    requires
        is_sound(*old(pool)),
        old(pool).lent < old(pool).taken,
        call_ensures(SubprocessPool::<P, W>::inspected::<E>, (pool, alive), r),
    ensures
        is_sound(*final(pool)),
        final(pool).max_size == old(pool).max_size,
        final(pool).taken == old(pool).taken,
        final(pool).waiting@ == old(pool).waiting@,
        ({
            let living = survivors(old(pool).idle@, alive@);
            if living.len() + old(pool).lent < old(pool).max_size {
                &&& r is Spawn
                &&& final(pool).idle@ == living
                &&& final(pool).lent == old(pool).lent
            } else {
                &&& living.len() > 0
                &&& r == Acquire::<P, E>::Verify(living[0])
                &&& final(pool).idle@ == living.drop_first()
                &&& final(pool).lent == old(pool).lent + 1
            }
        }),
{
    law_the_living_keep_their_order(old(pool).idle@, alive@);
    law_survivors(old(pool).idle@, alive@);
}

/// As long as a pool lacks nothing and all its idle processes are alive, nothing is started for
/// a task: it gets the process that has been idle longest, and all the others stay as they are.
pub proof fn law_live_processes_are_used_again<P, W, E>(
    pool: &mut SubprocessPool<P, W>,
    alive: &[bool],
    r: Acquire<P, E>,
)
    requires
        is_sound(*old(pool)),
        old(pool).lent < old(pool).taken,
        old(pool).idle@.len() + old(pool).lent == old(pool).max_size,
        old(pool).idle@.len() <= alive@.len(),
        forall|i: int| 0 <= i < old(pool).idle@.len() ==> #[trigger] alive@[i],
        call_ensures(SubprocessPool::<P, W>::inspected::<E>, (pool, alive), r),
    ensures
        r == Acquire::<P, E>::Verify(old(pool).idle@[0]),
        old(pool).idle@ == seq![old(pool).idle@[0]] + final(pool).idle@,
{
    law_survivors(old(pool).idle@, alive@);
    law_the_first_of_the_living_is_taken(pool, alive, r);
    assert(old(pool).idle@ =~= seq![old(pool).idle@[0]] + old(pool).idle@.drop_first());
}

/// A process that was started for a task is idle last. Another is asked for as long as
/// processes lack; else the task takes the one that has been idle longest. A start that failed
/// ends the attempt with its error, and changes nothing.
pub proof fn law_a_start_fills_up<P, W, E>(
    pool: &mut SubprocessPool<P, W>,
    outcome: Result<P, E>,
    r: Acquire<P, E>,
)
    requires
        is_sound(*old(pool)),
        old(pool).lent < old(pool).taken,
        old(pool).idle@.len() + old(pool).lent < old(pool).max_size,
        call_ensures(SubprocessPool::<P, W>::supplied::<E>, (pool, outcome), r),
    ensures
        is_sound(*final(pool)),
        final(pool).max_size == old(pool).max_size,
        final(pool).taken == old(pool).taken,
        final(pool).waiting@ == old(pool).waiting@,
        match outcome {
            Err(e) => {
                &&& r == Acquire::<P, E>::Leave(e)
                &&& final(pool).idle@ == old(pool).idle@
                &&& final(pool).lent == old(pool).lent
            },
            Ok(process) => {
                let all = old(pool).idle@.push(process);
                if all.len() + old(pool).lent < old(pool).max_size {
                    &&& r is Spawn
                    &&& final(pool).idle@ == all
                    &&& final(pool).lent == old(pool).lent
                } else {
                    &&& r == Acquire::<P, E>::Verify(all[0])
                    &&& final(pool).idle@ == all.drop_first()
                    &&& final(pool).lent == old(pool).lent + 1
                }
            },
        },
{
}

/// A task has the process that it took if that is alive, and then nothing else changes. If it
/// is dead, it is gone, and the task looks again with the place that it has.
pub proof fn law_a_live_process_is_lent<P, W, E>(
    pool: &mut SubprocessPool<P, W>,
    process: P,
    alive: bool,
    r: Acquire<P, E>,
)
    requires
        is_sound(*old(pool)),
        old(pool).lent > 0,
        call_ensures(SubprocessPool::<P, W>::verified::<E>, (pool, process, alive), r),
    ensures
        is_sound(*final(pool)),
        final(pool).max_size == old(pool).max_size,
        final(pool).taken == old(pool).taken,
        final(pool).idle@ == old(pool).idle@,
        final(pool).waiting@ == old(pool).waiting@,
        if alive {
            r == Acquire::<P, E>::Done(Ok(process)) && final(pool).lent == old(pool).lent
        } else {
            r is Inspect && final(pool).lent == old(pool).lent - 1
        },
{
}

/// A place that is given up is offered to the task that has waited longest, which is out of the
/// queue then. It is free only if nobody waits. No process is touched.
pub proof fn law_a_place_is_offered<P, W>(pool: &mut SubprocessPool<P, W>, r: Option<W>)
    requires
        is_sound(*old(pool)),
        old(pool).lent < old(pool).taken,
        call_ensures(SubprocessPool::<P, W>::vacate, (pool,), r),
    ensures
        is_sound(*final(pool)),
        final(pool).max_size == old(pool).max_size,
        final(pool).lent == old(pool).lent,
        final(pool).idle@ == old(pool).idle@,
        match r {
            Some(waiter) => {
                &&& old(pool).waiting@ == seq![waiter] + final(pool).waiting@
                &&& final(pool).taken == old(pool).taken
            },
            None => {
                &&& old(pool).waiting@.len() == 0
                &&& final(pool).waiting@.len() == 0
                &&& final(pool).taken == old(pool).taken - 1
            },
        },
{
    if old(pool).waiting@.len() > 0 {
        assert(old(pool).waiting@ =~= seq![old(pool).waiting@[0]]
            + old(pool).waiting@.drop_first());
    }
}

/// A task that heard of its place keeps it. If it did not, the place is offered to the next.
pub proof fn law_a_place_is_offered_on<P, W>(
    pool: &mut SubprocessPool<P, W>,
    heard: bool,
    r: Option<W>,
)
    requires
        is_sound(*old(pool)),
        old(pool).lent < old(pool).taken,
        call_ensures(SubprocessPool::<P, W>::told, (pool, heard), r),
    ensures
        is_sound(*final(pool)),
        final(pool).max_size == old(pool).max_size,
        final(pool).lent == old(pool).lent,
        final(pool).idle@ == old(pool).idle@,
        match r {
            Some(waiter) => {
                &&& !heard
                &&& old(pool).waiting@ == seq![waiter] + final(pool).waiting@
                &&& final(pool).taken == old(pool).taken
            },
            None => if heard {
                &&& final(pool).waiting@ == old(pool).waiting@
                &&& final(pool).taken == old(pool).taken
            } else {
                &&& old(pool).waiting@.len() == 0
                &&& final(pool).waiting@.len() == 0
                &&& final(pool).taken == old(pool).taken - 1
            },
        },
{
    if old(pool).waiting@.len() > 0 {
        assert(old(pool).waiting@ =~= seq![old(pool).waiting@[0]]
            + old(pool).waiting@.drop_first());
    }
}

/// Whether, between two moments of a pool, a place was given up and the tasks of the queue were
/// told of it: in their order, the next only because all before it did not hear. The one that
/// did has the place, and those behind it wait on; if none did, the place is free and nobody
/// waits.
pub open spec fn place_passed_on<P>(
    before: SubprocessPool<P, Waiter>,
    after: SubprocessPool<P, Waiter>,
    receipts: Seq<Told>,
) -> bool {
    let n = receipts.len();
    &&& after.max_size == before.max_size
    &&& n <= before.waiting@.len()
    &&& before.waiting@.len() > 0 ==> n > 0
    &&& forall|i: int| 0 <= i < n ==> (#[trigger] receipts[i]).whom() == before.waiting@[i]
    &&& forall|i: int| 0 <= i < n - 1 ==> !(#[trigger] receipts[i]).spec_heard()
    &&& if n > 0 && receipts[n - 1].spec_heard() {
        &&& after.taken == before.taken
        &&& after.waiting@ == before.waiting@.skip(n as int)
    } else {
        &&& after.taken == before.taken - 1
        &&& after.waiting@.len() == 0
        &&& n == before.waiting@.len()
    }
}

/// What each receipt says, if the queue was told as they say together.
proof fn lemma_told<P>(ledger: Ledger<P, Waiter>, receipts: Seq<Told>)
    requires
        ledger.tells(answers(receipts)),
    ensures
        forall|i: int|
            0 <= i < receipts.len() ==> (#[trigger] receipts[i]).whom() == ledger.waiting[i],
        forall|i: int| 0 <= i < receipts.len() - 1 ==> !(#[trigger] receipts[i]).spec_heard(),
        ({
            let n = receipts.len();
            &&& n <= ledger.waiting.len()
            &&& if n > 0 && receipts[n - 1].spec_heard() {
                deaf_in(answers(receipts)) == n - 1
            } else {
                deaf_in(answers(receipts)) == n && n == ledger.waiting.len()
            }
        }),
{
    let said = answers(receipts);
    assert forall|i: int| 0 <= i < receipts.len() implies (#[trigger] receipts[i]).whom()
        == ledger.waiting[i] by {
        assert(said[i].0 == ledger.waiting[i]);
    }
    assert forall|i: int| 0 <= i < receipts.len() - 1 implies !(
    #[trigger] receipts[i]).spec_heard() by {
        assert(!said[i].1);
    }
}

/// A task that leaves without a process passes its place on, and touches no process.
pub proof fn law_leaving_passes_the_place_on<P>(
    pool: &mut SubprocessPool<P, Waiter>,
    r: Vec<Told>,
)
    requires
        is_sound(*old(pool)),
        old(pool).lent < old(pool).taken,
        call_ensures(SubprocessPool::<P, Waiter>::leave, (pool,), r),
    ensures
        is_sound(*final(pool)),
        place_passed_on(*old(pool), *final(pool), r@),
        final(pool).idle@ == old(pool).idle@,
        final(pool).lent == old(pool).lent,
{
    lemma_told(old(pool)@, r@);
}

/// A task whose start failed ends with that failure, and passes its place on as one that leaves.
pub proof fn law_failing_passes_the_place_on<P, E>(
    pool: &mut SubprocessPool<P, Waiter>,
    error: E,
    r: (Acquire<P, E>, Vec<Told>),
)
    requires
        is_sound(*old(pool)),
        old(pool).lent < old(pool).taken,
        call_ensures(SubprocessPool::<P, Waiter>::failed::<E>, (pool, error), r),
    ensures
        is_sound(*final(pool)),
        r.0 == Acquire::<P, E>::Done(Err(error)),
        place_passed_on(*old(pool), *final(pool), r.1@),
        final(pool).idle@ == old(pool).idle@,
        final(pool).lent == old(pool).lent,
{
    lemma_told(old(pool)@, r.1@);
}

/// A process that comes back is idle last, and its place passes on.
pub proof fn law_giving_back_passes_the_place_on<P>(
    pool: &mut SubprocessPool<P, Waiter>,
    process: P,
    r: Vec<Told>,
)
    requires
        is_sound(*old(pool)),
        old(pool).lent > 0,
        call_ensures(SubprocessPool::<P, Waiter>::give_back, (pool, process), r),
    ensures
        is_sound(*final(pool)),
        place_passed_on(*old(pool), *final(pool), r@),
        final(pool).idle@ == old(pool).idle@.push(process),
        final(pool).lent == old(pool).lent - 1,
{
    lemma_told(old(pool)@, r@);
}

/// A task that was told has a place and looks for a process; one that never will be asks again.
pub proof fn law_being_told_is_having_a_place<P, E>(told: bool, r: Acquire<P, E>)
    requires
        call_ensures(Acquire::<P, E>::turned, (told,), r),
    ensures
        told ==> r is Inspect,
        !told ==> r is Join,
{
}

/// An abandoned attempt has a place to give up from the moment at which it has one until it has
/// a process or is over.
pub proof fn law_who_owes_a_place<P, E>(at: Acquire<P, E>, told: bool, r: bool)
    requires
        call_ensures(Acquire::<P, E>::owes_place, (&at, told), r),
    ensures
        r <==> at is Inspect || at is Spawn || at is Leave || (at is AwaitTurn && told),
{
}

/// A count begins with a look at the idle processes.
pub proof fn law_a_count_looks_first<P, W>(pool: SubprocessPool<P, W>, r: Counting)
    requires
        call_ensures(SubprocessPool::<P, W>::count, (&pool,), r),
    ensures
        r is Inspect,
{
}

/// A count asks for a start if and only if processes lack once the dead are gone. Else it gives
/// the number of all processes: as many as the pool may have.
pub proof fn law_a_count_asks_for_what_lacks<P, W>(
    pool: &mut SubprocessPool<P, W>,
    alive: &[bool],
    r: Counting,
)
    requires
        is_sound(*old(pool)),
        call_ensures(SubprocessPool::<P, W>::inspected_for_count, (pool, alive), r),
    ensures
        is_sound(*final(pool)),
        final(pool).max_size == old(pool).max_size,
        final(pool).taken == old(pool).taken,
        final(pool).lent == old(pool).lent,
        final(pool).waiting@ == old(pool).waiting@,
        final(pool).idle@ == survivors(old(pool).idle@, alive@),
        match r {
            Counting::Spawn => final(pool).idle@.len() + final(pool).lent < final(pool).max_size,
            Counting::Done(n) => n == final(pool).idle@.len() + final(pool).lent && n
                == final(pool).max_size,
            Counting::Inspect => false,
        },
{
    law_the_living_keep_their_order(old(pool).idle@, alive@);
}

/// A process that was started for a count is idle last, and the count goes on as long as
/// processes lack. Only a start that failed ends it with fewer than the pool may have, and that
/// changes nothing.
pub proof fn law_a_count_fills_up<P, W, E>(
    pool: &mut SubprocessPool<P, W>,
    outcome: Result<P, E>,
    r: Counting,
)
    requires
        is_sound(*old(pool)),
        old(pool).idle@.len() + old(pool).lent < old(pool).max_size,
        call_ensures(SubprocessPool::<P, W>::supplied_for_count::<E>, (pool, outcome), r),
    ensures
        is_sound(*final(pool)),
        final(pool).max_size == old(pool).max_size,
        final(pool).taken == old(pool).taken,
        final(pool).lent == old(pool).lent,
        final(pool).waiting@ == old(pool).waiting@,
        match outcome {
            Ok(process) => {
                &&& final(pool).idle@ == old(pool).idle@.push(process)
                &&& match r {
                    Counting::Spawn => final(pool).idle@.len() + final(pool).lent
                        < final(pool).max_size,
                    Counting::Done(n) => n == final(pool).idle@.len() + final(pool).lent && n
                        == final(pool).max_size,
                    Counting::Inspect => false,
                }
            },
            Err(_) => {
                &&& final(pool).idle@ == old(pool).idle@
                &&& r == Counting::Done((old(pool).idle@.len() + old(pool).lent) as usize)
            },
        },
{
}

/// Whether `stages` are those of the opening of a pool, each with one more of the outcomes of
/// starts than the one before.
pub open spec fn is_opening<P, W, E>(
    max_size: usize,
    outcomes: Seq<Result<P, E>>,
    stages: Seq<Opening<P, W, E>>,
) -> bool {
    &&& stages.len() == outcomes.len() + 1
    &&& call_ensures(SubprocessPool::<P, W>::new::<E>, (max_size,), stages[0])
    &&& forall|i: int|
        0 <= i < outcomes.len() ==> (#[trigger] stages[i]) is Spawn && call_ensures(
            SubprocessPool::<P, W>::opened::<E>,
            (stages[i]->Spawn_0, outcomes[i]),
            stages[i + 1],
        )
}

/// Whether a pool has exactly the processes that were started, in their order, none of them on
/// loan, no place taken, and nobody waiting.
pub open spec fn is_unused<P, W, E>(
    pool: SubprocessPool<P, W>,
    max_size: usize,
    outcomes: Seq<Result<P, E>>,
) -> bool {
    &&& pool.max_size == max_size
    &&& pool.taken == 0
    &&& pool.lent == 0
    &&& pool.waiting@.len() == 0
    &&& pool.idle@.len() == outcomes.len()
    &&& forall|i: int|
        0 <= i < outcomes.len() ==> #[trigger] outcomes[i] == Ok::<P, E>(pool.idle@[i])
}

/// A pool opens as soon as as many starts as it has places have succeeded, and not before. It
/// is unused then. The first start that fails ends the opening with its error.
pub proof fn law_a_pool_opens_unused<P, W, E>(
    max_size: usize,
    outcomes: Seq<Result<P, E>>,
    stages: Seq<Opening<P, W, E>>,
)
    requires
        0 < max_size <= usize::MAX / 8,
        is_opening(max_size, outcomes, stages),
    ensures
        match stages.last() {
            Opening::Spawn(pool) => outcomes.len() < max_size && is_unused(
                pool,
                max_size,
                outcomes,
            ),
            Opening::Done(Ok(pool)) => outcomes.len() == max_size && is_unused(
                pool,
                max_size,
                outcomes,
            ),
            Opening::Done(Err(e)) => {
                &&& outcomes.len() > 0
                &&& outcomes.last() == Err::<P, E>(e)
                &&& forall|i: int|
                    0 <= i < outcomes.len() - 1 ==> #[trigger] outcomes[i] is Ok
            },
        },
    decreases outcomes.len(),
{
    if outcomes.len() > 0 {
        let n = outcomes.len() - 1;
        let fewer = outcomes.drop_last();
        let earlier = stages.drop_last();
        assert forall|i: int| 0 <= i < fewer.len() implies (#[trigger] earlier[i]) is Spawn
            && call_ensures(
            SubprocessPool::<P, W>::opened::<E>,
            (earlier[i]->Spawn_0, fewer[i]),
            earlier[i + 1],
        ) by {
            assert(stages[i] is Spawn);
        }
        law_a_pool_opens_unused(max_size, fewer, earlier);
        assert(stages[n] is Spawn);
        assert(earlier.last() == stages[n]);
        let pool = stages[n]->Spawn_0;
        assert forall|i: int| 0 <= i < n implies #[trigger] outcomes[i] == Ok::<P, E>(
            pool.idle@[i],
        ) by {
            assert(fewer[i] == outcomes[i]);
        }
    }
}

/// A pool in order can be asked for everything: for a place and for a count at any time, for a
/// process by a task with a place, to take back a process that is on loan, and to take a process
/// that was started whenever one lacks.
pub proof fn law_a_sound_pool_refuses_nothing<P, W, E>(
    pool: &mut SubprocessPool<P, W>,
    waiter: W,
    alive: &[bool],
    outcome: Result<P, E>,
    process: P,
    fits: bool,
)
    requires
        is_sound(*old(pool)),
    ensures
        call_requires(Acquire::<P, E>::turned, (fits,)),
        call_requires(SubprocessPool::<P, W>::acquire::<E>, (pool, waiter)),
        call_requires(SubprocessPool::<P, W>::retain_alive, (pool, alive)),
        call_requires(SubprocessPool::<P, W>::inspected_for_count, (pool, alive)),
        old(pool).lent > 0 ==> call_requires(
            SubprocessPool::<P, W>::verified::<E>,
            (pool, process, fits),
        ),
        old(pool).lent < old(pool).taken ==> {
            &&& call_requires(SubprocessPool::<P, W>::inspected::<E>, (pool, alive))
            &&& call_requires(SubprocessPool::<P, W>::vacate, (pool,))
            &&& call_requires(SubprocessPool::<P, W>::told, (pool, fits))
        },
        old(pool).idle@.len() + old(pool).lent < old(pool).max_size ==> {
            &&& call_requires(SubprocessPool::<P, W>::supplied_for_count::<E>, (pool, outcome))
            &&& old(pool).lent < old(pool).taken ==> call_requires(
                SubprocessPool::<P, W>::supplied::<E>,
                (pool, outcome),
            )
        },
{
}

/// A pool whose tasks wait on channels can be left by a task with a place, and takes back a
/// process that is on loan.
pub proof fn law_a_sound_pool_lets_go<P, E>(
    pool: &mut SubprocessPool<P, Waiter>,
    process: P,
    error: E,
)
    requires
        is_sound(*old(pool)),
    ensures
        old(pool).lent > 0 ==> call_requires(
            SubprocessPool::<P, Waiter>::give_back,
            (pool, process),
        ),
        old(pool).lent < old(pool).taken ==> {
            &&& call_requires(SubprocessPool::<P, Waiter>::leave, (pool,))
            &&& call_requires(SubprocessPool::<P, Waiter>::failed::<E>, (pool, error))
        },
{
}

/// A pool of any size can be opened, from one process to an eighth of the range of `usize`, and
/// takes every start that it asks for.
pub proof fn law_any_size_can_be_opened<P, W, E>(
    max_size: usize,
    pool: SubprocessPool<P, W>,
    outcome: Result<P, E>,
)
    ensures
        0 < max_size <= usize::MAX / 8 ==> call_requires(
            SubprocessPool::<P, W>::new::<E>,
            (max_size,),
        ),
        is_sound(pool) && pool.idle@.len() + pool.lent < pool.max_size ==> call_requires(
            SubprocessPool::<P, W>::opened::<E>,
            (pool, outcome),
        ),
{
}

} // verus!
