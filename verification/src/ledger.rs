//! What a pool knows of itself, and how each event changes it.

use crate::pool::{Acquire, Counting};
use vstd::prelude::*;

verus! {

/// What a pool knows of itself. A place is the right to have a process; a task that finds no
/// place free waits until one is handed over to it.
#[verifier::ext_equal]
pub struct Ledger<P, W> {
    /// How many places and how many processes there are at most.
    pub max_size: nat,
    /// How many places are taken.
    pub taken: nat,
    /// How many processes are with tasks. Each of those tasks has a place.
    pub lent: nat,
    /// The idle processes, the one that has been idle longest first.
    pub idle: Seq<P>,
    /// The tasks that wait for a place, the longest wait first.
    pub waiting: Seq<W>,
}

/// Where the filling up of a pool stands.
pub enum Filling<E> {
    /// A process is to be started.
    Spawn,
    /// No process lacks.
    Full,
    /// A process could not be started, and no other is tried.
    Failed(E),
}

/// Those of `processes` that are marked alive, in their order. What has no mark counts as
/// dead.
pub open spec fn alive_only<P>(processes: Seq<P>, alive: Seq<bool>) -> Seq<P>
    decreases processes.len(),
{
    if processes.len() == 0 {
        Seq::empty()
    } else {
        let others = alive_only(processes.drop_last(), alive);
        let last = processes.len() - 1;
        if last < alive.len() && alive[last] {
            others.push(processes[last])
        } else {
            others
        }
    }
}

/// Whether the last task that was told of a place still waited, and so has it.
pub open spec fn is_heard<W>(answers: Seq<(W, bool)>) -> bool {
    answers.len() > 0 && answers.last().1
}

/// How many tasks that were told of a place no longer waited.
pub open spec fn deaf_in<W>(answers: Seq<(W, bool)>) -> nat {
    if is_heard(answers) {
        (answers.len() - 1) as nat
    } else {
        answers.len()
    }
}

impl<P, W> Ledger<P, W> {
    /// A pool with no process yet.
    pub open spec fn fresh(max_size: nat) -> Self {
        Ledger { max_size, taken: 0, lent: 0, idle: Seq::empty(), waiting: Seq::empty() }
    }

    /// What is always true: no more places and no more processes than allowed, and nobody
    /// waits while a place is free.
    pub open spec fn valid(self) -> bool {
        &&& self.max_size > 0
        &&& self.lent <= self.taken <= self.max_size
        &&& self.total() <= self.max_size
        &&& self.waiting.len() > 0 ==> self.taken == self.max_size
    }

    /// How many processes the pool has, idle ones and those with tasks.
    pub open spec fn total(self) -> nat {
        self.idle.len() + self.lent
    }

    /// Whether the pool has fewer processes than it should.
    pub open spec fn lacks(self) -> bool {
        self.total() < self.max_size
    }

    /// Whether some task has a place and no process yet.
    pub open spec fn sought(self) -> bool {
        self.lent < self.taken
    }

    /// A task asks for a place: it gets one if one is free, else it waits.
    pub open spec fn joined(self, waiter: W) -> Self {
        if self.taken < self.max_size {
            Ledger { taken: self.taken + 1, ..self }
        } else {
            Ledger { waiting: self.waiting.push(waiter), ..self }
        }
    }

    /// A place is given up: it passes to the task that has waited longest, and becomes free
    /// only if nobody waits.
    pub open spec fn vacated(self) -> Self {
        if self.waiting.len() > 0 {
            Ledger { waiting: self.waiting.drop_first(), ..self }
        } else {
            Ledger { taken: (self.taken - 1) as nat, ..self }
        }
    }

    /// A place is given up where the `deaf` first tasks of the queue no longer wait: it passes
    /// to the one behind them, and becomes free only if there is none.
    pub open spec fn left(self, deaf: nat) -> Self {
        if deaf < self.waiting.len() {
            Ledger { waiting: self.waiting.skip(deaf as int + 1), ..self }
        } else {
            Ledger { waiting: Seq::empty(), taken: (self.taken - 1) as nat, ..self }
        }
    }

    /// Whether the tasks of the queue were told in their order of a place that is given up, each
    /// only because those before it no longer waited, until one heard it or none was left.
    /// `answers` holds who was told, and whether it still waited.
    pub open spec fn tells(self, answers: Seq<(W, bool)>) -> bool {
        &&& answers.len() <= self.waiting.len()
        &&& forall|i: int| 0 <= i < answers.len() ==> (#[trigger] answers[i]).0 == self.waiting[i]
        &&& forall|i: int| 0 <= i < answers.len() - 1 ==> !(#[trigger] answers[i]).1
        &&& !is_heard(answers) ==> answers.len() == self.waiting.len()
    }

    /// The idle processes that are not marked alive are dropped.
    pub open spec fn kept(self, alive: Seq<bool>) -> Self {
        Ledger { idle: alive_only(self.idle, alive), ..self }
    }

    /// A process was started.
    pub open spec fn stocked(self, process: P) -> Self {
        Ledger { idle: self.idle.push(process), ..self }
    }

    /// The process that has been idle longest goes to a task.
    pub open spec fn checked_out(self) -> Self {
        Ledger { idle: self.idle.drop_first(), lent: self.lent + 1, ..self }
    }

    /// A process that was with a task is gone.
    pub open spec fn buried(self) -> Self {
        Ledger { lent: (self.lent - 1) as nat, ..self }
    }

    /// A process comes back from a task.
    pub open spec fn returned(self, process: P) -> Self {
        Ledger { idle: self.idle.push(process), lent: (self.lent - 1) as nat, ..self }
    }

    /// Whether one more process is to be started.
    pub open spec fn filling<E>(self) -> Filling<E> {
        if self.lacks() {
            Filling::Spawn
        } else {
            Filling::Full
        }
    }

    /// An attempt to start a process is over: a process that was started stays, and a failure
    /// ends the filling up.
    pub open spec fn filled_by<E>(self, outcome: Result<P, E>) -> (Self, Filling<E>) {
        match outcome {
            Ok(process) => (self.stocked(process), self.stocked(process).filling()),
            Err(e) => (self, Filling::Failed(e)),
        }
    }

    /// A task with a place goes on: as long as processes lack, one is to be started; then the
    /// one that has been idle longest is taken.
    pub open spec fn seek<E>(self) -> (Self, Acquire<P, E>) {
        if self.lacks() {
            (self, Acquire::Spawn)
        } else {
            (self.checked_out(), Acquire::Verify(self.idle[0]))
        }
    }

    /// A task with a place goes on when an attempt to start a process is over.
    pub open spec fn supplied<E>(self, outcome: Result<P, E>) -> (Self, Acquire<P, E>) {
        match self.filled_by(outcome) {
            (ledger, Filling::Failed(e)) => (ledger, Acquire::Leave(e)),
            (ledger, _) => ledger.seek(),
        }
    }

    /// A count goes on: as long as processes lack, one is to be started.
    pub open spec fn tally(self) -> Counting {
        if self.lacks() {
            Counting::Spawn
        } else {
            Counting::Done(self.total() as usize)
        }
    }

    /// A count goes on when an attempt to start a process is over.
    pub open spec fn counted<E>(self, outcome: Result<P, E>) -> (Self, Counting) {
        match self.filled_by(outcome) {
            (ledger, Filling::Failed(_)) => (ledger, Counting::Done(ledger.total() as usize)),
            (ledger, _) => (ledger, ledger.tally()),
        }
    }
}

/// The processes among the outcomes of starts.
pub open spec fn started<P, E>(outcomes: Seq<Result<P, E>>) -> Seq<P> {
    Seq::new(outcomes.len(), |i: int| outcomes[i]->Ok_0)
}

/// Whether all starts succeeded.
pub open spec fn all_ok<P, E>(outcomes: Seq<Result<P, E>>) -> bool {
    forall|i: int| 0 <= i < outcomes.len() ==> #[trigger] outcomes[i] is Ok
}

/// Where the filling up of a pool stands after attempts to start processes. What comes after
/// it is over is no part of it.
pub open spec fn fill_run<P, W, E>(
    ledger: Ledger<P, W>,
    outcomes: Seq<Result<P, E>>,
) -> (Ledger<P, W>, Filling<E>)
    decreases outcomes.len(),
{
    if outcomes.len() == 0 {
        (ledger, ledger.filling())
    } else {
        let (before, at) = fill_run(ledger, outcomes.drop_last());
        if at is Spawn {
            before.filled_by(outcomes.last())
        } else {
            (before, at)
        }
    }
}

/// Dropping the dead leaves no more.
pub proof fn lemma_alive_only_len<P>(processes: Seq<P>, alive: Seq<bool>)
    ensures
        alive_only(processes, alive).len() <= processes.len(),
    decreases processes.len(),
{
    if processes.len() > 0 {
        lemma_alive_only_len(processes.drop_last(), alive);
    }
}

/// Processes that are all alive stay as they are.
pub proof fn law_the_living_stay<P>(processes: Seq<P>, alive: Seq<bool>)
    requires
        processes.len() <= alive.len(),
        forall|i: int| 0 <= i < processes.len() ==> #[trigger] alive[i],
    ensures
        alive_only(processes, alive) == processes,
    decreases processes.len(),
{
    if processes.len() > 0 {
        let last = processes.len() - 1;
        law_the_living_stay(processes.drop_last(), alive);
        assert(alive[last]);
        assert(processes.drop_last().push(processes[last]) =~= processes);
    }
}

/// A process stays if and only if it is marked alive.
pub proof fn law_exactly_the_living_stay<P>(processes: Seq<P>, alive: Seq<bool>, process: P)
    ensures
        alive_only(processes, alive).contains(process) <==> exists|i: int|
            0 <= i < processes.len() && i < alive.len() && alive[i] && #[trigger] processes[i]
                == process,
    decreases processes.len(),
{
    if processes.len() > 0 {
        let last = processes.len() - 1;
        let fewer = processes.drop_last();
        let others = alive_only(fewer, alive);
        law_exactly_the_living_stay(fewer, alive, process);
        let kept = alive_only(processes, alive);
        if others.contains(process) {
            let i = choose|i: int|
                0 <= i < fewer.len() && i < alive.len() && alive[i] && #[trigger] fewer[i]
                    == process;
            assert(processes[i] == process);
            let k = choose|k: int| 0 <= k < others.len() && others[k] == process;
            assert(kept[k] == process);
        }
        if last < alive.len() && alive[last] {
            assert(kept[kept.len() - 1] == processes[last]);
        }
        assert forall|i: int|
            0 <= i < processes.len() && i < alive.len() && alive[i] && #[trigger] processes[i]
                == process implies kept.contains(process) by {
            if i < last {
                assert(fewer[i] == process);
            }
        }
    }
}

/// Processes that are all dead are all dropped.
pub proof fn law_the_dead_go<P>(processes: Seq<P>, alive: Seq<bool>)
    requires
        forall|i: int| 0 <= i < alive.len() ==> !#[trigger] alive[i],
    ensures
        alive_only(processes, alive) == Seq::<P>::empty(),
    decreases processes.len(),
{
    if processes.len() > 0 {
        law_the_dead_go(processes.drop_last(), alive);
    }
}

/// A task with a place finds a process, unless one that lacks could not be started.
pub proof fn law_a_place_is_worth_a_process<P, W>(ledger: Ledger<P, W>)
    requires
        ledger.valid(),
        ledger.sought(),
        !ledger.lacks(),
    ensures
        ledger.idle.len() > 0,
{
}

/// A start that failed is a failure of all starts together.
proof fn lemma_not_all_ok<P, E>(outcomes: Seq<Result<P, E>>)
    requires
        outcomes.len() > 0,
    ensures
        all_ok(outcomes) <==> all_ok(outcomes.drop_last()) && outcomes.last() is Ok,
{
    if all_ok(outcomes.drop_last()) && outcomes.last() is Ok {
        assert forall|i: int| 0 <= i < outcomes.len() implies #[trigger] outcomes[i] is Ok by {
            if i < outcomes.len() - 1 {
                assert(outcomes.drop_last()[i] is Ok);
            }
        }
    }
    if all_ok(outcomes) {
        assert(outcomes[outcomes.len() - 1] is Ok);
        assert forall|i: int| 0 <= i < outcomes.drop_last().len() implies #[trigger] outcomes.drop_last()[i] is Ok by {
            assert(outcomes[i] is Ok);
        }
    }
}

/// A pool starts exactly the processes that it lacks: another start is asked for if and only
/// if some lack and none has failed. Every process that was started stays, behind the others.
/// The pool is full if and only if as many starts as it lacked succeeded, and the first
/// failure is the failure.
pub proof fn law_starts_exactly_what_lacks<P, W, E>(
    ledger: Ledger<P, W>,
    outcomes: Seq<Result<P, E>>,
)
    requires
        ledger.valid(),
        outcomes.len() <= ledger.max_size - ledger.total(),
    ensures
        ({
            let missing = ledger.max_size - ledger.total();
            let (after, at) = fill_run(ledger, outcomes);
            &&& at is Spawn <==> all_ok(outcomes) && outcomes.len() < missing
            &&& at is Full <==> all_ok(outcomes) && outcomes.len() == missing
            &&& all_ok(outcomes) ==> after == (Ledger {
                idle: ledger.idle + started(outcomes),
                ..ledger
            })
            &&& forall|i: int|
                0 <= i < outcomes.len() && all_ok(outcomes.take(i)) && (
                #[trigger] outcomes[i]) is Err ==> {
                    &&& at == Filling::<E>::Failed(outcomes[i]->Err_0)
                    &&& after == (Ledger {
                        idle: ledger.idle + started(outcomes.take(i)),
                        ..ledger
                    })
                }
        }),
    decreases outcomes.len(),
{
    if outcomes.len() == 0 {
        assert(ledger.idle + started(outcomes) =~= ledger.idle);
    } else {
        let fewer = outcomes.drop_last();
        let last = outcomes.len() - 1;
        law_starts_exactly_what_lacks(ledger, fewer);
        lemma_not_all_ok(outcomes);
        if all_ok(outcomes) {
            assert((ledger.idle + started(fewer)).push(outcomes.last()->Ok_0) =~= ledger.idle
                + started(outcomes));
        }
        assert(outcomes.take(last) =~= fewer);
        assert forall|i: int|
            0 <= i < outcomes.len() && all_ok(outcomes.take(i)) && (
            #[trigger] outcomes[i]) is Err implies {
            let (after, at) = fill_run(ledger, outcomes);
            &&& at == Filling::<E>::Failed(outcomes[i]->Err_0)
            &&& after == (Ledger { idle: ledger.idle + started(outcomes.take(i)), ..ledger })
        } by {
            if i < last {
                assert(fewer.take(i) =~= outcomes.take(i));
                assert(fewer[i] == outcomes[i]);
            }
        }
    }
}

/// Where a task's attempt to get a process stands after these starts of processes, from the
/// moment at which it has looked at the idle ones. Starts after those it asks for change nothing.
pub open spec fn supply_run<P, W, E>(
    ledger: Ledger<P, W>,
    outcomes: Seq<Result<P, E>>,
) -> (Ledger<P, W>, Acquire<P, E>)
    decreases outcomes.len(),
{
    if outcomes.len() == 0 {
        ledger.seek()
    } else {
        let (before, at) = supply_run(ledger, outcomes.drop_last());
        if at is Spawn {
            before.supplied(outcomes.last())
        } else {
            (before, at)
        }
    }
}

/// An attempt to get a process fills the pool up: it asks for a start exactly when the filling
/// up does, takes the process that has been idle longest once the pool is full, and ends at
/// the first failure.
pub proof fn law_an_attempt_fills_up<P, W, E>(ledger: Ledger<P, W>, outcomes: Seq<Result<P, E>>)
    ensures
        supply_run(ledger, outcomes) == (match fill_run(ledger, outcomes) {
            (after, Filling::Spawn) => (after, Acquire::<P, E>::Spawn),
            (after, Filling::Full) => (after.checked_out(), Acquire::Verify(after.idle[0])),
            (after, Filling::Failed(e)) => (after, Acquire::Leave(e)),
        }),
        fill_run(ledger, outcomes).1 is Spawn ==> fill_run(ledger, outcomes).0.lacks(),
        fill_run(ledger, outcomes).1 is Full ==> !fill_run(ledger, outcomes).0.lacks(),
    decreases outcomes.len(),
{
    if outcomes.len() > 0 {
        law_an_attempt_fills_up(ledger, outcomes.drop_last());
    }
}

/// Once as many starts as lack have succeeded, a task with a place takes the process that has
/// been idle longest: the first of those found alive or, if there are none, the first that was
/// started. The others are idle, in that order.
pub proof fn law_an_attempt_takes_the_first<P, W, E>(
    ledger: Ledger<P, W>,
    alive: Seq<bool>,
    outcomes: Seq<Result<P, E>>,
)
    requires
        ledger.valid(),
        ledger.sought(),
        all_ok(outcomes),
        outcomes.len() == ledger.max_size - ledger.kept(alive).total(),
    ensures
        ({
            let all = alive_only(ledger.idle, alive) + started(outcomes);
            &&& all.len() > 0
            &&& supply_run(ledger.kept(alive), outcomes) == (
                Ledger { idle: all.drop_first(), lent: ledger.lent + 1, ..ledger },
                Acquire::<P, E>::Verify(all[0]),
            )
        }),
{
    lemma_alive_only_len(ledger.idle, alive);
    law_an_attempt_fills_up(ledger.kept(alive), outcomes);
    law_starts_exactly_what_lacks(ledger.kept(alive), outcomes);
}

/// A pool opens if and only if as many starts as it has places succeed. Its processes are those
/// that were started, in their order, and nothing else is so much as asked for.
pub proof fn law_opening<P, W, E>(max_size: nat, outcomes: Seq<Result<P, E>>)
    requires
        max_size > 0,
        outcomes.len() <= max_size,
    ensures
        ({
            let (after, at) = fill_run(Ledger::<P, W>::fresh(max_size), outcomes);
            &&& at is Spawn <==> all_ok(outcomes) && outcomes.len() < max_size
            &&& at is Full <==> all_ok(outcomes) && outcomes.len() == max_size
            &&& at is Full ==> after == (Ledger {
                idle: started(outcomes),
                ..Ledger::<P, W>::fresh(max_size)
            })
            &&& forall|i: int|
                0 <= i < outcomes.len() && all_ok(outcomes.take(i)) && (
                #[trigger] outcomes[i]) is Err ==> at == Filling::<E>::Failed(outcomes[i]->Err_0)
        }),
{
    law_starts_exactly_what_lacks(Ledger::<P, W>::fresh(max_size), outcomes);
    assert(Seq::<P>::empty() + started(outcomes) =~= started(outcomes));
}

/// A pool recovers: however many idle processes died, once as many starts as then lack have
/// succeeded, a count gives all that the pool may have.
pub proof fn law_a_count_recovers<P, W, E>(
    ledger: Ledger<P, W>,
    alive: Seq<bool>,
    outcomes: Seq<Result<P, E>>,
)
    requires
        ledger.valid(),
        all_ok(outcomes),
        outcomes.len() == ledger.max_size - ledger.kept(alive).total(),
    ensures
        fill_run(ledger.kept(alive), outcomes).0.tally() == Counting::Done(
            ledger.max_size as usize,
        ),
        fill_run(ledger.kept(alive), outcomes).0.idle == alive_only(ledger.idle, alive) + started(
            outcomes,
        ),
{
    lemma_alive_only_len(ledger.idle, alive);
    law_starts_exactly_what_lacks(ledger.kept(alive), outcomes);
}

/// Where a count stands after these starts of processes, from the moment at which it has looked
/// at the idle ones. Starts after those it asks for change nothing.
pub open spec fn count_run<P, W, E>(
    ledger: Ledger<P, W>,
    outcomes: Seq<Result<P, E>>,
) -> (Ledger<P, W>, Counting)
    decreases outcomes.len(),
{
    if outcomes.len() == 0 {
        (ledger, ledger.tally())
    } else {
        let (before, at) = count_run(ledger, outcomes.drop_last());
        if at is Spawn {
            before.counted(outcomes.last())
        } else {
            (before, at)
        }
    }
}

/// A count asks for a start as long as processes lack and no start has failed. Once as many as
/// lacked have succeeded it gives all that the pool may have. The first that fails ends it with
/// what there is by then. Every process that was started stays, behind the others, and nothing
/// else changes.
pub proof fn law_a_count_starts_exactly_what_lacks<P, W, E>(
    ledger: Ledger<P, W>,
    outcomes: Seq<Result<P, E>>,
)
    requires
        ledger.valid(),
        ledger.max_size <= usize::MAX,
        outcomes.len() <= ledger.max_size - (ledger.idle.len() + ledger.lent),
    ensures
        ({
            let missing = ledger.max_size - (ledger.idle.len() + ledger.lent);
            let (after, at) = count_run(ledger, outcomes);
            &&& all_ok(outcomes) && outcomes.len() < missing ==> at is Spawn
            &&& all_ok(outcomes) && outcomes.len() == missing ==> at is Done && at->Done_0
                == ledger.max_size
            &&& all_ok(outcomes) ==> after == (Ledger {
                idle: ledger.idle + started(outcomes),
                ..ledger
            })
            &&& forall|i: int|
                0 <= i < outcomes.len() && all_ok(outcomes.take(i)) && (
                #[trigger] outcomes[i]) is Err ==> {
                    &&& at matches Counting::Done(n) && n == ledger.idle.len() + ledger.lent + i
                    &&& after == (Ledger {
                        idle: ledger.idle + started(outcomes.take(i)),
                        ..ledger
                    })
                }
        }),
    decreases outcomes.len(),
{
    if outcomes.len() == 0 {
        assert(ledger.idle + started(outcomes) =~= ledger.idle);
    } else {
        let fewer = outcomes.drop_last();
        let last = outcomes.len() - 1;
        law_a_count_starts_exactly_what_lacks(ledger, fewer);
        lemma_not_all_ok(outcomes);
        if all_ok(outcomes) {
            assert((ledger.idle + started(fewer)).push(outcomes.last()->Ok_0) =~= ledger.idle
                + started(outcomes));
        }
        assert(outcomes.take(last) =~= fewer);
        assert forall|i: int|
            0 <= i < outcomes.len() && all_ok(outcomes.take(i)) && (
            #[trigger] outcomes[i]) is Err implies {
            let (after, at) = count_run(ledger, outcomes);
            &&& at matches Counting::Done(n) && n == ledger.idle.len() + ledger.lent + i
            &&& after == (Ledger { idle: ledger.idle + started(outcomes.take(i)), ..ledger })
        } by {
            if i < last {
                assert(fewer.take(i) =~= outcomes.take(i));
                assert(fewer[i] == outcomes[i]);
            }
        }
    }
}

/// Filling up leaves places, loans and queue alone, and keeps the pool in order.
pub proof fn law_filling_touches_idle_only<P, W, E>(
    ledger: Ledger<P, W>,
    outcomes: Seq<Result<P, E>>,
)
    requires
        ledger.valid(),
    ensures
        ({
            let (after, at) = fill_run(ledger, outcomes);
            &&& after.valid()
            &&& at is Spawn ==> after.lacks()
            &&& after == (Ledger { idle: after.idle, ..ledger })
            &&& ledger.idle.is_prefix_of(after.idle)
        }),
    decreases outcomes.len(),
{
    if outcomes.len() > 0 {
        law_filling_touches_idle_only(ledger, outcomes.drop_last());
    }
}

/// A count leaves places, loans and queue alone.
pub proof fn law_count_leaves_loans_alone<P, W, E>(
    ledger: Ledger<P, W>,
    alive: Seq<bool>,
    outcomes: Seq<Result<P, E>>,
)
    requires
        ledger.valid(),
    ensures
        ({
            let after = fill_run(ledger.kept(alive), outcomes).0;
            &&& after.valid()
            &&& after.taken == ledger.taken
            &&& after.lent == ledger.lent
            &&& after.waiting == ledger.waiting
        }),
{
    lemma_alive_only_len(ledger.idle, alive);
    law_filling_touches_idle_only(ledger.kept(alive), outcomes);
}

/// A count of a pool that lacks nothing starts nothing and changes nothing as long as all idle
/// processes are alive; so a second count gives the number that the first gave: all that the
/// pool may have.
pub proof fn law_count_again<P, W>(ledger: Ledger<P, W>, alive: Seq<bool>)
    requires
        ledger.valid(),
        !ledger.lacks(),
        ledger.idle.len() <= alive.len(),
        forall|i: int| 0 <= i < ledger.idle.len() ==> #[trigger] alive[i],
    ensures
        ledger.kept(alive) == ledger,
        ledger.kept(alive).tally() == Counting::Done(ledger.max_size as usize),
{
    law_the_living_stay(ledger.idle, alive);
}

/// A live process that was handed back is used again, and nothing is started for that: what
/// comes back lacks nothing, and the task that looks takes what has been idle longest.
pub proof fn law_reuse_starts_nothing<P, W, E>(
    ledger: Ledger<P, W>,
    process: P,
    deaf: nat,
    alive: Seq<bool>,
)
    requires
        ledger.valid(),
        ledger.lent > 0,
        !ledger.lacks(),
    ensures
        ({
            let back = ledger.returned(process).left(deaf);
            &&& !back.lacks()
            &&& back.idle == ledger.idle.push(process)
            &&& back.idle.len() <= alive.len() && (forall|i: int|
                0 <= i < back.idle.len() ==> #[trigger] alive[i]) ==> back.kept(alive).seek::<E>()
                == (back.checked_out(), Acquire::<P, E>::Verify(back.idle[0]))
        }),
{
    let back = ledger.returned(process).left(deaf);
    if back.idle.len() <= alive.len() && (forall|i: int|
        0 <= i < back.idle.len() ==> #[trigger] alive[i]) {
        law_the_living_stay(back.idle, alive);
    }
}

/// Giving up a place frees exactly one: it is free again, or one task that waited has it.
pub proof fn law_one_place_is_freed<P, W>(ledger: Ledger<P, W>, deaf: nat)
    requires
        ledger.valid(),
        ledger.sought(),
    ensures
        ({
            let after = ledger.left(deaf);
            &&& after.lent == ledger.lent
            &&& after.idle == ledger.idle
            &&& ledger.waiting.len() <= deaf ==> after.taken == ledger.taken - 1
                && after.waiting.len() == 0
            &&& deaf < ledger.waiting.len() ==> after.taken == ledger.taken
                && ledger.waiting == ledger.waiting.take(deaf as int) + seq![
                ledger.waiting[deaf as int],
            ] + after.waiting
        }),
{
    if deaf < ledger.waiting.len() {
        assert(ledger.waiting =~= ledger.waiting.take(deaf as int) + seq![
            ledger.waiting[deaf as int],
        ] + ledger.waiting.skip(deaf as int + 1));
    }
}

/// Asking for a place changes no process and no limit. A place that is free is granted, else the
/// task is behind all the others.
pub proof fn law_asking_changes_no_process<P, W>(ledger: Ledger<P, W>, waiter: W)
    ensures
        ({
            let after = ledger.joined(waiter);
            &&& after.idle == ledger.idle
            &&& after.lent == ledger.lent
            &&& after.max_size == ledger.max_size
            &&& ledger.taken < ledger.max_size ==> after.taken == ledger.taken + 1 && after.waiting
                == ledger.waiting
            &&& ledger.taken >= ledger.max_size ==> after.taken == ledger.taken && after.waiting
                == ledger.waiting.push(waiter)
        }),
{
}

/// The pool after `n` tasks, one after another, ask for a place.
pub open spec fn joined_by<P, W>(ledger: Ledger<P, W>, waiters: Seq<W>) -> Ledger<P, W>
    decreases waiters.len(),
{
    if waiters.len() == 0 {
        ledger
    } else {
        joined_by(ledger, waiters.drop_last()).joined(waiters.last())
    }
}

/// A place that is given up while tasks wait is offered first to the one that has waited
/// longest. It goes to the first that hears it: all before that one did not, all behind it wait
/// on. It becomes free only if all of them were told and none heard.
pub proof fn law_a_place_goes_to_the_first_that_hears<P, W>(
    ledger: Ledger<P, W>,
    answers: Seq<(W, bool)>,
)
    requires
        ledger.valid(),
        ledger.sought(),
        ledger.tells(answers),
    ensures
        ({
            let after = ledger.left(deaf_in(answers));
            let queue = ledger.waiting;
            &&& queue.len() > 0 ==> answers.len() > 0 && answers[0].0 == queue[0]
            &&& queue == answers.map_values(|answer: (W, bool)| answer.0) + after.waiting
            &&& forall|i: int|
                0 <= i < answers.len() ==> ((#[trigger] answers[i]).1 <==> is_heard(answers) && i
                    == answers.len() - 1)
            &&& after.taken == ledger.taken <==> is_heard(answers)
            &&& !is_heard(answers) ==> after.taken == ledger.taken - 1 && answers.len()
                == queue.len()
        }),
{
    let told = answers.map_values(|answer: (W, bool)| answer.0);
    assert(ledger.waiting =~= told + ledger.left(deaf_in(answers)).waiting);
}

/// A pool with no place taken grants as many places as it has, and every later task waits,
/// in the order in which they ask.
pub proof fn law_places_run_out<P, W>(ledger: Ledger<P, W>, waiters: Seq<W>)
    requires
        ledger.valid(),
        ledger.taken == 0,
    ensures
        ({
            let after = joined_by(ledger, waiters);
            let n = ledger.max_size;
            &&& waiters.len() <= n ==> after.taken == waiters.len() && after.waiting.len() == 0
            &&& waiters.len() > n ==> after.taken == n && after.waiting == waiters.skip(n as int)
            &&& after.max_size == n
        }),
    decreases waiters.len(),
{
    if waiters.len() > 0 {
        let n = ledger.max_size as int;
        law_places_run_out(ledger, waiters.drop_last());
        if waiters.len() > n + 1 {
            assert(waiters.drop_last().skip(n).push(waiters.last()) =~= waiters.skip(n));
        } else if waiters.len() == n + 1 {
            assert(Seq::<W>::empty().push(waiters.last()) =~= waiters.skip(n));
            assert(joined_by(ledger, waiters.drop_last()).waiting =~= Seq::<W>::empty());
        }
    }
}

} // verus!
