//! The pool: who may have a process, and how one is found.

use crate::channel::{answers, wake, Told, Waiter};
use crate::ledger::{alive_only, deaf_in, lemma_alive_only_len, Filling, Ledger};
use std::collections::VecDeque;
use vstd::prelude::*;

verus! {

/// A pool of processes `P`. Tasks share it under a lock. `W` is what tells a task that waits
/// that it has a place.
pub struct SubprocessPool<P, W> {
    /// How many places and how many processes there are at most.
    pub max_size: usize,
    /// How many places are taken. A task takes a place before it looks for a process, and
    /// gives it up with the process, or when a process that is needed cannot be started.
    pub taken: usize,
    /// How many processes are with tasks.
    pub lent: usize,
    /// The idle processes, the one that has been idle longest first.
    pub idle: VecDeque<P>,
    /// The tasks that wait for a place, the longest wait first.
    pub waiting: VecDeque<W>,
}

/// The opening of a pool in progress: the outside work that is due, or the outcome.
pub enum Opening<P, W, E> {
    /// Start a process, then call [`SubprocessPool::opened`].
    Spawn(SubprocessPool<P, W>),
    /// The pool is open, or a process could not be started.
    Done(Result<SubprocessPool<P, W>, E>),
}

/// An attempt to get a process in progress: the work that is due, or the outcome.
#[derive(Debug, PartialEq, Eq)]
pub enum Acquire<P, E> {
    /// Under the lock, call [`SubprocessPool::acquire`].
    Join,
    /// Without the lock, wait to be told, then call [`Acquire::turned`].
    AwaitTurn,
    /// Under the lock, find out which idle processes are alive, then call
    /// [`SubprocessPool::inspected`].
    Inspect,
    /// Under the same lock still, start a process, then call [`SubprocessPool::supplied`].
    Spawn,
    /// Without the lock, find out whether the process is alive; then, under the lock, call
    /// [`SubprocessPool::verified`].
    Verify(P),
    /// Under the lock, call [`SubprocessPool::failed`].
    Leave(E),
    /// The attempt is over.
    Done(Result<P, E>),
}

/// A count of the processes in progress: the work that is due, or the outcome.
#[derive(Debug, PartialEq, Eq)]
pub enum Counting {
    /// Under the lock, find out which idle processes are alive, then call
    /// [`SubprocessPool::inspected_for_count`].
    Inspect,
    /// Under the same lock still, start a process, then call
    /// [`SubprocessPool::supplied_for_count`].
    Spawn,
    /// The count is over.
    Done(usize),
}

impl<P, E> Acquire<P, E> {
    /// A task that was told has a place; one that never will be asks again.
    pub open spec fn spec_turned(told: bool) -> Self {
        if told {
            Acquire::Inspect
        } else {
            Acquire::Join
        }
    }

    /// Goes on after the wait.
    pub fn turned(told: bool) -> (r: Self)
        ensures
            r == Self::spec_turned(told),
    {
        if told {
            Acquire::Inspect
        } else {
            Acquire::Join
        }
    }

    /// Whether an attempt has a place and no process. While it waits it has one if it was told.
    pub open spec fn spec_owes_place(self, told: bool) -> bool {
        match self {
            Acquire::AwaitTurn => told,
            Acquire::Inspect => true,
            Acquire::Spawn => true,
            Acquire::Leave(_) => true,
            _ => false,
        }
    }

    /// Whether a place is to be given up, by [`SubprocessPool::leave`], if the attempt is
    /// abandoned here.
    pub fn owes_place(&self, told: bool) -> (r: bool)
        ensures
            r == self.spec_owes_place(told),
    {
        match self {
            Acquire::AwaitTurn => told,
            Acquire::Inspect => true,
            Acquire::Spawn => true,
            Acquire::Leave(_) => true,
            _ => false,
        }
    }
}

impl<P, W> View for SubprocessPool<P, W> {
    type V = Ledger<P, W>;

    open spec fn view(&self) -> Ledger<P, W> {
        Ledger {
            max_size: self.max_size as nat,
            taken: self.taken as nat,
            lent: self.lent as nat,
            idle: self.idle@,
            waiting: self.waiting@,
        }
    }
}

impl<P, W> SubprocessPool<P, W> {
    /// Starts to open a pool of `max_size` processes, at least one and no more than an eighth of
    /// the range of `usize`.
    pub fn new<E>(max_size: usize) -> (r: Opening<P, W, E>)
        requires
            0 < max_size <= usize::MAX / 8,
        ensures
            r matches Opening::Spawn(pool) && pool@ == Ledger::<P, W>::fresh(max_size as nat)
                && pool@.valid(),
    {
        Opening::Spawn(
            SubprocessPool {
                max_size,
                taken: 0,
                lent: 0,
                idle: VecDeque::new(),
                waiting: VecDeque::new(),
            },
        )
    }

    /// Goes on to open the pool when an attempt to start a process is over. The first that
    /// fails ends it.
    pub fn opened<E>(self, outcome: Result<P, E>) -> (r: Opening<P, W, E>)
        requires
            self@.valid(),
            self@.lacks(),
        ensures
            match self@.filled_by(outcome) {
                (after, Filling::Spawn) => r matches Opening::Spawn(pool) && pool@ == after
                    && pool@.valid(),
                (after, Filling::Full) => r matches Opening::Done(Ok(pool)) && pool@ == after
                    && pool@.valid(),
                (_, Filling::Failed(e)) => r matches Opening::Done(Err(failure)) && failure == e,
            },
    {
        match outcome {
            Err(e) => Opening::Done(Err(e)),
            Ok(process) => {
                let mut pool = self;
                pool.idle.push_back(process);
                if pool.idle.len() + pool.lent < pool.max_size {
                    Opening::Spawn(pool)
                } else {
                    Opening::Done(Ok(pool))
                }
            },
        }
    }

    /// Asks for a place. Without one to be had, the task waits in the queue, and `waiter` will
    /// tell it when a place has been handed over to it.
    pub fn acquire<E>(&mut self, waiter: W) -> (r: Acquire<P, E>)
        requires
            old(self)@.valid(),
        ensures
            final(self)@ == old(self)@.joined(waiter),
            final(self)@.valid(),
            r == (if old(self)@.taken < old(self)@.max_size {
                Acquire::<P, E>::Inspect
            } else {
                Acquire::AwaitTurn
            }),
    {
        if self.taken < self.max_size {
            self.taken = self.taken + 1;
            Acquire::Inspect
        } else {
            self.waiting.push_back(waiter);
            Acquire::AwaitTurn
        }
    }

    /// Drops every idle process that is not marked alive. The marks are in the order of the
    /// processes.
    pub fn retain_alive(&mut self, alive: &[bool])
        requires
            old(self)@.valid(),
        ensures
            final(self)@ == old(self)@.kept(alive@),
            final(self)@.valid(),
    {
        let ghost before = self.idle@;
        let n: usize = self.idle.len();
        let mut i: usize = 0;
        assert(before.subrange(0, n as int) + alive_only(before.take(0), alive@) =~= before);
        while i < n
            invariant
                i <= n,
                n == before.len(),
                self.idle@ == before.subrange(i as int, n as int) + alive_only(
                    before.take(i as int),
                    alive@,
                ),
                self.max_size == old(self).max_size,
                self.taken == old(self).taken,
                self.lent == old(self).lent,
                self.waiting == old(self).waiting,
            decreases n - i,
        {
            assert(before.take(i + 1).drop_last() =~= before.take(i as int));
            if let Some(process) = self.idle.pop_front() {
                if i < alive.len() && alive[i] {
                    self.idle.push_back(process);
                }
            }
            i += 1;
            assert(self.idle@ =~= before.subrange(i as int, n as int) + alive_only(
                before.take(i as int),
                alive@,
            ));
        }
        assert(before.take(n as int) =~= before);
        assert(self.idle@ =~= alive_only(before, alive@));
        proof {
            lemma_alive_only_len(before, alive@);
        }
    }

    /// Goes on to look for a process: one more is to be started, or one is taken.
    fn seek<E>(&mut self) -> (r: Acquire<P, E>)
        requires
            old(self)@.valid(),
            old(self)@.sought(),
        ensures
            (final(self)@, r) == old(self)@.seek::<E>(),
            final(self)@.valid(),
    {
        if self.idle.len() + self.lent < self.max_size {
            return Acquire::Spawn;
        }
        match self.idle.pop_front() {
            Some(process) => {
                self.lent = self.lent + 1;
                assert(self@ =~= old(self)@.checked_out());
                Acquire::Verify(process)
            },
            None => Acquire::Spawn,
        }
    }

    /// Goes on, for a task with a place and no process, when it is known which idle processes
    /// are alive.
    pub fn inspected<E>(&mut self, alive: &[bool]) -> (r: Acquire<P, E>)
        requires
            old(self)@.valid(),
            old(self)@.sought(),
        ensures
            (final(self)@, r) == old(self)@.kept(alive@).seek::<E>(),
            final(self)@.valid(),
    {
        self.retain_alive(alive);
        self.seek()
    }

    /// Goes on, for a task with a place and no process, when an attempt to start a process is
    /// over. A process that could not be started ends the task's attempt.
    pub fn supplied<E>(&mut self, outcome: Result<P, E>) -> (r: Acquire<P, E>)
        requires
            old(self)@.valid(),
            old(self)@.sought(),
            old(self)@.lacks(),
        ensures
            (final(self)@, r) == old(self)@.supplied(outcome),
            final(self)@.valid(),
    {
        match outcome {
            Ok(process) => {
                self.idle.push_back(process);
                self.seek()
            },
            Err(e) => Acquire::Leave(e),
        }
    }

    /// Goes on when it is known whether the process that was taken is alive. A dead one is
    /// dropped; the task keeps its place and looks again.
    pub fn verified<E>(&mut self, process: P, alive: bool) -> (r: Acquire<P, E>)
        requires
            old(self)@.valid(),
            old(self)@.lent > 0,
        ensures
            (final(self)@, r) == (if alive {
                (old(self)@, Acquire::<P, E>::Done(Ok(process)))
            } else {
                (old(self)@.buried(), Acquire::Inspect)
            }),
            final(self)@.valid(),
    {
        if alive {
            Acquire::Done(Ok(process))
        } else {
            self.lent = self.lent - 1;
            Acquire::Inspect
        }
    }

    /// Gives up a place without a process. It passes to the task that has waited longest,
    /// which is to be told; only if nobody waits does it become free.
    pub fn vacate(&mut self) -> (r: Option<W>)
        requires
            old(self)@.valid(),
            old(self)@.sought(),
        ensures
            final(self)@ == old(self)@.vacated(),
            final(self)@.valid(),
            match r {
                Some(w) => old(self)@.waiting.len() > 0 && w == old(self)@.waiting[0],
                None => old(self)@.waiting.len() == 0,
            },
    {
        match self.waiting.pop_front() {
            Some(waiter) => Some(waiter),
            None => {
                self.taken = self.taken - 1;
                None
            },
        }
    }

    /// Goes on when it is known whether the task that was to be told still waited. If not, the
    /// place that was handed over to it is given up in turn.
    pub fn told(&mut self, heard: bool) -> (r: Option<W>)
        requires
            old(self)@.valid(),
            old(self)@.sought(),
        ensures
            heard ==> final(self)@ == old(self)@ && r is None,
            !heard ==> final(self)@ == old(self)@.vacated(),
            !heard ==> match r {
                Some(w) => old(self)@.waiting.len() > 0 && w == old(self)@.waiting[0],
                None => old(self)@.waiting.len() == 0,
            },
            final(self)@.valid(),
    {
        if heard {
            None
        } else {
            self.vacate()
        }
    }

    /// Starts a count of the pool's processes, those with tasks among them. What died while idle
    /// is replaced before they are counted.
    pub fn count(&self) -> (r: Counting)
        ensures
            r == Counting::Inspect,
    {
        Counting::Inspect
    }

    /// Goes on to count: one more process is to be started, or the count is over.
    fn tally(&self) -> (r: Counting)
        requires
            self@.valid(),
        ensures
            r == self@.tally(),
    {
        let total: usize = self.idle.len() + self.lent;
        if total < self.max_size {
            Counting::Spawn
        } else {
            Counting::Done(total)
        }
    }

    /// Goes on with a count when it is known which idle processes are alive.
    pub fn inspected_for_count(&mut self, alive: &[bool]) -> (r: Counting)
        requires
            old(self)@.valid(),
        ensures
            final(self)@ == old(self)@.kept(alive@),
            final(self)@.valid(),
            r == final(self)@.tally(),
    {
        self.retain_alive(alive);
        self.tally()
    }

    /// Goes on with a count when an attempt to start a process is over. One that fails ends
    /// the count with what there is.
    pub fn supplied_for_count<E>(&mut self, outcome: Result<P, E>) -> (r: Counting)
        requires
            old(self)@.valid(),
            old(self)@.lacks(),
        ensures
            (final(self)@, r) == old(self)@.counted(outcome),
            final(self)@.valid(),
    {
        match outcome {
            Ok(process) => {
                self.idle.push_back(process);
                self.tally()
            },
            Err(_) => Counting::Done(self.idle.len() + self.lent),
        }
    }
}

impl<P> SubprocessPool<P, Waiter> {
    /// Gives up a place without a process. The tasks of the queue are told in their order, until
    /// one still waits: the place is its own. The receipts say who was told, and what each
    /// answered; that rests on the tasks.
    pub fn leave(&mut self) -> (r: Vec<Told>)
        requires
            old(self)@.valid(),
            old(self)@.sought(),
        ensures
            old(self)@.tells(answers(r@)),
            final(self)@ == old(self)@.left(deaf_in(answers(r@))),
            final(self)@.valid(),
    {
        let ghost start = self@;
        let mut receipts: Vec<Told> = Vec::new();
        let mut next = self.vacate();
        assert(self@ =~= start.left(0));
        loop
            invariant_except_break
                next is Some <==> receipts@.len() < start.waiting.len(),
                next matches Some(w) ==> w == start.waiting[receipts@.len() as int],
                self@ == start.left(receipts@.len()),
                receipts@.len() <= start.waiting.len(),
                forall|i: int|
                    0 <= i < receipts@.len() ==> (#[trigger] receipts@[i]).whom()
                        == start.waiting[i] && !receipts@[i].spec_heard(),
            invariant
                start.valid(),
                start.sought(),
                self@.valid(),
            ensures
                start.tells(answers(receipts@)),
                self@ == start.left(deaf_in(answers(receipts@))),
            decreases start.waiting.len() - receipts@.len(),
        {
            match next {
                None => {
                    break;
                },
                Some(waiter) => {
                    let ghost deaf = receipts@.len();
                    let receipt = wake(waiter);
                    let heard = receipt.heard();
                    receipts.push(receipt);
                    next = self.told(heard);
                    if heard {
                        break;
                    }
                    assert(self@ =~= start.left(deaf + 1));
                },
            }
        }
        receipts
    }

    /// Goes on when a process that was needed could not be started: the task gives up its
    /// place, as [`SubprocessPool::leave`] does, and its attempt is over.
    pub fn failed<E>(&mut self, error: E) -> (r: (Acquire<P, E>, Vec<Told>))
        requires
            old(self)@.valid(),
            old(self)@.sought(),
        ensures
            r.0 == Acquire::<P, E>::Done(Err(error)),
            old(self)@.tells(answers(r.1@)),
            final(self)@ == old(self)@.left(deaf_in(answers(r.1@))),
            final(self)@.valid(),
    {
        let receipts = self.leave();
        (Acquire::Done(Err(error)), receipts)
    }

    /// Takes a process back from a task, and with it the place, which is given up as
    /// [`SubprocessPool::leave`] does.
    pub fn give_back(&mut self, process: P) -> (r: Vec<Told>)
        requires
            old(self)@.valid(),
            old(self)@.lent > 0,
        ensures
            old(self)@.tells(answers(r@)),
            final(self)@ == old(self)@.returned(process).left(deaf_in(answers(r@))),
            final(self)@.valid(),
    {
        self.idle.push_back(process);
        self.lent = self.lent - 1;
        assert(self@ =~= old(self)@.returned(process));
        self.leave()
    }
}

} // verus!
