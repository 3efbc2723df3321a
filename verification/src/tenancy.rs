//! What holds of any number of tasks that share a pool.
//!
//! A [`Tenancy`] is a pool with all its tasks at one moment. Its steps are those of
//! [`crate::pool`], done by one task at a time and in any order: what they do to the pool, and
//! what the task does next, is what the contracts there say. Three things are taken for granted:
//! the lock stays with a task from one start of a process to the next; a process that is started
//! is a new one; and a task that is told of a place hears it unless it was given up.

use crate::ledger::{
    alive_only, all_ok, deaf_in, fill_run, is_heard, joined_by, law_opening, law_places_run_out,
    lemma_alive_only_len, started, Ledger,
};
use crate::pool::{Acquire, Counting};
use vstd::prelude::*;

verus! {

/// Where a task stands.
pub enum Task<P, E> {
    /// It tries to get a process, or has one, or has failed to get one.
    Acquiring(Acquire<P, E>),
    /// It counts the processes.
    Counting(Counting),
    /// It has given its process back.
    Through,
}

/// A pool with all its tasks at one moment. A task in the queue goes by its number.
#[verifier::ext_equal]
pub struct Tenancy<P, E> {
    pub pool: Ledger<P, int>,
    /// The task that keeps the lock between two steps.
    pub lock: Option<int>,
    pub tasks: Map<int, Task<P, E>>,
}

/// Whether a task has a place.
pub open spec fn has_place<P, E>(task: Task<P, E>) -> bool {
    match task {
        Task::Acquiring(Acquire::Inspect) => true,
        Task::Acquiring(Acquire::Spawn) => true,
        Task::Acquiring(Acquire::Verify(_)) => true,
        Task::Acquiring(Acquire::Leave(_)) => true,
        Task::Acquiring(Acquire::Done(Ok(_))) => true,
        _ => false,
    }
}

/// Whether a task has a process.
pub open spec fn has_process<P, E>(task: Task<P, E>) -> bool {
    match task {
        Task::Acquiring(Acquire::Verify(_)) => true,
        Task::Acquiring(Acquire::Done(Ok(_))) => true,
        _ => false,
    }
}

/// Whether a task has a given process.
pub open spec fn has_this<P, E>(task: Task<P, E>, process: P) -> bool {
    match task {
        Task::Acquiring(Acquire::Verify(p)) => p == process,
        Task::Acquiring(Acquire::Done(Ok(p))) => p == process,
        _ => false,
    }
}

/// Whether a task is about to start a process.
pub open spec fn is_starting<P, E>(task: Task<P, E>) -> bool {
    ||| task == Task::<P, E>::Acquiring(Acquire::Spawn)
    ||| task == Task::<P, E>::Counting(Counting::Spawn)
}

/// Whether a task waits for a place.
pub open spec fn is_waiting<P, E>(task: Task<P, E>) -> bool {
    task == Task::<P, E>::Acquiring(Acquire::AwaitTurn)
}

/// The tasks that have a place.
pub open spec fn places<P, E>() -> spec_fn(Task<P, E>) -> bool {
    |task: Task<P, E>| has_place(task)
}

/// The tasks that have a process.
pub open spec fn holders<P, E>() -> spec_fn(Task<P, E>) -> bool {
    |task: Task<P, E>| has_process(task)
}

/// The tasks that have a given process.
pub open spec fn holders_of<P, E>(process: P) -> spec_fn(Task<P, E>) -> bool {
    |task: Task<P, E>| has_this(task, process)
}

/// The number of tasks of a kind.
pub open spec fn number_of<P, E>(
    tasks: Map<int, Task<P, E>>,
    kind: spec_fn(Task<P, E>) -> bool,
) -> nat {
    tasks.dom().filter(|t: int| kind(tasks[t])).len()
}

/// How often a process occurs among others.
pub open spec fn occurrences<P>(processes: Seq<P>, process: P) -> nat
    decreases processes.len(),
{
    if processes.len() == 0 {
        0
    } else {
        occurrences(processes.drop_last(), process) + (if processes.last() == process {
            1nat
        } else {
            0
        })
    }
}

impl<P, E> Tenancy<P, E> {
    /// In how many places a process is: idle, or with a task.
    pub open spec fn whereabouts(self, process: P) -> nat {
        occurrences(self.pool.idle, process) + number_of(self.tasks, holders_of(process))
    }

    /// Whether the queue holds each task once, every task that waits, and of the others only
    /// such as were given up.
    pub open spec fn queue_fits(self) -> bool {
        &&& self.pool.waiting.no_duplicates()
        &&& forall|i: int|
            0 <= i < self.pool.waiting.len() && self.tasks.contains_key(
                #[trigger] self.pool.waiting[i],
            ) ==> is_waiting(self.tasks[self.pool.waiting[i]])
        &&& forall|t: int| #[trigger]
            self.tasks.contains_key(t) && is_waiting(self.tasks[t]) ==> self.pool.waiting.contains(
                t,
            )
    }

    /// Whether the lock is with the task that is about to start a process, if there is one,
    /// and a process lacks as long as it is.
    pub open spec fn lock_fits(self) -> bool {
        &&& forall|t: int| #[trigger]
            self.tasks.contains_key(t) && is_starting(self.tasks[t]) ==> self.lock == Some(t)
        &&& self.lock matches Some(t) ==> {
            &&& self.tasks.contains_key(t)
            &&& is_starting(self.tasks[t])
            &&& self.pool.lacks()
        }
    }

    /// What is true at every moment.
    pub open spec fn inv(self) -> bool {
        &&& self.pool.valid()
        &&& self.tasks.dom().finite()
        &&& self.pool.taken == number_of(self.tasks, places())
        &&& self.pool.lent == number_of(self.tasks, holders())
        &&& self.queue_fits()
        &&& self.lock_fits()
        &&& forall|p: P| #[trigger] self.whereabouts(p) <= 1
    }

    /// A pool that was just opened: it has all its processes, and no two are the same.
    pub open spec fn opened(self) -> bool {
        &&& self.pool.valid()
        &&& self.pool.taken == 0
        &&& self.pool.lent == 0
        &&& self.pool.waiting == Seq::<int>::empty()
        &&& forall|p: P| #[trigger] occurrences(self.pool.idle, p) <= 1
        &&& self.lock is None
        &&& self.tasks == Map::<int, Task<P, E>>::empty()
    }

    /// The pool once it has become `pool`, task `t` stands elsewhere, and nobody keeps the lock
    /// but a task that is about to start a process.
    pub open spec fn moved(self, pool: Ledger<P, int>, t: int, task: Task<P, E>) -> Self {
        Tenancy {
            pool,
            lock: if is_starting(task) {
                Some(t)
            } else {
                None
            },
            tasks: self.tasks.insert(t, task),
        }
    }

    /// A new task wants a process, or a count.
    pub open spec fn begins(self, next: Self, t: int) -> bool {
        &&& !self.tasks.contains_key(t)
        &&& !self.pool.waiting.contains(t)
        &&& exists|task: Task<P, E>|
            {
                &&& task == Task::<P, E>::Acquiring(Acquire::Join) || task == Task::<
                    P,
                    E,
                >::Counting(Counting::Inspect)
                &&& next == (Tenancy { tasks: #[trigger] self.tasks.insert(t, task), ..self })
            }
    }

    /// A place is given up, and the tasks that are told of it answer so: each hears it unless it
    /// was given up. The one that does has the place.
    pub open spec fn hands_over_with(self, next: Self, answers: Seq<(int, bool)>) -> bool {
        &&& self.pool.tells(answers)
        &&& forall|i: int|
            0 <= i < answers.len() ==> (#[trigger] answers[i]).1 == self.tasks.contains_key(
                answers[i].0,
            )
        &&& next == Tenancy {
            pool: self.pool.left(deaf_in(answers)),
            lock: self.lock,
            tasks: if is_heard(answers) {
                self.tasks.insert(answers.last().0, Task::Acquiring(Acquire::spec_turned(true)))
            } else {
                self.tasks
            },
        }
    }

    /// A place is given up: the first task of the queue that was not given up has it now.
    pub open spec fn hands_over(self, next: Self) -> bool {
        exists|answers: Seq<(int, bool)>| #[trigger] self.hands_over_with(next, answers)
    }

    /// A task is given up before it looks for a process. If it has a place by then, it gives
    /// that up.
    pub open spec fn gives_up(self, next: Self, t: int) -> bool {
        let without = Tenancy { tasks: self.tasks.remove(t), ..self };
        &&& self.tasks.contains_key(t)
        &&& self.tasks[t] matches Task::Acquiring(at)
        &&& at is Join || at is AwaitTurn || at is Inspect
        &&& if at.spec_owes_place(false) {
            self.lock is None && without.hands_over(next)
        } else {
            next == without
        }
    }

    /// Task `t` goes on with its attempt to get a process, or gives its process back.
    pub open spec fn acquires(self, next: Self, t: int, at: Acquire<P, E>) -> bool {
        match at {
            Acquire::Join => {
                &&& self.lock is None
                &&& next == self.moved(
                    self.pool.joined(t),
                    t,
                    Task::Acquiring(
                        if self.pool.taken < self.pool.max_size {
                            Acquire::Inspect
                        } else {
                            Acquire::AwaitTurn
                        },
                    ),
                )
            },
            Acquire::AwaitTurn => false,
            Acquire::Inspect => {
                &&& self.lock is None
                &&& exists|alive: Seq<bool>|
                    {
                        let (pool, task) = #[trigger] self.pool.kept(alive).seek::<E>();
                        next == self.moved(pool, t, Task::Acquiring(task))
                    }
            },
            Acquire::Spawn => {
                &&& self.lock == Some(t)
                &&& exists|outcome: Result<P, E>|
                    {
                        let (pool, task) = #[trigger] self.pool.supplied(outcome);
                        &&& outcome matches Ok(p) ==> self.whereabouts(p) == 0
                        &&& next == self.moved(pool, t, Task::Acquiring(task))
                    }
            },
            Acquire::Verify(process) => {
                &&& self.lock is None
                &&& {
                    ||| next == self.moved(self.pool, t, Task::Acquiring(Acquire::Done(Ok(process))))
                    ||| next == self.moved(self.pool.buried(), t, Task::Acquiring(Acquire::Inspect))
                }
            },
            Acquire::Leave(error) => {
                &&& self.lock is None
                &&& self.moved(self.pool, t, Task::Acquiring(Acquire::Done(Err(error)))).hands_over(
                    next,
                )
            },
            Acquire::Done(Ok(process)) => {
                &&& self.lock is None
                &&& self.moved(self.pool.returned(process), t, Task::Through).hands_over(next)
            },
            Acquire::Done(Err(_)) => false,
        }
    }

    /// Task `t` goes on with its count.
    pub open spec fn counts(self, next: Self, t: int, at: Counting) -> bool {
        match at {
            Counting::Inspect => {
                &&& self.lock is None
                &&& exists|alive: Seq<bool>|
                    {
                        let pool = #[trigger] self.pool.kept(alive);
                        next == self.moved(pool, t, Task::Counting(pool.tally()))
                    }
            },
            Counting::Spawn => {
                &&& self.lock == Some(t)
                &&& exists|outcome: Result<P, E>|
                    {
                        let (pool, task) = #[trigger] self.pool.counted(outcome);
                        &&& outcome matches Ok(p) ==> self.whereabouts(p) == 0
                        &&& next == self.moved(pool, t, Task::Counting(task))
                    }
            },
            Counting::Done(_) => false,
        }
    }

    /// Task `t` goes on with what it does.
    pub open spec fn goes_on(self, next: Self, t: int) -> bool {
        &&& self.tasks.contains_key(t)
        &&& match self.tasks[t] {
            Task::Acquiring(at) => self.acquires(next, t, at),
            Task::Counting(at) => self.counts(next, t, at),
            Task::Through => false,
        }
    }

    /// Whether task `t` finds dead the process that it took, and so has to look for another.
    pub open spec fn finds_dead(self, next: Self, t: int) -> bool {
        &&& self.tasks[t] matches Task::Acquiring(at)
        &&& at is Verify
        &&& next.tasks[t] == Task::<P, E>::Acquiring(Acquire::Inspect)
    }

    /// The pool one step of task `t` later.
    pub open spec fn step(self, next: Self, t: int) -> bool {
        ||| self.begins(next, t)
        ||| self.gives_up(next, t)
        ||| self.goes_on(next, t)
    }
}

/// One if it is so, else none.
pub open spec fn one_if(b: bool) -> nat {
    if b {
        1
    } else {
        0
    }
}

/// When one task moves, the number of tasks of a kind changes by that task alone.
proof fn lemma_number_moved<P, E>(
    tasks: Map<int, Task<P, E>>,
    t: int,
    task: Task<P, E>,
    kind: spec_fn(Task<P, E>) -> bool,
)
    requires
        tasks.dom().finite(),
    ensures
        number_of(tasks.insert(t, task), kind) == number_of(tasks, kind) - one_if(
            tasks.contains_key(t) && kind(tasks[t]),
        ) + one_if(kind(task)),
{
    let before = tasks.dom().filter(|u: int| kind(tasks[u]));
    let moved = tasks.insert(t, task);
    let after = moved.dom().filter(|u: int| kind(moved[u]));
    tasks.dom().lemma_len_filter(|u: int| kind(tasks[u]));
    if kind(task) {
        assert(after =~= before.remove(t).insert(t));
    } else {
        assert(after =~= before.remove(t));
    }
}

/// When one task is given up, the number of tasks of a kind changes by that task alone.
proof fn lemma_number_removed<P, E>(
    tasks: Map<int, Task<P, E>>,
    t: int,
    kind: spec_fn(Task<P, E>) -> bool,
)
    requires
        tasks.dom().finite(),
        tasks.contains_key(t),
    ensures
        number_of(tasks.remove(t), kind) == number_of(tasks, kind) - one_if(kind(tasks[t])),
{
    let before = tasks.dom().filter(|u: int| kind(tasks[u]));
    let removed = tasks.remove(t);
    let after = removed.dom().filter(|u: int| kind(removed[u]));
    tasks.dom().lemma_len_filter(|u: int| kind(tasks[u]));
    assert(after =~= before.remove(t));
}

/// A task of a kind is one of them.
proof fn lemma_number_at_least_one<P, E>(
    tasks: Map<int, Task<P, E>>,
    t: int,
    kind: spec_fn(Task<P, E>) -> bool,
)
    requires
        tasks.dom().finite(),
        tasks.contains_key(t),
        kind(tasks[t]),
    ensures
        number_of(tasks, kind) >= 1,
{
    let those = tasks.dom().filter(|u: int| kind(tasks[u]));
    tasks.dom().lemma_len_filter(|u: int| kind(tasks[u]));
    assert(those.contains(t));
    vstd::set::axiom_set_contains_len(those, t);
}

/// Of places there are at least as many as of processes with tasks, and one more if a task
/// with a place has none.
proof fn lemma_holders_have_places<P, E>(tasks: Map<int, Task<P, E>>, t: int)
    requires
        tasks.dom().finite(),
    ensures
        number_of(tasks, holders()) <= number_of(tasks, places()),
        tasks.contains_key(t) && has_place(tasks[t]) && !has_process(tasks[t]) ==> number_of(
            tasks,
            holders(),
        ) < number_of(tasks, places()),
{
    let few = tasks.dom().filter(|u: int| holders()(tasks[u]));
    let many = tasks.dom().filter(|u: int| places()(tasks[u]));
    tasks.dom().lemma_len_filter(|u: int| places()(tasks[u]));
    assert(few.subset_of(many));
    vstd::set_lib::lemma_len_subset(few, many);
    if tasks.contains_key(t) && has_place(tasks[t]) && !has_process(tasks[t]) {
        assert(few.subset_of(many.remove(t)));
        assert(many.contains(t));
        vstd::set_lib::lemma_len_subset(few, many.remove(t));
    }
}

/// What occurs in two parts occurs in the whole as often as in both.
proof fn lemma_occurrences_concat<P>(first: Seq<P>, second: Seq<P>, process: P)
    ensures
        occurrences(first + second, process) == occurrences(first, process) + occurrences(
            second,
            process,
        ),
    decreases second.len(),
{
    if second.len() == 0 {
        assert(first + second =~= first);
    } else {
        assert((first + second).drop_last() =~= first + second.drop_last());
        lemma_occurrences_concat(first, second.drop_last(), process);
    }
}

/// One more process occurs once more.
proof fn lemma_occurrences_push<P>(processes: Seq<P>, more: P, process: P)
    ensures
        occurrences(processes.push(more), process) == occurrences(processes, process) + one_if(
            more == process,
        ),
{
    assert(processes.push(more).drop_last() =~= processes);
}

/// Without the first, it occurs once less.
proof fn lemma_occurrences_drop_first<P>(processes: Seq<P>, process: P)
    requires
        processes.len() > 0,
    ensures
        occurrences(processes, process) == occurrences(processes.drop_first(), process) + one_if(
            processes[0] == process,
        ),
{
    let first = Seq::<P>::empty().push(processes[0]);
    assert(processes =~= first + processes.drop_first());
    lemma_occurrences_concat(first, processes.drop_first(), process);
    lemma_occurrences_push(Seq::<P>::empty(), processes[0], process);
}

/// Dropping the dead doubles nothing.
proof fn lemma_occurrences_alive<P>(processes: Seq<P>, alive: Seq<bool>, process: P)
    ensures
        occurrences(alive_only(processes, alive), process) <= occurrences(processes, process),
    decreases processes.len(),
{
    if processes.len() > 0 {
        let others = alive_only(processes.drop_last(), alive);
        lemma_occurrences_alive(processes.drop_last(), alive, process);
        lemma_occurrences_push(others, processes.last(), process);
    }
}

/// The queue still fits when a task moves that did not wait and does not.
proof fn lemma_queue_fits_moved<P, E>(s: Tenancy<P, E>, next: Tenancy<P, E>, t: int, task: Task<P, E>)
    requires
        s.queue_fits(),
        next.pool.waiting == s.pool.waiting,
        next.tasks == s.tasks.insert(t, task),
        !is_waiting(task),
        if s.tasks.contains_key(t) {
            !is_waiting(s.tasks[t])
        } else {
            !s.pool.waiting.contains(t)
        },
    ensures
        next.queue_fits(),
{
    let queue = s.pool.waiting;
    assert forall|i: int|
        0 <= i < queue.len() && next.tasks.contains_key(#[trigger] queue[i]) implies is_waiting(
        next.tasks[queue[i]],
    ) by {
        assert(queue.contains(queue[i]));
        if queue[i] != t {
            assert(s.tasks.contains_key(queue[i]));
        }
    }
    assert forall|u: int| #[trigger]
        next.tasks.contains_key(u) && is_waiting(next.tasks[u]) implies queue.contains(u) by {
        assert(u != t);
        assert(s.tasks.contains_key(u));
    }
}

/// The queue still fits when a task is given up.
proof fn lemma_queue_fits_removed<P, E>(s: Tenancy<P, E>, next: Tenancy<P, E>, t: int)
    requires
        s.queue_fits(),
        next.pool.waiting == s.pool.waiting,
        next.tasks == s.tasks.remove(t),
    ensures
        next.queue_fits(),
{
    let queue = s.pool.waiting;
    assert forall|i: int|
        0 <= i < queue.len() && next.tasks.contains_key(#[trigger] queue[i]) implies is_waiting(
        next.tasks[queue[i]],
    ) by {
        assert(s.tasks.contains_key(queue[i]));
    }
    assert forall|u: int| #[trigger]
        next.tasks.contains_key(u) && is_waiting(next.tasks[u]) implies queue.contains(u) by {
        assert(s.tasks.contains_key(u));
    }
}

/// The lock still fits when a task moves that had it, or that found it free.
proof fn lemma_lock_fits_moved<P, E>(
    s: Tenancy<P, E>,
    pool: Ledger<P, int>,
    t: int,
    task: Task<P, E>,
)
    requires
        s.lock_fits(),
        s.lock is None || s.lock == Some(t),
        is_starting(task) ==> pool.lacks(),
    ensures
        s.moved(pool, t, task).lock_fits(),
{
    let next = s.moved(pool, t, task);
    assert forall|u: int| #[trigger]
        next.tasks.contains_key(u) && is_starting(next.tasks[u]) implies next.lock == Some(u) by {
        if u != t {
            assert(s.tasks.contains_key(u));
        }
    }
}

/// A task that moves takes its place and its process along as its new state says.
proof fn lemma_numbers_moved<P, E>(
    s: Tenancy<P, E>,
    pool: Ledger<P, int>,
    t: int,
    task: Task<P, E>,
)
    requires
        s.tasks.dom().finite(),
    ensures
        ({
            let tasks = s.tasks.insert(t, task);
            let known = s.tasks.contains_key(t);
            &&& tasks.dom().finite()
            &&& number_of(tasks, places()) == number_of(s.tasks, places()) - one_if(
                known && has_place(s.tasks[t]),
            ) + one_if(has_place(task))
            &&& number_of(tasks, holders()) == number_of(s.tasks, holders()) - one_if(
                known && has_process(s.tasks[t]),
            ) + one_if(has_process(task))
            &&& forall|p: P| #[trigger]
                s.moved(pool, t, task).whereabouts(p) == occurrences(pool.idle, p) + number_of(
                    s.tasks,
                    holders_of(p),
                ) - one_if(known && has_this(s.tasks[t], p)) + one_if(has_this(task, p))
        }),
{
    lemma_number_moved(s.tasks, t, task, places());
    lemma_number_moved(s.tasks, t, task, holders());
    assert forall|p: P| #[trigger]
        s.moved(pool, t, task).whereabouts(p) == occurrences(pool.idle, p) + number_of(
            s.tasks,
            holders_of(p),
        ) - one_if(s.tasks.contains_key(t) && has_this(s.tasks[t], p)) + one_if(
            has_this(task, p),
        ) by {
        lemma_number_moved(s.tasks, t, task, holders_of(p));
    }
}

/// Whether everything is in order but that one place belongs to no task: it is about to be
/// given up.
spec fn has_loose_place<P, E>(s: Tenancy<P, E>) -> bool {
    &&& s.pool.valid()
    &&& s.tasks.dom().finite()
    &&& s.pool.taken == number_of(s.tasks, places()) + 1
    &&& s.pool.lent == number_of(s.tasks, holders())
    &&& s.queue_fits()
    &&& s.lock is None
    &&& s.lock_fits()
    &&& forall|p: P| #[trigger] s.whereabouts(p) <= 1
}

/// Who has a place that is given up: the first of the queue that was not given up, if there is
/// one. The result is the number of those before it.
proof fn lemma_heir<P, E>(s: Tenancy<P, E>, next: Tenancy<P, E>) -> (deaf: nat)
    requires
        s.hands_over(next),
    ensures
        deaf <= s.pool.waiting.len(),
        next.pool == s.pool.left(deaf),
        next.lock == s.lock,
        forall|i: int| 0 <= i < deaf ==> !s.tasks.contains_key(#[trigger] s.pool.waiting[i]),
        if deaf < s.pool.waiting.len() {
            &&& s.tasks.contains_key(s.pool.waiting[deaf as int])
            &&& next.tasks == s.tasks.insert(
                s.pool.waiting[deaf as int],
                Task::Acquiring(Acquire::Inspect),
            )
        } else {
            next.tasks == s.tasks
        },
{
    let answers = choose|answers: Seq<(int, bool)>| #[trigger] s.hands_over_with(next, answers);
    let deaf = deaf_in(answers);
    assert forall|i: int| 0 <= i < deaf implies !s.tasks.contains_key(
        #[trigger] s.pool.waiting[i],
    ) by {
        assert(!answers[i].1);
    }
    if is_heard(answers) {
        assert(answers[deaf as int].0 == s.pool.waiting[deaf as int]);
    }
    deaf
}

/// Once the loose place is given up, everything is in order.
proof fn lemma_hands_over<P, E>(s: Tenancy<P, E>, next: Tenancy<P, E>)
    requires
        has_loose_place(s),
        s.hands_over(next),
    ensures
        next.inv(),
        next.pool.max_size == s.pool.max_size,
{
    lemma_holders_have_places(s.tasks, 0);
    let queue = s.pool.waiting;
    let deaf = lemma_heir(s, next);
    let rest = next.pool.waiting;
    if deaf < queue.len() {
        let heir = queue[deaf as int];
        let task: Task<P, E> = Task::Acquiring(Acquire::Inspect);
        assert(is_waiting(s.tasks[heir]));
        lemma_numbers_moved(s, next.pool, heir, task);
        lemma_lock_fits_moved(s, next.pool, heir, task);
        assert(next =~= s.moved(next.pool, heir, task));
        assert forall|i: int, j: int| 0 <= i < j < rest.len() implies rest[i] != rest[j] by {
            assert(rest[i] == queue[i + deaf + 1] && rest[j] == queue[j + deaf + 1]);
        }
        assert forall|i: int|
            0 <= i < rest.len() && next.tasks.contains_key(#[trigger] rest[i]) implies is_waiting(
            next.tasks[rest[i]],
        ) by {
            assert(rest[i] == queue[i + deaf + 1]);
            assert(queue[i + deaf + 1] != queue[deaf as int]);
        }
        assert forall|u: int| #[trigger]
            next.tasks.contains_key(u) && is_waiting(next.tasks[u]) implies rest.contains(u) by {
            assert(u != heir);
            assert(s.tasks.contains_key(u));
            let j = choose|j: int| 0 <= j < queue.len() && queue[j] == u;
            assert(j > deaf);
            assert(rest[j - deaf - 1] == u);
        }
        assert forall|p: P| #[trigger] next.whereabouts(p) <= 1 by {
            assert(s.whereabouts(p) <= 1);
        }
    } else {
        assert(rest =~= Seq::<int>::empty());
        assert forall|u: int| #[trigger]
            next.tasks.contains_key(u) && is_waiting(next.tasks[u]) implies rest.contains(u) by {
            assert(s.tasks.contains_key(u));
            let j = choose|j: int| 0 <= j < queue.len() && queue[j] == u;
            assert(!s.tasks.contains_key(queue[j]));
        }
        assert forall|u: int| #[trigger]
            next.tasks.contains_key(u) && is_starting(next.tasks[u]) implies next.lock == Some(
            u,
        ) by {
            assert(s.tasks.contains_key(u));
        }
        assert forall|p: P| #[trigger] next.whereabouts(p) <= 1 by {
            assert(s.whereabouts(p) <= 1);
        }
    }
}

/// A pool that was just opened is in order.
pub proof fn law_opened<P, E>(s: Tenancy<P, E>)
    requires
        s.opened(),
    ensures
        s.inv(),
{
    assert(s.tasks.dom().filter(|t: int| places()(s.tasks[t])) =~= Set::empty());
    assert(s.tasks.dom().filter(|t: int| holders()(s.tasks[t])) =~= Set::empty());
    assert forall|p: P| #[trigger] s.whereabouts(p) <= 1 by {
        assert(s.tasks.dom().filter(|t: int| holders_of(p)(s.tasks[t])) =~= Set::empty());
    }
}

/// What occurs nowhere twice occurs at most once.
proof fn lemma_occurs_once<P>(processes: Seq<P>, process: P)
    requires
        processes.no_duplicates(),
    ensures
        occurrences(processes, process) <= 1,
        !processes.contains(process) ==> occurrences(processes, process) == 0,
    decreases processes.len(),
{
    if processes.len() > 0 {
        let others = processes.drop_last();
        lemma_occurs_once(others, process);
        if processes.last() == process && others.contains(process) {
            let i = choose|i: int| 0 <= i < others.len() && others[i] == process;
            assert(processes[i] == processes[processes.len() - 1]);
        }
        if others.contains(process) {
            let i = choose|i: int| 0 <= i < others.len() && others[i] == process;
            assert(processes[i] == process);
        }
        assert(processes[processes.len() - 1] == processes.last());
    }
}

/// Once as many different processes as it has places were started, a pool is one that was just
/// opened: no place is taken, nothing is on loan, nobody waits. As many tasks as it has places
/// have one as soon as they ask.
pub proof fn law_a_filled_pool_is_open<P, E>(
    max_size: nat,
    outcomes: Seq<Result<P, E>>,
    tasks: Seq<int>,
)
    requires
        max_size > 0,
        all_ok(outcomes),
        outcomes.len() == max_size,
        started(outcomes).no_duplicates(),
    ensures
        ({
            let pool = fill_run(Ledger::<P, int>::fresh(max_size), outcomes).0;
            &&& Tenancy::<P, E> { pool, lock: None, tasks: Map::empty() }.opened()
            &&& pool.idle == started(outcomes)
            &&& pool.max_size == max_size
            &&& tasks.len() <= max_size ==> joined_by(pool, tasks).taken == tasks.len()
                && joined_by(pool, tasks).waiting.len() == 0
        }),
{
    let pool = fill_run(Ledger::<P, int>::fresh(max_size), outcomes).0;
    law_opening::<P, int, E>(max_size, outcomes);
    assert forall|p: P| #[trigger] occurrences(pool.idle, p) <= 1 by {
        lemma_occurs_once(pool.idle, p);
    }
    law_places_run_out(pool, tasks);
}

/// A pool in order stays so when a task that has the lock, or found it free, moves, and its
/// place, its process and the idle processes fit what the pool has become.
proof fn lemma_moved_inv<P, E>(
    s: Tenancy<P, E>,
    pool: Ledger<P, int>,
    t: int,
    task: Task<P, E>,
)
    requires
        s.inv(),
        s.tasks.contains_key(t),
        s.lock is None || s.lock == Some(t),
        !is_waiting(s.tasks[t]),
        !is_waiting(task),
        is_starting(task) ==> pool.lacks(),
        pool.valid(),
        pool.waiting == s.pool.waiting,
        pool.taken + one_if(has_place(s.tasks[t])) == s.pool.taken + one_if(has_place(task)),
        pool.lent + one_if(has_process(s.tasks[t])) == s.pool.lent + one_if(has_process(task)),
        forall|p: P|
            #![trigger occurrences(pool.idle, p)]
            occurrences(pool.idle, p) + one_if(has_this(task, p)) <= occurrences(s.pool.idle, p)
                + one_if(has_this(s.tasks[t], p)) || (s.whereabouts(p) == 0 && occurrences(
                pool.idle,
                p,
            ) + one_if(has_this(task, p)) <= 1),
    ensures
        s.moved(pool, t, task).inv(),
{
    let next = s.moved(pool, t, task);
    lemma_numbers_moved(s, pool, t, task);
    lemma_lock_fits_moved(s, pool, t, task);
    lemma_queue_fits_moved(s, next, t, task);
    assert forall|p: P| #[trigger] next.whereabouts(p) <= 1 by {
        assert(s.whereabouts(p) <= 1);
        let _ = occurrences(pool.idle, p);
    }
}

/// Beginning keeps order.
proof fn lemma_begins<P, E>(s: Tenancy<P, E>, next: Tenancy<P, E>, t: int)
    requires
        s.inv(),
        s.begins(next, t),
    ensures
        next.inv(),
        next.pool == s.pool,
{
    let task = next.tasks[t];
    lemma_numbers_moved(s, s.pool, t, task);
    lemma_queue_fits_moved(s, next, t, task);
    assert(next.tasks =~= s.moved(s.pool, t, task).tasks);
    assert forall|u: int| #[trigger]
        next.tasks.contains_key(u) && is_starting(next.tasks[u]) implies next.lock == Some(u) by {
        assert(u != t);
        assert(s.tasks.contains_key(u));
    }
    assert forall|p: P| #[trigger] next.whereabouts(p) <= 1 by {
        assert(s.whereabouts(p) <= 1);
        assert(next.whereabouts(p) == s.moved(s.pool, t, task).whereabouts(p));
    }
}

/// Giving up keeps order.
proof fn lemma_gives_up<P, E>(s: Tenancy<P, E>, next: Tenancy<P, E>, t: int)
    requires
        s.inv(),
        s.gives_up(next, t),
    ensures
        next.inv(),
        next.pool.max_size == s.pool.max_size,
{
    let without = Tenancy { tasks: s.tasks.remove(t), ..s };
    lemma_number_removed(s.tasks, t, places());
    lemma_number_removed(s.tasks, t, holders());
    lemma_queue_fits_removed(s, without, t);
    assert forall|u: int| #[trigger]
        without.tasks.contains_key(u) && is_starting(without.tasks[u]) implies without.lock == Some(
        u,
    ) by {
        assert(s.tasks.contains_key(u));
    }
    assert forall|p: P| #[trigger] without.whereabouts(p) <= 1 by {
        assert(s.whereabouts(p) <= 1);
        lemma_number_removed(s.tasks, t, holders_of(p));
    }
    if s.tasks[t] == Task::<P, E>::Acquiring(Acquire::Inspect) {
        lemma_number_at_least_one(s.tasks, t, places());
        lemma_hands_over(without, next);
    }
}

/// A task that asks for a place keeps order.
proof fn lemma_joins<P, E>(s: Tenancy<P, E>, next: Tenancy<P, E>, t: int)
    requires
        s.inv(),
        s.tasks.contains_key(t),
        s.tasks[t] == Task::<P, E>::Acquiring(Acquire::Join),
        s.acquires(next, t, Acquire::Join),
    ensures
        next.inv(),
        next.pool.max_size == s.pool.max_size,
{
    let pool = s.pool.joined(t);
    let task = next.tasks[t];
    if s.pool.taken < s.pool.max_size {
        lemma_moved_inv(s, pool, t, task);
    } else {
        let queue = s.pool.waiting;
        lemma_numbers_moved(s, pool, t, task);
        lemma_lock_fits_moved(s, pool, t, task);
        assert(!queue.contains(t)) by {
            if queue.contains(t) {
                let i = choose|i: int| 0 <= i < queue.len() && queue[i] == t;
                assert(s.tasks.contains_key(queue[i]));
            }
        }
        assert forall|i: int|
            0 <= i < pool.waiting.len() && next.tasks.contains_key(
                #[trigger] pool.waiting[i],
            ) implies is_waiting(next.tasks[pool.waiting[i]]) by {
            if i < queue.len() {
                assert(pool.waiting[i] == queue[i]);
                assert(queue.contains(queue[i]));
                assert(s.tasks.contains_key(queue[i]));
            }
        }
        assert forall|u: int| #[trigger]
            next.tasks.contains_key(u) && is_waiting(
                next.tasks[u],
            ) implies pool.waiting.contains(u) by {
            if u == t {
                assert(pool.waiting[queue.len() as int] == t);
            } else {
                assert(s.tasks.contains_key(u));
                let i = choose|i: int| 0 <= i < queue.len() && queue[i] == u;
                assert(pool.waiting[i] == u);
            }
        }
        assert forall|p: P| #[trigger] next.whereabouts(p) <= 1 by {
            assert(s.whereabouts(p) <= 1);
        }
    }
}

/// Looking at the idle processes keeps order.
proof fn lemma_inspects<P, E>(s: Tenancy<P, E>, next: Tenancy<P, E>, t: int)
    requires
        s.inv(),
        s.tasks.contains_key(t),
        s.tasks[t] == Task::<P, E>::Acquiring(Acquire::Inspect),
        s.acquires(next, t, Acquire::Inspect),
    ensures
        next.inv(),
        next.pool.max_size == s.pool.max_size,
{
    let alive = choose|alive: Seq<bool>|
        {
            let (pool, task) = #[trigger] s.pool.kept(alive).seek::<E>();
            next == s.moved(pool, t, Task::Acquiring(task))
        };
    let kept = s.pool.kept(alive);
    let (pool, task) = kept.seek::<E>();
    lemma_alive_only_len(s.pool.idle, alive);
    lemma_holders_have_places(s.tasks, t);
    assert forall|p: P|
        #![trigger occurrences(pool.idle, p)]
        occurrences(pool.idle, p) + one_if(
            has_this(Task::<P, E>::Acquiring(task), p),
        ) <= occurrences(s.pool.idle, p) by {
        lemma_occurrences_alive(s.pool.idle, alive, p);
        if !kept.lacks() {
            lemma_occurrences_drop_first(kept.idle, p);
        }
    }
    lemma_moved_inv(s, pool, t, Task::Acquiring(task));
}

/// Starting a process keeps order.
proof fn lemma_is_supplied<P, E>(s: Tenancy<P, E>, next: Tenancy<P, E>, t: int)
    requires
        s.inv(),
        s.tasks.contains_key(t),
        s.tasks[t] == Task::<P, E>::Acquiring(Acquire::Spawn),
        s.acquires(next, t, Acquire::Spawn),
    ensures
        next.inv(),
        next.pool.max_size == s.pool.max_size,
{
    let outcome = choose|outcome: Result<P, E>|
        {
            let (pool, task) = #[trigger] s.pool.supplied(outcome);
            &&& outcome matches Ok(p) ==> s.whereabouts(p) == 0
            &&& next == s.moved(pool, t, Task::Acquiring(task))
        };
    let (pool, task) = s.pool.supplied(outcome);
    lemma_holders_have_places(s.tasks, t);
    if let Ok(fresh) = outcome {
        let stocked = s.pool.stocked(fresh);
        assert forall|p: P|
            #![trigger occurrences(pool.idle, p)]
            occurrences(pool.idle, p) + one_if(has_this(Task::<P, E>::Acquiring(task), p))
                <= occurrences(s.pool.idle, p) + one_if(p == fresh) by {
            lemma_occurrences_push(s.pool.idle, fresh, p);
            if !stocked.lacks() {
                lemma_occurrences_drop_first(stocked.idle, p);
            }
        }
    }
    lemma_moved_inv(s, pool, t, Task::Acquiring(task));
}

/// Looking at a process, failing, and giving back keep order.
proof fn lemma_acquires_rest<P, E>(s: Tenancy<P, E>, next: Tenancy<P, E>, t: int, at: Acquire<P, E>)
    requires
        s.inv(),
        s.tasks.contains_key(t),
        s.tasks[t] == Task::Acquiring(at),
        at is Verify || at is Leave || at is Done,
        s.acquires(next, t, at),
    ensures
        next.inv(),
        next.pool.max_size == s.pool.max_size,
{
    lemma_holders_have_places(s.tasks, t);
    match at {
        Acquire::Verify(process) => {
            lemma_number_at_least_one(s.tasks, t, holders());
            let done: Task<P, E> = Task::Acquiring(Acquire::Done(Ok(process)));
            let again: Task<P, E> = Task::Acquiring(Acquire::Inspect);
            if next == s.moved(s.pool, t, done) {
                lemma_moved_inv(s, s.pool, t, done);
            } else {
                lemma_moved_inv(s, s.pool.buried(), t, again);
            }
        },
        Acquire::Leave(error) => {
            let over: Task<P, E> = Task::Acquiring(Acquire::Done(Err(error)));
            let mid = s.moved(s.pool, t, over);
            lemma_numbers_moved(s, s.pool, t, over);
            lemma_lock_fits_moved(s, s.pool, t, over);
            lemma_queue_fits_moved(s, mid, t, over);
            assert forall|p: P| #[trigger] mid.whereabouts(p) <= 1 by {
                assert(s.whereabouts(p) <= 1);
            }
            lemma_hands_over(mid, next);
        },
        Acquire::Done(Ok(process)) => {
            lemma_number_at_least_one(s.tasks, t, holders());
            let through: Task<P, E> = Task::Through;
            let pool = s.pool.returned(process);
            let mid = s.moved(pool, t, through);
            lemma_numbers_moved(s, pool, t, through);
            lemma_lock_fits_moved(s, pool, t, through);
            lemma_queue_fits_moved(s, mid, t, through);
            assert forall|p: P| #[trigger] mid.whereabouts(p) <= 1 by {
                assert(s.whereabouts(p) <= 1);
                lemma_occurrences_push(s.pool.idle, process, p);
            }
            lemma_hands_over(mid, next);
        },
        _ => {},
    }
}

/// Counting keeps order.
proof fn lemma_counts<P, E>(s: Tenancy<P, E>, next: Tenancy<P, E>, t: int, at: Counting)
    requires
        s.inv(),
        s.tasks.contains_key(t),
        s.tasks[t] == Task::<P, E>::Counting(at),
        s.counts(next, t, at),
    ensures
        next.inv(),
        next.pool.max_size == s.pool.max_size,
{
    match at {
        Counting::Inspect => {
            let alive = choose|alive: Seq<bool>|
                {
                    let pool = #[trigger] s.pool.kept(alive);
                    next == s.moved(pool, t, Task::Counting(pool.tally()))
                };
            let pool = s.pool.kept(alive);
            lemma_alive_only_len(s.pool.idle, alive);
            assert forall|p: P|
                #![trigger occurrences(pool.idle, p)]
                occurrences(pool.idle, p) <= occurrences(s.pool.idle, p) by {
                lemma_occurrences_alive(s.pool.idle, alive, p);
            }
            lemma_moved_inv(s, pool, t, Task::Counting(pool.tally()));
        },
        Counting::Spawn => {
            let outcome = choose|outcome: Result<P, E>|
                {
                    let (pool, task) = #[trigger] s.pool.counted(outcome);
                    &&& outcome matches Ok(p) ==> s.whereabouts(p) == 0
                    &&& next == s.moved(pool, t, Task::Counting(task))
                };
            let (pool, task) = s.pool.counted(outcome);
            if let Ok(fresh) = outcome {
                assert forall|p: P|
                    #![trigger occurrences(pool.idle, p)]
                    occurrences(pool.idle, p) <= occurrences(s.pool.idle, p) + one_if(p == fresh) by {
                    lemma_occurrences_push(s.pool.idle, fresh, p);
                }
            }
            lemma_moved_inv(s, pool, t, Task::Counting(task));
        },
        Counting::Done(_) => {},
    }
}

/// Whatever task does its next step, a pool in order stays in order.
pub proof fn law_step<P, E>(s: Tenancy<P, E>, next: Tenancy<P, E>, t: int)
    requires
        s.inv(),
        s.step(next, t),
    ensures
        next.inv(),
        next.pool.max_size == s.pool.max_size,
{
    if s.begins(next, t) {
        lemma_begins(s, next, t);
    } else if s.gives_up(next, t) {
        lemma_gives_up(s, next, t);
    } else {
        match s.tasks[t] {
            Task::Acquiring(Acquire::Join) => lemma_joins(s, next, t),
            Task::Acquiring(Acquire::Inspect) => lemma_inspects(s, next, t),
            Task::Acquiring(Acquire::Spawn) => lemma_is_supplied(s, next, t),
            Task::Acquiring(at) => lemma_acquires_rest(s, next, t, at),
            Task::Counting(at) => lemma_counts(s, next, t, at),
            Task::Through => {},
        }
    }
}

/// Whether `moments` are those of one pool from its opening on, each a step of the task in
/// `doers` after the one before.
pub open spec fn is_run<P, E>(moments: Seq<Tenancy<P, E>>, doers: Seq<int>) -> bool {
    &&& moments.len() == doers.len() + 1
    &&& moments[0].opened()
    &&& forall|i: int| 0 <= i < doers.len() ==> #[trigger] moments[i].step(moments[i + 1], doers[i])
}

/// In whatever order the tasks of a pool do their work, it is in order from its opening on.
pub proof fn law_every_moment<P, E>(moments: Seq<Tenancy<P, E>>, doers: Seq<int>, i: int)
    requires
        is_run(moments, doers),
        0 <= i < moments.len(),
    ensures
        moments[i].inv(),
        moments[i].pool.max_size == moments[0].pool.max_size,
    decreases i,
{
    if i == 0 {
        law_opened(moments[0]);
    } else {
        law_every_moment(moments, doers, i - 1);
        assert(moments[i - 1].step(moments[i - 1 + 1], doers[i - 1]));
        law_step(moments[i - 1], moments[i], doers[i - 1]);
    }
}

/// The processes of a pool, idle ones and those with tasks, are never more than its limit.
pub proof fn law_processes_are_limited<P, E>(s: Tenancy<P, E>)
    requires
        s.inv(),
    ensures
        s.pool.idle.len() + number_of(s.tasks, holders()) <= s.pool.max_size,
{
}

/// No two tasks have one process, and none has one that is idle.
pub proof fn law_a_process_is_in_one_place<P, E>(s: Tenancy<P, E>, t: int, u: int, process: P)
    requires
        s.inv(),
        s.tasks.contains_key(t),
        has_this(s.tasks[t], process),
    ensures
        !s.pool.idle.contains(process),
        s.tasks.contains_key(u) && has_this(s.tasks[u], process) ==> t == u,
{
    assert(s.whereabouts(process) <= 1);
    lemma_number_at_least_one(s.tasks, t, holders_of(process));
    if s.pool.idle.contains(process) {
        lemma_occurs(s.pool.idle, process);
    }
    if s.tasks.contains_key(u) && has_this(s.tasks[u], process) && t != u {
        lemma_number_removed(s.tasks, t, holders_of(process));
        lemma_number_at_least_one(s.tasks.remove(t), u, holders_of(process));
    }
}

/// What is among others occurs.
proof fn lemma_occurs<P>(processes: Seq<P>, process: P)
    requires
        processes.contains(process),
    ensures
        occurrences(processes, process) >= 1,
    decreases processes.len(),
{
    let i = choose|i: int| 0 <= i < processes.len() && processes[i] == process;
    if i < processes.len() - 1 {
        assert(processes.drop_last()[i] == process);
        lemma_occurs(processes.drop_last(), process);
    }
}

/// Nobody waits while a place is free; and as long as somebody waits, some task has a place
/// and will give it up.
pub proof fn law_nobody_waits_in_vain<P, E>(s: Tenancy<P, E>, t: int)
    requires
        s.inv(),
        s.tasks.contains_key(t),
        is_waiting(s.tasks[t]),
    ensures
        s.pool.taken == s.pool.max_size,
        exists|u: int| #[trigger] s.tasks.contains_key(u) && has_place(s.tasks[u]),
{
    assert(s.pool.waiting.contains(t));
    let those = s.tasks.dom().filter(|u: int| places()(s.tasks[u]));
    s.tasks.dom().lemma_len_filter(|u: int| places()(s.tasks[u]));
    vstd::set::axiom_set_choose_len(those);
    let u = those.choose();
    assert(s.tasks.contains_key(u) && has_place(s.tasks[u]));
}

/// When a process is given back while tasks wait, the one that has waited longest has a place
/// at once.
pub proof fn law_a_return_serves_the_longest_wait<P, E>(
    s: Tenancy<P, E>,
    next: Tenancy<P, E>,
    t: int,
    process: P,
    i: int,
)
    requires
        s.inv(),
        s.tasks.contains_key(t),
        s.tasks[t] == Task::<P, E>::Acquiring(Acquire::Done(Ok(process))),
        s.acquires(next, t, Acquire::Done(Ok(process))),
        0 <= i < s.pool.waiting.len(),
        s.tasks.contains_key(s.pool.waiting[i]),
        forall|j: int| 0 <= j < i ==> !s.tasks.contains_key(#[trigger] s.pool.waiting[j]),
    ensures
        next.tasks[s.pool.waiting[i]] == Task::<P, E>::Acquiring(Acquire::Inspect),
        next.pool.idle == s.pool.idle.push(process),
{
    let queue = s.pool.waiting;
    let mid = s.moved(s.pool.returned(process), t, Task::Through);
    let deaf = lemma_heir(mid, next);
    if deaf < i {
        assert(!s.tasks.contains_key(queue[deaf as int]));
        assert(queue[deaf as int] != t);
    }
    if deaf > i {
        assert(!mid.tasks.contains_key(queue[i]));
    }
}

/// Whether task `a` is in the queue and task `b` is behind it: `b` has no place, and is not
/// in the queue before `a`.
pub open spec fn is_behind<P, E>(s: Tenancy<P, E>, a: int, b: int) -> bool {
    &&& a != b
    &&& s.tasks.contains_key(b) ==> !has_place(s.tasks[b])
    &&& exists|i: int|
        {
            &&& 0 <= i < s.pool.waiting.len()
            &&& #[trigger] s.pool.waiting[i] == a
            &&& forall|j: int| 0 <= j < i ==> #[trigger] s.pool.waiting[j] != b
        }
}

/// Handing over a place overtakes nobody.
proof fn lemma_hands_over_in_order<P, E>(s: Tenancy<P, E>, next: Tenancy<P, E>, a: int, b: int)
    requires
        s.queue_fits(),
        s.hands_over(next),
        is_behind(s, a, b),
    ensures
        is_behind(next, a, b) || !next.pool.waiting.contains(a),
{
    let queue = s.pool.waiting;
    let rest = next.pool.waiting;
    let deaf = lemma_heir(s, next);
    let i = choose|i: int|
        {
            &&& 0 <= i < queue.len()
            &&& #[trigger] queue[i] == a
            &&& forall|j: int| 0 <= j < i ==> #[trigger] queue[j] != b
        };
    if i <= deaf {
        if rest.contains(a) {
            let k = choose|k: int| 0 <= k < rest.len() && rest[k] == a;
            assert(deaf < queue.len());
            assert(queue[k + deaf + 1] == a);
        }
    } else {
        assert(queue[deaf as int] != b);
        let k = i - deaf - 1;
        assert(rest[k] == a);
        assert forall|j: int| 0 <= j < k implies #[trigger] rest[j] != b by {
            assert(rest[j] == queue[j + deaf + 1]);
        }
        assert(is_behind(next, a, b));
    }
}

/// Nobody is overtaken in one step: whoever is behind a task in the queue, be it later in the
/// queue, or not yet in it, or not even there, stays behind it as long as that task waits.
pub proof fn law_nobody_is_overtaken<P, E>(
    s: Tenancy<P, E>,
    next: Tenancy<P, E>,
    t: int,
    a: int,
    b: int,
)
    requires
        s.inv(),
        s.step(next, t),
        is_behind(s, a, b),
    ensures
        is_behind(next, a, b) || !next.pool.waiting.contains(a),
{
    let queue = s.pool.waiting;
    let i = choose|i: int|
        {
            &&& 0 <= i < queue.len()
            &&& #[trigger] queue[i] == a
            &&& forall|j: int| 0 <= j < i ==> #[trigger] queue[j] != b
        };
    if s.begins(next, t) {
        assert(next.pool.waiting[i] == a);
    } else if s.gives_up(next, t) {
        let without = Tenancy { tasks: s.tasks.remove(t), ..s };
        lemma_queue_fits_removed(s, without, t);
        assert(without.pool.waiting[i] == a);
        if s.tasks[t] == Task::<P, E>::Acquiring(Acquire::Inspect) {
            lemma_hands_over_in_order(without, next, a, b);
        }
    } else {
        match s.tasks[t] {
            Task::Acquiring(Acquire::Join) => {
                assert(next.pool.waiting[i] == a);
                assert forall|j: int| 0 <= j < i implies #[trigger] next.pool.waiting[j] != b by {
                    assert(queue[j] != b);
                }
            },
            Task::Acquiring(Acquire::Leave(error)) => {
                let over: Task<P, E> = Task::Acquiring(Acquire::Done(Err(error)));
                let mid = s.moved(s.pool, t, over);
                lemma_queue_fits_moved(s, mid, t, over);
                assert(mid.pool.waiting[i] == a);
                lemma_hands_over_in_order(mid, next, a, b);
            },
            Task::Acquiring(Acquire::Done(Ok(process))) => {
                let mid = s.moved(s.pool.returned(process), t, Task::Through);
                lemma_queue_fits_moved(s, mid, t, Task::Through);
                assert(mid.pool.waiting[i] == a);
                lemma_hands_over_in_order(mid, next, a, b);
            },
            _ => {
                assert(next.pool.waiting == queue);
                assert(next.pool.waiting[i] == a);
            },
        }
    }
}

/// Tasks that wait are served in the order in which they queued, and nobody who comes later
/// is served before them: from the moment at which a task is behind another, it has no place,
/// and so no process, as long as the other has waited without a break.
pub proof fn law_served_in_order<P, E>(
    moments: Seq<Tenancy<P, E>>,
    doers: Seq<int>,
    from: int,
    to: int,
    a: int,
    b: int,
)
    requires
        is_run(moments, doers),
        0 <= from <= to < moments.len(),
        is_behind(moments[from], a, b),
        forall|k: int| from <= k <= to ==> (#[trigger] moments[k]).pool.waiting.contains(a),
    ensures
        is_behind(moments[to], a, b),
        moments[to].tasks.contains_key(b) ==> !has_place(moments[to].tasks[b])
            && !has_process(moments[to].tasks[b]),
    decreases to - from,
{
    if from < to {
        law_served_in_order(moments, doers, from, to - 1, a, b);
        law_every_moment(moments, doers, to - 1);
        assert(moments[to - 1].step(moments[to - 1 + 1], doers[to - 1]));
        law_nobody_is_overtaken(moments[to - 1], moments[to], doers[to - 1], a, b);
        assert(moments[to].pool.waiting.contains(a));
    }
}

/// Once every task is through, every place is free again and every process is back.
pub proof fn law_places_come_back<P, E>(s: Tenancy<P, E>)
    requires
        s.inv(),
        forall|t: int| s.tasks.contains_key(t) ==> !has_place(#[trigger] s.tasks[t]),
    ensures
        s.pool.taken == 0,
        s.pool.lent == 0,
        s.pool.waiting.len() == 0,
{
    assert(s.tasks.dom().filter(|t: int| places()(s.tasks[t])) =~= Set::empty());
}

/// Whether nothing is left to do for a task.
pub open spec fn is_over<P, E>(task: Task<P, E>) -> bool {
    match task {
        Task::Acquiring(Acquire::Done(Err(_))) => true,
        Task::Counting(Counting::Done(_)) => true,
        Task::Through => true,
        _ => false,
    }
}

/// The first task of the queue, from `i` on, that was not given up.
spec fn first_present<P, E>(tasks: Map<int, Task<P, E>>, queue: Seq<int>, i: int) -> int
    decreases queue.len() - i,
{
    if i >= queue.len() {
        queue.len() as int
    } else if tasks.contains_key(queue[i]) {
        i
    } else {
        first_present(tasks, queue, i + 1)
    }
}

/// Those before the first that was not given up were given up.
proof fn lemma_first_present<P, E>(tasks: Map<int, Task<P, E>>, queue: Seq<int>, i: int)
    requires
        0 <= i <= queue.len(),
    ensures
        ({
            let first = first_present(tasks, queue, i);
            &&& i <= first <= queue.len()
            &&& forall|j: int| i <= j < first ==> !tasks.contains_key(#[trigger] queue[j])
            &&& first < queue.len() ==> tasks.contains_key(queue[first])
        }),
    decreases queue.len() - i,
{
    if i < queue.len() && !tasks.contains_key(queue[i]) {
        lemma_first_present(tasks, queue, i + 1);
    }
}

/// A place can always be handed over.
proof fn lemma_can_hand_over<P, E>(s: Tenancy<P, E>) -> (next: Tenancy<P, E>)
    ensures
        s.hands_over(next),
{
    let queue = s.pool.waiting;
    lemma_first_present(s.tasks, queue, 0);
    let first = first_present(s.tasks, queue, 0);
    let answers = Seq::new(
        if first < queue.len() {
            (first + 1) as nat
        } else {
            first as nat
        },
        |i: int| (queue[i], i == first),
    );
    let next = Tenancy {
        pool: s.pool.left(deaf_in(answers)),
        lock: s.lock,
        tasks: if is_heard(answers) {
            s.tasks.insert(answers.last().0, Task::Acquiring(Acquire::spec_turned(true)))
        } else {
            s.tasks
        },
    };
    assert(s.hands_over_with(next, answers));
    next
}

/// A task that has the lock, or finds it free and does not wait, can go on.
proof fn lemma_can_go_on<P, E>(s: Tenancy<P, E>, t: int) -> (next: Tenancy<P, E>)
    requires
        s.inv(),
        s.tasks.contains_key(t),
        !is_over(s.tasks[t]),
        !is_waiting(s.tasks[t]),
        s.lock is None || s.lock == Some(t),
    ensures
        s.goes_on(next, t),
        !s.finds_dead(next, t),
{
    let failure = Err::<P, E>(arbitrary());
    let marks = Seq::<bool>::empty();
    match s.tasks[t] {
        Task::Acquiring(Acquire::Join) => s.moved(
            s.pool.joined(t),
            t,
            Task::Acquiring(
                if s.pool.taken < s.pool.max_size {
                    Acquire::Inspect
                } else {
                    Acquire::AwaitTurn
                },
            ),
        ),
        Task::Acquiring(Acquire::Inspect) => {
            let (pool, task) = s.pool.kept(marks).seek::<E>();
            s.moved(pool, t, Task::Acquiring(task))
        },
        Task::Acquiring(Acquire::Spawn) => {
            let (pool, task) = s.pool.supplied(failure);
            s.moved(pool, t, Task::Acquiring(task))
        },
        Task::Acquiring(Acquire::Verify(process)) => s.moved(
            s.pool,
            t,
            Task::Acquiring(Acquire::Done(Ok(process))),
        ),
        Task::Acquiring(Acquire::Leave(error)) => lemma_can_hand_over(
            s.moved(s.pool, t, Task::Acquiring(Acquire::Done(Err(error)))),
        ),
        Task::Acquiring(Acquire::Done(Ok(process))) => lemma_can_hand_over(
            s.moved(s.pool.returned(process), t, Task::Through),
        ),
        Task::Counting(Counting::Inspect) => {
            let pool = s.pool.kept(marks);
            s.moved(pool, t, Task::Counting(pool.tally()))
        },
        Task::Counting(Counting::Spawn) => {
            let (pool, task) = s.pool.counted(failure);
            s.moved(pool, t, Task::Counting(task))
        },
        _ => s,
    }
}

/// A pool is never stuck: as long as a task is not over, some task can go on, and need not find
/// the process that it took dead.
pub proof fn law_never_stuck<P, E>(s: Tenancy<P, E>, t: int)
    requires
        s.inv(),
        s.tasks.contains_key(t),
        !is_over(s.tasks[t]),
    ensures
        exists|next: Tenancy<P, E>, u: int| #[trigger]
            s.goes_on(next, u) && !s.finds_dead(next, u),
{
    if let Some(u) = s.lock {
        let next = lemma_can_go_on(s, u);
    } else if is_waiting(s.tasks[t]) {
        law_nobody_waits_in_vain(s, t);
        let u = choose|u: int| #[trigger] s.tasks.contains_key(u) && has_place(s.tasks[u]);
        let next = lemma_can_go_on(s, u);
    } else {
        let next = lemma_can_go_on(s, t);
    }
}

/// How far a task is from its end.
pub open spec fn distance<P, E>(task: Task<P, E>) -> nat {
    match task {
        Task::Acquiring(Acquire::Join) => 7,
        Task::Acquiring(Acquire::AwaitTurn) => 6,
        Task::Acquiring(Acquire::Inspect) => 5,
        Task::Acquiring(Acquire::Spawn) => 4,
        Task::Acquiring(Acquire::Verify(_)) => 3,
        Task::Acquiring(Acquire::Leave(_)) => 2,
        Task::Acquiring(Acquire::Done(Ok(_))) => 1,
        Task::Counting(Counting::Inspect) => 2,
        Task::Counting(Counting::Spawn) => 1,
        _ => 0,
    }
}

/// The tasks that are at least so far from their ends.
pub open spec fn farther<P, E>(far: nat) -> spec_fn(Task<P, E>) -> bool {
    |task: Task<P, E>| distance(task) >= far
}

/// The distances of all tasks together, each counted up to `far`.
pub open spec fn distances<P, E>(tasks: Map<int, Task<P, E>>, far: nat) -> nat
    decreases far,
{
    if far == 0 {
        0
    } else {
        number_of(tasks, farther(far)) + distances(tasks, (far - 1) as nat)
    }
}

impl<P, E> Tenancy<P, E> {
    /// A bound on the work that is left: looking at the idle processes can show that all have to
    /// be started anew, so a step nearer to an end weighs more than the pool's limit.
    pub open spec fn work(self) -> int {
        distances(self.tasks, 7) * (self.pool.max_size + 1) + (self.pool.max_size
            - self.pool.total())
    }
}

/// The smaller of two numbers.
spec fn least(a: nat, b: nat) -> nat {
    if a <= b {
        a
    } else {
        b
    }
}

/// When one task moves, the distances change by its own.
proof fn lemma_distances_moved<P, E>(
    tasks: Map<int, Task<P, E>>,
    t: int,
    task: Task<P, E>,
    far: nat,
)
    requires
        tasks.dom().finite(),
        tasks.contains_key(t),
    ensures
        distances(tasks.insert(t, task), far) == distances(tasks, far) - least(
            distance(tasks[t]),
            far,
        ) + least(distance(task), far),
    decreases far,
{
    if far > 0 {
        lemma_number_moved(tasks, t, task, farther(far));
        lemma_distances_moved(tasks, t, task, (far - 1) as nat);
    }
}

/// When one task is given up, the distances lose its own.
proof fn lemma_distances_removed<P, E>(tasks: Map<int, Task<P, E>>, t: int, far: nat)
    requires
        tasks.dom().finite(),
        tasks.contains_key(t),
    ensures
        distances(tasks.remove(t), far) == distances(tasks, far) - least(distance(tasks[t]), far),
    decreases far,
{
    if far > 0 {
        lemma_number_removed(tasks, t, farther(far));
        lemma_distances_removed(tasks, t, (far - 1) as nat);
    }
}

/// Handing over a place brings nobody farther from an end.
proof fn lemma_hands_over_distances<P, E>(s: Tenancy<P, E>, next: Tenancy<P, E>)
    requires
        s.tasks.dom().finite(),
        s.queue_fits(),
        s.hands_over(next),
    ensures
        distances(next.tasks, 7) <= distances(s.tasks, 7),
        next.pool.max_size == s.pool.max_size,
        next.pool.total() == s.pool.total(),
{
    let deaf = lemma_heir(s, next);
    if deaf < s.pool.waiting.len() {
        let heir = s.pool.waiting[deaf as int];
        lemma_distances_moved(s.tasks, heir, Task::Acquiring(Acquire::Inspect), 7);
    }
}

/// What a change of the distances makes of the work.
proof fn lemma_work<P, E>(s: Tenancy<P, E>, next: Tenancy<P, E>, by: int)
    requires
        next.pool.max_size == s.pool.max_size,
        distances(next.tasks, 7) <= distances(s.tasks, 7) + by,
    ensures
        next.work() <= s.work() + by * (s.pool.max_size + 1) + s.pool.total() - next.pool.total(),
{
    let before = distances(s.tasks, 7) as int;
    let after = distances(next.tasks, 7) as int;
    let weight = s.pool.max_size + 1;
    assert(after * weight <= before * weight + by * weight) by (nonlinear_arith)
        requires
            after <= before + by,
            weight >= 0,
    ;
}

/// One step leaves less work, except that of a task that finds dead the process that it took:
/// that task has to look again.
pub proof fn law_work_gets_less<P, E>(s: Tenancy<P, E>, next: Tenancy<P, E>, t: int)
    requires
        s.inv(),
        s.goes_on(next, t) || s.gives_up(next, t),
    ensures
        0 <= next.work(),
        if s.finds_dead(next, t) {
            next.work() < s.work() + 2 * s.pool.max_size + 4
        } else {
            next.work() < s.work()
        },
{
    law_step(s, next, t);
    assert(distances(next.tasks, 7) * (next.pool.max_size + 1) >= 0) by (nonlinear_arith);
    if s.gives_up(next, t) {
        let without = Tenancy { tasks: s.tasks.remove(t), ..s };
        lemma_distances_removed(s.tasks, t, 7);
        if s.tasks[t] == Task::<P, E>::Acquiring(Acquire::Inspect) {
            lemma_queue_fits_removed(s, without, t);
            lemma_hands_over_distances(without, next);
        }
        lemma_work(s, next, -1);
    } else {
        match s.tasks[t] {
            Task::Acquiring(Acquire::Leave(error)) => {
                let over: Task<P, E> = Task::Acquiring(Acquire::Done(Err(error)));
                let mid = s.moved(s.pool, t, over);
                lemma_queue_fits_moved(s, mid, t, over);
                lemma_distances_moved(s.tasks, t, over, 7);
                lemma_hands_over_distances(mid, next);
                lemma_work(s, next, -2);
            },
            Task::Acquiring(Acquire::Done(Ok(process))) => {
                let through: Task<P, E> = Task::Through;
                let mid = s.moved(s.pool.returned(process), t, through);
                lemma_queue_fits_moved(s, mid, t, through);
                lemma_distances_moved(s.tasks, t, through, 7);
                lemma_hands_over_distances(mid, next);
                lemma_number_at_least_one(s.tasks, t, holders());
                lemma_work(s, next, -1);
            },
            _ => {
                let task = next.tasks[t];
                assert(next.tasks =~= s.tasks.insert(t, task));
                lemma_distances_moved(s.tasks, t, task, 7);
                let by = distance(task) - distance(s.tasks[t]);
                let weight = s.pool.max_size + 1;
                lemma_work(s, next, by);
                assert({
                    &&& by < 0 ==> by * weight <= -weight
                    &&& by == 0 ==> by * weight == 0
                    &&& by == 2 ==> by * weight == 2 * weight
                }) by (nonlinear_arith)
                    requires
                        weight >= 0,
                ;
            },
        }
    }
}

/// How many times in a run a task finds dead the process that it took.
pub open spec fn deaths<P, E>(moments: Seq<Tenancy<P, E>>, doers: Seq<int>) -> nat
    decreases doers.len(),
{
    if doers.len() == 0 {
        0
    } else {
        let last = doers.len() - 1;
        deaths(moments.drop_last(), doers.drop_last()) + one_if(
            moments[last].finds_dead(moments[last + 1], doers[last]),
        )
    }
}

/// However many tasks contend for a pool, all get through: those that are there can do only so
/// many steps, and more only as processes that they took turn out dead; and as long as one of
/// them is not over, a further step can be done.
pub proof fn law_everybody_gets_through<P, E>(moments: Seq<Tenancy<P, E>>, doers: Seq<int>)
    requires
        moments.len() == doers.len() + 1,
        moments[0].inv(),
        forall|i: int|
            0 <= i < doers.len() ==> (#[trigger] moments[i].goes_on(moments[i + 1], doers[i]))
                || moments[i].gives_up(moments[i + 1], doers[i]),
    ensures
        doers.len() <= moments[0].work() + deaths(moments, doers) * (2 * moments[0].pool.max_size
            + 4),
        forall|t: int| #[trigger]
            moments.last().tasks.contains_key(t) && !is_over(moments.last().tasks[t]) ==> exists|
                next: Tenancy<P, E>,
                u: int,
            | #[trigger]
                moments.last().goes_on(next, u) && !moments.last().finds_dead(next, u),
{
    lemma_steps_are_work(moments, doers);
    let end = moments.last();
    assert forall|t: int| #[trigger]
        end.tasks.contains_key(t) && !is_over(end.tasks[t]) implies exists|
        next: Tenancy<P, E>,
        u: int,
    | #[trigger] end.goes_on(next, u) && !end.finds_dead(next, u) by {
        law_never_stuck(end, t);
    }
}

/// The steps of a run and the work that is left after it were work at its beginning, or come
/// of processes that turned out dead.
proof fn lemma_steps_are_work<P, E>(moments: Seq<Tenancy<P, E>>, doers: Seq<int>)
    requires
        moments.len() == doers.len() + 1,
        moments[0].inv(),
        forall|i: int|
            0 <= i < doers.len() ==> (#[trigger] moments[i].goes_on(moments[i + 1], doers[i]))
                || moments[i].gives_up(moments[i + 1], doers[i]),
    ensures
        moments.last().inv(),
        moments.last().pool.max_size == moments[0].pool.max_size,
        0 <= moments.last().work(),
        moments.last().work() + doers.len() <= moments[0].work() + deaths(moments, doers) * (2
            * moments[0].pool.max_size + 4),
    decreases doers.len(),
{
    let weight = 2 * moments[0].pool.max_size + 4;
    if doers.len() == 0 {
        let s = moments[0];
        assert(distances(s.tasks, 7) * (s.pool.max_size + 1) >= 0) by (nonlinear_arith);
    } else {
        let last = doers.len() - 1;
        let earlier = moments.drop_last();
        let fewer = doers.drop_last();
        assert forall|i: int| 0 <= i < fewer.len() implies (#[trigger] earlier[i].goes_on(
            earlier[i + 1],
            fewer[i],
        )) || earlier[i].gives_up(earlier[i + 1], fewer[i]) by {
            let _ = moments[i].goes_on(moments[i + 1], doers[i]);
        }
        lemma_steps_are_work(earlier, fewer);
        let s = moments[last];
        let next = moments[last + 1];
        let t = doers[last];
        assert(s.goes_on(next, t) || s.gives_up(next, t));
        law_step(s, next, t);
        law_work_gets_less(s, next, t);
        let before = deaths(earlier, fewer) as int;
        assert((before + 1) * weight == before * weight + weight) by (nonlinear_arith);
    }
}

} // verus!
