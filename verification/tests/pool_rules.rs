//! The rules of a pool, with numbers for processes.

use subterm::channel::{Told, Waiter};
use subterm::pool::{Acquire, Counting, Opening};
use subterm::{PooledProcess, SubprocessPool};
use tokio::sync::oneshot;
use tokio::sync::oneshot::error::TryRecvError;

type Pool = SubprocessPool<u64, Waiter>;
type Step = Acquire<u64, String>;

fn start(max_size: usize, outcomes: Vec<Result<u64, String>>) -> (Result<Pool, String>, usize) {
    let mut used = 0;
    let mut at = Pool::new(max_size);
    loop {
        at = match at {
            Opening::Spawn(pool) => {
                used += 1;
                pool.opened(outcomes[used - 1].clone())
            }
            Opening::Done(outcome) => return (outcome, used),
        }
    }
}

fn open(max_size: usize) -> Pool {
    let outcomes = (1..=max_size as u64).map(Ok).collect();
    start(max_size, outcomes).0.ok().unwrap()
}

fn idle(pool: &Pool) -> Vec<u64> {
    pool.idle.iter().copied().collect()
}

fn join(pool: &mut Pool) -> (Step, oneshot::Receiver<()>) {
    let (tx, rx) = oneshot::channel();
    (pool.acquire(tx), rx)
}

/// A loan of the process that has been idle longest.
fn borrow(pool: &mut Pool) -> u64 {
    let (at, _) = join(pool);
    assert_eq!(at, Acquire::Inspect);
    let marks = vec![true; pool.idle.len()];
    let at: Step = pool.inspected(&marks);
    match at {
        Acquire::Verify(p) => {
            let done: Step = pool.verified(p, true);
            assert_eq!(done, Acquire::Done(Ok(p)));
            p
        }
        _ => unreachable!(),
    }
}

fn no(n: u64) -> Result<u64, String> {
    Err(format!("no process {}", n))
}

fn heard(receipts: &[Told]) -> Vec<bool> {
    receipts.iter().map(|told| told.heard()).collect()
}

#[test]
fn a_pool_opens_full() {
    let (pool, used) = start(3, vec![Ok(1), Ok(2), Ok(3), Ok(4)]);
    let pool = pool.ok().unwrap();
    assert_eq!(used, 3);
    assert_eq!(pool.max_size, 3);
    assert_eq!((pool.taken, pool.lent), (0, 0));
    assert_eq!(idle(&pool), vec![1, 2, 3]);
}

#[test]
fn a_pool_that_cannot_be_filled_does_not_open() {
    let (pool, used) = start(3, vec![Ok(1), no(2), Ok(3)]);
    assert_eq!(pool.err(), Some(String::from("no process 2")));
    assert_eq!(used, 2);
}

#[test]
fn places_run_out_and_the_next_task_waits() {
    let mut pool = open(2);
    assert_eq!(join(&mut pool).0, Acquire::Inspect);
    assert_eq!(join(&mut pool).0, Acquire::Inspect);
    let (at, mut turn) = join(&mut pool);
    assert_eq!(at, Acquire::AwaitTurn);
    assert_eq!((pool.taken, pool.waiting.len()), (2, 1));
    assert_eq!(turn.try_recv(), Err(TryRecvError::Empty));

    // A place that is given up passes to the task that waits.
    assert_eq!(heard(&pool.leave()), vec![true]);
    assert_eq!(turn.try_recv(), Ok(()));
    assert_eq!((pool.taken, pool.waiting.len()), (2, 0));
    assert_eq!(heard(&pool.leave()), Vec::<bool>::new());
    assert_eq!(pool.taken, 1);
    assert_eq!(heard(&pool.leave()), Vec::<bool>::new());
    assert_eq!(pool.taken, 0);
}

#[test]
fn being_told_is_having_a_place() {
    assert_eq!(Step::turned(true), Acquire::Inspect);
    assert_eq!(Step::turned(false), Acquire::Join);
}

#[test]
fn the_longest_wait_ends_first_and_those_who_left_are_passed_over() {
    let mut pool = open(1);
    let p = borrow(&mut pool);
    let (_, turn1) = join(&mut pool);
    let (_, mut turn2) = join(&mut pool);
    let (_, mut turn3) = join(&mut pool);
    drop(turn1);
    assert_eq!(heard(&pool.give_back(p)), vec![false, true]);
    assert_eq!(turn2.try_recv(), Ok(()));
    assert_eq!(turn3.try_recv(), Err(TryRecvError::Empty));
    assert_eq!((pool.taken, pool.lent, pool.waiting.len()), (1, 0, 1));
    assert_eq!(idle(&pool), vec![1]);

    drop(turn3);
    assert_eq!(heard(&pool.leave()), vec![false]);
    assert_eq!((pool.taken, pool.waiting.len()), (0, 0));
}

#[test]
fn a_place_is_handed_over_step_by_step() {
    let mut pool: SubprocessPool<u64, u8> = SubprocessPool {
        max_size: 1,
        taken: 1,
        lent: 0,
        idle: vec![1].into(),
        waiting: vec![7, 8].into(),
    };
    assert_eq!(pool.vacate(), Some(7));
    assert_eq!(pool.told(false), Some(8));
    assert_eq!(pool.taken, 1);
    assert_eq!(pool.told(true), None);
    assert_eq!(pool.taken, 1);
    assert_eq!(pool.told(false), None);
    assert_eq!(pool.taken, 0);
}

#[test]
fn the_living_stay_in_order() {
    let mut pool = open(4);
    pool.retain_alive(&[true, false, true, true]);
    assert_eq!(idle(&pool), vec![1, 3, 4]);
    pool.retain_alive(&[true, true, true]);
    assert_eq!(idle(&pool), vec![1, 3, 4]);
    pool.retain_alive(&[false, true]);
    assert_eq!(idle(&pool), vec![3]);
    pool.retain_alive(&[]);
    assert_eq!(idle(&pool), vec![]);
}

#[test]
fn the_one_idle_longest_is_taken_and_the_dead_are_replaced() {
    let mut pool = open(3);
    join(&mut pool);
    let at: Step = pool.inspected(&[false, true, true]);
    assert_eq!(at, Acquire::Spawn);
    let at: Step = pool.supplied(Ok(4));
    assert_eq!(at, Acquire::Verify(2));
    assert_eq!(idle(&pool), vec![3, 4]);
    assert_eq!((pool.taken, pool.lent), (1, 1));

    join(&mut pool);
    let at: Step = pool.inspected(&[false, false]);
    assert_eq!(at, Acquire::Spawn);
    let at: Step = pool.supplied(Ok(5));
    assert_eq!(at, Acquire::Spawn);
    let at: Step = pool.supplied(Ok(6));
    assert_eq!(at, Acquire::Verify(5));
    assert_eq!(idle(&pool), vec![6]);
}

#[test]
fn a_dead_process_is_dropped_and_the_place_kept() {
    let mut pool = open(1);
    join(&mut pool);
    let at: Step = pool.inspected(&[true]);
    assert_eq!(at, Acquire::Verify(1));
    let at: Step = pool.verified(1, false);
    assert_eq!(at, Acquire::Inspect);
    assert_eq!((pool.taken, pool.lent), (1, 0));
    let at: Step = pool.inspected(&[]);
    assert_eq!(at, Acquire::Spawn);
    let at: Step = pool.supplied(Ok(2));
    assert_eq!(at, Acquire::Verify(2));
    let at: Step = pool.verified(2, true);
    assert_eq!(at, Acquire::Done(Ok(2)));
}

#[test]
fn a_failed_start_keeps_what_was_started_and_gives_up_the_place() {
    let mut pool = open(3);
    join(&mut pool);
    let at: Step = pool.inspected(&[false, false, true]);
    assert_eq!(at, Acquire::Spawn);
    let at: Step = pool.supplied(Ok(4));
    assert_eq!(at, Acquire::Spawn);
    let at: Step = pool.supplied(no(5));
    assert_eq!(at, Acquire::Leave(String::from("no process 5")));
    assert_eq!(idle(&pool), vec![3, 4]);
    let (at, told): (Step, Vec<Told>) = pool.failed(String::from("no process 5"));
    assert_eq!(at, Acquire::Done(Err(String::from("no process 5"))));
    assert_eq!(heard(&told), Vec::<bool>::new());
    assert_eq!((pool.taken, pool.lent), (0, 0));
}

#[test]
fn a_failed_start_lets_the_next_task_try() {
    let mut pool = open(1);
    join(&mut pool);
    let (_, gone) = join(&mut pool);
    let (_, mut turn) = join(&mut pool);
    drop(gone);
    let at: Step = pool.inspected(&[false]);
    assert_eq!(at, Acquire::Spawn);
    let at: Step = pool.supplied(no(2));
    assert_eq!(at, Acquire::Leave(String::from("no process 2")));
    let (at, told): (Step, Vec<Told>) = pool.failed(String::from("no process 2"));
    assert_eq!(at, Acquire::Done(Err(String::from("no process 2"))));
    assert_eq!(heard(&told), vec![false, true]);
    assert_eq!(turn.try_recv(), Ok(()));
    assert_eq!((pool.taken, pool.lent, pool.waiting.len()), (1, 0, 0));
    let at: Step = pool.inspected(&[]);
    assert_eq!(at, Acquire::Spawn);
    let at: Step = pool.supplied(Ok(3));
    assert_eq!(at, Acquire::Verify(3));
}

#[test]
fn a_task_takes_the_first_that_lives_and_else_the_first_that_is_started() {
    let mut pool = open(3);
    join(&mut pool);
    let at: Step = pool.inspected(&[false, true, false]);
    assert_eq!(at, Acquire::Spawn);
    let at: Step = pool.supplied(Ok(4));
    assert_eq!(at, Acquire::Spawn);
    let at: Step = pool.supplied(Ok(5));
    assert_eq!(at, Acquire::Verify(2));
    assert_eq!(idle(&pool), vec![4, 5]);

    join(&mut pool);
    let at: Step = pool.inspected(&[false, false]);
    assert_eq!(at, Acquire::Spawn);
    let at: Step = pool.supplied(Ok(6));
    assert_eq!(at, Acquire::Spawn);
    let at: Step = pool.supplied(Ok(7));
    assert_eq!(at, Acquire::Verify(6));
    assert_eq!(idle(&pool), vec![7]);
}

#[test]
fn an_abandoned_attempt_owes_a_place_once_it_has_one() {
    assert!(!Step::Join.owes_place(true));
    assert!(!Step::AwaitTurn.owes_place(false));
    assert!(Step::AwaitTurn.owes_place(true));
    assert!(Step::Inspect.owes_place(false));
    assert!(Step::Spawn.owes_place(false));
    assert!(Step::Leave(String::new()).owes_place(false));
    assert!(!Step::Verify(1).owes_place(false));
    assert!(!Step::Done(Ok(1)).owes_place(false));
    assert!(!Step::Done(no(1)).owes_place(false));
}

#[test]
fn a_count_starts_what_lacks_and_counts_loans() {
    let mut pool = open(3);
    let p = borrow(&mut pool);
    assert_eq!(pool.count(), Counting::Inspect);
    assert_eq!(pool.inspected_for_count(&[true, true]), Counting::Done(3));
    assert_eq!(pool.inspected_for_count(&[false, true]), Counting::Spawn);
    assert_eq!(pool.supplied_for_count::<String>(Ok(9)), Counting::Done(3));
    assert_eq!(pool.inspected_for_count(&[true, true]), Counting::Done(3));
    assert_eq!(idle(&pool), vec![3, 9]);
    assert_eq!((pool.taken, pool.lent), (1, 1));

    assert_eq!(pool.inspected_for_count(&[false, false]), Counting::Spawn);
    assert_eq!(pool.supplied_for_count::<String>(Ok(10)), Counting::Spawn);
    assert_eq!(pool.supplied_for_count(no(11)), Counting::Done(2));
    assert_eq!(idle(&pool), vec![10]);
    pool.give_back(p);
    assert_eq!(idle(&pool), vec![10, 1]);
    assert_eq!((pool.taken, pool.lent), (0, 0));
}

#[test]
fn a_process_is_taken_out_of_a_loan_once() {
    let mut on_loan = PooledProcess::new(6u64);
    assert_eq!(on_loan.release(), Some(6));
    assert_eq!(on_loan.release(), None);
    assert_eq!(on_loan.process, None);
}

/// Four tasks on a pool of two, each doing one piece of work at a time: never more than two
/// processes, none in two places, tasks served in the order in which they queued, and in the
/// end every place is free.
#[test]
fn tasks_in_any_order_keep_the_limits() {
    for seed in 0..40u64 {
        let mut fresh = 2;
        let mut pool = open(2);
        let mut at: Vec<Step> = (0..4).map(|_| Acquire::Join).collect();
        let mut turns: Vec<Option<oneshot::Receiver<()>>> = (0..4).map(|_| None).collect();
        let mut loans: Vec<Option<PooledProcess<u64>>> = (0..4).map(|_| None).collect();
        let mut had: Vec<u64> = vec![0; 4];
        let mut queue: Vec<usize> = Vec::new();
        let mut random = seed * 7919 + 1;
        for _ in 0..8000 {
            random = random
                .wrapping_mul(6364136223846793005)
                .wrapping_add(1442695040888963407);
            let t = (random >> 33) as usize % 4;
            let coin = (random >> 40) % 4 == 0;
            if let Some(mut loan) = loans[t].take() {
                let p = loan.release().unwrap();
                let before = pool.taken;
                pool.give_back(p);
                if queue.is_empty() {
                    assert_eq!(pool.taken, before - 1);
                } else {
                    assert_eq!(pool.taken, before);
                    let first = queue.remove(0);
                    assert_eq!(turns[first].as_mut().unwrap().try_recv(), Ok(()));
                    at[first] = Acquire::turned(true);
                }
                continue;
            }
            if had[t] == 20 {
                continue;
            }
            let now = std::mem::replace(&mut at[t], Acquire::Join);
            at[t] = match now {
                Acquire::Join => {
                    let (next, turn) = join(&mut pool);
                    turns[t] = Some(turn);
                    if next == Acquire::AwaitTurn {
                        queue.push(t);
                    } else {
                        assert!(queue.is_empty());
                    }
                    next
                }
                Acquire::AwaitTurn => Acquire::AwaitTurn,
                Acquire::Inspect => {
                    let marks: Vec<bool> = pool.idle.iter().map(|p| p % 5 != 0).collect();
                    let mut next: Step = pool.inspected(&marks);
                    while next == Acquire::Spawn {
                        fresh += 1;
                        next = pool.supplied(Ok(fresh));
                    }
                    next
                }
                Acquire::Verify(p) => pool.verified(p, !coin),
                Acquire::Done(r) => {
                    had[t] += 1;
                    loans[t] = Some(PooledProcess::new(r.unwrap()));
                    Acquire::Join
                }
                _ => unreachable!(),
            };
            let lent = loans.iter().filter(|l| l.is_some()).count();
            assert!(lent <= pool.lent);
            assert!(pool.lent + pool.idle.len() <= 2);
            assert_eq!(pool.waiting.len(), queue.len());
            let mut all: Vec<u64> = idle(&pool);
            all.extend(loans.iter().flatten().filter_map(|l| l.process));
            let total = all.len();
            all.sort();
            all.dedup();
            assert_eq!(all.len(), total);
        }
        assert_eq!(had, vec![20; 4]);
        for loan in loans.iter_mut() {
            if let Some(mut loan) = loan.take() {
                pool.give_back(loan.release().unwrap());
            }
        }
        assert_eq!((pool.taken, pool.lent, pool.waiting.len()), (0, 0, 0));
    }
}
