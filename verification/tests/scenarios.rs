//! Conversations with an echoing process that lives in memory, and with pools of them.

use std::cell::RefCell;
use std::collections::VecDeque;
use std::rc::Rc;
use subterm::channel::Waiter;
use subterm::error::Error;
use subterm::handler::SubprocessHandler;
use subterm::pool::{Acquire, Counting, Opening};
use subterm::probe::Probing;
use subterm::read::{Reading, ReadingUntil};
use subterm::subprocess::Spawned;
use subterm::write::Writing;
use subterm::{PooledProcess, Subprocess, SubprocessPool};
use tokio::sync::oneshot;

/// Echoes every line with ">>" in front. A few commands make it end; it is gone only after
/// the next moment.
struct Echo {
    alive: bool,
    ending: bool,
    line: Vec<u8>,
    out: VecDeque<u8>,
}

type Shared = Rc<RefCell<Echo>>;

struct Stdin(Shared);

impl Drop for Stdin {
    fn drop(&mut self) {
        self.0.borrow_mut().ending = true;
    }
}

type Process = Subprocess<Shared, Stdin, Shared, ()>;

#[derive(Debug, PartialEq, Eq, Clone, Copy)]
struct Broken;

/// All the processes that were started.
#[derive(Clone)]
struct World(Rc<RefCell<Vec<Shared>>>);

impl World {
    fn new() -> World {
        World(Rc::new(RefCell::new(Vec::new())))
    }

    fn spawn(&self, command: &str) -> Result<Spawned<Shared, Stdin, Shared, ()>, Broken> {
        if command == "\0" {
            return Err(Broken);
        }
        let child = Rc::new(RefCell::new(Echo {
            alive: true,
            ending: command == "false",
            line: Vec::new(),
            out: VecDeque::new(),
        }));
        self.0.borrow_mut().push(child.clone());
        Ok(Spawned {
            child: child.clone(),
            stdin: Some(Stdin(child.clone())),
            stdout: Some(child),
            stderr: None,
        })
    }

    fn start(&self, command: &'static str) -> Result<Process, Error<Broken>> {
        Subprocess::new(|| command, |c: &str| self.spawn(c))
    }

    /// Time passes.
    fn moment(&self) {
        for child in self.0.borrow().iter() {
            let mut child = child.borrow_mut();
            if child.ending {
                child.alive = false;
            }
        }
    }

    fn started(&self) -> usize {
        self.0.borrow().len()
    }
}

fn write_all(child: &Shared, bytes: &[u8]) -> Result<(), Broken> {
    let mut child = child.borrow_mut();
    if !child.alive {
        return Err(Broken);
    }
    for b in bytes {
        child.line.push(*b);
        if *b != b'\n' {
            continue;
        }
        let line = String::from_utf8(std::mem::take(&mut child.line)).unwrap();
        let reply: Vec<u8> = if line == "/io\n" {
            child.ending = true;
            b"IO error incoming\n".to_vec()
        } else if line.starts_with("/exit ") {
            child.ending = true;
            format!("Exiting with code {}\n", line[6..].trim()).into_bytes()
        } else if line == "/invalid-utf8\n" {
            child.ending = true;
            vec![0xFF, 0xFF, 0xFF, 0xFF]
        } else {
            format!(">>{}", line).into_bytes()
        };
        child.out.extend(reply);
    }
    Ok(())
}

fn alive(process: &mut Process) -> bool {
    match process.is_alive() {
        Probing::TryWait => {
            let status: Result<Option<i32>, Broken> = if process.child.borrow().alive {
                Ok(None)
            } else {
                Ok(Some(0))
            };
            Probing::waited(status)
        }
        Probing::Done(alive) => alive,
    }
}

fn drive_write(
    mut process: Option<&mut Process>,
    writing: Writing<Broken>,
) -> Result<(), Error<Broken>> {
    let mut at = writing;
    loop {
        at = match at {
            Writing::Probe(draft) => draft.probed(alive(process.as_mut().unwrap())),
            Writing::Write(draft) => {
                let result = write_all(
                    &process.as_ref().unwrap().stdin.as_ref().unwrap().0,
                    &draft.input,
                );
                draft.wrote(result)
            }
            Writing::Flush(draft) => draft.flushed(Ok(())),
            Writing::Done(outcome) => return outcome,
        }
    }
}

/// Reads up to the delimiter, at most three bytes at a time.
fn drive_read_until(
    world: &World,
    mut process: Option<&mut Process>,
    reading: ReadingUntil<Shared, Broken>,
) -> Result<Vec<u8>, Error<Broken>> {
    let mut at = reading;
    loop {
        at = match at {
            ReadingUntil::Probe(scan) => scan.probed(alive(process.as_mut().unwrap())),
            ReadingUntil::Read(scan) => {
                let mut chunk = Vec::new();
                while chunk.len() < 3 && chunk.last() != Some(&scan.delimiter) {
                    match scan.stdout.borrow_mut().out.pop_front() {
                        Some(b) => chunk.push(b),
                        None => break,
                    }
                }
                if chunk.is_empty() {
                    world.moment();
                }
                scan.received(Ok(chunk))
            }
            ReadingUntil::Rest(scan, _) => scan.rested(),
            ReadingUntil::Done(scan) => return Ok(process.unwrap().finish_read(scan)),
            ReadingUntil::Failed(error) => return Err(error),
        }
    }
}

fn drive_read(
    mut process: Option<&mut Process>,
    reading: Reading<Broken>,
) -> Result<Vec<u8>, Error<Broken>> {
    let mut at = reading;
    loop {
        at = match at {
            Reading::Probe(request) => request.probed(alive(process.as_mut().unwrap())),
            Reading::Read => Reading::finished(Ok(process
                .as_ref()
                .unwrap()
                .stdout_reader
                .as_ref()
                .unwrap()
                .borrow_mut()
                .out
                .drain(..)
                .collect())),
            Reading::Done(outcome) => return outcome,
        }
    }
}

fn write_line(process: &mut PooledProcess<Process>, line: &str) -> Result<(), Error<Broken>> {
    let writing = process.write_line(line);
    drive_write(process.process.as_mut(), writing)
}

fn read_line(world: &World, process: &mut PooledProcess<Process>) -> Result<String, Error<Broken>> {
    let (reading, text) = process.read_line().start();
    text.finish(drive_read_until(world, process.process.as_mut(), reading))
}

struct Pool {
    world: World,
    command: &'static str,
    core: SubprocessPool<Process, Waiter>,
}

impl Pool {
    fn new(
        world: &World,
        command: &'static str,
        max_size: usize,
    ) -> Result<Pool, Error<Broken>> {
        let mut at = SubprocessPool::new(max_size);
        loop {
            at = match at {
                Opening::Spawn(core) => core.opened(world.start(command)),
                Opening::Done(Ok(core)) => {
                    return Ok(Pool {
                        world: world.clone(),
                        command,
                        core,
                    })
                }
                Opening::Done(Err(e)) => return Err(e),
            }
        }
    }

    fn marks(&mut self) -> Vec<bool> {
        self.core.idle.iter_mut().map(alive).collect()
    }

    /// One piece of work. `turn` is what the task waits on.
    fn work(
        &mut self,
        at: Acquire<Process, Error<Broken>>,
        turn: &mut Option<oneshot::Receiver<()>>,
    ) -> Acquire<Process, Error<Broken>> {
        match at {
            Acquire::Join => {
                let (tx, rx) = oneshot::channel();
                *turn = Some(rx);
                self.core.acquire(tx)
            }
            Acquire::AwaitTurn => match turn.as_mut().unwrap().try_recv() {
                Ok(()) => Acquire::turned(true),
                Err(_) => Acquire::AwaitTurn,
            },
            Acquire::Inspect => {
                let marks = self.marks();
                let mut at = self.core.inspected(&marks);
                while let Acquire::Spawn = at {
                    at = self.core.supplied(self.world.start(self.command));
                }
                at
            }
            Acquire::Verify(mut process) => {
                let ok = alive(&mut process);
                self.core.verified(process, ok)
            }
            Acquire::Leave(error) => self.core.failed(error).0,
            done => done,
        }
    }

    fn acquire(&mut self) -> Result<PooledProcess<Process>, Error<Broken>> {
        let mut turn = None;
        let mut at = Acquire::Join;
        for _ in 0..1000 {
            at = self.work(at, &mut turn);
            if let Acquire::Done(outcome) = at {
                return outcome.map(PooledProcess::new);
            }
        }
        panic!("no process was found");
    }

    fn give_back(&mut self, mut process: PooledProcess<Process>) {
        if let Some(process) = process.release() {
            self.core.give_back(process);
        }
    }

    fn count(&mut self) -> usize {
        let mut at = self.core.count();
        loop {
            at = match at {
                Counting::Inspect => {
                    let marks = self.marks();
                    self.core.inspected_for_count(&marks)
                }
                Counting::Spawn => {
                    let outcome = self.world.start(self.command);
                    self.core.supplied_for_count(outcome)
                }
                Counting::Done(n) => return n,
            }
        }
    }
}

#[test]
fn test_pool_initialization() {
    let world = World::new();
    let mut pool = Pool::new(&world, "echo", 2).unwrap();
    assert_eq!(pool.count(), 2);
    assert_eq!(world.started(), 2);
}

#[test]
fn test_echo_interactive() {
    let world = World::new();
    let mut pool = Pool::new(&world, "echo", 1).unwrap();
    let mut process = pool.acquire().unwrap();

    write_line(&mut process, "hello").unwrap();
    assert_eq!(read_line(&world, &mut process).unwrap(), ">>hello\n");

    write_line(&mut process, "world").unwrap();
    assert_eq!(read_line(&world, &mut process).unwrap(), ">>world\n");
}

#[test]
fn test_write_line() {
    let world = World::new();
    let mut pool = Pool::new(&world, "echo", 1).unwrap();
    let mut process = pool.acquire().unwrap();
    write_line(&mut process, "test").unwrap();
    assert_eq!(read_line(&world, &mut process).unwrap(), ">>test\n");
}

#[test]
fn test_echo_io_error() {
    let world = World::new();
    let mut pool = Pool::new(&world, "echo", 1).unwrap();
    let mut process = pool.acquire().unwrap();
    write_line(&mut process, "/io").unwrap();
    assert_eq!(
        read_line(&world, &mut process).unwrap(),
        "IO error incoming\n"
    );

    world.moment();
    assert_eq!(write_line(&mut process, "test"), Err(Error::NotAlive));
}

#[test]
fn test_echo_exit_code() {
    let world = World::new();
    let mut pool = Pool::new(&world, "echo", 1).unwrap();
    let mut process = pool.acquire().unwrap();
    write_line(&mut process, "/exit 42").unwrap();
    assert_eq!(
        read_line(&world, &mut process).unwrap(),
        "Exiting with code 42\n"
    );

    world.moment();
    assert_eq!(write_line(&mut process, "test"), Err(Error::NotAlive));
}

#[test]
fn test_echo_invalid_utf8() {
    let world = World::new();
    let mut pool = Pool::new(&world, "echo", 1).unwrap();

    // The process is gone before the bytes are read.
    let mut process = pool.acquire().unwrap();
    write_line(&mut process, "/invalid-utf8").unwrap();
    world.moment();
    assert_eq!(read_line(&world, &mut process), Err(Error::NotAlive));
    pool.give_back(process);

    // The bytes are read, and then the process is gone.
    let mut process = pool.acquire().unwrap();
    write_line(&mut process, "/invalid-utf8").unwrap();
    assert_eq!(read_line(&world, &mut process), Err(Error::InvalidUtf8));
}

#[test]
fn test_pool_exhaustion_and_recreation() {
    let world = World::new();
    let mut pool = Pool::new(&world, "echo", 2).unwrap();
    assert_eq!(pool.count(), 2);

    let mut process1 = pool.acquire().unwrap();
    let mut process2 = pool.acquire().unwrap();
    write_line(&mut process1, "/exit 1").unwrap();
    write_line(&mut process2, "/exit 1").unwrap();
    pool.give_back(process1);
    pool.give_back(process2);

    world.moment();
    assert_eq!(pool.count(), 2);

    let mut process = pool.acquire().unwrap();
    write_line(&mut process, "final").unwrap();
    assert_eq!(read_line(&world, &mut process).unwrap(), ">>final\n");
}

#[test]
fn test_pool_all_processes_dead() {
    let world = World::new();
    let mut pool = Pool::new(&world, "echo", 2).unwrap();
    let mut process1 = pool.acquire().unwrap();
    let mut process2 = pool.acquire().unwrap();
    write_line(&mut process1, "/exit 1").unwrap();
    write_line(&mut process2, "/exit 1").unwrap();
    pool.give_back(process1);
    pool.give_back(process2);
    world.moment();
    let before = world.started();

    assert_eq!(pool.count(), 2);
    assert_eq!(world.started(), before + 2);

    let mut process = pool.acquire().unwrap();
    write_line(&mut process, "final test").unwrap();
    assert_eq!(read_line(&world, &mut process).unwrap(), ">>final test\n");
}

/// Lets tasks take turns, one piece of work each, until all have had a process for a while.
/// Returns the largest number of processes on loan at a time.
fn share(pool: &mut Pool, tasks: usize, line: &dyn Fn(usize) -> String) -> usize {
    enum Stage {
        Trying(Acquire<Process, Error<Broken>>),
        Talking(PooledProcess<Process>, usize),
        Through,
    }
    let world = pool.world.clone();
    let mut turns: Vec<Option<oneshot::Receiver<()>>> = (0..tasks).map(|_| None).collect();
    let mut stages: Vec<Stage> = (0..tasks)
        .map(|_| Stage::Trying(Acquire::Join))
        .collect();
    let mut most = 0;
    for _ in 0..100000 {
        for i in 0..tasks {
            let stage = std::mem::replace(&mut stages[i], Stage::Through);
            stages[i] = match stage {
                Stage::Trying(at) => match pool.work(at, &mut turns[i]) {
                    Acquire::Done(outcome) => {
                        let mut process = PooledProcess::new(outcome.unwrap());
                        write_line(&mut process, &line(i)).unwrap();
                        Stage::Talking(process, 3)
                    }
                    at => Stage::Trying(at),
                },
                Stage::Talking(mut process, 0) => {
                    assert_eq!(
                        read_line(&world, &mut process).unwrap(),
                        format!(">>{}\n", line(i))
                    );
                    pool.give_back(process);
                    Stage::Through
                }
                Stage::Talking(process, rounds) => Stage::Talking(process, rounds - 1),
                Stage::Through => Stage::Through,
            };
            let lent = stages
                .iter()
                .filter(|s| matches!(s, Stage::Talking(_, _)))
                .count();
            most = most.max(lent);
        }
        if stages.iter().all(|s| matches!(s, Stage::Through)) {
            return most;
        }
    }
    panic!("some task never got a process");
}

#[test]
fn test_pool_multiple_acquires() {
    let world = World::new();
    let mut pool = Pool::new(&world, "echo", 5).unwrap();
    let most = share(&mut pool, 10, &|i| format!("Task {}", i));
    assert!(most <= 5);
    assert!(most > 1);
    assert_eq!(world.started(), 5);
}

#[test]
fn test_pool_spawn_failure() {
    let world = World::new();
    let result = Pool::new(&world, "\0", 2);
    assert!(matches!(result, Err(Error::Io(Broken))));
}

#[test]
fn test_pool_io_errors() {
    let world = World::new();
    let mut pool = Pool::new(&world, "false", 1).unwrap();
    let mut process = pool.acquire().unwrap();

    world.moment();
    assert_eq!(write_line(&mut process, "test"), Err(Error::NotAlive));
    assert_eq!(read_line(&world, &mut process), Err(Error::NotAlive));
}

#[test]
fn test_pool_high_contention() {
    let world = World::new();
    let mut pool = Pool::new(&world, "echo", 4).unwrap();
    let most = share(&mut pool, 100, &|i| format!("task_{}", i));
    assert!(most <= 4);

    let mut process = pool.acquire().unwrap();
    write_line(&mut process, "final_test").unwrap();
    assert_eq!(read_line(&world, &mut process).unwrap(), ">>final_test\n");
}

#[test]
fn test_subprocess_direct() {
    let world = World::new();
    let mut process = world.start("echo").unwrap();
    let line = |process: &mut Process, text: &str| {
        let writing = process.write_line(text);
        drive_write(Some(process), writing).unwrap();
    };
    let reply = |process: &mut Process| {
        let (reading, text) = process.read_line().start();
        text.finish(drive_read_until(&world, Some(process), reading))
            .unwrap()
    };

    line(&mut process, "hello world");
    assert_eq!(reply(&mut process).trim(), ">>hello world");

    line(&mut process, "line 1");
    line(&mut process, "line 2");
    assert_eq!(reply(&mut process).trim(), ">>line 1");
    assert_eq!(reply(&mut process).trim(), ">>line 2");

    let writing = process.write_bytes(b"raw bytes\n");
    drive_write(Some(&mut process), writing).unwrap();
    assert_eq!(reply(&mut process).trim(), ">>raw bytes");

    let writing = process.write_bytes(b"part1:part2\n");
    drive_write(Some(&mut process), writing).unwrap();
    let reading = process.read_bytes_until(b':');
    let response = drive_read_until(&world, Some(&mut process), reading).unwrap();
    assert_eq!(&response, b">>part1:");
    assert_eq!(reply(&mut process).trim(), "part2");

    assert!(alive(&mut process));
    process.close_stdin();
    world.moment();
    assert!(!alive(&mut process));
}

#[test]
fn everything_is_read_at_once() {
    let world = World::new();
    let mut process = world.start("echo").unwrap();
    let writing = process.write("a\nb\n");
    drive_write(Some(&mut process), writing).unwrap();
    let (reading, text) = process.read().start();
    let said = text.finish(drive_read(Some(&mut process), reading));
    assert_eq!(said, Ok(String::from(">>a\n>>b\n")));
}

#[test]
fn a_process_that_dies_mid_line_leaves_what_it_said() {
    let world = World::new();
    let mut process = world.start("echo").unwrap();
    let writing = process.write_line("abc");
    drive_write(Some(&mut process), writing).unwrap();
    process.child.borrow_mut().ending = true;
    let (reading, text) = process.read_until(b'!').start();
    let said = text.finish(drive_read_until(&world, Some(&mut process), reading));
    assert_eq!(said, Ok(String::from(">>abc\n")));

    // A read of a dead process with nothing said fails, and stdout is lost with it.
    let reading = process.read_bytes_until(b'!');
    assert_eq!(
        drive_read_until(&world, Some(&mut process), reading),
        Err(Error::NotAlive)
    );
    let reading = process.read_bytes_until(b'!');
    assert_eq!(
        drive_read_until(&world, Some(&mut process), reading),
        Err(Error::NoStdout)
    );
}

#[test]
fn a_process_found_dead_does_not_use_up_its_place() {
    let world = World::new();
    let mut pool = Pool::new(&world, "echo", 1).unwrap();
    let mut turn = None;
    let mut at = Acquire::Join;
    while !matches!(at, Acquire::Verify(_)) {
        at = pool.work(at, &mut turn);
    }
    // It ends between the time it was taken and the time it is looked at.
    for child in world.0.borrow().iter() {
        child.borrow_mut().alive = false;
    }
    at = pool.work(at, &mut turn);
    assert!(matches!(at, Acquire::Inspect));
    assert_eq!(pool.core.taken, 1);
    while !matches!(at, Acquire::Done(_)) {
        at = pool.work(at, &mut turn);
    }
    let mut process = match at {
        Acquire::Done(Ok(process)) => PooledProcess::new(process),
        _ => unreachable!(),
    };
    write_line(&mut process, "again").unwrap();
    assert_eq!(read_line(&world, &mut process).unwrap(), ">>again\n");
    pool.give_back(process);
    assert_eq!(pool.core.taken, 0);
}

#[test]
fn a_process_that_cannot_be_replaced_is_an_error() {
    let world = World::new();
    let mut pool = Pool::new(&world, "echo", 2).unwrap();
    for process in pool.core.idle.iter_mut() {
        process.close_stdin();
    }
    world.moment();
    pool.command = "\0";
    assert!(matches!(pool.acquire(), Err(Error::Io(Broken))));
    assert_eq!(pool.count(), 0);

    // The place was given up: once processes can be started again, there is room.
    pool.command = "echo";
    assert!(pool.acquire().is_ok());
    assert!(pool.acquire().is_ok());
}

#[test]
fn a_failed_acquire_keeps_no_place() {
    let world = World::new();
    let mut pool = Pool::new(&world, "echo", 1).unwrap();
    let mut p = pool.acquire().unwrap();
    p.close_stdin();
    world.moment();
    pool.give_back(p);
    pool.command = "\0";
    assert!(pool.acquire().is_err());
    pool.command = "echo";
    assert!(pool.acquire().is_ok());
}

#[test]
fn no_more_processes_than_the_limit() {
    let world = World::new();
    let mut pool = Pool::new(&world, "echo", 2).unwrap();
    let a = pool.acquire().unwrap();
    let b = pool.acquire().unwrap();
    assert_eq!(world.started(), 2);
    assert_eq!(pool.count(), 2);
    assert_eq!(world.started(), 2);
    pool.give_back(a);
    pool.give_back(b);
    assert_eq!(pool.count(), 2);
    assert_eq!(pool.count(), 2);
    assert_eq!(world.started(), 2);
}

#[test]
fn a_process_that_came_back_is_used_again() {
    let world = World::new();
    let mut pool = Pool::new(&world, "echo", 1).unwrap();
    let p = pool.acquire().unwrap();
    pool.give_back(p);
    let p = pool.acquire().unwrap();
    assert!(Rc::ptr_eq(
        &p.process.as_ref().unwrap().child,
        &world.0.borrow()[0]
    ));
    assert_eq!(world.started(), 1);
}

#[test]
fn a_task_that_waits_is_served_when_a_process_comes_back() {
    let world = World::new();
    let mut pool = Pool::new(&world, "echo", 1).unwrap();
    let held = pool.acquire().unwrap();

    let (mut turn_a, mut turn_b) = (None, None);
    let mut a = pool.work(Acquire::Join, &mut turn_a);
    let mut b = pool.work(Acquire::Join, &mut turn_b);
    assert!(matches!(a, Acquire::AwaitTurn));
    assert!(matches!(b, Acquire::AwaitTurn));

    pool.give_back(held);
    // A newcomer does not get past them, and neither does the second one.
    let mut turn_c = None;
    let c = pool.work(Acquire::Join, &mut turn_c);
    assert!(matches!(c, Acquire::AwaitTurn));
    b = pool.work(b, &mut turn_b);
    assert!(matches!(b, Acquire::AwaitTurn));
    for _ in 0..3 {
        a = pool.work(a, &mut turn_a);
    }
    assert!(matches!(a, Acquire::Done(Ok(_))));
}

#[test]
fn a_process_that_was_given_back_is_refused() {
    let world = World::new();
    let mut pool = Pool::new(&world, "echo", 1).unwrap();
    let mut process = pool.acquire().unwrap();
    assert!(process.release().is_some());
    assert!(process.release().is_none());

    assert_eq!(write_line(&mut process, "x"), Err(Error::NoProcess));
    assert_eq!(read_line(&world, &mut process), Err(Error::NoProcess));
    let reading: Reading<Broken> = process.read_bytes();
    assert_eq!(drive_read(None, reading), Err(Error::NoProcess));
    assert_eq!(process.is_alive(), Probing::Done(false));
    process.close_stdin();
}
