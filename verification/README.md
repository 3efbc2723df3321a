# subterm

Pools of interactive subprocesses, with the rules proved in Verus.

- `src/` is the library: what a pool, a process on loan and a subprocess do, as state
  machines that ask for outside work and take the answers. Nothing in it waits.
- `app/` does that work on tokio: it starts child processes, reads and writes their pipes,
  keeps the pool under a lock, and offers the asynchronous `SubprocessPool`, `PooledProcess`
  and `Subprocess`.
- `tests/` drives the machines with processes that live in memory.

What is proved:

- A write reaches the process in order and whole if it succeeds; a line that comes back
  reads as it was written; a read up to a delimiter gives all that came and stops there.
- A place that is given up is offered to the tasks that wait in the order in which they
  queued, until one takes it. The receipts that come back say who was told, and what each
  answered.
- At every moment, in whatever order tasks work: a pool has no more processes than its limit,
  idle ones and those on loan together; each is in one place; nobody waits while a place is
  free; tasks that wait get their places in the order in which they queued, and nobody gets
  past them; all get through, unless the processes that they take keep dying. This is shown of
  a model whose steps are the contracts of the pool; it takes for granted that the lock stays
  with a task that starts processes, that a process that is started is a new one, and that a
  task hears that it has a place unless it was given up.
- A pool starts exactly the processes that it lacks, stops at the first that cannot be
  started, and keeps those that were. A task takes the first that was found alive or, if none
  was, the first that was started.

What is taken on trust: tokio's one-shot channel and `String::from_utf8`, as the doc comments
in `src/channel.rs` and `src/text.rs` say.
