//! Pools of interactive subprocesses, as verified state machines.
//!
//! The library decides; it never waits. Every operation that has to wait for a child
//! process, a lock or another task is a machine whose states name the outside work that is
//! due next, and whose methods take the answer to that work one step further. The program
//! around the library performs the work, in whatever asynchronous runtime it uses.
//!
//! - [`handler`]: what can be asked of a subprocess, pooled or not.
//! - [`subprocess`]: a child process with its three pipes.
//! - [`write`] and [`read`]: the machines behind writing and reading.
//! - [`pool`], [`ledger`], [`pooled`]: the pool, what it knows of itself, and a process on
//!   loan.
//! - [`probe`], [`text`], [`error`]: whether a process is alive, bytes as text, and errors.
//! - [`channel`]: the call into tokio's channels.
//! - [`pool_laws`] and [`process_laws`]: what each operation does, said of what goes in and of
//!   what comes out.
//! - [`exchange`] and [`tenancy`]: what holds of whole conversations with a process, and of
//!   any number of tasks that share a pool.

pub mod channel;
pub mod error;
pub mod exchange;
pub mod handler;
pub mod ledger;
pub mod pool;
pub mod pool_laws;
pub mod pooled;
pub mod probe;
pub mod process_laws;
pub mod read;
pub mod subprocess;
pub mod tenancy;
pub mod text;
pub mod write;

pub use error::Error;
pub use handler::SubprocessHandler;
pub use pool::SubprocessPool;
pub use pooled::PooledProcess;
pub use subprocess::Subprocess;
