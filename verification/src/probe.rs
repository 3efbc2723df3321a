//! Whether a process is alive.

use vstd::prelude::*;

verus! {

/// A question whether a process is alive: the outside work that is due, or the answer.
#[derive(Debug, PartialEq, Eq)]
pub enum Probing {
    /// Ask for the exit status of the process without waiting for it, then call
    /// [`Probing::waited`].
    TryWait,
    /// The answer.
    Done(bool),
}

impl Probing {
    /// A process is alive if it has no exit status. If the question fails, it counts as
    /// dead.
    pub fn waited<S, W>(status: Result<Option<S>, W>) -> (r: bool)
        ensures
            r <==> status == Ok::<Option<S>, W>(None),
    {
        match status {
            Ok(None) => true,
            Ok(Some(_)) => false,
            Err(_) => false,
        }
    }
}

} // verus!
