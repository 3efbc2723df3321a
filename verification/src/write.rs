//! The machine behind writing to a subprocess.

use crate::error::Error;
use vstd::prelude::*;

verus! {

/// Bytes on their way to a process.
#[derive(Debug, PartialEq, Eq)]
pub struct Draft {
    /// The bytes to write now.
    pub input: Vec<u8>,
    /// The bytes to write once `input` is written and flushed.
    pub next: Option<Vec<u8>>,
    /// Whether the process has a stdin pipe.
    pub stdin_open: bool,
}

/// A write in progress: the outside work that is due, or the outcome.
#[derive(Debug, PartialEq, Eq)]
pub enum Writing<E> {
    /// Find out whether the process is alive, then call [`Draft::probed`].
    Probe(Draft),
    /// Write all of `input` to stdin, then call [`Draft::wrote`].
    Write(Draft),
    /// Flush stdin, then call [`Draft::flushed`].
    Flush(Draft),
    /// The write is over.
    Done(Result<(), Error<E>>),
}

impl<E> Writing<E> {
    /// A write that is about to start, with `next` to be written after it. One that is over
    /// stays so.
    pub(crate) fn and_then_write(self, next: Vec<u8>) -> (r: Self)
        ensures
            match self {
                Writing::Probe(d) => {
                    &&& r matches Writing::Probe(e)
                    &&& e.input == d.input
                    &&& e.stdin_open == d.stdin_open
                    &&& e.next == Some(next)
                },
                _ => r == self,
            },
    {
        match self {
            Writing::Probe(draft) => Writing::Probe(
                Draft {
                    input: draft.input,
                    next: Some(next),
                    stdin_open: draft.stdin_open,
                },
            ),
            other => other,
        }
    }
}

impl Draft {
    /// A dead process is refused first, a missing stdin second; else the bytes are due.
    pub open spec fn spec_probed<E>(self, alive: bool) -> Writing<E> {
        if !alive {
            Writing::Done(Err(Error::NotAlive))
        } else if !self.stdin_open {
            Writing::Done(Err(Error::NoStdin))
        } else {
            Writing::Write(self)
        }
    }

    /// Goes on when it is known whether the process is alive.
    pub fn probed<E>(self, alive: bool) -> (r: Writing<E>)
        ensures
            r == self.spec_probed::<E>(alive),
    {
        if !alive {
            Writing::Done(Err(Error::NotAlive))
        } else if !self.stdin_open {
            Writing::Done(Err(Error::NoStdin))
        } else {
            Writing::Write(self)
        }
    }

    /// What is written has to be flushed; an error ends the write.
    pub open spec fn spec_wrote<E>(self, result: Result<(), E>) -> Writing<E> {
        match result {
            Ok(_) => Writing::Flush(self),
            Err(e) => Writing::Done(Err(Error::Io(e))),
        }
    }

    /// Goes on when the attempt to write `input` is over.
    pub fn wrote<E>(self, result: Result<(), E>) -> (r: Writing<E>)
        ensures
            r == self.spec_wrote(result),
    {
        match result {
            Ok(_) => Writing::Flush(self),
            Err(e) => Writing::Done(Err(Error::Io(e))),
        }
    }

    /// What is flushed is done with: the next bytes, if any, start over with a probe.
    pub open spec fn spec_flushed<E>(self, result: Result<(), E>) -> Writing<E> {
        match result {
            Err(e) => Writing::Done(Err(Error::Io(e))),
            Ok(_) => match self.next {
                Some(input) => Writing::Probe(
                    Draft { input, next: None, stdin_open: self.stdin_open },
                ),
                None => Writing::Done(Ok(())),
            },
        }
    }

    /// Goes on when the attempt to flush is over.
    pub fn flushed<E>(self, result: Result<(), E>) -> (r: Writing<E>)
        ensures
            r == self.spec_flushed(result),
    {
        match result {
            Err(e) => Writing::Done(Err(Error::Io(e))),
            Ok(_) => match self.next {
                Some(input) => Writing::Probe(
                    Draft { input, next: None, stdin_open: self.stdin_open },
                ),
                None => Writing::Done(Ok(())),
            },
        }
    }
}

} // verus!
