//! The machines behind reading from a subprocess.

use crate::error::Error;
use vstd::prelude::*;

verus! {

/// A request for everything that a process still has to say.
#[derive(Debug, PartialEq, Eq)]
pub struct Request {
    /// Whether the process has a stdout pipe.
    pub stdout_open: bool,
}

/// A read up to the end of stdout in progress: the outside work that is due, or the outcome.
#[derive(Debug, PartialEq, Eq)]
pub enum Reading<E> {
    /// Find out whether the process is alive, then call [`Request::probed`].
    Probe(Request),
    /// Read stdout to its end, then call [`Reading::finished`].
    Read,
    /// The read is over.
    Done(Result<Vec<u8>, Error<E>>),
}

impl Request {
    /// A dead process is refused first, a missing stdout second; else the read is due.
    pub open spec fn spec_probed<E>(self, alive: bool) -> Reading<E> {
        if !alive {
            Reading::Done(Err(Error::NotAlive))
        } else if !self.stdout_open {
            Reading::Done(Err(Error::NoStdout))
        } else {
            Reading::Read
        }
    }

    /// Goes on when it is known whether the process is alive.
    pub fn probed<E>(self, alive: bool) -> (r: Reading<E>)
        ensures
            r == self.spec_probed::<E>(alive),
    {
        if !alive {
            Reading::Done(Err(Error::NotAlive))
        } else if !self.stdout_open {
            Reading::Done(Err(Error::NoStdout))
        } else {
            Reading::Read
        }
    }
}

impl<E> Reading<E> {
    /// The bytes read are the outcome, and so is an error.
    pub open spec fn spec_finished(result: Result<Vec<u8>, E>) -> Self {
        match result {
            Ok(bytes) => Reading::Done(Ok(bytes)),
            Err(e) => Reading::Done(Err(Error::Io(e))),
        }
    }

    /// Goes on when the attempt to read stdout to its end is over.
    pub fn finished(result: Result<Vec<u8>, E>) -> (r: Self)
        ensures
            r == Self::spec_finished(result),
    {
        match result {
            Ok(bytes) => Reading::Done(Ok(bytes)),
            Err(e) => Reading::Done(Err(Error::Io(e))),
        }
    }
}

/// How long a read rests, in milliseconds, when the delimiter has not come yet.
pub const REST_MILLIS: u64 = 10;

/// A search for a delimiter in what a process says. It owns the stdout pipe `O` while it
/// lasts.
#[derive(Debug, PartialEq, Eq)]
pub struct Scan<O> {
    pub stdout: O,
    pub delimiter: u8,
    /// What was read so far.
    pub buf: Vec<u8>,
}

/// A read up to a delimiter in progress: the outside work that is due, or the outcome.
#[derive(Debug, PartialEq, Eq)]
pub enum ReadingUntil<O, E> {
    /// Find out whether the process is alive, then call [`Scan::probed`].
    Probe(Scan<O>),
    /// Read from stdout up to and with the delimiter or to its end, then call
    /// [`Scan::received`].
    Read(Scan<O>),
    /// Wait for so many milliseconds, then call [`Scan::rested`].
    Rest(Scan<O>, u64),
    /// The read is over; what was read is the outcome, and stdout goes back to the process.
    Done(Scan<O>),
    /// The read has failed. The stdout pipe is lost with it.
    Failed(Error<E>),
}

impl<O> Scan<O> {
    /// A live process is read from. Of a dead one, what it said before counts, and without
    /// that it is refused.
    pub open spec fn spec_probed<E>(self, alive: bool) -> ReadingUntil<O, E> {
        if alive {
            ReadingUntil::Read(self)
        } else if self.buf@.len() == 0 {
            ReadingUntil::Failed(Error::NotAlive)
        } else {
            ReadingUntil::Done(self)
        }
    }

    /// Goes on when it is known whether the process is alive.
    pub fn probed<E>(self, alive: bool) -> (r: ReadingUntil<O, E>)
        ensures
            r == self.spec_probed::<E>(alive),
    {
        if alive {
            ReadingUntil::Read(self)
        } else if self.buf.len() == 0 {
            ReadingUntil::Failed(Error::NotAlive)
        } else {
            ReadingUntil::Done(self)
        }
    }

    /// Whether `other` is the search with the bytes of `chunk` read in addition.
    pub open spec fn grown_by(self, chunk: Seq<u8>, other: Self) -> bool {
        &&& other.stdout == self.stdout
        &&& other.delimiter == self.delimiter
        &&& other.buf@ == self.buf@ + chunk
    }

    /// Whether what was read so far ends in the delimiter.
    pub open spec fn found(self) -> bool {
        self.buf@.len() > 0 && self.buf@.last() == self.delimiter
    }

    /// Whether `r` is the search after an attempt to read. An error ends it; else it is over
    /// once what was read in all ends in the delimiter.
    pub open spec fn receives<E>(self, result: Result<Vec<u8>, E>, r: ReadingUntil<O, E>) -> bool {
        match result {
            Err(e) => r == ReadingUntil::<O, E>::Failed(Error::Io(e)),
            Ok(chunk) => match r {
                ReadingUntil::Done(scan) => self.grown_by(chunk@, scan) && scan.found(),
                ReadingUntil::Rest(scan, millis) => {
                    self.grown_by(chunk@, scan) && !scan.found() && millis == REST_MILLIS
                },
                _ => false,
            },
        }
    }

    /// Goes on when an attempt to read is over, with the bytes that it brought.
    pub fn received<E>(self, result: Result<Vec<u8>, E>) -> (r: ReadingUntil<O, E>)
        ensures
            self.receives(result, r),
    {
        match result {
            Err(e) => ReadingUntil::Failed(Error::Io(e)),
            Ok(chunk) => {
                let Scan { stdout, delimiter, mut buf } = self;
                let mut chunk = chunk;
                buf.append(&mut chunk);
                let n: usize = buf.len();
                let found = n > 0 && buf[n - 1] == delimiter;
                let scan = Scan { stdout, delimiter, buf };
                if found {
                    ReadingUntil::Done(scan)
                } else {
                    ReadingUntil::Rest(scan, REST_MILLIS)
                }
            },
        }
    }

    /// Goes on after a rest: the process is probed again.
    pub fn rested<E>(self) -> (r: ReadingUntil<O, E>)
        ensures
            r == ReadingUntil::<O, E>::Probe(self),
    {
        ReadingUntil::Probe(self)
    }
}

} // verus!
