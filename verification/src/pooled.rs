//! A process on loan from a pool.

use crate::error::Error;
use crate::handler::{Pipes, SubprocessHandler, NEWLINE};
use crate::probe::Probing;
use crate::read::{Reading, ReadingUntil, Scan};
use crate::text::Text;
use crate::write::Writing;
use vstd::prelude::*;

verus! {

/// A process on loan from a pool, until it is given back.
pub struct PooledProcess<H> {
    pub process: Option<H>,
}

impl<H> PooledProcess<H> {
    /// A process that was just acquired.
    pub fn new(process: H) -> (r: Self)
        ensures
            r.process == Some(process),
    {
        PooledProcess { process: Some(process) }
    }

    /// Takes the process out, to be given back to the pool. There is one to take out once.
    pub fn release(&mut self) -> (r: Option<H>)
        ensures
            final(self).process is None,
            r == old(self).process,
    {
        self.process.take()
    }
}

impl<H: SubprocessHandler> SubprocessHandler for PooledProcess<H> {
    type Stdin = H::Stdin;

    type Stdout = H::Stdout;

    type Rest = Option<H::Rest>;

    open spec fn pipes(&self) -> Option<Pipes<H::Stdin, H::Stdout>> {
        match self.process {
            Some(process) => process.pipes(),
            None => None,
        }
    }

    open spec fn rest(&self) -> Option<H::Rest> {
        match self.process {
            Some(process) => Some(process.rest()),
            None => None,
        }
    }

    fn write_bytes<E>(&mut self, input: &[u8]) -> (r: Writing<E>) {
        match &mut self.process {
            Some(process) => process.write_bytes(input),
            None => Writing::Done(Err(Error::NoProcess)),
        }
    }

    fn write<E>(&mut self, input: &str) -> (r: Writing<E>) {
        match &mut self.process {
            Some(process) => process.write(input),
            None => Writing::Done(Err(Error::NoProcess)),
        }
    }

    fn write_line<E>(&mut self, input: &str) -> (r: Writing<E>) {
        match &mut self.process {
            Some(process) => process.write_line(input),
            None => Writing::Done(Err(Error::NoProcess)),
        }
    }

    fn read_bytes<E>(&mut self) -> (r: Reading<E>) {
        match &mut self.process {
            Some(process) => process.read_bytes(),
            None => Reading::Done(Err(Error::NoProcess)),
        }
    }

    fn read_bytes_until<E>(&mut self, delimiter: u8) -> (r: ReadingUntil<H::Stdout, E>) {
        match &mut self.process {
            Some(process) => process.read_bytes_until(delimiter),
            None => ReadingUntil::Failed(Error::NoProcess),
        }
    }

    fn finish_read(&mut self, scan: Scan<H::Stdout>) -> (r: Vec<u8>) {
        match &mut self.process {
            Some(process) => process.finish_read(scan),
            None => scan.buf,
        }
    }

    fn read<E>(&mut self) -> (r: Text<Reading<E>>) {
        Text { bytes: self.read_bytes() }
    }

    fn read_until<E>(&mut self, delimiter: u8) -> (r: Text<ReadingUntil<H::Stdout, E>>) {
        Text { bytes: self.read_bytes_until(delimiter) }
    }

    fn read_line<E>(&mut self) -> (r: Text<ReadingUntil<H::Stdout, E>>) {
        Text { bytes: self.read_bytes_until(NEWLINE) }
    }

    fn is_alive(&mut self) -> (r: Probing) {
        match &mut self.process {
            Some(process) => process.is_alive(),
            None => Probing::Done(false),
        }
    }

    fn close_stdin(&mut self) {
        if let Some(process) = &mut self.process {
            process.close_stdin();
        }
    }
}

} // verus!
