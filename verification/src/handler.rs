//! What can be asked of a subprocess.

use crate::error::Error;
use crate::probe::Probing;
use crate::read::{Reading, ReadingUntil, Request, Scan};
use crate::text::Text;
use crate::write::Writing;
use vstd::prelude::*;
use vstd::utf8::encode_utf8;

verus! {

/// The byte that ends a line.
pub const NEWLINE: u8 = 10;

/// The pipes of a process to its stdin and from its stdout, as far as it has them.
pub struct Pipes<I, O> {
    pub stdin: Option<I>,
    pub stdout: Option<O>,
}

/// Whether `w` is a write of `input`, and of `next` after it, that is about to start. Where
/// there is no process it is over before it starts.
pub open spec fn write_starts<I, O, E>(
    w: Writing<E>,
    pipes: Option<Pipes<I, O>>,
    input: Seq<u8>,
    next: Option<Seq<u8>>,
) -> bool {
    match pipes {
        None => w == Writing::<E>::Done(Err(Error::NoProcess)),
        Some(p) => {
            &&& w matches Writing::Probe(d)
            &&& d.stdin_open == p.stdin is Some
            &&& d.input@ == input
            &&& match next {
                Some(bytes) => d.next matches Some(b) && b@ == bytes,
                None => d.next is None,
            }
        },
    }
}

/// A read to the end of stdout that is about to start. Where there is no process it is over
/// before it starts.
pub open spec fn read_start<I, O, E>(pipes: Option<Pipes<I, O>>) -> Reading<E> {
    match pipes {
        None => Reading::Done(Err(Error::NoProcess)),
        Some(p) => Reading::Probe(Request { stdout_open: p.stdout is Some }),
    }
}

/// Whether `r` is a read up to `delimiter` that is about to start. It owns the stdout of the
/// process; where there is no process or no stdout it is over before it starts.
pub open spec fn read_until_starts<I, O, E>(
    r: ReadingUntil<O, E>,
    pipes: Option<Pipes<I, O>>,
    delimiter: u8,
) -> bool {
    match pipes {
        None => r == ReadingUntil::<O, E>::Failed(Error::NoProcess),
        Some(p) => match p.stdout {
            None => r == ReadingUntil::<O, E>::Failed(Error::NoStdout),
            Some(stdout) => {
                &&& r matches ReadingUntil::Probe(scan)
                &&& scan.stdout == stdout
                &&& scan.delimiter == delimiter
                &&& scan.buf@ == Seq::<u8>::empty()
            },
        },
    }
}

/// The pipes without stdin.
pub open spec fn without_stdin<I, O>(pipes: Option<Pipes<I, O>>) -> Option<Pipes<I, O>> {
    match pipes {
        None => None,
        Some(p) => Some(Pipes { stdin: None, stdout: p.stdout }),
    }
}

/// The pipes with another stdout, or none.
pub open spec fn with_stdout<I, O>(pipes: Option<Pipes<I, O>>, stdout: Option<O>) -> Option<Pipes<I, O>> {
    match pipes {
        None => None,
        Some(p) => Some(Pipes { stdin: p.stdin, stdout }),
    }
}

/// A subprocess to talk with. Each operation starts here; the machine that it returns says
/// what to do and in the end what came of it.
pub trait SubprocessHandler: Sized {
    /// The stdin pipe.
    type Stdin;

    /// The stdout pipe.
    type Stdout;

    /// What else belongs to the process.
    type Rest;

    /// The pipes of the process, `None` if there is no process.
    spec fn pipes(&self) -> Option<Pipes<Self::Stdin, Self::Stdout>>;

    /// What else belongs to the process. No operation changes it.
    spec fn rest(&self) -> Self::Rest;

    /// Starts to write `input` and flush it.
    fn write_bytes<E>(&mut self, input: &[u8]) -> (r: Writing<E>)
        ensures
            final(self).rest() == old(self).rest(),
            final(self).pipes() == old(self).pipes(),
            write_starts(r, old(self).pipes(), input@, None),
    ;

    /// Starts to write `input` as UTF-8 and flush it.
    fn write<E>(&mut self, input: &str) -> (r: Writing<E>)
        ensures
            final(self).rest() == old(self).rest(),
            final(self).pipes() == old(self).pipes(),
            write_starts(r, old(self).pipes(), encode_utf8(input@), None),
    {
        self.write_bytes(input.as_bytes())
    }

    /// Starts to write `input` as UTF-8 and flush it, and then the end of the line in the
    /// same way.
    fn write_line<E>(&mut self, input: &str) -> (r: Writing<E>)
        ensures
            final(self).rest() == old(self).rest(),
            final(self).pipes() == old(self).pipes(),
            write_starts(r, old(self).pipes(), encode_utf8(input@), Some(seq![NEWLINE])),
    {
        let mut line_end: Vec<u8> = Vec::new();
        line_end.push(NEWLINE);
        self.write_bytes(input.as_bytes()).and_then_write(line_end)
    }

    /// Starts to read everything that the process still has to say.
    fn read_bytes<E>(&mut self) -> (r: Reading<E>)
        ensures
            final(self).rest() == old(self).rest(),
            final(self).pipes() == old(self).pipes(),
            r == read_start::<Self::Stdin, Self::Stdout, E>(old(self).pipes()),
    ;

    /// Starts to read up to and with `delimiter`. The read owns stdout until
    /// [`SubprocessHandler::finish_read`] puts it back.
    fn read_bytes_until<E>(&mut self, delimiter: u8) -> (r: ReadingUntil<Self::Stdout, E>)
        ensures
            final(self).rest() == old(self).rest(),
            final(self).pipes() == with_stdout(old(self).pipes(), None),
            read_until_starts(r, old(self).pipes(), delimiter),
    ;

    /// Ends a read that is done: what was read is the outcome, and stdout goes back.
    fn finish_read(&mut self, scan: Scan<Self::Stdout>) -> (r: Vec<u8>)
        ensures
            final(self).rest() == old(self).rest(),
            final(self).pipes() == with_stdout(old(self).pipes(), Some(scan.stdout)),
            r == scan.buf,
    ;

    /// Starts to read everything that the process still has to say, as text.
    fn read<E>(&mut self) -> (r: Text<Reading<E>>)
        ensures
            final(self).rest() == old(self).rest(),
            final(self).pipes() == old(self).pipes(),
            r.bytes == read_start::<Self::Stdin, Self::Stdout, E>(old(self).pipes()),
    {
        Text { bytes: self.read_bytes() }
    }

    /// Starts to read up to and with `delimiter`, as text.
    fn read_until<E>(&mut self, delimiter: u8) -> (r: Text<ReadingUntil<Self::Stdout, E>>)
        ensures
            final(self).rest() == old(self).rest(),
            final(self).pipes() == with_stdout(old(self).pipes(), None),
            read_until_starts(r.bytes, old(self).pipes(), delimiter),
    {
        Text { bytes: self.read_bytes_until(delimiter) }
    }

    /// Starts to read up to and with the end of a line, as text.
    fn read_line<E>(&mut self) -> (r: Text<ReadingUntil<Self::Stdout, E>>)
        ensures
            final(self).rest() == old(self).rest(),
            final(self).pipes() == with_stdout(old(self).pipes(), None),
            read_until_starts(r.bytes, old(self).pipes(), NEWLINE),
    {
        Text { bytes: self.read_bytes_until(NEWLINE) }
    }

    /// Starts to ask whether the process is alive. Where there is none, it is not.
    fn is_alive(&mut self) -> (r: Probing)
        ensures
            final(self).rest() == old(self).rest(),
            final(self).pipes() == old(self).pipes(),
            r == (if old(self).pipes() is Some {
                Probing::TryWait
            } else {
                Probing::Done(false)
            }),
    ;

    /// Closes stdin, so that the process sees its end.
    fn close_stdin(&mut self)
        ensures
            final(self).rest() == old(self).rest(),
            final(self).pipes() == without_stdin(old(self).pipes()),
    ;
}

} // verus!
