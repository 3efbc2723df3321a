//! A child process with its pipes.

use crate::error::Error;
use crate::handler::{
    read_start, read_until_starts, with_stdout, without_stdin, write_starts, Pipes,
    SubprocessHandler, NEWLINE,
};
use crate::probe::Probing;
use crate::read::{Reading, ReadingUntil, Request, Scan};
use crate::text::Text;
use crate::write::{Draft, Writing};
use vstd::prelude::*;
use vstd::slice::slice_to_vec;

verus! {

/// A child process that was just started: the handle `C` of the process itself, and the
/// pipes `I`, `O` and `R` to its stdin and from its stdout and stderr, as far as it has them.
pub struct Spawned<C, I, O, R> {
    pub child: C,
    pub stdin: Option<I>,
    pub stdout: Option<O>,
    pub stderr: Option<R>,
}

/// A child process with its pipes.
pub struct Subprocess<C, I, O, R> {
    pub child: C,
    pub stdin: Option<I>,
    pub stdout_reader: Option<O>,
    pub stderr_reader: Option<R>,
}

impl<C, I, O, R> Subprocess<C, I, O, R> {
    /// The process with every pipe that it has, or the error that kept it from starting.
    pub open spec fn spec_started<E>(spawned: Result<Spawned<C, I, O, R>, E>) -> Result<
        Self,
        Error<E>,
    > {
        match spawned {
            Ok(s) => Ok(
                Subprocess {
                    child: s.child,
                    stdin: s.stdin,
                    stdout_reader: s.stdout,
                    stderr_reader: s.stderr,
                },
            ),
            Err(e) => Err(Error::Io(e)),
        }
    }

    /// Starts the process that `builder` describes. `builder` is called once, and `spawn` is
    /// called once, on what it gives: their types rule out a second call.
    pub fn new<K, E, B: FnOnce() -> K, S: FnOnce(K) -> Result<Spawned<C, I, O, R>, E>>(
        builder: B,
        spawn: S,
    ) -> (r: Result<Self, Error<E>>)
        requires
            builder.requires(()),
            forall|command: K| builder.ensures((), command) ==> spawn.requires((command,)),
        ensures
            exists|command: K, spawned: Result<Spawned<C, I, O, R>, E>|
                {
                    &&& builder.ensures((), command)
                    &&& #[trigger] spawn.ensures((command,), spawned)
                    &&& r == Self::spec_started(spawned)
                },
    {
        Self::from_command(builder(), spawn)
    }

    /// Starts the process that one call of a shared builder describes. As in
    /// [`Subprocess::new`], neither `builder` nor `spawn` can be called twice.
    pub fn from_builder<K, E, B: FnOnce() -> K, S: FnOnce(K) -> Result<Spawned<C, I, O, R>, E>>(
        builder: B,
        spawn: S,
    ) -> (r: Result<Self, Error<E>>)
        requires
            builder.requires(()),
            forall|command: K| builder.ensures((), command) ==> spawn.requires((command,)),
        ensures
            exists|command: K, spawned: Result<Spawned<C, I, O, R>, E>|
                {
                    &&& builder.ensures((), command)
                    &&& #[trigger] spawn.ensures((command,), spawned)
                    &&& r == Self::spec_started(spawned)
                },
    {
        Self::from_command(builder(), spawn)
    }

    /// Starts the process that `command` describes.
    fn from_command<K, E, S: FnOnce(K) -> Result<Spawned<C, I, O, R>, E>>(
        command: K,
        spawn: S,
    ) -> (r: Result<Self, Error<E>>)
        requires
            spawn.requires((command,)),
        ensures
            exists|spawned: Result<Spawned<C, I, O, R>, E>|
                {
                    &&& #[trigger] spawn.ensures((command,), spawned)
                    &&& r == Self::spec_started(spawned)
                },
    {
        match spawn(command) {
            Ok(s) => Ok(
                Subprocess {
                    child: s.child,
                    stdin: s.stdin,
                    stdout_reader: s.stdout,
                    stderr_reader: s.stderr,
                },
            ),
            Err(e) => Err(Error::Io(e)),
        }
    }

    /// The pipes that operations depend on.
    pub open spec fn spec_pipes(&self) -> Option<Pipes<I, O>> {
        Some(Pipes { stdin: self.stdin, stdout: self.stdout_reader })
    }

    /// Starts to ask whether the process is alive.
    pub fn is_alive(&mut self) -> (r: Probing)
        ensures
            *final(self) == *old(self),
            r == Probing::TryWait,
    {
        Probing::TryWait
    }

    /// Starts to write `input` and flush it.
    pub fn write_bytes<E>(&mut self, input: &[u8]) -> (r: Writing<E>)
        ensures
            *final(self) == *old(self),
            write_starts(r, old(self).spec_pipes(), input@, None),
    {
        Writing::Probe(
            Draft { input: slice_to_vec(input), next: None, stdin_open: self.stdin.is_some() },
        )
    }

    /// Starts to read everything that the process still has to say.
    pub fn read_bytes<E>(&mut self) -> (r: Reading<E>)
        ensures
            *final(self) == *old(self),
            r == read_start::<I, O, E>(old(self).spec_pipes()),
    {
        Reading::Probe(Request { stdout_open: self.stdout_reader.is_some() })
    }

    /// Starts to read up to and with `delimiter`. The read owns stdout until
    /// [`Subprocess::finish_read`] puts it back; if it fails, or is given up, stdout is gone.
    pub fn read_bytes_until<E>(&mut self, delimiter: u8) -> (r: ReadingUntil<O, E>)
        ensures
            final(self).child == old(self).child,
            final(self).stdin == old(self).stdin,
            final(self).stdout_reader is None,
            final(self).stderr_reader == old(self).stderr_reader,
            read_until_starts(r, old(self).spec_pipes(), delimiter),
    {
        match self.stdout_reader.take() {
            Some(stdout) => ReadingUntil::Probe(Scan { stdout, delimiter, buf: Vec::new() }),
            None => ReadingUntil::Failed(Error::NoStdout),
        }
    }

    /// Ends a read that is done: what was read is the outcome, and stdout goes back.
    pub fn finish_read(&mut self, scan: Scan<O>) -> (r: Vec<u8>)
        ensures
            final(self).child == old(self).child,
            final(self).stdin == old(self).stdin,
            final(self).stdout_reader == Some(scan.stdout),
            final(self).stderr_reader == old(self).stderr_reader,
            r == scan.buf,
    {
        self.stdout_reader = Some(scan.stdout);
        scan.buf
    }

    /// Closes stdin, so that the process sees its end.
    pub fn close_stdin(&mut self)
        ensures
            final(self).child == old(self).child,
            final(self).stdin is None,
            final(self).stdout_reader == old(self).stdout_reader,
            final(self).stderr_reader == old(self).stderr_reader,
    {
        let _ = self.stdin.take();
    }
}

impl<C, I, O, R> SubprocessHandler for Subprocess<C, I, O, R> {
    type Stdin = I;

    type Stdout = O;

    type Rest = (C, Option<R>);

    open spec fn pipes(&self) -> Option<Pipes<I, O>> {
        self.spec_pipes()
    }

    open spec fn rest(&self) -> (C, Option<R>) {
        (self.child, self.stderr_reader)
    }

    fn write_bytes<E>(&mut self, input: &[u8]) -> (r: Writing<E>) {
        self.write_bytes(input)
    }

    fn write<E>(&mut self, input: &str) -> (r: Writing<E>) {
        self.write_bytes(input.as_bytes())
    }

    fn write_line<E>(&mut self, input: &str) -> (r: Writing<E>) {
        let mut line_end: Vec<u8> = Vec::new();
        line_end.push(NEWLINE);
        self.write_bytes(input.as_bytes()).and_then_write(line_end)
    }

    fn read_bytes<E>(&mut self) -> (r: Reading<E>) {
        self.read_bytes()
    }

    fn read_bytes_until<E>(&mut self, delimiter: u8) -> (r: ReadingUntil<O, E>) {
        self.read_bytes_until(delimiter)
    }

    fn finish_read(&mut self, scan: Scan<O>) -> (r: Vec<u8>) {
        self.finish_read(scan)
    }

    fn read<E>(&mut self) -> (r: Text<Reading<E>>) {
        Text { bytes: self.read_bytes() }
    }

    fn read_until<E>(&mut self, delimiter: u8) -> (r: Text<ReadingUntil<O, E>>) {
        Text { bytes: self.read_bytes_until(delimiter) }
    }

    fn read_line<E>(&mut self) -> (r: Text<ReadingUntil<O, E>>) {
        Text { bytes: self.read_bytes_until(NEWLINE) }
    }

    fn is_alive(&mut self) -> (r: Probing)
        ensures
            *final(self) == *old(self),
            r == Probing::TryWait,
    {
        self.is_alive()
    }

    fn close_stdin(&mut self) {
        self.close_stdin()
    }
}

} // verus!
