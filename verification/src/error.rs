//! The ways in which an operation on a subprocess fails.

use vstd::prelude::*;

verus! {

/// The class of an error that the library itself raises.
#[derive(Clone, Copy, Debug, PartialEq, Eq, Structural)]
pub enum ErrorKind {
    BrokenPipe,
    InvalidData,
}

/// Why an operation failed. `E` is the error type of the outside work.
#[derive(Debug, PartialEq, Eq)]
pub enum Error<E> {
    /// The handle has already given its process back to the pool.
    NoProcess,
    /// The process has exited.
    NotAlive,
    /// The process has no stdin pipe, or it was closed.
    NoStdin,
    /// The process has no stdout pipe, or a failed read used it up.
    NoStdout,
    /// Bytes that were to be text are not UTF-8.
    InvalidUtf8,
    /// The outside work failed.
    Io(E),
}

impl<E> Error<E> {
    /// The class of the error; an error of the outside work has a class of its own.
    pub open spec fn spec_kind(&self) -> Option<ErrorKind> {
        match self {
            Error::Io(_) => None,
            Error::InvalidUtf8 => Some(ErrorKind::InvalidData),
            _ => Some(ErrorKind::BrokenPipe),
        }
    }

    /// The class of the error, `None` for an error of the outside work.
    pub fn kind(&self) -> (r: Option<ErrorKind>)
        ensures
            r == self.spec_kind(),
    {
        match self {
            Error::Io(_) => None,
            Error::InvalidUtf8 => Some(ErrorKind::InvalidData),
            _ => Some(ErrorKind::BrokenPipe),
        }
    }

    /// What the error says, `None` for an error of the outside work.
    pub fn message(&self) -> (r: Option<&'static str>)
        ensures
            r is None <==> self is Io,
            self is NoProcess ==> r->0@ == "No process available"@,
            self is NotAlive ==> r->0@ == "Process is no longer alive"@,
            self is NoStdin ==> r->0@ == "stdin not available"@,
            self is NoStdout ==> r->0@ == "stdout not available"@,
            self is InvalidUtf8 ==> r->0@ == "Invalid UTF-8 sequence"@,
    {
        match self {
            Error::NoProcess => Some("No process available"),
            Error::NotAlive => Some("Process is no longer alive"),
            Error::NoStdin => Some("stdin not available"),
            Error::NoStdout => Some("stdout not available"),
            Error::InvalidUtf8 => Some("Invalid UTF-8 sequence"),
            Error::Io(_) => None,
        }
    }
}

} // verus!
