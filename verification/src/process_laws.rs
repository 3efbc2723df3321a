//! What each operation on a process does, said of what goes in and of what comes out.
//!
//! As in [`crate::pool_laws`], a law speaks of the calls that the contract of an operation
//! allows.

use crate::error::{Error, ErrorKind};
use crate::handler::{Pipes, SubprocessHandler};
use crate::pooled::PooledProcess;
use crate::probe::Probing;
use crate::read::{Reading, ReadingUntil, Request, Scan};
use crate::subprocess::{Spawned, Subprocess};
use crate::text::{decode, Text};
use crate::write::{Draft, Writing};
use vstd::prelude::*;
use vstd::utf8::{decode_utf8, encode_utf8, valid_utf8};

verus! {

/// Whether `r` is the child that a start gave, with exactly the pipes that it came with, or the
/// error that kept it from starting.
pub open spec fn is_as_started<C, I, O, R, E>(
    r: Result<Subprocess<C, I, O, R>, Error<E>>,
    spawned: Result<Spawned<C, I, O, R>, E>,
) -> bool {
    match spawned {
        Ok(s) => {
            &&& r is Ok
            &&& r->Ok_0.child == s.child
            &&& r->Ok_0.stdin == s.stdin
            &&& r->Ok_0.stdout_reader == s.stdout
            &&& r->Ok_0.stderr_reader == s.stderr
        },
        Err(e) => r == Err::<Subprocess<C, I, O, R>, Error<E>>(Error::Io(e)),
    }
}

/// A process that was started is the child that spawning gave, with its pipes: each of them if
/// and only if it was there, whatever the others. If it could not be spawned, its error says why.
pub proof fn law_a_process_has_its_pipes<
    C,
    I,
    O,
    R,
    K,
    E,
    B: FnOnce() -> K,
    S: FnOnce(K) -> Result<Spawned<C, I, O, R>, E>,
>(builder: B, spawn: S, r: Result<Subprocess<C, I, O, R>, Error<E>>)
    requires
        call_ensures(Subprocess::<C, I, O, R>::new::<K, E, B, S>, (builder, spawn), r)
            || call_ensures(
            Subprocess::<C, I, O, R>::from_builder::<K, E, B, S>,
            (builder, spawn),
            r,
        ),
    ensures
        exists|command: K, spawned: Result<Spawned<C, I, O, R>, E>|
            {
                &&& builder.ensures((), command)
                &&& #[trigger] spawn.ensures((command,), spawned)
                &&& is_as_started(r, spawned)
            },
{
    let (command, spawned) = choose|command: K, spawned: Result<Spawned<C, I, O, R>, E>|
        {
            &&& builder.ensures((), command)
            &&& #[trigger] spawn.ensures((command,), spawned)
            &&& r == Subprocess::<C, I, O, R>::spec_started(spawned)
        };
    assert(spawn.ensures((command,), spawned) && is_as_started(r, spawned));
}

/// If all that spawning can give is one child, that child with its pipes is what comes of it.
pub proof fn law_a_start_is_the_start<
    C,
    I,
    O,
    R,
    K,
    E,
    B: FnOnce() -> K,
    S: FnOnce(K) -> Result<Spawned<C, I, O, R>, E>,
>(
    builder: B,
    spawn: S,
    given: Result<Spawned<C, I, O, R>, E>,
    r: Result<Subprocess<C, I, O, R>, Error<E>>,
)
    requires
        forall|command: K, spawned: Result<Spawned<C, I, O, R>, E>|
            builder.ensures((), command) && #[trigger] spawn.ensures((command,), spawned)
                ==> spawned == given,
        call_ensures(Subprocess::<C, I, O, R>::new::<K, E, B, S>, (builder, spawn), r)
            || call_ensures(
            Subprocess::<C, I, O, R>::from_builder::<K, E, B, S>,
            (builder, spawn),
            r,
        ),
    ensures
        is_as_started(r, given),
{
    law_a_process_has_its_pipes(builder, spawn, r);
}

/// What operations depend on are the pipes that a process has, and nothing else of it is theirs.
pub proof fn law_pipes_are_those_of_the_process<C, I, O, R>(
    process: Subprocess<C, I, O, R>,
    on_loan: PooledProcess<Subprocess<C, I, O, R>>,
)
    ensures
        process.pipes() == Some(
            Pipes { stdin: process.stdin, stdout: process.stdout_reader },
        ),
        process.rest() == (process.child, process.stderr_reader),
        on_loan.process is None ==> on_loan.pipes() is None && on_loan.rest() is None,
        on_loan.process is Some ==> on_loan.pipes() == on_loan.process->0.pipes()
            && on_loan.rest() == Some(on_loan.process->0.rest()),
{
}

/// A loan is the process that was lent, until it is taken out: then there is none.
pub proof fn law_a_loan_is_taken_out_once<H>(
    process: H,
    fresh: PooledProcess<H>,
    loan: &mut PooledProcess<H>,
    r: Option<H>,
)
    requires
        call_ensures(PooledProcess::<H>::new, (process,), fresh),
        call_ensures(PooledProcess::<H>::release, (loan,), r),
    ensures
        fresh.process == Some(process),
        r == old(loan).process,
        final(loan).process is None,
{
}

/// A process counts as alive if and only if the question for its exit status succeeds and there
/// is none yet.
pub proof fn law_alive_is_not_exited<S, W>(status: Result<Option<S>, W>, r: bool)
    requires
        call_ensures(Probing::waited::<S, W>, (status,), r),
    ensures
        r ==> status is Ok && status->Ok_0 is None,
        !r ==> status is Err || status->Ok_0 is Some,
{
}

/// A write to a dead process fails, and one to a live process fails if and only if it has no
/// stdin. Else all of the bytes are to be written.
pub proof fn law_a_write_needs_life_and_stdin<E>(draft: Draft, alive: bool, r: Writing<E>)
    requires
        call_ensures(Draft::probed::<E>, (draft, alive), r),
    ensures
        r is Write <==> alive && draft.stdin_open,
        r is Write ==> r->Write_0 == draft,
        !alive ==> r == Writing::<E>::Done(Err(Error::NotAlive)),
        alive && !draft.stdin_open ==> r == Writing::<E>::Done(Err(Error::NoStdin)),
{
}

/// What was written is flushed, and an error of the write is its outcome.
pub proof fn law_what_is_written_is_flushed<E>(draft: Draft, result: Result<(), E>, r: Writing<E>)
    requires
        call_ensures(Draft::wrote::<E>, (draft, result), r),
    ensures
        result is Ok ==> r == Writing::<E>::Flush(draft),
        result is Err ==> r == Writing::<E>::Done(Err(Error::Io(result->Err_0))),
{
}

/// Once flushed, a write is over unless more is to be written: then that is a write of its own
/// to the same process, with nothing after it. An error of the flush is the outcome.
pub proof fn law_what_is_flushed_is_done<E>(draft: Draft, result: Result<(), E>, r: Writing<E>)
    requires
        call_ensures(Draft::flushed::<E>, (draft, result), r),
    ensures
        result is Err ==> r == Writing::<E>::Done(Err(Error::Io(result->Err_0))),
        result is Ok && draft.next is None ==> r == Writing::<E>::Done(Ok(())),
        result is Ok && draft.next is Some ==> r is Probe && r->Probe_0.input == draft.next->0
            && r->Probe_0.next is None && r->Probe_0.stdin_open == draft.stdin_open,
{
}

/// A read of all that a process has to say fails if it is dead, or else if and only if it has no
/// stdout.
pub proof fn law_a_read_needs_life_and_stdout<E>(request: Request, alive: bool, r: Reading<E>)
    requires
        call_ensures(Request::probed::<E>, (request, alive), r),
    ensures
        r is Read <==> alive && request.stdout_open,
        !alive ==> r == Reading::<E>::Done(Err(Error::NotAlive)),
        alive && !request.stdout_open ==> r == Reading::<E>::Done(Err(Error::NoStdout)),
{
}

/// What is read to the end of stdout is the outcome, all of it, and so is an error.
pub proof fn law_all_that_is_read_is_given<E>(result: Result<Vec<u8>, E>, r: Reading<E>)
    requires
        call_ensures(Reading::<E>::finished, (result,), r),
    ensures
        r is Done,
        result is Ok ==> r->Done_0 == Ok::<Vec<u8>, Error<E>>(result->Ok_0),
        result is Err ==> r->Done_0 == Err::<Vec<u8>, Error<E>>(Error::Io(result->Err_0)),
{
}

/// A read up to a delimiter goes on as long as the process lives. Of a dead process it gives
/// what there is, and it fails only if there is nothing.
pub proof fn law_the_dead_have_said_what_they_said<O, E>(
    scan: Scan<O>,
    alive: bool,
    r: ReadingUntil<O, E>,
)
    requires
        call_ensures(Scan::<O>::probed::<E>, (scan, alive), r),
    ensures
        alive ==> r == ReadingUntil::<O, E>::Read(scan),
        !alive && scan.buf@.len() > 0 ==> r == ReadingUntil::<O, E>::Done(scan),
        !alive && scan.buf@.len() == 0 ==> r == ReadingUntil::<O, E>::Failed(Error::NotAlive),
{
}

/// Bytes that come without an error never fail a read up to a delimiter, however many: it is
/// done with all of them if they end in the delimiter, and else it rests and keeps them. An
/// error is its outcome.
pub proof fn law_a_read_succeeds_when_the_delimiter_comes<O, E>(
    scan: Scan<O>,
    result: Result<Vec<u8>, E>,
    r: ReadingUntil<O, E>,
)
    requires
        call_ensures(Scan::<O>::received::<E>, (scan, result), r),
    ensures
        result is Err ==> r == ReadingUntil::<O, E>::Failed(Error::Io(result->Err_0)),
        result is Ok ==> ({
            let all = scan.buf@ + result->Ok_0@;
            if all.len() > 0 && all.last() == scan.delimiter {
                &&& r matches ReadingUntil::Done(after)
                &&& after.buf@ == all
                &&& after.stdout == scan.stdout
                &&& after.delimiter == scan.delimiter
            } else {
                &&& r matches ReadingUntil::Rest(after, millis)
                &&& millis == 10
                &&& after.buf@ == all
                &&& after.stdout == scan.stdout
                &&& after.delimiter == scan.delimiter
            }
        }),
{
}

/// After a rest a read asks again whether the process is alive, with all that it has.
pub proof fn law_a_rest_loses_nothing<O, E>(scan: Scan<O>, r: ReadingUntil<O, E>)
    requires
        call_ensures(Scan::<O>::rested::<E>, (scan,), r),
    ensures
        r == ReadingUntil::<O, E>::Probe(scan),
{
}

/// Whether `text` is what came of a read of `bytes` that was to give text.
pub open spec fn reads_as<E>(
    text: Result<String, Error<E>>,
    bytes: Result<Vec<u8>, Error<E>>,
) -> bool {
    &&& bytes is Err ==> text is Err && text->Err_0 == bytes->Err_0
    &&& bytes is Ok && valid_utf8(bytes->Ok_0@) ==> text is Ok && text->Ok_0@ == decode_utf8(
        bytes->Ok_0@,
    )
    &&& bytes is Ok && !valid_utf8(bytes->Ok_0@) ==> text is Err && text->Err_0 is InvalidUtf8
}

/// Bytes that are UTF-8 are read as the text that they encode, all of it; others are an error,
/// and so is what was one before.
pub proof fn law_text_is_all_of_the_bytes<M, E>(
    read: Text<M>,
    begun: (M, Text<()>),
    bytes: Result<Vec<u8>, Error<E>>,
    text: Result<String, Error<E>>,
)
    requires
        call_ensures(Text::<M>::start, (read,), begun),
        call_ensures(decode::<E>, (bytes,), text) || call_ensures(
            Text::<M>::finish::<E>,
            (read, bytes),
            text,
        ),
    ensures
        begun.0 == read.bytes,
        reads_as(text, bytes),
{
}

/// Text that was written is the text that is read, if the bytes come back as they are.
pub proof fn law_text_survives<E>(text: Seq<char>, bytes: Vec<u8>, r: Result<String, Error<E>>)
    requires
        bytes@ == encode_utf8(text),
        call_ensures(decode::<E>, (Ok::<Vec<u8>, Error<E>>(bytes),), r),
    ensures
        r is Ok,
        r->Ok_0@ == text,
{
    vstd::utf8::encode_utf8_valid_utf8(text);
    vstd::utf8::encode_utf8_decode_utf8(text);
}

/// Every error but one of the outside work has a class: bytes that are no text are invalid data,
/// and all else is a broken pipe. Those errors say what is wrong, each in its own words.
pub proof fn law_errors_say_what_is_wrong<E>(
    error: Error<E>,
    kind: Option<ErrorKind>,
    message: Option<&'static str>,
)
    requires
        call_ensures(Error::<E>::kind, (&error,), kind),
        call_ensures(Error::<E>::message, (&error,), message),
    ensures
        error is Io <==> kind is None,
        error is Io <==> message is None,
        error is InvalidUtf8 <==> kind == Some(ErrorKind::InvalidData),
        error is NoProcess ==> message->0@ == "No process available"@,
        error is NotAlive ==> message->0@ == "Process is no longer alive"@,
        error is NoStdin ==> message->0@ == "stdin not available"@,
        error is NoStdout ==> message->0@ == "stdout not available"@,
        error is InvalidUtf8 ==> message->0@ == "Invalid UTF-8 sequence"@,
{
}

/// Whether `w` is a write of `input`, and then of `next`, to a process with these pipes that has
/// not begun; without a process it has failed.
pub open spec fn is_write_of<I, O, E>(
    w: Writing<E>,
    pipes: Option<Pipes<I, O>>,
    input: Seq<u8>,
    next: Option<Seq<u8>>,
) -> bool {
    if pipes is None {
        w == Writing::<E>::Done(Err(Error::NoProcess))
    } else {
        &&& w is Probe
        &&& w->Probe_0.input@ == input
        &&& w->Probe_0.stdin_open <==> pipes->0.stdin is Some
        &&& w->Probe_0.next is Some <==> next is Some
        &&& next is Some ==> w->Probe_0.next->0@ == next->0
    }
}

/// A write of bytes is a write of just those, and changes nothing of the process.
pub proof fn law_bytes_are_written_as_they_are<H: SubprocessHandler, E>(
    process: &mut H,
    input: &[u8],
    w: Writing<E>,
)
    requires
        call_ensures(H::write_bytes::<E>, (process, input), w),
    ensures
        is_write_of(w, old(process).pipes(), input@, None),
        final(process).pipes() == old(process).pipes(),
        final(process).rest() == old(process).rest(),
{
}

/// A write of text is a write of just its encoding.
pub proof fn law_text_is_written_encoded<H: SubprocessHandler, E>(
    process: &mut H,
    input: &str,
    w: Writing<E>,
)
    requires
        call_ensures(H::write::<E>, (process, input), w),
    ensures
        is_write_of(w, old(process).pipes(), encode_utf8(input@), None),
        final(process).pipes() == old(process).pipes(),
        final(process).rest() == old(process).rest(),
{
}

/// A write of a line is a write of the encoding of its text and then of a line end.
pub proof fn law_a_line_is_written_with_its_end<H: SubprocessHandler, E>(
    process: &mut H,
    input: &str,
    w: Writing<E>,
)
    requires
        call_ensures(H::write_line::<E>, (process, input), w),
    ensures
        is_write_of(w, old(process).pipes(), encode_utf8(input@), Some(seq![10u8])),
        final(process).pipes() == old(process).pipes(),
        final(process).rest() == old(process).rest(),
{
}

/// Whether `r` is a read of all that a process with these pipes has to say that has not begun;
/// without a process it has failed.
pub open spec fn is_read_of_all<I, O, E>(r: Reading<E>, pipes: Option<Pipes<I, O>>) -> bool {
    if pipes is None {
        r == Reading::<E>::Done(Err(Error::NoProcess))
    } else {
        r is Probe && (r->Probe_0.stdout_open <==> pipes->0.stdout is Some)
    }
}

/// A read of all that a process has to say, as bytes or as text, begins with what it has, and
/// changes nothing of the process.
pub proof fn law_a_read_of_all_begins<H: SubprocessHandler, E>(
    process: &mut H,
    bytes: Reading<E>,
    other: &mut H,
    text: Text<Reading<E>>,
)
    requires
        call_ensures(H::read_bytes::<E>, (process,), bytes),
        call_ensures(H::read::<E>, (other,), text),
    ensures
        is_read_of_all(bytes, old(process).pipes()),
        final(process).pipes() == old(process).pipes(),
        final(process).rest() == old(process).rest(),
        is_read_of_all(text.bytes, old(other).pipes()),
        final(other).pipes() == old(other).pipes(),
        final(other).rest() == old(other).rest(),
{
}

/// Whether `r` is a read up to `delimiter` from the stdout among these pipes that has not begun;
/// without a process, or without stdout, it has failed.
pub open spec fn is_read_up_to<I, O, E>(
    r: ReadingUntil<O, E>,
    pipes: Option<Pipes<I, O>>,
    delimiter: u8,
) -> bool {
    if pipes is None {
        r == ReadingUntil::<O, E>::Failed(Error::NoProcess)
    } else if pipes->0.stdout is None {
        r == ReadingUntil::<O, E>::Failed(Error::NoStdout)
    } else {
        &&& r matches ReadingUntil::Probe(scan)
        &&& scan.stdout == pipes->0.stdout->0
        &&& scan.delimiter == delimiter
        &&& scan.buf@.len() == 0
    }
}

/// Whether the pipes of a process lost their stdout between two moments, and nothing else.
pub open spec fn stdout_is_out<I, O>(
    before: Option<Pipes<I, O>>,
    after: Option<Pipes<I, O>>,
) -> bool {
    &&& before is None <==> after is None
    &&& before is Some ==> after->0.stdin == before->0.stdin && after->0.stdout is None
}

/// A read up to a delimiter, as bytes or as text, takes the stdout of the process along, and
/// changes nothing else of it.
pub proof fn law_a_read_takes_stdout_along<H: SubprocessHandler, E>(
    process: &mut H,
    delimiter: u8,
    bytes: ReadingUntil<H::Stdout, E>,
    other: &mut H,
    text: Text<ReadingUntil<H::Stdout, E>>,
)
    requires
        call_ensures(H::read_bytes_until::<E>, (process, delimiter), bytes),
        call_ensures(H::read_until::<E>, (other, delimiter), text),
    ensures
        is_read_up_to(bytes, old(process).pipes(), delimiter),
        stdout_is_out(old(process).pipes(), final(process).pipes()),
        final(process).rest() == old(process).rest(),
        is_read_up_to(text.bytes, old(other).pipes(), delimiter),
        stdout_is_out(old(other).pipes(), final(other).pipes()),
        final(other).rest() == old(other).rest(),
{
}

/// A read of a line is a read up to a line end.
pub proof fn law_a_line_is_read_up_to_its_end<H: SubprocessHandler, E>(
    process: &mut H,
    r: Text<ReadingUntil<H::Stdout, E>>,
)
    requires
        call_ensures(H::read_line::<E>, (process,), r),
    ensures
        is_read_up_to(r.bytes, old(process).pipes(), 10u8),
        stdout_is_out(old(process).pipes(), final(process).pipes()),
        final(process).rest() == old(process).rest(),
{
}

/// A read that is done gives all that it read, and the process has its stdout again.
pub proof fn law_stdout_comes_back<H: SubprocessHandler>(
    process: &mut H,
    scan: Scan<H::Stdout>,
    r: Vec<u8>,
)
    requires
        call_ensures(H::finish_read, (process, scan), r),
    ensures
        r@ == scan.buf@,
        final(process).rest() == old(process).rest(),
        old(process).pipes() is None <==> final(process).pipes() is None,
        old(process).pipes() is Some ==> final(process).pipes()->0.stdout == Some(scan.stdout)
            && final(process).pipes()->0.stdin == old(process).pipes()->0.stdin,
{
}

/// Whether a process is alive is asked of the process; where there is none, none is alive.
pub proof fn law_life_is_asked_of_the_process<H: SubprocessHandler>(process: &mut H, r: Probing)
    requires
        call_ensures(H::is_alive, (process,), r),
    ensures
        old(process).pipes() is Some ==> r is TryWait,
        old(process).pipes() is None ==> r == Probing::Done(false),
        final(process).pipes() == old(process).pipes(),
        final(process).rest() == old(process).rest(),
{
}

/// Every answer to the work that is due is taken, and so is every question: a write and a read
/// can be gone on with whatever the answer, with however many bytes.
pub proof fn law_every_answer_is_taken<O, E>(
    draft: Draft,
    request: Request,
    scan: Scan<O>,
    alive: bool,
    written: Result<(), E>,
    read: Result<Vec<u8>, E>,
    outcome: Result<Vec<u8>, Error<E>>,
)
    ensures
        call_requires(Draft::probed::<E>, (draft, alive)),
        call_requires(Draft::wrote::<E>, (draft, written)),
        call_requires(Draft::flushed::<E>, (draft, written)),
        call_requires(Request::probed::<E>, (request, alive)),
        call_requires(Reading::<E>::finished, (read,)),
        call_requires(Scan::<O>::probed::<E>, (scan, alive)),
        call_requires(Scan::<O>::received::<E>, (scan, read)),
        call_requires(Scan::<O>::rested::<E>, (scan,)),
        call_requires(decode::<E>, (outcome,)),
{
}

/// A process can be started by whatever describes it, as long as that can be called and what it
/// gives can be spawned.
pub proof fn law_whatever_can_be_spawned_can_be_started<
    C,
    I,
    O,
    R,
    K,
    E,
    B: FnOnce() -> K,
    S: FnOnce(K) -> Result<Spawned<C, I, O, R>, E>,
>(builder: B, spawn: S)
    requires
        builder.requires(()),
        forall|command: K| builder.ensures((), command) ==> #[trigger] spawn.requires((command,)),
    ensures
        call_requires(Subprocess::<C, I, O, R>::new::<K, E, B, S>, (builder, spawn)),
        call_requires(Subprocess::<C, I, O, R>::from_builder::<K, E, B, S>, (builder, spawn)),
{
}

/// Writing to a process of one's own is writing just those bytes, reading from it begins with
/// what it has, and neither changes anything of it.
pub proof fn law_own_process_is_left_alone<C, I, O, R, E>(
    process: &mut Subprocess<C, I, O, R>,
    input: &[u8],
    w: Writing<E>,
    other: &mut Subprocess<C, I, O, R>,
    bytes: Reading<E>,
    third: &mut Subprocess<C, I, O, R>,
    probing: Probing,
)
    requires
        call_ensures(Subprocess::<C, I, O, R>::write_bytes::<E>, (process, input), w),
        call_ensures(Subprocess::<C, I, O, R>::read_bytes::<E>, (other,), bytes),
        call_ensures(Subprocess::<C, I, O, R>::is_alive, (third,), probing),
    ensures
        *final(process) == *old(process),
        w is Probe,
        w->Probe_0.input@ == input@,
        w->Probe_0.next is None,
        w->Probe_0.stdin_open <==> old(process).stdin is Some,
        *final(other) == *old(other),
        bytes is Probe,
        bytes->Probe_0.stdout_open <==> old(other).stdout_reader is Some,
        *final(third) == *old(third),
        probing is TryWait,
{
}

/// A read up to a delimiter takes the stdout of a process of one's own along, a read that is
/// done brings it back with all that was read, and closing stdin takes just that.
pub proof fn law_own_process_keeps_the_rest<C, I, O, R, E>(
    process: &mut Subprocess<C, I, O, R>,
    delimiter: u8,
    r: ReadingUntil<O, E>,
    other: &mut Subprocess<C, I, O, R>,
    scan: Scan<O>,
    bytes: Vec<u8>,
    third: &mut Subprocess<C, I, O, R>,
    closed: (),
)
    requires
        call_ensures(Subprocess::<C, I, O, R>::read_bytes_until::<E>, (process, delimiter), r),
        call_ensures(Subprocess::<C, I, O, R>::finish_read, (other, scan), bytes),
        call_ensures(Subprocess::<C, I, O, R>::close_stdin, (third,), closed),
    ensures
        match old(process).stdout_reader {
            None => r == ReadingUntil::<O, E>::Failed(Error::NoStdout),
            Some(stdout) => {
                &&& r matches ReadingUntil::Probe(begun)
                &&& begun.stdout == stdout
                &&& begun.delimiter == delimiter
                &&& begun.buf@.len() == 0
            },
        },
        *final(process) == (Subprocess { stdout_reader: None, ..*old(process) }),
        bytes@ == scan.buf@,
        *final(other) == (Subprocess { stdout_reader: Some(scan.stdout), ..*old(other) }),
        *final(third) == (Subprocess { stdin: None, ..*old(third) }),
{
}

/// Every operation can be asked for of every process, with whatever is to be written.
pub proof fn law_every_operation_can_be_asked_for<H: SubprocessHandler, E>(
    process: &mut H,
    bytes: &[u8],
    text: &str,
    delimiter: u8,
    scan: Scan<H::Stdout>,
)
    ensures
        call_requires(H::write_bytes::<E>, (process, bytes)),
        call_requires(H::write::<E>, (process, text)),
        call_requires(H::write_line::<E>, (process, text)),
        call_requires(H::read_bytes::<E>, (process,)),
        call_requires(H::read::<E>, (process,)),
        call_requires(H::read_bytes_until::<E>, (process, delimiter)),
        call_requires(H::read_until::<E>, (process, delimiter)),
        call_requires(H::read_line::<E>, (process,)),
        call_requires(H::finish_read, (process, scan)),
        call_requires(H::is_alive, (process,)),
        call_requires(H::close_stdin, (process,)),
{
}

/// Closing stdin takes stdin away and nothing else.
pub proof fn law_only_stdin_is_closed<H: SubprocessHandler>(process: &mut H, r: ())
    requires
        call_ensures(H::close_stdin, (process,), r),
    ensures
        old(process).pipes() is None <==> final(process).pipes() is None,
        old(process).pipes() is Some ==> final(process).pipes()->0.stdin is None
            && final(process).pipes()->0.stdout == old(process).pipes()->0.stdout,
        final(process).rest() == old(process).rest(),
{
}

} // verus!
