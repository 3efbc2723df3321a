//! What holds of whole conversations with a process.
//!
//! A conversation is a machine together with the answers that the outside work gave, in
//! their order. The machines are those of [`crate::write`] and [`crate::read`], and they go
//! on as the contracts there say.

use crate::error::Error;
use crate::handler::{read_until_starts, write_starts, Pipes, SubprocessHandler, NEWLINE};
use crate::read::{ReadingUntil, Scan};
use crate::subprocess::{Spawned, Subprocess};
use crate::text::is_text_of;
use crate::write::{Draft, Writing};
use vstd::prelude::*;
use vstd::utf8::{encode_scalar, encode_utf8};

verus! {

/// An answer to the outside work that a write asks for.
pub enum WriteAnswer<E> {
    Alive(bool),
    Wrote(Result<(), E>),
    Flushed(Result<(), E>),
}

/// The write one answer further. An answer to work that is not due changes nothing.
pub open spec fn write_step<E>(w: Writing<E>, answer: WriteAnswer<E>) -> Writing<E> {
    match (w, answer) {
        (Writing::Probe(d), WriteAnswer::Alive(alive)) => d.spec_probed(alive),
        (Writing::Write(d), WriteAnswer::Wrote(result)) => d.spec_wrote(result),
        (Writing::Flush(d), WriteAnswer::Flushed(result)) => d.spec_flushed(result),
        _ => w,
    }
}

/// A call with an answer to the work that is due takes a write that answer further.
pub proof fn law_a_write_goes_on_by_its_answers<E>(
    d: Draft,
    alive: bool,
    result: Result<(), E>,
    w: Writing<E>,
)
    ensures
        call_ensures(Draft::probed::<E>, (d, alive), w) ==> w == write_step(
            Writing::<E>::Probe(d),
            WriteAnswer::Alive(alive),
        ),
        call_ensures(Draft::wrote::<E>, (d, result), w) ==> w == write_step(
            Writing::<E>::Write(d),
            WriteAnswer::Wrote(result),
        ),
        call_ensures(Draft::flushed::<E>, (d, result), w) ==> w == write_step(
            Writing::<E>::Flush(d),
            WriteAnswer::Flushed(result),
        ),
{
}

/// The write after all the answers.
pub open spec fn write_run<E>(w: Writing<E>, answers: Seq<WriteAnswer<E>>) -> Writing<E>
    decreases answers.len(),
{
    if answers.len() == 0 {
        w
    } else {
        write_run(write_step(w, answers[0]), answers.drop_first())
    }
}

/// The bytes that one answer reports as written.
pub open spec fn sent_by<E>(w: Writing<E>, answer: WriteAnswer<E>) -> Seq<u8> {
    match (w, answer) {
        (Writing::Write(d), WriteAnswer::Wrote(Ok(_))) => d.input@,
        _ => Seq::empty(),
    }
}

/// The bytes that all the answers report as written.
pub open spec fn sent<E>(w: Writing<E>, answers: Seq<WriteAnswer<E>>) -> Seq<u8>
    decreases answers.len(),
{
    if answers.len() == 0 {
        Seq::empty()
    } else {
        sent_by(w, answers[0]) + sent(write_step(w, answers[0]), answers.drop_first())
    }
}

/// The bytes of a draft that come after its input.
pub open spec fn rest_of(d: Draft) -> Seq<u8> {
    match d.next {
        Some(bytes) => bytes@,
        None => Seq::empty(),
    }
}

/// The bytes that a write still has to send.
pub open spec fn owed<E>(w: Writing<E>) -> Seq<u8> {
    match w {
        Writing::Probe(d) => d.input@ + rest_of(d),
        Writing::Write(d) => d.input@ + rest_of(d),
        Writing::Flush(d) => rest_of(d),
        Writing::Done(_) => Seq::empty(),
    }
}

/// Answers to a write that is over change nothing.
proof fn lemma_done_stays<E>(outcome: Result<(), Error<E>>, answers: Seq<WriteAnswer<E>>)
    ensures
        write_run(Writing::Done(outcome), answers) == Writing::Done(outcome),
    decreases answers.len(),
{
    if answers.len() > 0 {
        lemma_done_stays(outcome, answers.drop_first());
    }
}

/// Whatever the answers, the bytes that reach the process are the first ones of those it was
/// sent, in their order; and if the write succeeds, they are all of them.
pub proof fn law_write_sends_in_order<E>(w: Writing<E>, answers: Seq<WriteAnswer<E>>)
    ensures
        sent(w, answers).is_prefix_of(owed(w)),
        write_run(w, answers) == Writing::<E>::Done(Ok(())) ==> sent(w, answers) == owed(w),
    decreases answers.len(),
{
    if answers.len() > 0 {
        let next = write_step(w, answers[0]);
        let later = sent(next, answers.drop_first());
        law_write_sends_in_order(next, answers.drop_first());
        if let Writing::Done(outcome) = next {
            lemma_done_stays(outcome, answers.drop_first());
        }
        match (w, answers[0]) {
            (Writing::Write(d), WriteAnswer::Wrote(Ok(_))) => {
                assert(owed(w) =~= d.input@ + owed(next));
                assert(sent(w, answers) =~= d.input@ + later);
            },
            _ => {
                assert(sent(w, answers) =~= later);
                assert(later.is_prefix_of(owed(next)));
                assert(owed(next) =~= owed(w) || owed(next).len() == 0);
            },
        }
    }
}

/// Nothing is sent to a process that has no stdin, and such a write never succeeds: a live
/// process lacks stdin, a dead one is dead.
pub proof fn law_closed_stdin_sends_nothing<E>(d: Draft, answers: Seq<WriteAnswer<E>>)
    requires
        !d.stdin_open,
    ensures
        sent(Writing::Probe(d), answers) == Seq::<u8>::empty(),
        ({
            let w = write_run(Writing::Probe(d), answers);
            ||| w == Writing::<E>::Probe(d)
            ||| w == Writing::<E>::Done(Err(Error::NoStdin))
            ||| w == Writing::<E>::Done(Err(Error::NotAlive))
        }),
    decreases answers.len(),
{
    if answers.len() > 0 {
        let next = write_step(Writing::Probe(d), answers[0]);
        match next {
            Writing::Done(outcome) => {
                lemma_done_stays(outcome, answers.drop_first());
                law_write_sends_in_order(next, answers.drop_first());
            },
            _ => law_closed_stdin_sends_nothing(d, answers.drop_first()),
        }
    }
}

/// Nothing is sent to a process that the first probe finds dead, and the write fails for
/// that reason.
pub proof fn law_dead_process_gets_nothing<E>(d: Draft, answers: Seq<WriteAnswer<E>>)
    requires
        answers.len() > 0,
        answers[0] == WriteAnswer::<E>::Alive(false),
    ensures
        sent(Writing::Probe(d), answers) == Seq::<u8>::empty(),
        write_run(Writing::Probe(d), answers) == Writing::<E>::Done(Err(Error::NotAlive)),
{
    let over: Writing<E> = Writing::Done(Err(Error::NotAlive));
    lemma_done_stays(Err(Error::<E>::NotAlive), answers.drop_first());
    law_write_sends_in_order(over, answers.drop_first());
}

/// The answers of a live process to which everything can be written, for one piece of input.
pub open spec fn good_answers<E>() -> Seq<WriteAnswer<E>> {
    seq![WriteAnswer::Alive(true), WriteAnswer::Wrote(Ok(())), WriteAnswer::Flushed(Ok(()))]
}

/// A write to a live process with stdin succeeds once every piece is written and flushed.
pub proof fn law_write_succeeds<E>(d: Draft)
    requires
        d.stdin_open,
    ensures
        d.next is None ==> write_run(Writing::Probe(d), good_answers::<E>()) == Writing::<E>::Done(
            Ok(()),
        ),
        d.next is Some ==> write_run(
            Writing::Probe(d),
            good_answers::<E>() + good_answers::<E>(),
        ) == Writing::<E>::Done(Ok(())),
{
    reveal_with_fuel(write_run, 7);
    let once = good_answers::<E>();
    let twice = once + once;
    assert(once.drop_first().drop_first().drop_first() =~= Seq::empty());
    assert(twice.drop_first().drop_first().drop_first() =~= once);
}

/// What is written to a process as it was started, with stdin and alive, is sent: once every
/// piece is written and flushed, the write has succeeded and all of the bytes have reached it.
pub proof fn law_a_started_process_is_written_to<C, I, O, R, E>(
    spawned: Spawned<C, I, O, R>,
    process: Subprocess<C, I, O, R>,
    input: Seq<u8>,
    w: Writing<E>,
)
    requires
        spawned.stdin is Some,
        Subprocess::<C, I, O, R>::spec_started::<E>(Ok(spawned)) == Ok::<
            Subprocess<C, I, O, R>,
            Error<E>,
        >(process),
        write_starts(w, process.pipes(), input, None),
    ensures
        write_run(w, good_answers::<E>()) == Writing::<E>::Done(Ok(())),
        sent(w, good_answers::<E>()) == input,
{
    law_write_succeeds::<E>(w->Probe_0);
    law_write_sends_in_order(w, good_answers::<E>());
    assert(owed(w) =~= input);
}

/// The UTF-8 encoding of a text with a line end is that of the text with the line-end byte.
proof fn lemma_encode_line(text: Seq<char>)
    ensures
        encode_utf8(text.push('\n')) == encode_utf8(text).push(NEWLINE),
    decreases text.len(),
{
    let line = text.push('\n');
    if text.len() == 0 {
        assert(line.drop_first() =~= Seq::<char>::empty());
        assert(encode_utf8(line.drop_first()) =~= Seq::<u8>::empty());
        assert(10u32 & 0x7F == 10) by (bit_vector);
        assert(encode_scalar('\n' as u32) =~= seq![NEWLINE]);
    } else {
        assert(line.drop_first() =~= text.drop_first().push('\n'));
        lemma_encode_line(text.drop_first());
        assert(encode_utf8(line) =~= encode_utf8(text).push(NEWLINE));
    }
}

/// A line that is written successfully has reached the process as the UTF-8 encoding of the
/// text with a line end.
pub proof fn law_write_line_sends_line<I, O, E>(
    text: Seq<char>,
    pipes: Pipes<I, O>,
    w: Writing<E>,
    answers: Seq<WriteAnswer<E>>,
)
    requires
        write_starts(w, Some(pipes), encode_utf8(text), Some(seq![NEWLINE])),
        write_run(w, answers) == Writing::<E>::Done(Ok(())),
    ensures
        sent(w, answers) == encode_utf8(text.push('\n')),
{
    law_write_sends_in_order(w, answers);
    lemma_encode_line(text);
    assert(owed(w) =~= encode_utf8(text).push(NEWLINE));
}

/// What was encoded as UTF-8 is read as the text that it was.
pub proof fn law_text_reads_back<E>(
    text: Seq<char>,
    bytes: Vec<u8>,
    r: Result<String, Error<E>>,
)
    requires
        bytes@ == encode_utf8(text),
        is_text_of(r, Ok(bytes)),
    ensures
        r matches Ok(t) && t@ == text,
{
    vstd::utf8::encode_utf8_valid_utf8(text);
    vstd::utf8::encode_utf8_decode_utf8(text);
}

/// An answer to the outside work that a read up to a delimiter asks for.
pub enum ReadAnswer<E> {
    Alive(bool),
    Received(Result<Vec<u8>, E>),
    Rested,
}

/// Whether `next` is the read `r` one answer further: what a call with that answer can give.
pub open spec fn read_step<O, E>(
    r: ReadingUntil<O, E>,
    answer: ReadAnswer<E>,
    next: ReadingUntil<O, E>,
) -> bool {
    match (r, answer) {
        (ReadingUntil::Probe(scan), ReadAnswer::Alive(alive)) => call_ensures(
            Scan::<O>::probed::<E>,
            (scan, alive),
            next,
        ),
        (ReadingUntil::Read(scan), ReadAnswer::Received(result)) => call_ensures(
            Scan::<O>::received::<E>,
            (scan, result),
            next,
        ),
        (ReadingUntil::Rest(scan, _), ReadAnswer::Rested) => call_ensures(
            Scan::<O>::rested::<E>,
            (scan,),
            next,
        ),
        _ => false,
    }
}

/// Whether `reads` are the states of one read, each an answer further than the one before.
pub open spec fn read_run<O, E>(
    reads: Seq<ReadingUntil<O, E>>,
    answers: Seq<ReadAnswer<E>>,
) -> bool {
    &&& reads.len() == answers.len() + 1
    &&& forall|i: int|
        0 <= i < answers.len() ==> #[trigger] read_step(reads[i], answers[i], reads[i + 1])
}

/// All the bytes that the answers brought, in their order.
pub open spec fn brought<E>(answers: Seq<ReadAnswer<E>>) -> Seq<u8>
    decreases answers.len(),
{
    if answers.len() == 0 {
        Seq::empty()
    } else {
        let before = brought(answers.drop_last());
        match answers.last() {
            ReadAnswer::Received(Ok(chunk)) => before + chunk@,
            _ => before,
        }
    }
}

/// Whether the delimiter is nowhere in the bytes, but perhaps at their end.
pub open spec fn ends_at(bytes: Seq<u8>, delimiter: u8) -> bool {
    forall|k: int| 0 <= k < bytes.len() - 1 ==> bytes[k] != delimiter
}

/// Whether every chunk ends at the first delimiter in it, if it has one. That is what
/// reading up to and with a delimiter gives.
pub open spec fn chunks_end_at<E>(answers: Seq<ReadAnswer<E>>, delimiter: u8) -> bool {
    forall|i: int|
        0 <= i < answers.len() ==> match #[trigger] answers[i] {
            ReadAnswer::Received(Ok(chunk)) => ends_at(chunk@, delimiter),
            _ => true,
        }
}

/// The search behind a read that has not failed.
pub open spec fn scan_of<O, E>(r: ReadingUntil<O, E>) -> Option<Scan<O>> {
    match r {
        ReadingUntil::Probe(scan) => Some(scan),
        ReadingUntil::Read(scan) => Some(scan),
        ReadingUntil::Rest(scan, _) => Some(scan),
        ReadingUntil::Done(scan) => Some(scan),
        ReadingUntil::Failed(_) => None,
    }
}

/// A read without its last answer is a read.
proof fn lemma_run_without_last<O, E>(
    reads: Seq<ReadingUntil<O, E>>,
    answers: Seq<ReadAnswer<E>>,
)
    requires
        read_run(reads, answers),
        answers.len() > 0,
    ensures
        read_run(reads.drop_last(), answers.drop_last()),
{
    assert forall|i: int| 0 <= i < answers.drop_last().len() implies #[trigger] read_step(
        reads.drop_last()[i],
        answers.drop_last()[i],
        reads.drop_last()[i + 1],
    ) by {
        assert(read_step(reads[i], answers[i], reads[i + 1]));
    }
}

/// A read that has not failed has all the bytes that came and nothing else, and it still has
/// the stdout that it started with. While it goes on, it has not met the delimiter.
proof fn lemma_read_so_far<I, O, E>(
    pipes: Pipes<I, O>,
    delimiter: u8,
    reads: Seq<ReadingUntil<O, E>>,
    answers: Seq<ReadAnswer<E>>,
)
    requires
        read_run(reads, answers),
        read_until_starts(reads[0], Some(pipes), delimiter),
    ensures
        scan_of(reads.last()) matches Some(scan) ==> {
            &&& pipes.stdout == Some(scan.stdout)
            &&& scan.delimiter == delimiter
            &&& scan.buf@ == brought(answers)
            &&& chunks_end_at(answers, delimiter) ==> {
                &&& ends_at(scan.buf@, delimiter)
                &&& reads.last() !is Done ==> !scan.buf@.contains(delimiter)
            }
        },
    decreases answers.len(),
{
    if answers.len() > 0 {
        let n = answers.len() - 1;
        let reads_before = reads.drop_last();
        let answers_before = answers.drop_last();
        lemma_run_without_last(reads, answers);
        lemma_read_so_far(pipes, delimiter, reads_before, answers_before);
        assert(read_step(reads[n], answers[n], reads[n + 1]));
        assert(reads_before.last() == reads[n]);
        if chunks_end_at(answers, delimiter) {
            assert forall|i: int| 0 <= i < answers_before.len() implies match #[trigger] answers_before[i] {
                ReadAnswer::Received(Ok(chunk)) => ends_at(chunk@, delimiter),
                _ => true,
            } by {
                assert(answers_before[i] == answers[i]);
            }
            assert(answers[n] == answers.last());
        }
    }
}

/// A read up to a delimiter that is done has all the bytes that came and nothing else, and
/// at least one. It ends in the delimiter, or else the process was found dead. Stdout is the
/// one that it started with. If the process was found dead before it said anything, the read
/// fails.
pub proof fn law_read_until_gives_all<I, O, E>(
    pipes: Pipes<I, O>,
    delimiter: u8,
    reads: Seq<ReadingUntil<O, E>>,
    answers: Seq<ReadAnswer<E>>,
)
    requires
        read_run(reads, answers),
        read_until_starts(reads[0], Some(pipes), delimiter),
    ensures
        reads.last() matches ReadingUntil::Done(scan) ==> {
            &&& scan.buf@ == brought(answers)
            &&& scan.buf@.len() > 0
            &&& scan.buf@.last() == delimiter || answers.last() == ReadAnswer::<E>::Alive(false)
            &&& pipes.stdout == Some(scan.stdout)
        },
        reads.last() == ReadingUntil::<O, E>::Failed(Error::NotAlive) ==> brought(answers)
            == Seq::<u8>::empty(),
{
    lemma_read_so_far(pipes, delimiter, reads, answers);
    if answers.len() > 0 {
        let n = answers.len() - 1;
        let reads_before = reads.drop_last();
        let answers_before = answers.drop_last();
        lemma_run_without_last(reads, answers);
        lemma_read_so_far(pipes, delimiter, reads_before, answers_before);
        assert(read_step(reads[n], answers[n], reads[n + 1]));
    }
}

/// A read up to a delimiter goes on and ends as what came says, and for no other reason. It is
/// done when the last bytes came and all that came ends in the delimiter, or when the process is
/// found dead after it said something. It fails when an attempt to read fails, when the process
/// is found dead and has said nothing, or at once where there is no stdout. Else it goes on.
pub proof fn law_a_read_ends_for_a_reason<I, O, E>(
    pipes: Pipes<I, O>,
    delimiter: u8,
    reads: Seq<ReadingUntil<O, E>>,
    answers: Seq<ReadAnswer<E>>,
)
    requires
        read_run(reads, answers),
        read_until_starts(reads[0], Some(pipes), delimiter),
    ensures
        ({
            let all = brought(answers);
            let r = reads.last();
            if answers.len() == 0 {
                if pipes.stdout is Some {
                    r is Probe
                } else {
                    r == ReadingUntil::<O, E>::Failed(Error::NoStdout)
                }
            } else {
                match answers.last() {
                    ReadAnswer::Alive(alive) => if alive {
                        r is Read
                    } else if all.len() > 0 {
                        r is Done
                    } else {
                        r == ReadingUntil::<O, E>::Failed(Error::NotAlive)
                    },
                    ReadAnswer::Received(Ok(_)) => if all.len() > 0 && all.last() == delimiter {
                        r is Done
                    } else {
                        r is Rest
                    },
                    ReadAnswer::Received(Err(e)) => r == ReadingUntil::<O, E>::Failed(
                        Error::Io(e),
                    ),
                    ReadAnswer::Rested => r is Probe,
                }
            }
        }),
{
    lemma_read_so_far(pipes, delimiter, reads, answers);
    if answers.len() > 0 {
        let n = answers.len() - 1;
        lemma_run_without_last(reads, answers);
        lemma_read_so_far(pipes, delimiter, reads.drop_last(), answers.drop_last());
        assert(read_step(reads[n], answers[n], reads[n + 1]));
        assert(reads.drop_last().last() == reads[n]);
    }
}

/// A read up to a delimiter reads no further: the delimiter is nowhere in what was read, but
/// perhaps at its end.
pub proof fn law_read_until_stops_at_delimiter<I, O, E>(
    pipes: Pipes<I, O>,
    delimiter: u8,
    reads: Seq<ReadingUntil<O, E>>,
    answers: Seq<ReadAnswer<E>>,
)
    requires
        read_run(reads, answers),
        read_until_starts(reads[0], Some(pipes), delimiter),
        chunks_end_at(answers, delimiter),
    ensures
        reads.last() matches ReadingUntil::Done(scan) ==> ends_at(scan.buf@, delimiter),
{
    lemma_read_so_far(pipes, delimiter, reads, answers);
}

/// A line comes back as it was: if a line is written successfully and what a read up to a
/// line end brings is what the line sent, then the read gives the text with its line end.
pub proof fn law_echoed_line_reads_back<I, O, E>(
    text: Seq<char>,
    pipes: Pipes<I, O>,
    w: Writing<E>,
    write_answers: Seq<WriteAnswer<E>>,
    reads: Seq<ReadingUntil<O, E>>,
    read_answers: Seq<ReadAnswer<E>>,
    outcome: Result<String, Error<E>>,
)
    requires
        write_starts(w, Some(pipes), encode_utf8(text), Some(seq![NEWLINE])),
        write_run(w, write_answers) == Writing::<E>::Done(Ok(())),
        read_run(reads, read_answers),
        read_until_starts(reads[0], Some(pipes), NEWLINE),
        brought(read_answers) == sent(w, write_answers),
        reads.last() is Done,
        is_text_of(outcome, Ok(scan_of(reads.last())->0.buf)),
    ensures
        outcome matches Ok(line) && line@ == text.push('\n'),
{
    law_write_line_sends_line(text, pipes, w, write_answers);
    law_read_until_gives_all(pipes, NEWLINE, reads, read_answers);
    law_text_reads_back(text.push('\n'), scan_of(reads.last())->0.buf, outcome);
}

} // verus!
