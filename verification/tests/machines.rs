//! The machines, one answer at a time.

use std::cell::Cell;
use subterm::error::{Error, ErrorKind};
use subterm::handler::{SubprocessHandler, NEWLINE};
use subterm::probe::Probing;
use subterm::read::{Reading, ReadingUntil, Request, Scan};
use subterm::subprocess::Spawned;
use subterm::text::decode;
use subterm::write::{Draft, Writing};
use subterm::{PooledProcess, Subprocess};

type Process = Subprocess<u8, &'static str, &'static str, &'static str>;

fn process() -> Process {
    Subprocess {
        child: 7,
        stdin: Some("in"),
        stdout_reader: Some("out"),
        stderr_reader: Some("err"),
    }
}

fn draft(stdin_open: bool) -> Draft {
    Draft {
        input: vec![1, 2],
        next: None,
        stdin_open,
    }
}

#[test]
fn errors_have_kinds_and_messages() {
    let cases: Vec<(Error<u8>, Option<ErrorKind>, Option<&str>)> = vec![
        (
            Error::NoProcess,
            Some(ErrorKind::BrokenPipe),
            Some("No process available"),
        ),
        (
            Error::NotAlive,
            Some(ErrorKind::BrokenPipe),
            Some("Process is no longer alive"),
        ),
        (
            Error::NoStdin,
            Some(ErrorKind::BrokenPipe),
            Some("stdin not available"),
        ),
        (
            Error::NoStdout,
            Some(ErrorKind::BrokenPipe),
            Some("stdout not available"),
        ),
        (
            Error::InvalidUtf8,
            Some(ErrorKind::InvalidData),
            Some("Invalid UTF-8 sequence"),
        ),
        (Error::Io(3), None, None),
    ];
    for (error, kind, message) in cases {
        assert_eq!(error.kind(), kind);
        assert_eq!(error.message(), message);
    }
}

#[test]
fn a_process_is_alive_without_an_exit_status() {
    assert!(Probing::waited::<i32, u8>(Ok(None)));
    assert!(!Probing::waited::<i32, u8>(Ok(Some(0))));
    assert!(!Probing::waited::<i32, u8>(Err(1)));
    let mut p = process();
    assert_eq!(p.is_alive(), Probing::TryWait);
}

#[test]
fn a_write_probes_writes_and_flushes() {
    let mut p = process();
    let at: Writing<u8> = p.write_bytes(&[1, 2]);
    assert_eq!(at, Writing::Probe(draft(true)));
    assert_eq!(draft(true).probed::<u8>(true), Writing::Write(draft(true)));
    assert_eq!(draft(true).wrote::<u8>(Ok(())), Writing::Flush(draft(true)));
    assert_eq!(draft(true).flushed::<u8>(Ok(())), Writing::Done(Ok(())));
}

#[test]
fn a_write_fails_at_each_stage() {
    assert_eq!(
        draft(true).probed::<u8>(false),
        Writing::Done(Err(Error::NotAlive))
    );
    assert_eq!(
        draft(false).probed::<u8>(false),
        Writing::Done(Err(Error::NotAlive))
    );
    assert_eq!(
        draft(false).probed::<u8>(true),
        Writing::Done(Err(Error::NoStdin))
    );
    assert_eq!(draft(true).wrote(Err(5u8)), Writing::Done(Err(Error::Io(5))));
    assert_eq!(
        draft(true).flushed(Err(6u8)),
        Writing::Done(Err(Error::Io(6)))
    );
}

#[test]
fn a_line_is_its_text_and_then_its_end() {
    let mut p = process();
    let at: Writing<u8> = p.write_line("h\u{e9}");
    let line = Draft {
        input: vec![b'h', 0xC3, 0xA9],
        next: Some(vec![NEWLINE]),
        stdin_open: true,
    };
    assert_eq!(at, Writing::Probe(line));
    let line = Draft {
        input: vec![b'h'],
        next: Some(vec![10]),
        stdin_open: true,
    };
    assert_eq!(
        line.flushed::<u8>(Ok(())),
        Writing::Probe(Draft {
            input: vec![10],
            next: None,
            stdin_open: true
        })
    );
}

#[test]
fn a_closed_stdin_refuses_a_live_process() {
    let mut p = process();
    p.close_stdin();
    p.close_stdin();
    assert_eq!(p.stdin, None);
    assert_eq!(p.stdout_reader, Some("out"));
    match p.write::<u8>("x") {
        Writing::Probe(d) => {
            assert_eq!(d.probed::<u8>(true), Writing::Done(Err(Error::NoStdin)))
        }
        _ => unreachable!(),
    }
}

#[test]
fn a_read_to_the_end() {
    let mut p = process();
    let at: Reading<u8> = p.read_bytes();
    assert_eq!(at, Reading::Probe(Request { stdout_open: true }));
    assert_eq!(
        Request { stdout_open: true }.probed::<u8>(true),
        Reading::Read
    );
    assert_eq!(
        Request { stdout_open: true }.probed::<u8>(false),
        Reading::Done(Err(Error::NotAlive))
    );
    assert_eq!(
        Request { stdout_open: false }.probed::<u8>(true),
        Reading::Done(Err(Error::NoStdout))
    );
    assert_eq!(
        Reading::<u8>::finished(Ok(vec![9])),
        Reading::Done(Ok(vec![9]))
    );
    assert_eq!(
        Reading::finished(Err(4u8)),
        Reading::Done(Err(Error::Io(4)))
    );
    assert_eq!(p.stdout_reader, Some("out"));
}

fn scan(buf: &[u8]) -> Scan<&'static str> {
    Scan {
        stdout: "out",
        delimiter: b';',
        buf: buf.to_vec(),
    }
}

#[test]
fn a_read_until_owns_stdout_and_gives_it_back() {
    let mut p = process();
    let at: ReadingUntil<&str, u8> = p.read_bytes_until(b';');
    assert_eq!(at, ReadingUntil::Probe(scan(b"")));
    assert_eq!(p.stdout_reader, None);

    let again: ReadingUntil<&str, u8> = p.read_bytes_until(b';');
    assert_eq!(again, ReadingUntil::Failed(Error::NoStdout));

    assert_eq!(p.finish_read(scan(b"a;")), b"a;".to_vec());
    assert_eq!(p.stdout_reader, Some("out"));
    assert_eq!(p.stdin, Some("in"));
}

#[test]
fn a_read_until_goes_on_until_the_delimiter() {
    assert_eq!(
        scan(b"").probed::<u8>(true),
        ReadingUntil::Read(scan(b""))
    );
    assert_eq!(
        scan(b"a").received::<u8>(Ok(b"b".to_vec())),
        ReadingUntil::Rest(scan(b"ab"), 10)
    );
    assert_eq!(
        scan(b"a").received::<u8>(Ok(b"".to_vec())),
        ReadingUntil::Rest(scan(b"a"), 10)
    );
    assert_eq!(
        scan(b"ab").rested::<u8>(),
        ReadingUntil::Probe(scan(b"ab"))
    );
    assert_eq!(
        scan(b"ab").received::<u8>(Ok(b"c;".to_vec())),
        ReadingUntil::Done(scan(b"abc;"))
    );
    assert_eq!(
        scan(b"").received::<u8>(Ok(b"".to_vec())),
        ReadingUntil::Rest(scan(b""), 10)
    );
}

#[test]
fn a_read_until_ends_with_the_process() {
    assert_eq!(
        scan(b"ab").probed::<u8>(false),
        ReadingUntil::Done(scan(b"ab"))
    );
    assert_eq!(
        scan(b"").probed::<u8>(false),
        ReadingUntil::Failed(Error::NotAlive)
    );
    assert_eq!(
        scan(b"ab").received(Err(8u8)),
        ReadingUntil::Failed(Error::Io(8))
    );
}

#[test]
fn text_is_utf8() {
    assert_eq!(
        decode::<u8>(Ok(vec![b'h', 0xC3, 0xA9, 10])),
        Ok(String::from("h\u{e9}\n"))
    );
    assert_eq!(decode::<u8>(Ok(vec![])), Ok(String::new()));
    assert_eq!(decode::<u8>(Ok(vec![0xFF, 0xFF])), Err(Error::InvalidUtf8));
    assert_eq!(decode::<u8>(Ok(vec![b'h', 0xC3])), Err(Error::InvalidUtf8));
    assert_eq!(decode::<u8>(Err(Error::NotAlive)), Err(Error::NotAlive));
}

#[test]
fn a_text_read_ends_as_text() {
    let mut p = process();
    let (reading, text) = p.read::<u8>().start();
    assert_eq!(reading, Reading::Probe(Request { stdout_open: true }));
    assert_eq!(
        text.finish::<u8>(Ok(vec![0xE2, 0x82, 0xAC])),
        Ok(String::from("\u{20ac}"))
    );
    let (_, text) = p.read::<u8>().start();
    assert_eq!(
        text.finish::<u8>(Ok(vec![0xE2, 0x82])),
        Err(Error::InvalidUtf8)
    );
    let (_, text) = p.read::<u8>().start();
    assert_eq!(
        text.finish::<u8>(Err(Error::NoStdout)),
        Err(Error::NoStdout)
    );
}

#[test]
fn text_reads_start_like_reads() {
    let mut p = process();
    assert_eq!(
        p.read::<u8>().bytes,
        Reading::Probe(Request { stdout_open: true })
    );
    match p.read_line::<u8>().bytes {
        ReadingUntil::Probe(s) => assert_eq!(s.delimiter, 10),
        _ => unreachable!(),
    }
    assert_eq!(
        p.read_until::<u8>(b';').bytes,
        ReadingUntil::Failed(Error::NoStdout)
    );
}

#[test]
fn a_process_is_started_once_with_the_pipes_it_has() {
    let builds = Cell::new(0);
    let calls = Cell::new(0);
    let spawn = |command: &str| -> Result<Spawned<u8, &'static str, &'static str, &'static str>, u8> {
        calls.set(calls.get() + 1);
        if command == "bad" {
            return Err(2);
        }
        Ok(Spawned {
            child: 7,
            stdin: Some("in"),
            stdout: Some("out"),
            stderr: None,
        })
    };
    let good = || {
        builds.set(builds.get() + 1);
        "good"
    };
    let p = Process::new(good, spawn).ok().unwrap();
    assert_eq!((builds.get(), calls.get()), (1, 1));
    assert_eq!(p.child, 7);
    assert_eq!(p.stdin, Some("in"));
    assert_eq!(p.stdout_reader, Some("out"));
    assert_eq!(p.stderr_reader, None);

    let bad = || {
        builds.set(builds.get() + 1);
        "bad"
    };
    let p = Process::from_builder(bad, spawn);
    assert!(matches!(p, Err(Error::Io(2))));
    assert_eq!((builds.get(), calls.get()), (2, 2));
}

#[test]
fn nothing_but_the_pipes_changes() {
    let mut on_loan = PooledProcess::new(process());
    SubprocessHandler::close_stdin(&mut on_loan);
    let _: Writing<u8> = on_loan.write_line("x");
    let _: ReadingUntil<&str, u8> = on_loan.read_bytes_until(b';');
    on_loan.finish_read(scan(b""));
    let p = on_loan.release().unwrap();
    assert_eq!(p.child, 7);
    assert_eq!(p.stderr_reader, Some("err"));
    assert_eq!(p.stdin, None);
    assert_eq!(p.stdout_reader, Some("out"));
}
