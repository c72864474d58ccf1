use bgpkit_parser::models::MrtRecord;
use bgpkit_parser::parse_mrt_record;
use mrt_prefetch::iter::{
    failure_action, is_probably_fatal_error, DecodeErrorKind, DecodeOutcome, FailureAction,
    MsgIter, RecordError,
};
use std::cell::Cell;
use std::io::{Cursor, Read};
use std::rc::Rc;


fn next<R: Read>(it: &mut MsgIter<R>) -> Option<Result<MrtRecord, RecordError>> {
    if !it.begin() {
        return None;
    }
    let outcome = match parse_mrt_record(it) {
        Ok(record) => DecodeOutcome::Decoded(record),
        Err(e) => DecodeOutcome::Failed(e.error),
    };
    it.finish_attempt(outcome)
}

fn mrt(entry_type: u16, subtype: u16, body: &[u8]) -> Vec<u8> {
    let mut out = vec![0, 0, 0, 1];
    out.extend_from_slice(&entry_type.to_be_bytes());
    out.extend_from_slice(&subtype.to_be_bytes());
    out.extend_from_slice(&(body.len() as u32).to_be_bytes());
    out.extend_from_slice(body);
    out
}

fn bgp4mp(bgp: &[u8]) -> Vec<u8> {
    let mut out = vec![0, 1, 0, 2, 0, 0, 0, 1, 10, 0, 0, 1, 10, 0, 0, 2];
    out.extend_from_slice(bgp);
    out
}

fn keepalive_record() -> Vec<u8> {
    let mut bgp = vec![0xff; 16];
    bgp.extend_from_slice(&19u16.to_be_bytes());
    bgp.push(4);
    mrt(16, 1, &bgp4mp(&bgp))
}

fn malformed_record() -> Vec<u8> {
    mrt(16, 99, &[1, 2, 3, 4])
}

struct CountingReader {
    inner: Cursor<Vec<u8>>,
    reads: Rc<Cell<usize>>,
}

impl Read for CountingReader {
    fn read(&mut self, buf: &mut [u8]) -> std::io::Result<usize> {
        self.reads.set(self.reads.get() + 1);
        self.inner.read(buf)
    }
}

#[test]
fn well_formed_stream_yields_each_record_then_ends() {
    let mut bytes = keepalive_record();
    bytes.extend(keepalive_record());
    bytes.extend(keepalive_record());
    let mut it = MsgIter::new(Cursor::new(bytes));
    for _ in 0..3 {
        assert!(matches!(next(&mut it), Some(Ok(_))));
    }
    assert!(next(&mut it).is_none());
    assert!(it.is_finished());
    assert!(next(&mut it).is_none());
}

#[test]
fn truncated_stream_yields_one_fatal_error_then_stops_reading() {
    let mut bytes = keepalive_record();
    let second = keepalive_record();
    bytes.extend_from_slice(&second[..20]);
    let reads = Rc::new(Cell::new(0));
    let reader = CountingReader { inner: Cursor::new(bytes), reads: reads.clone() };
    let mut it = MsgIter::new(reader);
    assert!(matches!(next(&mut it), Some(Ok(_))));
    match next(&mut it) {
        Some(Err(e)) => assert!(is_probably_fatal_error(e.kind)),
        _ => panic!("expected a fatal error"),
    }
    assert!(it.is_finished());
    let after = reads.get();
    assert!(next(&mut it).is_none());
    assert!(next(&mut it).is_none());
    assert_eq!(reads.get(), after);
}

#[test]
fn truncated_header_is_fatal() {
    let mut bytes = keepalive_record();
    bytes.extend_from_slice(&[0, 0, 0, 1, 0]);
    let mut it = MsgIter::new(Cursor::new(bytes));
    assert!(matches!(next(&mut it), Some(Ok(_))));
    assert!(matches!(next(&mut it), Some(Err(_))));
    assert!(it.is_finished());
    assert!(next(&mut it).is_none());
}

#[test]
fn clean_end_at_record_boundary_gives_no_error() {
    let mut bytes = keepalive_record();
    bytes.extend(keepalive_record());
    let mut it = MsgIter::new(Cursor::new(bytes));
    let mut errors = 0;
    let mut records = 0;
    while let Some(attempt) = next(&mut it) {
        match attempt {
            Ok(_) => records += 1,
            Err(_) => errors += 1,
        }
    }
    assert_eq!(records, 2);
    assert_eq!(errors, 0);
}

#[test]
fn empty_stream_ends_at_once() {
    let mut it = MsgIter::new(Cursor::new(Vec::new()));
    assert!(next(&mut it).is_none());
    assert!(it.is_finished());
}

#[test]
fn malformed_record_between_valid_ones_is_skipped() {
    let mut bytes = keepalive_record();
    bytes.extend(malformed_record());
    bytes.extend(keepalive_record());
    let mut it = MsgIter::new(Cursor::new(bytes));
    assert!(matches!(next(&mut it), Some(Ok(_))));
    match next(&mut it) {
        Some(Err(e)) => assert!(!is_probably_fatal_error(e.kind)),
        _ => panic!("expected a non-fatal error"),
    }
    assert!(!it.is_finished());
    assert!(matches!(next(&mut it), Some(Ok(_))));
    assert!(next(&mut it).is_none());
}

#[test]
fn fatal_kinds_follow_the_table() {
    assert!(is_probably_fatal_error(DecodeErrorKind::Io));
    assert!(is_probably_fatal_error(DecodeErrorKind::Eof));
    assert!(is_probably_fatal_error(DecodeErrorKind::Transport));
    assert!(is_probably_fatal_error(DecodeErrorKind::EofExpected));
    assert!(!is_probably_fatal_error(DecodeErrorKind::Parse));
    assert!(!is_probably_fatal_error(DecodeErrorKind::TruncatedMsg));
    assert!(!is_probably_fatal_error(DecodeErrorKind::Unsupported));
    assert!(!is_probably_fatal_error(DecodeErrorKind::Filter));
}

#[test]
fn failure_action_distinguishes_end_fatal_and_skip() {
    assert_eq!(failure_action(true, DecodeErrorKind::EofExpected), FailureAction::End);
    assert_eq!(failure_action(true, DecodeErrorKind::Parse), FailureAction::End);
    assert_eq!(failure_action(false, DecodeErrorKind::Io), FailureAction::Fatal);
    assert_eq!(failure_action(false, DecodeErrorKind::Unsupported), FailureAction::Skip);
}

#[test]
fn decoder_panic_is_a_fatal_error() {
    let mut it = MsgIter::new(Cursor::new(keepalive_record()));
    assert!(it.begin());
    match it.finish_attempt(DecodeOutcome::Panicked) {
        Some(Err(e)) => {
            assert_eq!(e.kind, DecodeErrorKind::Panicked);
            assert!(e.error.is_none());
        }
        _ => panic!("expected a fatal error"),
    }
    assert!(it.is_finished());
    assert!(!it.begin());
    assert!(is_probably_fatal_error(DecodeErrorKind::Panicked));
}
