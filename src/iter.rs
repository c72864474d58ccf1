//! A record iterator over one decoded MRT stream that keeps going past a malformed record, ends
//! quietly at a clean end of stream, and stops at the first error that leaves the stream's
//! position in doubt.
use bgpkit_parser::models::MrtRecord;
use bgpkit_parser::ParserError;
use std::io::Read;
use vstd::prelude::*;

verus! {

#[verifier::external_type_specification]
#[verifier::external_body]
pub struct ExMrtRecord(MrtRecord);

#[verifier::external_type_specification]
#[verifier::external_body]
pub struct ExParserError(ParserError);

#[verifier::external_type_specification]
#[verifier::external_body]
pub struct ExIoError(std::io::Error);

/// The kind of a decoder error, one for each variant of the decoder's error type.
#[derive(Clone, Copy, Debug, PartialEq, Eq, Structural)]
pub enum DecodeErrorKind {
    /// An I/O failure while the record's body was read.
    Io,
    /// An I/O failure while the record's header was read.
    Eof,
    /// A failure of the stream's transport.
    Transport,
    /// The stream ended where a header was due.
    EofExpected,
    /// The content of one record could not be interpreted.
    Parse,
    /// A record's content is shorter than its fields say.
    TruncatedMsg,
    /// A record of a kind the decoder does not handle.
    Unsupported,
    /// A record that a filter rejected.
    Filter,
    /// The decoder panicked part way through a record.
    Panicked,
}

/// Whether an error of this kind leaves the stream's position in doubt: truncation and I/O at a
/// record boundary are fatal; errors in the content of one delimited record are not.
pub open spec fn is_fatal_kind(kind: DecodeErrorKind) -> bool {
    match kind {
        DecodeErrorKind::Io | DecodeErrorKind::Eof | DecodeErrorKind::Transport
        | DecodeErrorKind::EofExpected | DecodeErrorKind::Panicked => true,
        DecodeErrorKind::Parse | DecodeErrorKind::TruncatedMsg | DecodeErrorKind::Unsupported
        | DecodeErrorKind::Filter => false,
    }
}

/// The fixed table of fatal error kinds.
pub fn is_probably_fatal_error(kind: DecodeErrorKind) -> (r: bool)
    ensures
        r == is_fatal_kind(kind),
{
    match kind {
        DecodeErrorKind::Io => true,
        DecodeErrorKind::Eof => true,
        DecodeErrorKind::Transport => true,
        DecodeErrorKind::EofExpected => true,
        DecodeErrorKind::Panicked => true,
        DecodeErrorKind::Parse => false,
        DecodeErrorKind::TruncatedMsg => false,
        DecodeErrorKind::Unsupported => false,
        DecodeErrorKind::Filter => false,
    }
}

/// The kind of a decoder error.
pub uninterp spec fn kind_of(error: ParserError) -> DecodeErrorKind;

/// Relies on the variants of `bgpkit_parser::ParserError`: tells them apart, one arm each; the
/// kind depends on the error alone.
#[verifier::external_body]
fn error_kind(error: &ParserError) -> (r: DecodeErrorKind)
    ensures
        r == kind_of(*error),
{
    match error {
        ParserError::IoError(_) => DecodeErrorKind::Io,
        ParserError::EofError(_) => DecodeErrorKind::Eof,
        ParserError::OneIoError(_) => DecodeErrorKind::Transport,
        ParserError::EofExpected => DecodeErrorKind::EofExpected,
        ParserError::ParseError(_) => DecodeErrorKind::Parse,
        ParserError::TruncatedMsg(_) => DecodeErrorKind::TruncatedMsg,
        ParserError::Unsupported(_) => DecodeErrorKind::Unsupported,
        ParserError::FilterError(_) => DecodeErrorKind::Filter,
    }
}

/// An error that the decoder reported for one attempt, with its kind.
pub struct RecordError {
    pub kind: DecodeErrorKind,
    /// The decoder's own error; none where the decoder panicked.
    pub error: Option<ParserError>,
}

/// What an attempt that failed leads to.
#[derive(Clone, Copy, Debug, PartialEq, Eq, Structural)]
pub enum FailureAction {
    /// The stream ended cleanly: the sequence ends with no error.
    End,
    /// The error is reported and the sequence ends after it.
    Fatal,
    /// The error is reported and the next attempt reads on.
    Skip,
}

/// The action for a failed attempt.
pub open spec fn failure_action_spec(started_with_eof: bool, kind: DecodeErrorKind)
    -> FailureAction {
    if started_with_eof {
        FailureAction::End
    } else if is_fatal_kind(kind) {
        FailureAction::Fatal
    } else {
        FailureAction::Skip
    }
}

/// Decides what a failed attempt leads to, from whether its first read found the stream at its
/// end and from the kind of the error.
pub fn failure_action(started_with_eof: bool, kind: DecodeErrorKind) -> (r: FailureAction)
    ensures
        r == failure_action_spec(started_with_eof, kind),
{
    if started_with_eof {
        FailureAction::End
    } else if is_probably_fatal_error(kind) {
        FailureAction::Fatal
    } else {
        FailureAction::Skip
    }
}

/// A reader that notes whether the first read since the last [`EofChecker::restart`] returned
/// no bytes.
pub struct EofChecker<R> {
    reader: R,
    is_start: bool,
    started_with_eof: bool,
}

impl<R> EofChecker<R> {
    pub fn new(reader: R) -> (r: EofChecker<R>)
        ensures
            r.inner() == reader,
            r.started_with_eof() == false,
    {
        EofChecker { reader, is_start: true, started_with_eof: false }
    }

    pub closed spec fn inner(&self) -> R {
        self.reader
    }

    /// Whether no read has happened since the last restart.
    pub closed spec fn at_start(&self) -> bool {
        self.is_start
    }

    pub closed spec fn started_with_eof(&self) -> bool {
        self.started_with_eof
    }

    /// Forgets what earlier reads found: the next read is a first read again.
    pub fn restart(&mut self)
        ensures
            final(self).inner() == old(self).inner(),
            final(self).started_with_eof() == false,
    {
        self.is_start = true;
        self.started_with_eof = false;
    }

    /// Whether the first read since the last restart returned no bytes.
    pub fn hit_eof_first(&self) -> (r: bool)
        ensures
            r == self.started_with_eof(),
    {
        self.started_with_eof
    }

    /// Notes the outcome of one read: `Some(n)` for `n` bytes, `None` for an error. Only the
    /// first read since the last restart counts.
    fn note_read(&mut self, outcome: Option<usize>)
        ensures
            final(self).inner() == old(self).inner(),
            old(self).is_start ==> final(self).started_with_eof() == (outcome == Some(0usize)),
            !old(self).is_start ==> final(self).started_with_eof() == old(self).started_with_eof(),
            !final(self).is_start,
    {
        if self.is_start {
            self.started_with_eof = match outcome {
                Some(n) => n == 0,
                None => false,
            };
        }
        self.is_start = false;
    }
}

/// Relies on `std::io::Read::read` of the reader: the byte count of a read that succeeded, or
/// `None` for an error, beside the result itself.
#[verifier::external_body]
fn read_from<R: Read>(reader: &mut R, buf: &mut [u8]) -> (r: (std::io::Result<usize>, Option<usize>))
    ensures
        r.1 == (match r.0 {
            Ok(n) => Some(n),
            Err(_) => None::<usize>,
        }),
{
    let res = reader.read(buf);
    let count = res.as_ref().ok().copied();
    (res, count)
}

impl<R: Read> EofChecker<R> {
    /// Reads from the wrapped reader and notes the outcome.
    pub fn read_bytes(&mut self, buf: &mut [u8]) -> (r: std::io::Result<usize>)
        ensures
            old(self).at_start() ==> final(self).started_with_eof() == (r matches Ok(n) && n == 0),
            !old(self).at_start() ==> final(self).started_with_eof() == old(self).started_with_eof(),
            !final(self).at_start(),
    {
        let (res, count) = read_from(&mut self.reader, buf);
        self.note_read(count);
        res
    }
}

impl<R: Read> Read for EofChecker<R> {
    fn read(&mut self, buf: &mut [u8]) -> std::io::Result<usize> {
        self.read_bytes(buf)
    }
}

/// What the decoder made of one attempt.
pub enum DecodeOutcome {
    /// A record.
    Decoded(MrtRecord),
    /// An error that the decoder reported.
    Failed(ParserError),
    /// The decoder panicked; the stream's position is unknown.
    Panicked,
}

/// Where the iterator stands.
#[derive(Clone, Copy, Debug, PartialEq, Eq, Structural)]
pub enum IterState {
    Active,
    Finished,
}

/// Decodes one record per attempt from a stream, reporting every decoder error rather than
/// hiding it; once the stream has ended or failed fatally it reads no more.
///
/// An attempt is [`MsgIter::begin`], then the decoder reading from the iterator (it is a
/// reader), then [`MsgIter::finish_attempt`] with what the decoder made of it. The decoder is
/// called by the caller, which can contain a panic of the decoder; the decisions are here.
pub struct MsgIter<R> {
    probe: EofChecker<R>,
    state: IterState,
}

impl<R> MsgIter<R> {
    pub fn new(reader: R) -> (r: MsgIter<R>)
        ensures
            r.reader() == reader,
            !r.finished(),
    {
        MsgIter { probe: EofChecker::new(reader), state: IterState::Active }
    }

    /// The underlying stream.
    pub closed spec fn reader(&self) -> R {
        self.probe.inner()
    }

    /// Whether the first read of the current attempt found the stream at its end.
    pub closed spec fn at_clean_end(&self) -> bool {
        self.probe.started_with_eof()
    }

    /// Whether the sequence has ended for good.
    pub closed spec fn finished(&self) -> bool {
        self.state == IterState::Finished
    }

    pub fn is_finished(&self) -> (r: bool)
        ensures
            r == self.finished(),
    {
        self.state == IterState::Finished
    }

    /// Starts an attempt: `false`, with nothing changed, once the sequence has ended; otherwise
    /// the next read is the attempt's first read again.
    pub fn begin(&mut self) -> (r: bool)
        ensures
            r == !old(self).finished(),
            !r ==> *final(self) == *old(self),
            r ==> !final(self).finished() && !final(self).at_clean_end() && final(self).reader()
                == old(self).reader(),
    {
        if self.state == IterState::Finished {
            return false;
        }
        self.probe.restart();
        true
    }

    /// Ends an attempt with what the decoder made of it: `Some(Ok(record))` for a record;
    /// `None`, ending the sequence, where a failure came with the first read finding the stream
    /// at its end; otherwise `Some(Err(error))`, ending the sequence exactly when the error's
    /// kind is fatal. A panic of the decoder is a fatal error.
    pub fn finish_attempt(&mut self, outcome: DecodeOutcome) -> (r: Option<Result<MrtRecord, RecordError>>)
        requires
            !old(self).finished(),
        ensures
            final(self).reader() == old(self).reader(),
            final(self).at_clean_end() == old(self).at_clean_end(),
            match outcome {
                DecodeOutcome::Decoded(record) => r == Some(Ok::<MrtRecord, RecordError>(record))
                    && !final(self).finished(),
                DecodeOutcome::Failed(error) => attempt_failed(
                    old(self).at_clean_end(),
                    kind_of(error),
                    Some(error),
                    r,
                    final(self).finished(),
                ),
                DecodeOutcome::Panicked => attempt_failed(
                    old(self).at_clean_end(),
                    DecodeErrorKind::Panicked,
                    None,
                    r,
                    final(self).finished(),
                ),
            },
    {
        let (kind, error) = match outcome {
            DecodeOutcome::Decoded(record) => {
                return Some(Ok(record));
            },
            DecodeOutcome::Failed(error) => (error_kind(&error), Some(error)),
            DecodeOutcome::Panicked => (DecodeErrorKind::Panicked, None),
        };
        match failure_action(self.probe.hit_eof_first(), kind) {
            FailureAction::End => {
                self.state = IterState::Finished;
                None
            },
            FailureAction::Fatal => {
                self.state = IterState::Finished;
                Some(Err(RecordError { kind, error }))
            },
            FailureAction::Skip => Some(Err(RecordError { kind, error })),
        }
    }
}

/// The result of a failed attempt and whether the sequence has then ended, from whether the first
/// read found the stream at its end and from the error.
pub open spec fn attempt_failed(
    clean_end: bool,
    kind: DecodeErrorKind,
    error: Option<ParserError>,
    r: Option<Result<MrtRecord, RecordError>>,
    finished: bool,
) -> bool {
    match failure_action_spec(clean_end, kind) {
        FailureAction::End => r is None && finished,
        FailureAction::Fatal => r == Some(Err::<MrtRecord, RecordError>(RecordError { kind, error }))
            && finished,
        FailureAction::Skip => r == Some(Err::<MrtRecord, RecordError>(RecordError { kind, error }))
            && !finished,
    }
}

/// One attempt as the iterator sees it: a record, or a failure with whether its first read found
/// the stream at its end and the error's kind.
pub enum Step {
    Record,
    Failure { clean_end: bool, kind: DecodeErrorKind },
}

/// What an attempt yields, in the model.
pub enum Yield {
    Record,
    Error(DecodeErrorKind),
}

/// What one attempt yields: a record, an error, or nothing at a clean end.
pub open spec fn step_yield(step: Step) -> Option<Yield> {
    match step {
        Step::Record => Some(Yield::Record),
        Step::Failure { clean_end, kind } => match failure_action_spec(clean_end, kind) {
            FailureAction::End => None,
            _ => Some(Yield::Error(kind)),
        },
    }
}

/// Whether the sequence ends after this attempt.
pub open spec fn step_ends(step: Step) -> bool {
    match step {
        Step::Record => false,
        Step::Failure { clean_end, kind } => failure_action_spec(clean_end, kind)
            != FailureAction::Skip,
    }
}

/// What the iterator yields over the attempts `steps`; once an attempt ends the sequence, no
/// further attempt is made.
pub open spec fn run(steps: Seq<Step>) -> Seq<Yield>
    decreases steps.len(),
{
    if steps.len() == 0 {
        seq![]
    } else {
        let rest = if step_ends(steps[0]) {
            seq![]
        } else {
            run(steps.skip(1))
        };
        match step_yield(steps[0]) {
            Some(y) => seq![y] + rest,
            None => rest,
        }
    }
}

/// `n` records in a row.
pub open spec fn records(n: nat) -> Seq<Step> {
    Seq::new(n, |i: int| Step::Record)
}

/// `n` record yields in a row.
pub open spec fn record_yields(n: nat) -> Seq<Yield> {
    Seq::new(n, |i: int| Yield::Record)
}

proof fn lemma_run_records_then(n: nat, tail: Seq<Step>)
    ensures
        run(records(n) + tail) == record_yields(n) + run(tail),
    decreases n,
{
    if n == 0 {
        assert(records(0) + tail =~= tail);
        assert(record_yields(0) + run(tail) =~= run(tail));
    } else {
        let steps = records(n) + tail;
        assert(steps[0] == Step::Record);
        assert(steps.skip(1) =~= records((n - 1) as nat) + tail);
        lemma_run_records_then((n - 1) as nat, tail);
        assert(record_yields(n) + run(tail) =~= seq![Yield::Record] + (record_yields((n - 1) as nat)
            + run(tail)));
    }
}

/// A well-formed stream of `n` records followed by a clean end yields exactly the `n` records, in
/// order, and no error.
pub proof fn lemma_well_formed_stream(n: nat, kind: DecodeErrorKind)
    ensures
        run(records(n).push(Step::Failure { clean_end: true, kind })) == record_yields(n),
{
    let end = seq![Step::Failure { clean_end: true, kind }];
    assert(records(n).push(Step::Failure { clean_end: true, kind }) =~= records(n) + end);
    lemma_run_records_then(n, end);
    assert(run(end) =~= seq![]);
    assert(record_yields(n) + seq![] =~= record_yields(n));
}

/// A stream truncated inside a record after `n` records yields the `n` records, then exactly one
/// fatal error, and makes no attempt after it, whatever the rest of the stream would give.
pub proof fn lemma_truncated_stream(n: nat, kind: DecodeErrorKind, later: Seq<Step>)
    requires
        is_fatal_kind(kind),
    ensures
        run(records(n) + seq![Step::Failure { clean_end: false, kind }] + later) == record_yields(
            n,
        ).push(Yield::Error(kind)),
{
    let tail = seq![Step::Failure { clean_end: false, kind }] + later;
    assert(records(n) + seq![Step::Failure { clean_end: false, kind }] + later =~= records(n) + tail);
    lemma_run_records_then(n, tail);
    assert(tail[0] == Step::Failure { clean_end: false, kind });
    assert(run(tail) =~= seq![Yield::Error(kind)]);
    assert(record_yields(n) + seq![Yield::Error(kind)] =~= record_yields(n).push(Yield::Error(kind)));
}

/// A malformed but delimited record between two good ones yields a record, the error, and the
/// second record: the sequence goes on past it.
pub proof fn lemma_malformed_record_skipped(kind: DecodeErrorKind, end_kind: DecodeErrorKind)
    requires
        !is_fatal_kind(kind),
    ensures
        run(seq![
            Step::Record,
            Step::Failure { clean_end: false, kind },
            Step::Record,
            Step::Failure { clean_end: true, kind: end_kind },
        ]) == seq![Yield::Record, Yield::Error(kind), Yield::Record],
{
    let s = seq![
        Step::Record,
        Step::Failure { clean_end: false, kind },
        Step::Record,
        Step::Failure { clean_end: true, kind: end_kind },
    ];
    assert(s.skip(1) =~= seq![
        Step::Failure { clean_end: false, kind },
        Step::Record,
        Step::Failure { clean_end: true, kind: end_kind },
    ]);
    assert(s.skip(1).skip(1) =~= seq![Step::Record, Step::Failure { clean_end: true, kind: end_kind }]);
    assert(s.skip(1).skip(1).skip(1) =~= seq![Step::Failure { clean_end: true, kind: end_kind }]);
    let s3 = s.skip(1).skip(1).skip(1);
    let s2 = s.skip(1).skip(1);
    let s1 = s.skip(1);
    assert(s3[0] == Step::Failure { clean_end: true, kind: end_kind });
    assert(run(s3) =~= Seq::<Yield>::empty());
    assert(s2[0] == Step::Record);
    assert(run(s2) =~= seq![Yield::Record]);
    assert(s1[0] == Step::Failure { clean_end: false, kind });
    assert(run(s1) =~= seq![Yield::Error(kind), Yield::Record]);
    assert(s[0] == Step::Record);
    assert(run(s) =~= seq![Yield::Record, Yield::Error(kind), Yield::Record]);
}

/// A failed attempt of [`MsgIter::finish_attempt`] is the model's step: the error comes back
/// exactly when the model yields it, and the sequence ends exactly when the model says so.
pub proof fn lemma_attempt_is_step(
    clean_end: bool,
    kind: DecodeErrorKind,
    error: Option<ParserError>,
    r: Option<Result<MrtRecord, RecordError>>,
    finished: bool,
)
    requires
        attempt_failed(clean_end, kind, error, r, finished),
    ensures
        finished == step_ends(Step::Failure { clean_end, kind }),
        r is None <==> step_yield(Step::Failure { clean_end, kind }) is None,
        r matches Some(Err(e)) ==> step_yield(Step::Failure { clean_end, kind }) == Some(
            Yield::Error(e.kind),
        ),
{
}

impl<R: Read> Read for MsgIter<R> {
    fn read(&mut self, buf: &mut [u8]) -> std::io::Result<usize> {
        self.probe.read_bytes(buf)
    }
}

} // verus!
