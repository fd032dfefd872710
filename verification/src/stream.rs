//! Incremental ingestion of a Server-Sent-Events stream.
//!
//! The response body arrives in chunks that may end anywhere. The ingestor
//! keeps the text that is not yet a complete line, reads each completed line
//! as one protocol line, and hands out the payload of every `finding` event
//! in arrival order. An `error` event halts it for good.
//!
//! The model is a pure function on text ([`run_lines`], [`feed_spec`]); the
//! executable ingestor is proved to compute it, and the laws at the end of
//! the file are proved of the model.

use crate::text::{
    chars_of, decoded, has_prefix, lossy_text, range_has_prefix, string_of, string_views,
    trim_range, trimmed,
};
use vstd::prelude::*;
use vstd::slice::slice_subrange;
use vstd::utf8::{
    decode_first_scalar, decode_utf8, length_of_first_scalar, pop_first_scalar, valid_first_scalar,
    valid_utf8, valid_utf8_concat,
};

verus! {

/// The type of the event that the following data lines belong to.
#[derive(Debug, Clone, Copy, PartialEq, Eq, Structural)]
pub enum EventKind {
    Finding,
    Error,
    Complete,
    Other,
}

/// One protocol line, after trimming, as the model sees it.
pub enum LineView {
    Blank,
    Event(Seq<char>),
    Data(Seq<char>),
    Ignored,
}

/// One protocol line, after trimming.
#[derive(Debug, PartialEq, Eq)]
pub enum SseLine {
    /// An empty line: the boundary between two events.
    Blank,
    /// `event: <type>`, with the type's name.
    Event(String),
    /// `data: <payload>`, with the payload.
    Data(String),
    /// Any other line.
    Ignored,
}

impl View for SseLine {
    type V = LineView;

    open spec fn view(&self) -> LineView {
        match self {
            SseLine::Blank => LineView::Blank,
            SseLine::Event(name) => LineView::Event(name@),
            SseLine::Data(payload) => LineView::Data(payload@),
            SseLine::Ignored => LineView::Ignored,
        }
    }
}

/// How a streamed session ended, as the model sees it.
pub enum OutcomeView {
    Success,
    ServerError(Seq<char>),
    TransportError(Seq<char>),
}

/// How a streamed session ended.
#[derive(Debug, PartialEq, Eq)]
pub enum IngestionOutcome {
    /// The stream closed and no `error` event was seen.
    Success,
    /// The server sent an `error` event; its payload, verbatim.
    ServerError(String),
    /// Reading the stream failed; a description of the failure.
    TransportError(String),
}

impl View for IngestionOutcome {
    type V = OutcomeView;

    open spec fn view(&self) -> OutcomeView {
        match self {
            IngestionOutcome::Success => OutcomeView::Success,
            IngestionOutcome::ServerError(message) => OutcomeView::ServerError(message@),
            IngestionOutcome::TransportError(description) => OutcomeView::TransportError(
                description@,
            ),
        }
    }
}

/// The state of an ingestor between two chunks.
pub struct IngestState {
    /// Text received that does not yet end a line.
    pub buffer: Seq<char>,
    /// The current event type, if an `event:` line set one since the last blank line.
    pub event: Option<EventKind>,
    /// The payload of the `error` event that halted ingestion, if one did.
    pub failure: Option<Seq<char>>,
}

/// What processing a text yields: the state left behind and the payloads of
/// the `finding` events, in arrival order.
pub struct Run {
    pub event: Option<EventKind>,
    pub rest: Seq<char>,
    pub payloads: Seq<Seq<char>>,
    pub failure: Option<Seq<char>>,
}

pub open spec fn event_marker() -> Seq<char> {
    seq!['e', 'v', 'e', 'n', 't', ':', ' ']
}

pub open spec fn data_marker() -> Seq<char> {
    seq!['d', 'a', 't', 'a', ':', ' ']
}

pub open spec fn finding_name() -> Seq<char> {
    seq!['f', 'i', 'n', 'd', 'i', 'n', 'g']
}

pub open spec fn error_name() -> Seq<char> {
    seq!['e', 'r', 'r', 'o', 'r']
}

pub open spec fn complete_name() -> Seq<char> {
    seq!['c', 'o', 'm', 'p', 'l', 'e', 't', 'e']
}

/// The kind of the event type named `name`.
pub open spec fn classify(name: Seq<char>) -> EventKind {
    if name == finding_name() {
        EventKind::Finding
    } else if name == error_name() {
        EventKind::Error
    } else if name == complete_name() {
        EventKind::Complete
    } else {
        EventKind::Other
    }
}

/// Reads one line, given without its terminator.
pub open spec fn read_line(raw: Seq<char>) -> LineView {
    let line = trimmed(raw);
    if line.len() == 0 {
        LineView::Blank
    } else if has_prefix(line, event_marker()) {
        LineView::Event(line.skip(event_marker().len() as int))
    } else if has_prefix(line, data_marker()) {
        LineView::Data(line.skip(data_marker().len() as int))
    } else {
        LineView::Ignored
    }
}

/// The index of the first line terminator in `s`, or the length of `s` if it
/// holds none.
pub open spec fn first_newline(s: Seq<char>) -> nat
    decreases s.len(),
{
    if s.len() == 0 {
        0
    } else if s.first() == '\n' {
        0
    } else {
        1 + first_newline(s.drop_first())
    }
}

/// Whether `s` holds no line terminator.
pub open spec fn no_newline(s: Seq<char>) -> bool {
    first_newline(s) == s.len()
}

/// Processes every complete line of `text`, starting with the event type
/// `event`. What follows the last terminator is left as `rest`. An `error`
/// event ends the run at once: nothing after it is read, and nothing is kept.
pub open spec fn run_lines(event: Option<EventKind>, text: Seq<char>) -> Run
    decreases text.len(),
{
    let n = first_newline(text);
    if n >= text.len() {
        Run { event, rest: text, payloads: Seq::empty(), failure: None }
    } else {
        let tail = text.subrange(n as int + 1, text.len() as int);
        match read_line(text.subrange(0, n as int)) {
            LineView::Blank => run_lines(None, tail),
            LineView::Event(name) => run_lines(Some(classify(name)), tail),
            LineView::Data(payload) => match event {
                Some(EventKind::Finding) => {
                    let after = run_lines(event, tail);
                    Run {
                        event: after.event,
                        rest: after.rest,
                        payloads: seq![payload] + after.payloads,
                        failure: after.failure,
                    }
                },
                Some(EventKind::Error) => Run {
                    event,
                    rest: Seq::empty(),
                    payloads: Seq::empty(),
                    failure: Some(payload),
                },
                _ => run_lines(event, tail),
            },
            LineView::Ignored => run_lines(event, tail),
        }
    }
}

/// A run with `payloads` delivered before it.
pub open spec fn after_payloads(payloads: Seq<Seq<char>>, run: Run) -> Run {
    Run {
        event: run.event,
        rest: run.rest,
        payloads: payloads + run.payloads,
        failure: run.failure,
    }
}

impl IngestState {
    /// The state before anything was received.
    pub open spec fn initial() -> IngestState {
        IngestState { buffer: Seq::empty(), event: None, failure: None }
    }

    /// Between chunks the buffer holds no complete line.
    pub open spec fn wf(self) -> bool {
        no_newline(self.buffer)
    }

    /// The outcome if the stream closes in this state.
    pub open spec fn outcome(self) -> OutcomeView {
        match self.failure {
            Some(message) => OutcomeView::ServerError(message),
            None => OutcomeView::Success,
        }
    }

    /// The outcome if reading the stream fails in this state. A server error
    /// seen before stands.
    pub open spec fn outcome_on_failure(self, description: Seq<char>) -> OutcomeView {
        match self.failure {
            Some(message) => OutcomeView::ServerError(message),
            None => OutcomeView::TransportError(description),
        }
    }
}

/// Receiving `text` in state `s`: the next state, and the payloads of the
/// `finding` events that this text completes. A halted ingestor ignores it.
pub open spec fn feed_spec(s: IngestState, text: Seq<char>) -> (IngestState, Seq<Seq<char>>) {
    if s.failure is Some {
        (s, Seq::empty())
    } else {
        let run = run_lines(s.event, s.buffer + text);
        (IngestState { buffer: run.rest, event: run.event, failure: run.failure }, run.payloads)
    }
}

/// Receiving the chunks of `chunks` one after the other.
pub open spec fn feed_all(s: IngestState, chunks: Seq<Seq<char>>) -> (IngestState, Seq<Seq<char>>)
    decreases chunks.len(),
{
    if chunks.len() == 0 {
        (s, Seq::empty())
    } else {
        let before = feed_all(s, chunks.drop_last());
        let last = feed_spec(before.0, chunks.last());
        (last.0, before.1 + last.1)
    }
}

/// The chunks of `chunks` joined into one text.
pub open spec fn concat_all(chunks: Seq<Seq<char>>) -> Seq<char>
    decreases chunks.len(),
{
    if chunks.len() == 0 {
        Seq::empty()
    } else {
        concat_all(chunks.drop_last()) + chunks.last()
    }
}

/// Each byte chunk decoded by itself, malformed parts replaced.
pub open spec fn decode_chunks(chunks: Seq<Seq<u8>>) -> Seq<Seq<char>> {
    chunks.map_values(|chunk: Seq<u8>| decoded(chunk))
}

/// The byte chunks of `chunks` joined into one byte sequence.
pub open spec fn concat_bytes(chunks: Seq<Seq<u8>>) -> Seq<u8>
    decreases chunks.len(),
{
    if chunks.len() == 0 {
        Seq::empty()
    } else {
        concat_bytes(chunks.drop_last()) + chunks.last()
    }
}

/// Every chunk is well-formed UTF-8 by itself: no chunk boundary falls
/// inside a character.
pub open spec fn all_well_formed(chunks: Seq<Seq<u8>>) -> bool {
    forall|i: int| 0 <= i < chunks.len() ==> valid_utf8(#[trigger] chunks[i])
}

/// Of decoded payloads, those that decoded, in order.
pub open spec fn delivered<T>(decoded: Seq<Option<T>>) -> Seq<T>
    decreases decoded.len(),
{
    if decoded.len() == 0 {
        Seq::empty()
    } else {
        match decoded.last() {
            Some(value) => delivered(decoded.drop_last()).push(value),
            None => delivered(decoded.drop_last()),
        }
    }
}

/// Where the parts of a line lie in the text that holds it.
enum LineSpan {
    Blank,
    Event(usize, usize),
    Data(usize, usize),
    Ignored,
}

impl LineSpan {
    spec fn within(self, len: nat) -> bool {
        match self {
            LineSpan::Event(from, to) => from <= to <= len,
            LineSpan::Data(from, to) => from <= to <= len,
            _ => true,
        }
    }

    spec fn line(self, text: Seq<char>) -> LineView {
        match self {
            LineSpan::Blank => LineView::Blank,
            LineSpan::Event(from, to) => LineView::Event(text.subrange(from as int, to as int)),
            LineSpan::Data(from, to) => LineView::Data(text.subrange(from as int, to as int)),
            LineSpan::Ignored => LineView::Ignored,
        }
    }
}

/// Whether `text[from..to]` is exactly `word`.
fn range_equals(text: &[char], from: usize, to: usize, word: &[char]) -> (r: bool)
    requires
        from <= to <= text@.len(),
    ensures
        r == (text@.subrange(from as int, to as int) == word@),
{
    let ghost part = text@.subrange(from as int, to as int);
    if to - from != word.len() {
        return false;
    }
    assert(part.subrange(0, word@.len() as int) =~= part);
    range_has_prefix(text, from, to, word)
}

/// The kind of the event type named by `text[from..to]`.
fn classify_range(text: &[char], from: usize, to: usize) -> (kind: EventKind)
    requires
        from <= to <= text@.len(),
    ensures
        kind == classify(text@.subrange(from as int, to as int)),
{
    let finding: [char; 7] = ['f', 'i', 'n', 'd', 'i', 'n', 'g'];
    let error: [char; 5] = ['e', 'r', 'r', 'o', 'r'];
    let complete: [char; 8] = ['c', 'o', 'm', 'p', 'l', 'e', 't', 'e'];
    assert(finding@ =~= finding_name());
    assert(error@ =~= error_name());
    assert(complete@ =~= complete_name());
    if range_equals(text, from, to, finding.as_slice()) {
        EventKind::Finding
    } else if range_equals(text, from, to, error.as_slice()) {
        EventKind::Error
    } else if range_equals(text, from, to, complete.as_slice()) {
        EventKind::Complete
    } else {
        EventKind::Other
    }
}

/// Reads the line `text[from..to]`.
fn locate_line(text: &[char], from: usize, to: usize) -> (span: LineSpan)
    requires
        from <= to <= text@.len(),
    ensures
        span.within(text@.len()),
        span.line(text@) == read_line(text@.subrange(from as int, to as int)),
{
    let bounds: (usize, usize) = trim_range(text, from, to);
    let lo: usize = bounds.0;
    let hi: usize = bounds.1;
    let ghost line = text@.subrange(lo as int, hi as int);
    if lo == hi {
        return LineSpan::Blank;
    }
    let event: [char; 7] = ['e', 'v', 'e', 'n', 't', ':', ' '];
    let data: [char; 6] = ['d', 'a', 't', 'a', ':', ' '];
    assert(event@ =~= event_marker());
    assert(data@ =~= data_marker());
    if range_has_prefix(text, lo, hi, event.as_slice()) {
        assert(line.skip(7) =~= text@.subrange(lo + 7, hi as int));
        LineSpan::Event(lo + 7, hi)
    } else if range_has_prefix(text, lo, hi, data.as_slice()) {
        assert(line.skip(6) =~= text@.subrange(lo + 6, hi as int));
        LineSpan::Data(lo + 6, hi)
    } else {
        LineSpan::Ignored
    }
}

/// The position of the first line terminator at or after `from`, or the
/// length of the text if there is none.
fn find_newline(text: &[char], from: usize) -> (pos: usize)
    requires
        from <= text@.len(),
    ensures
        from <= pos <= text@.len(),
        pos == from + first_newline(text@.skip(from as int)),
{
    let mut pos: usize = from;
    while pos < text.len()
        invariant
            from <= pos <= text@.len(),
            first_newline(text@.skip(from as int)) == (pos - from) + first_newline(
                text@.skip(pos as int),
            ),
        decreases text@.len() - pos,
    {
        if text[pos] == '\n' {
            return pos;
        }
        assert(text@.skip(pos as int).drop_first() =~= text@.skip(pos + 1));
        pos = pos + 1;
    }
    pos
}

/// Reads one line, given without its terminator.
pub fn parse_line(line: &str) -> (parsed: SseLine)
    ensures
        parsed@ == read_line(line@),
{
    let chars: Vec<char> = chars_of(line);
    assert(chars@.subrange(0, chars@.len() as int) =~= chars@);
    match locate_line(chars.as_slice(), 0, chars.len()) {
        LineSpan::Blank => SseLine::Blank,
        LineSpan::Event(from, to) => SseLine::Event(
            string_of(slice_subrange(chars.as_slice(), from, to)),
        ),
        LineSpan::Data(from, to) => SseLine::Data(
            string_of(slice_subrange(chars.as_slice(), from, to)),
        ),
        LineSpan::Ignored => SseLine::Ignored,
    }
}

/// The kind of the event type named `name`.
pub fn classify_event(name: &str) -> (kind: EventKind)
    ensures
        kind == classify(name@),
{
    let chars: Vec<char> = chars_of(name);
    assert(chars@.subrange(0, chars@.len() as int) =~= chars@);
    classify_range(chars.as_slice(), 0, chars.len())
}

/// Reassembles the lines of a chunked event stream and follows its events.
pub struct StreamIngestor {
    buffer: Vec<char>,
    event: Option<EventKind>,
    failure: Option<String>,
}

impl View for StreamIngestor {
    type V = IngestState;

    closed spec fn view(&self) -> IngestState {
        IngestState {
            buffer: self.buffer@,
            event: self.event,
            failure: match self.failure {
                Some(message) => Some(message@),
                None => None,
            },
        }
    }
}

impl StreamIngestor {
    /// An ingestor that has received nothing.
    pub fn new() -> (ingestor: StreamIngestor)
        ensures
            ingestor@ == IngestState::initial(),
            ingestor@.wf(),
    {
        StreamIngestor { buffer: Vec::new(), event: None, failure: None }
    }

    /// Whether an `error` event has halted ingestion.
    pub fn is_halted(&self) -> (halted: bool)
        ensures
            halted == (self@.failure is Some),
    {
        self.failure.is_some()
    }

    /// Receives decoded text. Returns the payloads of the `finding` events
    /// that this text completes, in arrival order.
    pub fn feed_text(&mut self, text: &str) -> (payloads: Vec<String>)
        ensures
            (final(self)@, string_views(payloads@)) == feed_spec(old(self)@, text@),
            old(self)@.wf() ==> final(self)@.wf(),
    {
        proof {
            if old(self)@.wf() {
                lemma_feed_keeps_wf(old(self)@, text@);
            }
        }
        let mut payloads: Vec<String> = Vec::new();
        assert(string_views(payloads@) =~= Seq::empty());
        if self.failure.is_some() {
            return payloads;
        }
        let mut incoming: Vec<char> = chars_of(text);
        self.buffer.append(&mut incoming);
        let ghost full = self.buffer@;
        let ghost first_event = self.event;
        let len: usize = self.buffer.len();
        let mut start: usize = 0;
        assert(full.skip(0) =~= full);
        assert(run_lines(first_event, full) == after_payloads(
            string_views(payloads@),
            run_lines(self.event, full.skip(0)),
        )) by {
            let r = run_lines(self.event, full.skip(0));
            assert(string_views(payloads@) + r.payloads =~= r.payloads);
        }
        loop
            invariant
                start <= len == full.len(),
                self.buffer@ == full,
                self.failure is None,
                full == old(self)@.buffer + text@,
                first_event == old(self)@.event,
                old(self)@.failure is None,
                run_lines(first_event, full) == after_payloads(
                    string_views(payloads@),
                    run_lines(self.event, full.skip(start as int)),
                ),
            ensures
                start <= len == full.len(),
                self.buffer@ == full,
                self.failure is None,
                no_newline(full.skip(start as int)),
                run_lines(first_event, full) == after_payloads(
                    string_views(payloads@),
                    run_lines(self.event, full.skip(start as int)),
                ),
            decreases len - start,
        {
            let pos: usize = find_newline(self.buffer.as_slice(), start);
            if pos >= len {
                break;
            }
            let ghost remaining = full.skip(start as int);
            let ghost tail = remaining.subrange(pos - start + 1, remaining.len() as int);
            let ghost before = string_views(payloads@);
            assert(tail =~= full.skip(pos + 1));
            assert(remaining.subrange(0, pos - start) =~= full.subrange(start as int, pos as int));
            let span: LineSpan = locate_line(self.buffer.as_slice(), start, pos);
            match span {
                LineSpan::Blank => {
                    self.event = None;
                },
                LineSpan::Event(from, to) => {
                    self.event = Some(classify_range(self.buffer.as_slice(), from, to));
                },
                LineSpan::Data(from, to) => {
                    match self.event {
                        Some(EventKind::Finding) => {
                            let payload: String = string_of(
                                slice_subrange(self.buffer.as_slice(), from, to),
                            );
                            payloads.push(payload);
                            assert(string_views(payloads@) =~= before.push(payload@));
                            let ghost after = run_lines(self.event, tail);
                            assert(before + (seq![payload@] + after.payloads) =~= before.push(
                                payload@,
                            ) + after.payloads);
                        },
                        Some(EventKind::Error) => {
                            let message: String = string_of(
                                slice_subrange(self.buffer.as_slice(), from, to),
                            );
                            assert(before + Seq::<Seq<char>>::empty() =~= before);
                            self.failure = Some(message);
                            self.buffer = Vec::new();
                            return payloads;
                        },
                        _ => {},
                    }
                },
                LineSpan::Ignored => {},
            }
            start = pos + 1;
        }
        let rest: Vec<char> = self.buffer.split_off(start);
        self.buffer = rest;
        proof {
            let r = run_lines(self.event, full.skip(start as int));
            assert(full.subrange(start as int, full.len() as int) =~= full.skip(start as int));
            assert(string_views(payloads@) + r.payloads =~= string_views(payloads@));
        }
        payloads
    }

    /// Receives one chunk of the response body. The bytes are decoded by
    /// themselves, malformed parts replaced, and the text is then received
    /// as by [`StreamIngestor::feed_text`].
    pub fn feed(&mut self, chunk: &[u8]) -> (payloads: Vec<String>)
        ensures
            (final(self)@, string_views(payloads@)) == feed_spec(old(self)@, decoded(chunk@)),
            old(self)@.wf() ==> final(self)@.wf(),
    {
        let text: String = lossy_text(chunk);
        self.feed_text(text.as_str())
    }

    /// The outcome when the stream closes: a failure if an `error` event was
    /// seen, a success otherwise, whether or not a `complete` event arrived.
    pub fn finish(self) -> (outcome: IngestionOutcome)
        ensures
            outcome@ == self@.outcome(),
    {
        match self.failure {
            Some(message) => IngestionOutcome::ServerError(message),
            None => IngestionOutcome::Success,
        }
    }

    /// The outcome when reading the stream fails with `description`.
    pub fn fail(self, description: String) -> (outcome: IngestionOutcome)
        ensures
            outcome@ == self@.outcome_on_failure(description@),
    {
        match self.failure {
            Some(message) => IngestionOutcome::ServerError(message),
            None => IngestionOutcome::TransportError(description),
        }
    }
}

/// Keeps of decoded payloads those that decoded, in order. A payload that
/// failed to decode is passed over and nothing else changes.
pub fn retain_decoded<T>(decoded: Vec<Option<T>>) -> (kept: Vec<T>)
    ensures
        kept@ == delivered(decoded@),
{
    let mut kept: Vec<T> = Vec::new();
    let ghost all = decoded@;
    assert(all.take(0) =~= Seq::<Option<T>>::empty());
    for item in it: decoded
        invariant
            it.seq() == all,
            kept@ == delivered(all.take(it.index())),
    {
        proof {
            let i = it.index() as int;
            assert(all.take(i + 1).drop_last() =~= all.take(i));
        }
        match item {
            Some(value) => {
                kept.push(value);
            },
            None => {},
        }
    }
    assert(all.take(all.len() as int) =~= all);
    kept
}

proof fn lemma_first_newline(s: Seq<char>)
    ensures
        first_newline(s) <= s.len(),
        first_newline(s) < s.len() ==> s[first_newline(s) as int] == '\n',
        forall|j: int| 0 <= j < first_newline(s) ==> s[j] != '\n',
    decreases s.len(),
{
    if s.len() > 0 && s.first() != '\n' {
        let rest = s.drop_first();
        lemma_first_newline(rest);
        assert forall|j: int| 0 <= j < first_newline(s) implies s[j] != '\n' by {
            if j > 0 {
                assert(s[j] == rest[j - 1]);
            }
        }
    }
}

proof fn lemma_first_newline_append(x: Seq<char>, y: Seq<char>)
    ensures
        first_newline(x) < x.len() ==> first_newline(x + y) == first_newline(x),
        first_newline(x) >= x.len() ==> first_newline(x + y) == x.len() + first_newline(y),
    decreases x.len(),
{
    lemma_first_newline(x);
    if x.len() == 0 {
        assert(x + y =~= y);
    } else {
        assert((x + y).first() == x.first());
        assert((x + y).drop_first() =~= x.drop_first() + y);
        if x.first() != '\n' {
            lemma_first_newline_append(x.drop_first(), y);
        }
    }
}

/// A run over `x + y` is the run over `x`, followed, unless that one ended
/// in an error, by the run over what it left and `y`.
proof fn lemma_run_append(event: Option<EventKind>, x: Seq<char>, y: Seq<char>)
    ensures
        run_lines(event, x + y) == ({
            let first = run_lines(event, x);
            if first.failure is Some {
                first
            } else {
                after_payloads(first.payloads, run_lines(first.event, first.rest + y))
            }
        }),
    decreases x.len(),
{
    lemma_first_newline(x);
    lemma_first_newline_append(x, y);
    let n = first_newline(x);
    if n >= x.len() {
        let second = run_lines(event, x + y);
        assert(Seq::<Seq<char>>::empty() + second.payloads =~= second.payloads);
    } else {
        let tail = x.subrange(n as int + 1, x.len() as int);
        assert((x + y).subrange(0, n as int) =~= x.subrange(0, n as int));
        assert((x + y).subrange(n as int + 1, (x + y).len() as int) =~= tail + y);
        let line = read_line(x.subrange(0, n as int));
        let next: Option<EventKind> = match line {
            LineView::Blank => None,
            LineView::Event(name) => Some(classify(name)),
            _ => event,
        };
        let halts = line is Data && event == Some(EventKind::Error);
        if !halts {
            lemma_run_append(next, tail, y);
            let first = run_lines(next, tail);
            if line is Data && event == Some(EventKind::Finding) && first.failure is None {
                let payload = line->Data_0;
                let second = run_lines(first.event, first.rest + y);
                assert(seq![payload] + (first.payloads + second.payloads) =~= (seq![payload]
                    + first.payloads) + second.payloads);
            }
        }
    }
}

proof fn lemma_run_leaves_no_line(event: Option<EventKind>, text: Seq<char>)
    ensures
        no_newline(run_lines(event, text).rest),
    decreases text.len(),
{
    lemma_first_newline(text);
    let n = first_newline(text);
    if n < text.len() {
        let tail = text.subrange(n as int + 1, text.len() as int);
        let line = read_line(text.subrange(0, n as int));
        let next: Option<EventKind> = match line {
            LineView::Blank => None,
            LineView::Event(name) => Some(classify(name)),
            _ => event,
        };
        lemma_run_leaves_no_line(next, tail);
    }
}

/// Receiving text leaves no complete line in the buffer.
pub proof fn lemma_feed_keeps_wf(s: IngestState, text: Seq<char>)
    requires
        s.wf(),
    ensures
        feed_spec(s, text).0.wf(),
{
    if s.failure is None {
        lemma_run_leaves_no_line(s.event, s.buffer + text);
    }
}

/// Chunk boundaries do not matter: receiving `a` and then `b` leaves the
/// same state and hands out the same payloads, in the same order, as
/// receiving `a + b` at once.
pub proof fn lemma_feed_concat(s: IngestState, a: Seq<char>, b: Seq<char>)
    ensures
        feed_spec(s, a + b).0 == feed_spec(feed_spec(s, a).0, b).0,
        feed_spec(s, a + b).1 == feed_spec(s, a).1 + feed_spec(feed_spec(s, a).0, b).1,
{
    if s.failure is None {
        assert(s.buffer + (a + b) =~= (s.buffer + a) + b);
        lemma_run_append(s.event, s.buffer + a, b);
    }
    let first = feed_spec(s, a);
    let second = feed_spec(first.0, b);
    if first.0.failure is Some {
        assert(first.1 + second.1 =~= first.1);
    }
}

/// Receiving chunks one after the other is receiving their concatenation.
pub proof fn lemma_feed_all_is_feed_concat(s: IngestState, chunks: Seq<Seq<char>>)
    requires
        s.wf(),
    ensures
        feed_all(s, chunks) == feed_spec(s, concat_all(chunks)),
    decreases chunks.len(),
{
    if chunks.len() == 0 {
        if s.failure is None {
            assert(s.buffer + Seq::<char>::empty() =~= s.buffer);
        }
    } else {
        lemma_feed_all_is_feed_concat(s, chunks.drop_last());
        lemma_feed_concat(s, concat_all(chunks.drop_last()), chunks.last());
    }
}

/// However a text is cut into chunks, the ingestor ends in the same state,
/// so with the same outcome, and hands out the same payloads in the same
/// order.
pub proof fn lemma_chunking_is_irrelevant(
    s: IngestState,
    first: Seq<Seq<char>>,
    second: Seq<Seq<char>>,
)
    requires
        s.wf(),
        concat_all(first) == concat_all(second),
    ensures
        feed_all(s, first) == feed_all(s, second),
        feed_all(s, first).0.outcome() == feed_all(s, second).0.outcome(),
{
    lemma_feed_all_is_feed_concat(s, first);
    lemma_feed_all_is_feed_concat(s, second);
}

/// The same for byte chunks, each decoded by itself, wherever the two ways
/// of cutting the stream decode to the same text.
pub proof fn lemma_byte_chunking_is_irrelevant(
    s: IngestState,
    first: Seq<Seq<u8>>,
    second: Seq<Seq<u8>>,
)
    requires
        s.wf(),
        concat_all(decode_chunks(first)) == concat_all(decode_chunks(second)),
    ensures
        feed_all(s, decode_chunks(first)) == feed_all(s, decode_chunks(second)),
{
    lemma_chunking_is_irrelevant(s, decode_chunks(first), decode_chunks(second));
}

/// Decoding well-formed UTF-8 piece by piece gives the text of the whole.
proof fn lemma_decode_concat(a: Seq<u8>, b: Seq<u8>)
    requires
        valid_utf8(a),
        valid_utf8(b),
    ensures
        valid_utf8(a + b),
        decode_utf8(a + b) == decode_utf8(a) + decode_utf8(b),
    decreases a.len(),
{
    valid_utf8_concat(a, b);
    if a.len() == 0 {
        assert(a + b =~= b);
        assert(decode_utf8(a) + decode_utf8(b) =~= decode_utf8(b));
    } else {
        let whole = a + b;
        let rest = pop_first_scalar(a);
        assert(valid_first_scalar(a));
        assert(length_of_first_scalar(a) <= a.len());
        assert(forall|i: int| 0 <= i < a.len() ==> whole[i] == a[i]);
        assert(whole[0] == a[0]);
        assert(length_of_first_scalar(whole) == length_of_first_scalar(a));
        assert(decode_first_scalar(whole) == decode_first_scalar(a));
        assert(pop_first_scalar(whole) =~= rest + b);
        lemma_decode_concat(rest, b);
        assert(seq![decode_first_scalar(a) as char] + (decode_utf8(rest) + decode_utf8(b)) =~= (
        seq![decode_first_scalar(a) as char] + decode_utf8(rest)) + decode_utf8(b));
    }
}

proof fn lemma_decode_chunks_concat(chunks: Seq<Seq<u8>>)
    requires
        all_well_formed(chunks),
    ensures
        valid_utf8(concat_bytes(chunks)),
        concat_all(decode_chunks(chunks)) == decode_utf8(concat_bytes(chunks)),
    decreases chunks.len(),
{
    if chunks.len() > 0 {
        let before = chunks.drop_last();
        assert(all_well_formed(before)) by {
            assert forall|i: int| 0 <= i < before.len() implies valid_utf8(
                #[trigger] before[i],
            ) by {
                assert(before[i] == chunks[i]);
            }
        }
        lemma_decode_chunks_concat(before);
        assert(valid_utf8(chunks[chunks.len() - 1]));
        lemma_decode_concat(concat_bytes(before), chunks.last());
        assert(decode_chunks(chunks).drop_last() =~= decode_chunks(before));
    }
}

/// Wherever a well-formed UTF-8 stream is cut between characters, the
/// ingestor ends in the same state, so with the same outcome, and hands out
/// the same payloads in the same order.
pub proof fn lemma_well_formed_chunking_is_irrelevant(
    s: IngestState,
    first: Seq<Seq<u8>>,
    second: Seq<Seq<u8>>,
)
    requires
        s.wf(),
        all_well_formed(first),
        all_well_formed(second),
        concat_bytes(first) == concat_bytes(second),
    ensures
        feed_all(s, decode_chunks(first)) == feed_all(s, decode_chunks(second)),
        feed_all(s, decode_chunks(first)).0.outcome() == feed_all(
            s,
            decode_chunks(second),
        ).0.outcome(),
{
    lemma_decode_chunks_concat(first);
    lemma_decode_chunks_concat(second);
    lemma_byte_chunking_is_irrelevant(s, first, second);
}

/// An `error` event halts ingestion: once `a` has brought one, whatever
/// follows changes neither the state nor the payloads handed out.
pub proof fn lemma_error_is_final(s: IngestState, a: Seq<char>, b: Seq<char>)
    requires
        feed_spec(s, a).0.failure is Some,
    ensures
        feed_spec(s, a + b) == feed_spec(s, a),
        feed_spec(feed_spec(s, a).0, b) == (feed_spec(s, a).0, Seq::<Seq<char>>::empty()),
{
    lemma_feed_concat(s, a, b);
    assert(feed_spec(s, a).1 + Seq::<Seq<char>>::empty() =~= feed_spec(s, a).1);
}

/// A `finding` data line neither halts ingestion nor changes the event
/// type, whatever its payload holds: the payload is handed out and the run
/// goes on with the next line.
pub proof fn lemma_finding_line_goes_on(line: Seq<char>, payload: Seq<char>, rest: Seq<char>)
    requires
        no_newline(line),
        read_line(line) == LineView::Data(payload),
    ensures
        run_lines(Some(EventKind::Finding), line + seq!['\n'] + rest) == after_payloads(
            seq![payload],
            run_lines(Some(EventKind::Finding), rest),
        ),
{
    let text = line + seq!['\n'] + rest;
    lemma_first_newline_append(line, seq!['\n'] + rest);
    assert(text =~= line + (seq!['\n'] + rest));
    assert((seq!['\n'] + rest).first() == '\n');
    assert(first_newline(seq!['\n'] + rest) == 0);
    assert(text.subrange(0, line.len() as int) =~= line);
    assert(text.subrange(line.len() as int + 1, text.len() as int) =~= rest);
}

/// A payload that failed to decode is skipped, and those around it are
/// delivered as if it were not there.
pub proof fn lemma_failed_decode_is_skipped<T>(before: Seq<Option<T>>, after: Seq<Option<T>>)
    ensures
        delivered(before.push(None) + after) == delivered(before) + delivered(after),
        delivered(before + after) == delivered(before) + delivered(after),
    decreases after.len(),
{
    if after.len() == 0 {
        assert(before.push(None) + after =~= before.push(None));
        assert(before + after =~= before);
        assert(before.push(None).drop_last() =~= before);
        assert(delivered(before) + delivered(after) =~= delivered(before));
    } else {
        lemma_failed_decode_is_skipped(before, after.drop_last());
        assert((before.push(None) + after).drop_last() =~= before.push(None) + after.drop_last());
        assert((before + after).drop_last() =~= before + after.drop_last());
        match after.last() {
            Some(value) => {
                assert((delivered(before) + delivered(after.drop_last())).push(value)
                    =~= delivered(before) + delivered(after.drop_last()).push(value));
            },
            None => {},
        }
    }
}

/// A stream that closes before anything arrived succeeds with no payload.
pub proof fn lemma_empty_stream_succeeds(chunks: Seq<Seq<char>>)
    requires
        concat_all(chunks).len() == 0,
    ensures
        feed_all(IngestState::initial(), chunks).0.outcome() == OutcomeView::Success,
        feed_all(IngestState::initial(), chunks).1.len() == 0,
{
    lemma_feed_all_is_feed_concat(IngestState::initial(), chunks);
    assert(Seq::<char>::empty() + concat_all(chunks) =~= Seq::<char>::empty());
}

} // verus!
