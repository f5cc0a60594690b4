//! The line multiplexer: the output of a running command arrives from two
//! sources in pieces of any size, and leaves as one sequence of lines.
//!
//! A line ends at a line feed. The line feed is not part of the line, nor is
//! a carriage return that stands right before it. What a source has written
//! after its last line feed is held back until more arrives, and is given out
//! as a last line when the source ends.

use crate::error::Failure;
use crate::text::split;
use vstd::prelude::*;
use vstd::utf8::{decode_utf8, encode_utf8, valid_utf8};

verus! {

/// The byte that ends a line.
pub const LINE_FEED: u8 = 10;

/// The byte that may stand before the line feed without being part of the
/// line.
pub const CARRIAGE_RETURN: u8 = 13;

/// A line without the carriage return at its end, if it has one.
pub open spec fn strip_cr(line: Seq<u8>) -> Seq<u8> {
    if line.len() > 0 && line.last() == CARRIAGE_RETURN {
        line.drop_last()
    } else {
        line
    }
}

/// The lines of `stream` that a line feed has ended.
pub open spec fn complete_lines(stream: Seq<u8>) -> Seq<Seq<u8>> {
    split(stream, LINE_FEED).drop_last().map_values(|line: Seq<u8>| strip_cr(line))
}

/// What `stream` holds after its last line feed.
pub open spec fn fragment(stream: Seq<u8>) -> Seq<u8> {
    split(stream, LINE_FEED).last()
}

/// The lines of a stream that has ended: the complete ones, and the fragment
/// if there is one.
pub open spec fn all_lines(stream: Seq<u8>) -> Seq<Seq<u8>> {
    if fragment(stream).len() == 0 {
        complete_lines(stream)
    } else {
        complete_lines(stream).push(fragment(stream))
    }
}

/// How many bytes of `stream` are line feeds.
pub open spec fn line_feeds(stream: Seq<u8>) -> nat {
    stream.filter(|b: u8| b == LINE_FEED).len()
}

/// What one more byte does to the lines of a stream: a line feed completes the
/// fragment, any other byte extends it.
pub proof fn lemma_lines_push(stream: Seq<u8>, byte: u8)
    ensures
        byte == LINE_FEED ==> complete_lines(stream.push(byte)) == complete_lines(stream).push(
            strip_cr(fragment(stream)),
        ) && fragment(stream.push(byte)) == Seq::<u8>::empty(),
        byte != LINE_FEED ==> complete_lines(stream.push(byte)) == complete_lines(stream)
            && fragment(stream.push(byte)) == fragment(stream).push(byte),
{
    assert(stream.push(byte).drop_last() =~= stream);
}

/// Every line feed ends exactly one line, and no line holds a line feed.
pub proof fn lemma_lines_count(stream: Seq<u8>)
    ensures
        complete_lines(stream).len() == line_feeds(stream),
        forall|k: int|
            0 <= k < complete_lines(stream).len() ==> !(#[trigger] complete_lines(stream)[k]).contains(
                LINE_FEED,
            ),
        !fragment(stream).contains(LINE_FEED),
    decreases stream.len(),
{
    if stream.len() > 0 {
        let shorter = stream.drop_last();
        lemma_lines_count(shorter);
        lemma_lines_push(shorter, stream.last());
        assert(stream =~= shorter.push(stream.last()));
        Seq::lemma_filter_push(shorter, stream.last(), |b: u8| b == LINE_FEED);
    }
}

/// A stream without a line feed is all fragment.
pub proof fn lemma_lines_of_fragment(stream: Seq<u8>)
    requires
        !stream.contains(LINE_FEED),
    ensures
        complete_lines(stream) == Seq::<Seq<u8>>::empty(),
        fragment(stream) == stream,
    decreases stream.len(),
{
    if stream.len() > 0 {
        let shorter = stream.drop_last();
        lemma_lines_of_fragment(shorter);
    }
}

/// The lines do not depend on the pieces in which a stream arrives: what
/// `later` adds to the lines of `earlier` is what it completes of the
/// fragment that `earlier` left. So each line is given out once, in the
/// order of the stream, however the stream was cut.
pub proof fn lemma_lines_append(earlier: Seq<u8>, later: Seq<u8>)
    ensures
        complete_lines(earlier + later) == complete_lines(earlier) + complete_lines(
            fragment(earlier) + later,
        ),
        fragment(earlier + later) == fragment(fragment(earlier) + later),
    decreases later.len(),
{
    if later.len() == 0 {
        lemma_lines_count(earlier);
        lemma_lines_of_fragment(fragment(earlier));
    } else {
        let shorter = later.drop_last();
        let byte = later.last();
        lemma_lines_append(earlier, shorter);
        assert(earlier + later =~= (earlier + shorter).push(byte));
        assert(fragment(earlier) + later =~= (fragment(earlier) + shorter).push(byte));
        lemma_lines_push(earlier + shorter, byte);
        lemma_lines_push(fragment(earlier) + shorter, byte);
    }
}

/// The bytes that each of the lines holds.
pub open spec fn bytes_of(lines: Seq<Vec<u8>>) -> Seq<Seq<u8>> {
    lines.map_values(|line: Vec<u8>| line@)
}

/// What a line buffer holds: the fragment that waits for its line feed, and
/// whether the source may still write.
pub struct BufferState {
    pub pending: Seq<u8>,
    pub open: bool,
}

impl BufferState {
    /// Whether what is held back holds no line feed. It never does: a line
    /// feed ends the line, and what follows it begins the next.
    pub open spec fn is_tidy(self) -> bool {
        !self.pending.contains(LINE_FEED)
    }
}

/// Whether none of the lines holds a line feed.
pub open spec fn feed_free(lines: Seq<Seq<u8>>) -> bool {
    forall|i: int| 0 <= i < lines.len() ==> !(#[trigger] lines[i]).contains(LINE_FEED)
}

/// Whatever arrives at a buffer, what it holds back afterwards holds no line
/// feed, and no line that it gives out holds one; nor does the fragment that
/// it flushes at the end, if it held none before.
pub proof fn lemma_buffer_stays_tidy(state: BufferState, chunk: Seq<u8>)
    requires
        state.is_tidy(),
    ensures
        LineBuffer::fed(state, chunk).is_tidy(),
        feed_free(LineBuffer::completed(state, chunk)),
        feed_free(LineBuffer::flushed(state)),
        LineBuffer::initial().is_tidy(),
        LineBuffer::ended().is_tidy(),
{
    lemma_lines_count(state.pending + chunk);
}

/// Collects what one source writes and gives it out line by line.
#[derive(Debug)]
pub struct LineBuffer {
    pending: Vec<u8>,
    open: bool,
}

impl View for LineBuffer {
    type V = BufferState;

    closed spec fn view(&self) -> BufferState {
        BufferState { pending: self.pending@, open: self.open }
    }
}

impl LineBuffer {
    /// What is held back never holds a line feed.
    #[verifier::type_invariant]
    spec fn inv(self) -> bool {
        !self.pending@.contains(LINE_FEED)
    }

    /// The state of a source that has written nothing yet.
    pub open spec fn initial() -> BufferState {
        BufferState { pending: Seq::empty(), open: true }
    }

    /// The state of a source that has ended.
    pub open spec fn ended() -> BufferState {
        BufferState { pending: Seq::empty(), open: false }
    }

    /// The state after `chunk` has arrived. A source that has ended writes no
    /// more: what is said to arrive from it is dropped.
    pub open spec fn fed(state: BufferState, chunk: Seq<u8>) -> BufferState {
        if state.open {
            BufferState { pending: fragment(state.pending + chunk), open: true }
        } else {
            state
        }
    }

    /// The lines that `chunk` completes.
    pub open spec fn completed(state: BufferState, chunk: Seq<u8>) -> Seq<Seq<u8>> {
        if state.open {
            complete_lines(state.pending + chunk)
        } else {
            Seq::empty()
        }
    }

    /// The line that is given out when the source ends, if there is one.
    pub open spec fn flushed(state: BufferState) -> Seq<Seq<u8>> {
        if state.open && state.pending.len() > 0 {
            seq![state.pending]
        } else {
            Seq::empty()
        }
    }

    /// A buffer for a source that has written nothing yet.
    pub fn new() -> (buffer: LineBuffer)
        ensures
            buffer@ == LineBuffer::initial(),
            buffer@.is_tidy(),
    {
        LineBuffer { pending: Vec::new(), open: true }
    }

    /// Whether the source may still write. What the buffer holds back holds
    /// no line feed, whenever it is asked.
    pub fn is_open(&self) -> (open: bool)
        ensures
            open == self@.open,
            self@.is_tidy(),
    {
        proof {
            use_type_invariant(self);
        }
        self.open
    }

    /// Takes in what the source has written and returns the lines that this
    /// completes, in the order in which they were written.
    pub fn feed(&mut self, chunk: &Vec<u8>) -> (lines: Vec<Vec<u8>>)
        ensures
            final(self)@ == LineBuffer::fed(old(self)@, chunk@),
            bytes_of(lines@) == LineBuffer::completed(old(self)@, chunk@),
            old(self)@.is_tidy(),
            final(self)@.is_tidy(),
            feed_free(bytes_of(lines@)),
    {
        proof {
            use_type_invariant(&*self);
        }
        let mut lines: Vec<Vec<u8>> = Vec::new();
        if !self.open {
            return lines;
        }
        let mut pending: Vec<u8> = Vec::new();
        std::mem::swap(&mut pending, &mut self.pending);
        let ghost start = pending@;
        let mut i: usize = 0;
        proof {
            lemma_lines_of_fragment(start);
        }
        while i < chunk.len()
            invariant
                i <= chunk.len(),
                bytes_of(lines@) == complete_lines(start + chunk@.take(i as int)),
                pending@ == fragment(start + chunk@.take(i as int)),
            decreases chunk.len() - i,
        {
            let byte = chunk[i];
            proof {
                lemma_lines_push(start + chunk@.take(i as int), byte);
                assert(start + chunk@.take(i + 1) =~= (start + chunk@.take(i as int)).push(byte));
            }
            if byte == LINE_FEED {
                let mut line: Vec<u8> = Vec::new();
                std::mem::swap(&mut line, &mut pending);
                let n = line.len();
                if n > 0 && line[n - 1] == CARRIAGE_RETURN {
                    line.pop();
                }
                lines.push(line);
            } else {
                pending.push(byte);
            }
            i += 1;
        }
        proof {
            assert(chunk@.take(i as int) =~= chunk@);
            lemma_lines_count(start + chunk@);
        }
        self.pending = pending;
        lines
    }

    /// Ends the source and returns what it had written after its last line
    /// feed, if anything.
    pub fn close(&mut self) -> (last: Option<Vec<u8>>)
        ensures
            final(self)@ == LineBuffer::ended(),
            match last {
                Some(line) => LineBuffer::flushed(old(self)@) == seq![line@],
                None => LineBuffer::flushed(old(self)@) == Seq::<Seq<u8>>::empty(),
            },
            old(self)@.is_tidy(),
            final(self)@.is_tidy(),
            last matches Some(line) ==> !line@.contains(LINE_FEED),
    {
        proof {
            use_type_invariant(&*self);
        }
        let mut rest: Vec<u8> = Vec::new();
        std::mem::swap(&mut rest, &mut self.pending);
        let was_open = self.open;
        self.open = false;
        if was_open && rest.len() > 0 {
            Some(rest)
        } else {
            None
        }
    }
}

/// The two sources of output of a running command.
#[derive(Debug, Clone, Copy, PartialEq, Eq, Structural)]
pub enum Source {
    Stdout,
    Stderr,
}

/// What the reader of a command's output observed.
#[derive(Debug)]
pub enum Arrival {
    /// The source wrote these bytes.
    Data(Source, Vec<u8>),
    /// The source reached its end.
    End(Source),
    /// Reading from the source failed.
    Failed(Source),
}

/// An arrival as plain values.
pub enum ArrivalModel {
    Data(Source, Seq<u8>),
    End(Source),
    Failed(Source),
}

impl View for Arrival {
    type V = ArrivalModel;

    open spec fn view(&self) -> ArrivalModel {
        match self {
            Arrival::Data(source, chunk) => ArrivalModel::Data(*source, chunk@),
            Arrival::End(source) => ArrivalModel::End(*source),
            Arrival::Failed(source) => ArrivalModel::Failed(*source),
        }
    }
}

impl ArrivalModel {
    /// The source that an arrival is about.
    pub open spec fn source(self) -> Source {
        match self {
            ArrivalModel::Data(source, _) => source,
            ArrivalModel::End(source) => source,
            ArrivalModel::Failed(source) => source,
        }
    }
}

/// What a multiplexer holds: the state of each source, and whether reading
/// has failed.
pub struct MuxState {
    pub out: BufferState,
    pub err: BufferState,
    pub failed: bool,
}

impl MuxState {
    /// Whether what is held back of either source holds no line feed. It
    /// never does.
    pub open spec fn is_tidy(self) -> bool {
        self.out.is_tidy() && self.err.is_tidy()
    }
}

/// Merges the output of two sources into one sequence of lines, in the order
/// in which the lines become complete.
#[derive(Debug)]
pub struct LineMux {
    out: LineBuffer,
    err: LineBuffer,
    failed: bool,
}

impl View for LineMux {
    type V = MuxState;

    closed spec fn view(&self) -> MuxState {
        MuxState { out: self.out@, err: self.err@, failed: self.failed }
    }
}

impl LineMux {
    /// The state before anything has arrived.
    pub open spec fn initial() -> MuxState {
        MuxState { out: LineBuffer::initial(), err: LineBuffer::initial(), failed: false }
    }

    /// The state of one of the two sources.
    pub open spec fn buffer(state: MuxState, source: Source) -> BufferState {
        match source {
            Source::Stdout => state.out,
            Source::Stderr => state.err,
        }
    }

    /// The state with one of the two sources replaced.
    pub open spec fn with_buffer(state: MuxState, source: Source, buffer: BufferState) -> MuxState {
        match source {
            Source::Stdout => MuxState { out: buffer, ..state },
            Source::Stderr => MuxState { err: buffer, ..state },
        }
    }

    /// Whether an arrival ends the sequence with an error: reading failed
    /// now, or had failed before.
    pub open spec fn fails(state: MuxState, arrival: ArrivalModel) -> bool {
        state.failed || arrival is Failed
    }

    /// The state after an arrival.
    pub open spec fn next(state: MuxState, arrival: ArrivalModel) -> MuxState {
        if state.failed {
            state
        } else {
            match arrival {
                ArrivalModel::Data(source, chunk) => LineMux::with_buffer(
                    state,
                    source,
                    LineBuffer::fed(LineMux::buffer(state, source), chunk),
                ),
                ArrivalModel::End(source) => LineMux::with_buffer(
                    state,
                    source,
                    LineBuffer::ended(),
                ),
                ArrivalModel::Failed(_) => MuxState { failed: true, ..state },
            }
        }
    }

    /// The lines that an arrival gives out.
    pub open spec fn lines(state: MuxState, arrival: ArrivalModel) -> Seq<Seq<u8>> {
        if state.failed {
            Seq::empty()
        } else {
            match arrival {
                ArrivalModel::Data(source, chunk) => LineBuffer::completed(
                    LineMux::buffer(state, source),
                    chunk,
                ),
                ArrivalModel::End(source) => LineBuffer::flushed(LineMux::buffer(state, source)),
                ArrivalModel::Failed(_) => Seq::empty(),
            }
        }
    }

    /// Whether the sequence of lines is over: both sources have ended, or
    /// reading has failed.
    pub open spec fn finished(state: MuxState) -> bool {
        state.failed || (!state.out.open && !state.err.open)
    }

    /// A multiplexer to which nothing has arrived yet.
    pub fn new() -> (mux: LineMux)
        ensures
            mux@ == LineMux::initial(),
            mux@.is_tidy(),
    {
        LineMux { out: LineBuffer::new(), err: LineBuffer::new(), failed: false }
    }

    /// Whether the sequence of lines is over. What the multiplexer holds
    /// back holds no line feed, whenever it is asked.
    pub fn is_finished(&self) -> (finished: bool)
        ensures
            finished == LineMux::finished(self@),
            self@.is_tidy(),
    {
        proof {
            use_type_invariant(&self.out);
            use_type_invariant(&self.err);
        }
        self.failed || (!self.out.is_open() && !self.err.is_open())
    }

    /// Takes in an arrival and returns the lines that it makes ready, in
    /// order. A failed read ends the sequence: it and all that arrives after
    /// it is answered with an error.
    pub fn accept(&mut self, arrival: Arrival) -> (result: Result<Vec<Vec<u8>>, Failure>)
        ensures
            final(self)@ == LineMux::next(old(self)@, arrival@),
            match result {
                Ok(lines) => !LineMux::fails(old(self)@, arrival@) && bytes_of(lines@)
                    == LineMux::lines(old(self)@, arrival@),
                Err(failure) => LineMux::fails(old(self)@, arrival@) && failure
                    == Failure::ReadFailed,
            },
            old(self)@.is_tidy(),
            final(self)@.is_tidy(),
            result matches Ok(lines) ==> feed_free(bytes_of(lines@)),
    {
        proof {
            use_type_invariant(&self.out);
            use_type_invariant(&self.err);
        }
        if self.failed {
            return Err(Failure::ReadFailed);
        }
        match arrival {
            Arrival::Data(source, chunk) => {
                let lines = match source {
                    Source::Stdout => self.out.feed(&chunk),
                    Source::Stderr => self.err.feed(&chunk),
                };
                Ok(lines)
            },
            Arrival::End(source) => {
                let last = match source {
                    Source::Stdout => self.out.close(),
                    Source::Stderr => self.err.close(),
                };
                let mut lines: Vec<Vec<u8>> = Vec::new();
                if let Some(line) = last {
                    lines.push(line);
                }
                Ok(lines)
            },
            Arrival::Failed(_) => {
                self.failed = true;
                Err(Failure::ReadFailed)
            },
        }
    }
}

/// Whatever arrives at a multiplexer that holds back no line feed, it holds
/// back none afterwards, and no line that it gives out holds one. So every
/// line that is given out, the flushed fragment of a source that ends among
/// them, is one line.
pub proof fn lemma_mux_stays_tidy(state: MuxState, arrival: ArrivalModel)
    requires
        state.is_tidy(),
    ensures
        LineMux::next(state, arrival).is_tidy(),
        feed_free(LineMux::lines(state, arrival)),
        LineMux::initial().is_tidy(),
{
    match arrival {
        ArrivalModel::Data(source, chunk) => {
            lemma_buffer_stays_tidy(LineMux::buffer(state, source), chunk);
        },
        _ => {},
    }
}

/// A line together with the source that wrote it.
pub type Tagged = (Source, Seq<u8>);

/// The lines, each marked as written by `source`.
pub open spec fn tag(source: Source, lines: Seq<Seq<u8>>) -> Seq<Tagged> {
    lines.map_values(|line: Seq<u8>| (source, line))
}

/// The test for a line that `source` wrote.
pub open spec fn written_by(source: Source) -> spec_fn(Tagged) -> bool {
    |t: Tagged| t.0 == source
}

/// The lines among `trace` that `source` wrote, in order.
pub open spec fn lines_from(trace: Seq<Tagged>, source: Source) -> Seq<Seq<u8>> {
    trace.filter(written_by(source)).map_values(|t: Tagged| t.1)
}

/// The state of a multiplexer after a sequence of arrivals.
pub open spec fn mux_after(state: MuxState, arrivals: Seq<ArrivalModel>) -> MuxState
    decreases arrivals.len(),
{
    if arrivals.len() == 0 {
        state
    } else {
        LineMux::next(mux_after(state, arrivals.drop_last()), arrivals.last())
    }
}

/// All the lines that a sequence of arrivals gives out, in the order in
/// which they are given out, each with its source.
pub open spec fn mux_trace(state: MuxState, arrivals: Seq<ArrivalModel>) -> Seq<Tagged>
    decreases arrivals.len(),
{
    if arrivals.len() == 0 {
        Seq::empty()
    } else {
        mux_trace(state, arrivals.drop_last()) + tag(
            arrivals.last().source(),
            LineMux::lines(mux_after(state, arrivals.drop_last()), arrivals.last()),
        )
    }
}

/// Whether `source` has reached its end among the arrivals.
pub open spec fn has_ended(arrivals: Seq<ArrivalModel>, source: Source) -> bool {
    exists|i: int| 0 <= i < arrivals.len() && arrivals[i] == ArrivalModel::End(source)
}

/// What `source` wrote before it reached its end, as one stream.
pub open spec fn written(arrivals: Seq<ArrivalModel>, source: Source) -> Seq<u8>
    decreases arrivals.len(),
{
    if arrivals.len() == 0 {
        Seq::empty()
    } else {
        let before = arrivals.drop_last();
        match arrivals.last() {
            ArrivalModel::Data(from, chunk) => if from == source && !has_ended(before, source) {
                written(before, source) + chunk
            } else {
                written(before, source)
            },
            _ => written(before, source),
        }
    }
}

/// Whether no read has failed among the arrivals.
pub open spec fn unbroken(arrivals: Seq<ArrivalModel>) -> bool {
    forall|i: int| 0 <= i < arrivals.len() ==> !((#[trigger] arrivals[i]) is Failed)
}

/// Lines that were given out stay where they are: what arrives later only
/// adds lines after them.
pub proof fn lemma_mux_trace_append(
    state: MuxState,
    earlier: Seq<ArrivalModel>,
    later: Seq<ArrivalModel>,
)
    ensures
        mux_after(state, earlier + later) == mux_after(mux_after(state, earlier), later),
        mux_trace(state, earlier + later) == mux_trace(state, earlier) + mux_trace(
            mux_after(state, earlier),
            later,
        ),
    decreases later.len(),
{
    if later.len() > 0 {
        lemma_mux_trace_append(state, earlier, later.drop_last());
        assert((earlier + later).drop_last() =~= earlier + later.drop_last());
    }
}

/// What is held of the lines of one source when lines are added to a trace.
proof fn lemma_lines_from_append(trace: Seq<Tagged>, from: Source, lines: Seq<Seq<u8>>, source: Source)
    ensures
        lines_from(trace + tag(from, lines), source) == if from == source {
            lines_from(trace, source) + lines
        } else {
            lines_from(trace, source)
        },
{
    let wanted = written_by(source);
    let added = tag(from, lines);
    if from == source {
        lemma_filter_keeps_all(added, wanted);
    } else {
        added.lemma_all_neg_filter_empty(wanted);
    }
}

/// A filter leaves a sequence as it is if every element passes.
proof fn lemma_filter_keeps_all<T>(s: Seq<T>, pred: spec_fn(T) -> bool)
    requires
        forall|i: int| 0 <= i < s.len() ==> pred(#[trigger] s[i]),
    ensures
        s.filter(pred) == s,
    decreases s.len(),
{
    reveal(Seq::filter);
    if s.len() > 0 {
        lemma_filter_keeps_all(s.drop_last(), pred);
    }
}

/// Each source sees its own output cut into lines, whatever the pieces in
/// which it arrived and whatever the other source did meanwhile: among the
/// lines given out, those of one source are the lines of what it wrote, each
/// once and in the order written, with the unfinished last line once the
/// source has ended.
pub proof fn lemma_mux_source_lines(arrivals: Seq<ArrivalModel>, source: Source)
    requires
        unbroken(arrivals),
    ensures
        !mux_after(LineMux::initial(), arrivals).failed,
        has_ended(arrivals, source) ==> lines_from(
            mux_trace(LineMux::initial(), arrivals),
            source,
        ) == all_lines(written(arrivals, source)) && LineMux::buffer(
            mux_after(LineMux::initial(), arrivals),
            source,
        ) == LineBuffer::ended(),
        !has_ended(arrivals, source) ==> lines_from(
            mux_trace(LineMux::initial(), arrivals),
            source,
        ) == complete_lines(written(arrivals, source)) && LineMux::buffer(
            mux_after(LineMux::initial(), arrivals),
            source,
        ) == (BufferState { pending: fragment(written(arrivals, source)), open: true }),
    decreases arrivals.len(),
{
    let start = LineMux::initial();
    if arrivals.len() == 0 {
    } else {
        let before = arrivals.drop_last();
        let last = arrivals.last();
        lemma_mux_source_lines(before, source);
        lemma_lines_from_append(
            mux_trace(start, before),
            last.source(),
            LineMux::lines(mux_after(start, before), last),
            source,
        );
        assert(has_ended(arrivals, source) <==> has_ended(before, source) || last
            == ArrivalModel::End(source)) by {
            if has_ended(arrivals, source) {
                let i = choose|i: int|
                    0 <= i < arrivals.len() && arrivals[i] == ArrivalModel::End(source);
                if i < before.len() {
                    assert(before[i] == ArrivalModel::End(source));
                }
            }
        }
        if let ArrivalModel::Data(from, chunk) = last {
            if from == source && !has_ended(before, source) {
                lemma_lines_append(written(before, source), chunk);
            }
        }
    }
}

/// How many of the lines stand before the first that is not text.
pub open spec fn readable(raw: Seq<Seq<u8>>) -> int
    decreases raw.len(),
{
    if raw.len() == 0 {
        0
    } else if valid_utf8(raw[0]) {
        1 + readable(raw.drop_first())
    } else {
        0
    }
}

/// The lines as text.
pub open spec fn decoded(raw: Seq<Seq<u8>>) -> Seq<Seq<char>> {
    raw.map_values(|line: Seq<u8>| decode_utf8(line))
}

/// The number of readable lines is the place of the first line that is not
/// text, or the number of lines if all are text.
pub proof fn lemma_readable(raw: Seq<Seq<u8>>, count: int)
    requires
        0 <= count <= raw.len(),
        forall|j: int| 0 <= j < count ==> valid_utf8(#[trigger] raw[j]),
        count < raw.len() ==> !valid_utf8(raw[count]),
    ensures
        readable(raw) == count,
    decreases raw.len(),
{
    if raw.len() > 0 && count > 0 {
        lemma_readable(raw.drop_first(), count - 1);
    }
}

/// The number of readable lines is within the number of lines, and every
/// line before it is text.
pub proof fn lemma_readable_bounds(raw: Seq<Seq<u8>>)
    ensures
        0 <= readable(raw) <= raw.len(),
        forall|j: int| 0 <= j < readable(raw) ==> valid_utf8(#[trigger] raw[j]),
        readable(raw) < raw.len() ==> !valid_utf8(raw[readable(raw)]),
    decreases raw.len(),
{
    if raw.len() > 0 && valid_utf8(raw[0]) {
        let rest = raw.drop_first();
        lemma_readable_bounds(rest);
        assert forall|j: int| 0 <= j < readable(raw) implies valid_utf8(#[trigger] raw[j]) by {
            if j > 0 {
                assert(rest[j - 1] == raw[j]);
            }
        }
    }
}

/// Whether `data` is one line of text with the line feed that ends it: it
/// ends with a line feed and holds no other.
pub open spec fn is_line(data: Seq<char>) -> bool {
    data.len() > 0 && data.last() == '\n' && !data.drop_last().contains('\n')
}

/// Text that holds a line feed is encoded by bytes that hold one.
proof fn lemma_encoded_feed(text: Seq<char>)
    requires
        text.contains('\n'),
    ensures
        encode_utf8(text).contains(LINE_FEED),
    decreases text.len(),
{
    let rest = text.drop_first();
    let first = vstd::utf8::encode_scalar(text[0] as u32);
    if text[0] == '\n' {
        assert(0x0Au32 & 0x7F == 0x0A) by (bit_vector);
        assert(first[0] == LINE_FEED);
        assert((first + encode_utf8(rest))[0] == LINE_FEED);
    } else {
        let i = choose|i: int| 0 <= i < text.len() && text[i] == '\n';
        assert(rest[i - 1] == '\n');
        lemma_encoded_feed(rest);
        let j = choose|j: int| 0 <= j < encode_utf8(rest).len() && encode_utf8(rest)[j] == LINE_FEED;
        assert((first + encode_utf8(rest))[first.len() + j] == LINE_FEED);
    }
}

/// A line of bytes that holds no line feed is, read as text, a line that
/// holds no line feed: the byte stands for nothing else, and nothing else
/// stands for it.
pub proof fn lemma_text_has_no_feed(line: Seq<u8>)
    requires
        valid_utf8(line),
        !line.contains(LINE_FEED),
    ensures
        !decode_utf8(line).contains('\n'),
{
    if decode_utf8(line).contains('\n') {
        lemma_encoded_feed(decode_utf8(line));
        vstd::utf8::decode_utf8_encode_utf8(line);
    }
}

/// Calls std's `String::from_utf8`. It succeeds if and only if the bytes are
/// well-formed UTF-8, and the string it gives then holds the characters that
/// the bytes encode.
#[verifier::external_body]
fn from_utf8(bytes: Vec<u8>) -> (text: Option<String>)
    ensures
        text is Some <==> valid_utf8(bytes@),
        text matches Some(s) ==> s@ == decode_utf8(bytes@),
{
    match String::from_utf8(bytes) {
        Ok(s) => Some(s),
        Err(_) => None,
    }
}

/// Reads a line as text. A line that is not well-formed UTF-8 cannot be
/// read.
pub fn to_text(line: Vec<u8>) -> (text: Result<String, Failure>)
    ensures
        match text {
            Ok(s) => valid_utf8(line@) && s@ == decode_utf8(line@),
            Err(failure) => !valid_utf8(line@) && failure == Failure::ReadFailed,
        },
{
    match from_utf8(line) {
        Some(s) => Ok(s),
        None => Err(Failure::ReadFailed),
    }
}

} // verus!
