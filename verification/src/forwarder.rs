//! The forwarder of one output stream.
//!
//! A forwarder reads one byte stream of the child process, cuts it into lines
//! and hands each line on for a single write to the shared connection. It does
//! no reading or writing itself: `next_action` tells the caller what to do,
//! and the caller reports what came of it. Lines leave in the order in which
//! they were read, each exactly once.

use crate::lines::{
    after_first_line, copy_range, drop_carriage_return, ends_on_line_boundary, find_line_end_from,
    first_line, has_complete_line, lemma_line_end_bounds, lemma_lines_of_concat,
    lemma_lines_of_last_line, lemma_lines_of_next_line, line_end, lines_of,
};
use crate::record::{LogLine, Origin};
use crate::text::{all_text, holds_no_line_feed, texts_of, LINE_FEED};
use vstd::prelude::*;
use vstd::utf8::{decode_utf8, valid_utf8};

verus! {

/// Why a forwarder gave up. Either failure ends this forwarder only.
#[derive(Clone, Copy, Debug, PartialEq, Eq, Hash, Structural)]
pub enum ForwardError {
    /// Reading the stream failed, or a line was not well-formed UTF-8.
    Read,
    /// Writing a record to the connection failed.
    Write,
}

/// What the caller of a forwarder does next.
#[derive(Debug, PartialEq, Eq)]
pub enum ForwarderAction {
    /// Read more of the stream and report it.
    Read,
    /// Write the record of this line to the connection, in one write.
    Write(LogLine),
    /// The stream has ended and every line of it was handed out.
    Finished,
    /// The forwarder has failed and does nothing more.
    Failed(ForwardError),
}

/// An action as a specification sees it: a line stands by its text.
pub enum Decision {
    Read,
    Write(Seq<char>),
    Finished,
    Failed(ForwardError),
}

impl ForwarderAction {
    /// The action with its line taken by its text.
    pub open spec fn decision(self) -> Decision {
        match self {
            ForwarderAction::Read => Decision::Read,
            ForwarderAction::Write(line) => Decision::Write(line.text_spec()),
            ForwarderAction::Finished => Decision::Finished,
            ForwarderAction::Failed(error) => Decision::Failed(error),
        }
    }
}

/// The state of a forwarder, with its history.
pub struct ForwarderView {
    /// The stream that this forwarder serves.
    pub origin: Origin,
    /// Bytes that were read and belong to no line handed out yet.
    pub buffer: Seq<u8>,
    /// Whether the end of the stream was reported.
    pub ended: bool,
    /// The first failure, if there was one.
    pub failure: Option<ForwardError>,
    /// Every byte accepted so far, in order.
    pub consumed: Seq<u8>,
    /// The text of every line handed out for writing so far, in order.
    pub issued: Seq<Seq<char>>,
}

impl ForwarderView {
    /// The state of a forwarder of `origin` that has read nothing.
    pub open spec fn initial(origin: Origin) -> ForwarderView {
        ForwarderView {
            origin,
            buffer: Seq::empty(),
            ended: false,
            failure: None,
            consumed: Seq::empty(),
            issued: Seq::empty(),
        }
    }

    /// The part of the stream whose lines were handed out.
    pub open spec fn taken(self) -> Seq<u8> {
        self.consumed.take(self.consumed.len() - self.buffer.len())
    }

    /// The buffer is the end of what was consumed, and the lines handed out
    /// are exactly the lines of what came before it.
    pub open spec fn wf(self) -> bool {
        &&& self.buffer.len() <= self.consumed.len()
        &&& self.consumed == self.taken() + self.buffer
        &&& (ends_on_line_boundary(self.taken()) || (self.ended && self.buffer.len() == 0))
        &&& all_text(lines_of(self.taken()))
        &&& self.issued == texts_of(lines_of(self.taken()))
    }

    /// Whether the buffer holds a line that can leave: one that its line feed
    /// has completed, or the rest of a stream that has ended.
    pub open spec fn line_ready(self) -> bool {
        has_complete_line(self.buffer) || (self.ended && self.buffer.len() > 0)
    }

    /// The bytes of the line that leaves next.
    pub open spec fn next_line(self) -> Seq<u8> {
        if has_complete_line(self.buffer) {
            first_line(self.buffer)
        } else {
            self.buffer
        }
    }

    /// The buffer once the next line has left.
    pub open spec fn rest(self) -> Seq<u8> {
        if has_complete_line(self.buffer) {
            after_first_line(self.buffer)
        } else {
            Seq::empty()
        }
    }

    /// What the forwarder does in this state.
    pub open spec fn decide(self) -> Decision {
        if let Some(error) = self.failure {
            Decision::Failed(error)
        } else if self.line_ready() {
            if valid_utf8(self.next_line()) {
                Decision::Write(decode_utf8(self.next_line()))
            } else {
                Decision::Failed(ForwardError::Read)
            }
        } else if self.ended {
            Decision::Finished
        } else {
            Decision::Read
        }
    }

    /// The state after `decide`: a line that is written leaves the buffer, and
    /// a line that is no text is the forwarder's failure.
    pub open spec fn after_decision(self) -> ForwarderView {
        match self.decide() {
            Decision::Write(text) => ForwarderView {
                buffer: self.rest(),
                issued: self.issued.push(text),
                ..self
            },
            Decision::Failed(error) => ForwarderView { failure: Some(error), ..self },
            _ => self,
        }
    }

    /// The state after `chunk` was read from the stream.
    pub open spec fn accept(self, chunk: Seq<u8>) -> ForwarderView {
        if self.ended || self.failure is Some {
            self
        } else {
            ForwarderView {
                buffer: self.buffer + chunk,
                consumed: self.consumed + chunk,
                ..self
            }
        }
    }

    /// The state after the stream has ended.
    pub open spec fn end_of_stream(self) -> ForwarderView {
        if self.failure is Some {
            self
        } else {
            ForwarderView { ended: true, ..self }
        }
    }

    /// The state after a read or a write has failed. The first failure stays.
    pub open spec fn fail(self, error: ForwardError) -> ForwarderView {
        if self.failure is Some {
            self
        } else {
            ForwarderView { failure: Some(error), ..self }
        }
    }
}

/// Handing out the next line keeps the history in step with the stream.
proof fn lemma_write_keeps_wf(v: ForwarderView)
    requires
        v.wf(),
        v.line_ready(),
        valid_utf8(v.next_line()),
    ensures
        (ForwarderView {
            buffer: v.rest(),
            issued: v.issued.push(decode_utf8(v.next_line())),
            ..v
        }).wf(),
{
    let after = ForwarderView {
        buffer: v.rest(),
        issued: v.issued.push(decode_utf8(v.next_line())),
        ..v
    };
    let taken = v.taken();
    lemma_line_end_bounds(v.buffer);
    assert(v.buffer.len() > 0);
    assert(ends_on_line_boundary(taken));
    if has_complete_line(v.buffer) {
        let end = line_end(v.buffer);
        lemma_lines_of_next_line(taken, v.buffer);
        assert(after.taken() =~= taken + v.buffer.take(end + 1));
        assert(after.consumed =~= after.taken() + after.buffer);
    } else {
        lemma_lines_of_last_line(taken, v.buffer);
        assert(after.taken() =~= taken + v.buffer);
        assert(after.consumed =~= after.taken() + after.buffer);
    }
    assert(lines_of(after.taken()) == lines_of(taken).push(v.next_line()));
    assert(after.issued =~= texts_of(lines_of(after.taken())));
}

/// Bytes that arrive keep the history in step with the stream.
proof fn lemma_accept_keeps_wf(v: ForwarderView, chunk: Seq<u8>)
    requires
        v.wf(),
    ensures
        v.accept(chunk).wf(),
{
    let after = v.accept(chunk);
    if !(v.ended || v.failure is Some) {
        assert(after.taken() =~= v.taken());
        assert(after.consumed =~= after.taken() + after.buffer);
    }
}

/// A forwarder that has failed stays failed, and one whose stream has ended
/// takes in nothing more: nothing is tried again.
pub proof fn lemma_failure_and_end_are_final(v: ForwarderView, chunk: Seq<u8>, error: ForwardError)
    ensures
        v.failure is Some ==> v.accept(chunk) == v && v.end_of_stream() == v && v.fail(error) == v
            && v.after_decision() == v && v.decide() == Decision::Failed(v.failure.unwrap()),
        v.ended ==> v.accept(chunk) == v && v.end_of_stream().ended && v.after_decision().ended,
{
}

/// At every moment the lines handed out are the first lines of the stream
/// consumed so far, each once and in the order of the stream.
pub proof fn lemma_issued_lines_lead_the_stream(v: ForwarderView)
    requires
        v.wf(),
    ensures
        v.issued.len() <= lines_of(v.consumed).len(),
        forall|k: int|
            0 <= k < v.issued.len() ==> valid_utf8(#[trigger] lines_of(v.consumed)[k])
                && v.issued[k] == decode_utf8(lines_of(v.consumed)[k]),
{
    let taken = v.taken();
    if ends_on_line_boundary(taken) {
        lemma_lines_of_concat(taken, v.buffer);
        assert forall|k: int| 0 <= k < v.issued.len() implies valid_utf8(
            #[trigger] lines_of(v.consumed)[k],
        ) && v.issued[k] == decode_utf8(lines_of(v.consumed)[k]) by {
            assert(lines_of(v.consumed)[k] == lines_of(taken)[k]);
        }
    } else {
        assert(taken =~= v.consumed);
    }
}

/// A forwarder that finishes has handed out every line of its stream.
pub proof fn lemma_finished_forwarded_every_line(v: ForwarderView)
    requires
        v.wf(),
        v.decide() == Decision::Finished,
    ensures
        all_text(lines_of(v.consumed)),
        v.issued == texts_of(lines_of(v.consumed)),
{
    lemma_line_end_bounds(v.buffer);
    assert(v.buffer.len() == 0);
    assert(v.taken() =~= v.consumed);
}

/// Appends `chunk` to `buffer`.
fn append_bytes(buffer: &mut Vec<u8>, chunk: &[u8])
    ensures
        final(buffer)@ == old(buffer)@ + chunk@,
{
    let mut i: usize = 0;
    assert(chunk@.take(0) =~= Seq::<u8>::empty());
    assert(buffer@ =~= old(buffer)@ + chunk@.take(0));
    while i < chunk.len()
        invariant
            i <= chunk@.len(),
            buffer@ == old(buffer)@ + chunk@.take(i as int),
        decreases chunk@.len() - i,
    {
        buffer.push(chunk[i]);
        i += 1;
        assert(buffer@ =~= old(buffer)@ + chunk@.take(i as int));
    }
    assert(chunk@.take(chunk@.len() as int) =~= chunk@);
}

/// The forwarder of one stream.
pub struct StreamForwarder {
    origin: Origin,
    bytes: Vec<u8>,
    start: usize,
    ended: bool,
    failure: Option<ForwardError>,
    consumed: Ghost<Seq<u8>>,
    issued: Ghost<Seq<Seq<char>>>,
}

impl View for StreamForwarder {
    type V = ForwarderView;

    closed spec fn view(&self) -> ForwarderView {
        ForwarderView {
            origin: self.origin,
            buffer: self.bytes@.skip(self.start as int),
            ended: self.ended,
            failure: self.failure,
            consumed: self.consumed@,
            issued: self.issued@,
        }
    }
}

impl StreamForwarder {
    /// The buffer's own bookkeeping is sound.
    pub closed spec fn inv(&self) -> bool {
        self.start <= self.bytes@.len()
    }

    /// The forwarder is sound: its history is in step with its stream.
    pub open spec fn wf(&self) -> bool {
        self.inv() && self@.wf()
    }

    /// A forwarder for the stream `origin` that has read nothing yet.
    pub fn new(origin: Origin) -> (forwarder: StreamForwarder)
        ensures
            forwarder.wf(),
            forwarder@ == ForwarderView::initial(origin),
    {
        let forwarder = StreamForwarder {
            origin,
            bytes: Vec::new(),
            start: 0,
            ended: false,
            failure: None,
            consumed: Ghost(Seq::empty()),
            issued: Ghost(Seq::empty()),
        };
        proof {
            assert(forwarder@.buffer =~= Seq::<u8>::empty());
            assert(forwarder@.taken() =~= Seq::<u8>::empty());
            assert(forwarder@.consumed =~= forwarder@.taken() + forwarder@.buffer);
            assert(forwarder@.issued =~= texts_of(lines_of(forwarder@.taken())));
        }
        forwarder
    }

    /// The stream that this forwarder serves.
    pub fn origin(&self) -> (origin: Origin)
        ensures
            origin == self@.origin,
    {
        self.origin
    }

    /// The failure that stopped this forwarder, if one did.
    pub fn failure(&self) -> (failure: Option<ForwardError>)
        ensures
            failure == self@.failure,
    {
        self.failure
    }

    /// Takes in bytes that were read from the stream. Bytes that arrive after
    /// the end of the stream or after a failure are dropped.
    pub fn accept(&mut self, chunk: &[u8])
        requires
            old(self).wf(),
        ensures
            final(self).wf(),
            final(self)@ == old(self)@.accept(chunk@),
    {
        if self.ended || self.failure.is_some() {
            return ;
        }
        let ghost before = self@;
        if self.start > 0 {
            let rest = copy_range(self.bytes.as_slice(), self.start, self.bytes.len());
            self.bytes = rest;
            self.start = 0;
        }
        assert(self.bytes@ =~= before.buffer);
        append_bytes(&mut self.bytes, chunk);
        self.consumed = Ghost(self.consumed@ + chunk@);
        proof {
            assert(self@.buffer =~= before.buffer + chunk@);
            lemma_accept_keeps_wf(before, chunk@);
        }
    }

    /// Takes note that the stream has ended.
    pub fn end_of_stream(&mut self)
        requires
            old(self).wf(),
        ensures
            final(self).wf(),
            final(self)@ == old(self)@.end_of_stream(),
    {
        if self.failure.is_none() {
            self.ended = true;
        }
    }

    /// Takes note that reading the stream has failed.
    pub fn read_failed(&mut self)
        requires
            old(self).wf(),
        ensures
            final(self).wf(),
            final(self)@ == old(self)@.fail(ForwardError::Read),
    {
        if self.failure.is_none() {
            self.failure = Some(ForwardError::Read);
        }
    }

    /// Takes note that writing the last record to the connection has failed.
    pub fn write_failed(&mut self)
        requires
            old(self).wf(),
        ensures
            final(self).wf(),
            final(self)@ == old(self)@.fail(ForwardError::Write),
    {
        if self.failure.is_none() {
            self.failure = Some(ForwardError::Write);
        }
    }

    /// Decides what to do next. A line that is handed out has left the buffer;
    /// when the action is `Finished`, every line of the stream was handed out.
    pub fn next_action(&mut self) -> (action: ForwarderAction)
        requires
            old(self).wf(),
        ensures
            final(self).wf(),
            final(self)@ == old(self)@.after_decision(),
            action.decision() == old(self)@.decide(),
            action matches ForwarderAction::Write(line) ==> line.origin_spec() == old(self)@.origin,
            action == ForwarderAction::Finished ==> final(self)@.issued == texts_of(
                lines_of(final(self)@.consumed),
            ),
    {
        let ghost before = self@;
        if let Some(error) = self.failure {
            return ForwarderAction::Failed(error);
        }
        let n: usize = self.bytes.len();
        let end: usize = find_line_end_from(self.bytes.as_slice(), self.start);
        proof {
            lemma_line_end_bounds(before.buffer);
        }
        if end < n || (self.ended && self.start < n) {
            let mut raw = copy_range(self.bytes.as_slice(), self.start, end);
            if end < n {
                drop_carriage_return(&mut raw);
            }
            proof {
                assert(self.bytes@.subrange(self.start as int, end as int) =~= before.buffer.take(
                    end - self.start,
                ));
                assert(end == n ==> before.buffer.take(end - self.start) =~= before.buffer);
                assert(raw@ == before.next_line());
                assert(holds_no_line_feed(raw@)) by {
                    let head = before.buffer.take(line_end(before.buffer));
                    assert forall|i: int| 0 <= i < raw@.len() implies raw@[i] != LINE_FEED by {
                        assert(raw@[i] == head[i]);
                    }
                }
            }
            match LogLine::from_bytes(self.origin, raw) {
                Some(line) => {
                    self.start = if end < n {
                        end + 1
                    } else {
                        n
                    };
                    self.issued = Ghost(self.issued@.push(line.text_spec()));
                    proof {
                        assert(self@.buffer =~= before.rest());
                        lemma_write_keeps_wf(before);
                    }
                    ForwarderAction::Write(line)
                },
                None => {
                    self.failure = Some(ForwardError::Read);
                    ForwarderAction::Failed(ForwardError::Read)
                },
            }
        } else if self.ended {
            proof {
                lemma_finished_forwarded_every_line(before);
            }
            ForwarderAction::Finished
        } else {
            ForwarderAction::Read
        }
    }
}

} // verus!
