//! Splitting a byte stream into lines.
//!
//! A line ends at a line feed. The line feed is not part of the line, and
//! neither is one carriage return directly before it. What follows the last
//! line feed is a line of its own when it is not empty.

use crate::text::{holds_no_line_feed, CARRIAGE_RETURN, LINE_FEED};
use vstd::prelude::*;

verus! {

/// Where the first line of `bytes` ends: the index of the first line feed, or
/// the length of `bytes` when there is none.
pub open spec fn line_end(bytes: Seq<u8>) -> int
    decreases bytes.len(),
{
    if bytes.len() == 0 || bytes[0] == LINE_FEED {
        0
    } else {
        1 + line_end(bytes.drop_first())
    }
}

/// Whether `bytes` holds a line that its line feed has completed.
pub open spec fn has_complete_line(bytes: Seq<u8>) -> bool {
    line_end(bytes) < bytes.len()
}

/// `line` without one trailing carriage return.
pub open spec fn strip_carriage_return(line: Seq<u8>) -> Seq<u8> {
    if line.len() > 0 && line.last() == CARRIAGE_RETURN {
        line.drop_last()
    } else {
        line
    }
}

/// The first complete line of `bytes`, without its terminator.
pub open spec fn first_line(bytes: Seq<u8>) -> Seq<u8> {
    strip_carriage_return(bytes.take(line_end(bytes)))
}

/// What follows the first complete line of `bytes` and its line feed.
pub open spec fn after_first_line(bytes: Seq<u8>) -> Seq<u8> {
    bytes.skip(line_end(bytes) + 1)
}

/// The lines of a whole stream, in order.
pub open spec fn lines_of(stream: Seq<u8>) -> Seq<Seq<u8>>
    decreases stream.len(),
{
    if stream.len() == 0 {
        Seq::empty()
    } else if has_complete_line(stream) {
        proof {
            lemma_line_end_bounds(stream);
        }
        seq![first_line(stream)] + lines_of(after_first_line(stream))
    } else {
        seq![stream]
    }
}

/// The stream ends where a line ends: it is empty or its last byte is a line
/// feed.
pub open spec fn ends_on_line_boundary(stream: Seq<u8>) -> bool {
    stream.len() == 0 || stream.last() == LINE_FEED
}

/// `line_end` is the least index that holds a line feed.
pub proof fn lemma_line_end_bounds(bytes: Seq<u8>)
    ensures
        0 <= line_end(bytes) <= bytes.len(),
        holds_no_line_feed(bytes.take(line_end(bytes))),
        has_complete_line(bytes) ==> bytes[line_end(bytes)] == LINE_FEED,
    decreases bytes.len(),
{
    if bytes.len() > 0 && bytes[0] != LINE_FEED {
        let rest = bytes.drop_first();
        lemma_line_end_bounds(rest);
        let end = line_end(bytes);
        assert forall|i: int| 0 <= i < end implies bytes.take(end)[i] != LINE_FEED by {
            if i > 0 {
                assert(rest.take(end - 1)[i - 1] == bytes[i]);
            }
        }
    }
}

/// An index with no line feed before it, which holds one or is the length,
/// is `line_end`.
pub proof fn lemma_line_end_is(bytes: Seq<u8>, end: int)
    requires
        0 <= end <= bytes.len(),
        forall|i: int| 0 <= i < end ==> bytes[i] != LINE_FEED,
        end < bytes.len() ==> bytes[end] == LINE_FEED,
    ensures
        line_end(bytes) == end,
    decreases bytes.len(),
{
    if end > 0 {
        assert(bytes[0] != LINE_FEED);
        lemma_line_end_is(bytes.drop_first(), end - 1);
    }
}

/// No line of a stream holds a line feed.
pub proof fn lemma_lines_hold_no_line_feed(stream: Seq<u8>)
    ensures
        forall|k: int| 0 <= k < lines_of(stream).len() ==> holds_no_line_feed(
            #[trigger] lines_of(stream)[k],
        ),
    decreases stream.len(),
{
    lemma_line_end_bounds(stream);
    if stream.len() == 0 {
    } else if has_complete_line(stream) {
        lemma_lines_hold_no_line_feed(after_first_line(stream));
        let head = stream.take(line_end(stream));
        assert(holds_no_line_feed(first_line(stream))) by {
            assert forall|i: int| 0 <= i < first_line(stream).len() implies first_line(
                stream,
            )[i] != LINE_FEED by {
                assert(first_line(stream)[i] == head[i]);
            }
        }
        assert forall|k: int| 0 <= k < lines_of(stream).len() implies holds_no_line_feed(
            #[trigger] lines_of(stream)[k],
        ) by {
            if k > 0 {
                assert(lines_of(stream)[k] == lines_of(after_first_line(stream))[k - 1]);
            }
        }
    } else {
        assert(stream.take(stream.len() as int) =~= stream);
    }
}

/// Lines do not depend on how the stream is cut, as long as the cut falls on
/// a line boundary: the lines of the whole are those of the first part and
/// then those of the second.
pub proof fn lemma_lines_of_concat(head: Seq<u8>, tail: Seq<u8>)
    requires
        ends_on_line_boundary(head),
    ensures
        lines_of(head + tail) == lines_of(head) + lines_of(tail),
    decreases head.len(),
{
    let whole = head + tail;
    if head.len() == 0 {
        assert(whole =~= tail);
        assert(lines_of(head) + lines_of(tail) =~= lines_of(tail));
    } else {
        lemma_line_end_bounds(head);
        let end = line_end(head);
        assert(end < head.len()) by {
            if end == head.len() {
                assert(head.take(end)[end - 1] == head[end - 1]);
            }
        }
        assert(line_end(whole) == end) by {
            assert forall|i: int| 0 <= i < end implies whole[i] != LINE_FEED by {
                assert(head.take(end)[i] == head[i]);
            }
            lemma_line_end_is(whole, end);
        }
        assert(whole.take(end) =~= head.take(end));
        assert(after_first_line(whole) =~= after_first_line(head) + tail);
        let rest = after_first_line(head);
        assert(ends_on_line_boundary(rest)) by {
            if rest.len() > 0 {
                assert(rest.last() == head.last());
            }
        }
        lemma_lines_of_concat(rest, tail);
        assert(lines_of(whole) =~= lines_of(head) + lines_of(tail));
    }
}

/// No byte of `bytes` is a carriage return.
pub open spec fn holds_no_carriage_return(bytes: Seq<u8>) -> bool {
    forall|i: int| 0 <= i < bytes.len() ==> bytes[i] != CARRIAGE_RETURN
}

/// The lines put back together, each followed by a line feed.
pub open spec fn joined_lines(lines: Seq<Seq<u8>>) -> Seq<u8>
    decreases lines.len(),
{
    if lines.len() == 0 {
        Seq::empty()
    } else {
        lines.first() + seq![LINE_FEED] + joined_lines(lines.drop_first())
    }
}

/// Splitting loses nothing and adds nothing. Of a stream without carriage
/// returns, the lines put back together are the stream itself, with the line
/// feed that its last line may lack.
pub proof fn lemma_lines_rebuild_the_stream(stream: Seq<u8>)
    requires
        holds_no_carriage_return(stream),
    ensures
        joined_lines(lines_of(stream)) == if ends_on_line_boundary(stream) {
            stream
        } else {
            stream + seq![LINE_FEED]
        },
    decreases stream.len(),
{
    lemma_line_end_bounds(stream);
    let lines = lines_of(stream);
    let end = line_end(stream);
    if stream.len() == 0 {
    } else if has_complete_line(stream) {
        let rest = after_first_line(stream);
        assert(first_line(stream) == stream.take(end)) by {
            if end > 0 {
                assert(stream.take(end).last() == stream[end - 1]);
            }
        }
        assert forall|i: int| 0 <= i < rest.len() implies rest[i] != CARRIAGE_RETURN by {
            assert(rest[i] == stream[i + end + 1]);
        }
        lemma_lines_rebuild_the_stream(rest);
        assert(lines.drop_first() =~= lines_of(rest));
        assert(stream =~= stream.take(end) + seq![LINE_FEED] + rest);
        if rest.len() > 0 {
            assert(rest.last() == stream.last());
            assert(stream + seq![LINE_FEED] =~= stream.take(end) + seq![LINE_FEED] + (rest
                + seq![LINE_FEED]));
        } else {
            assert(stream.last() == stream[end]);
        }
    } else {
        assert(stream.take(end) =~= stream);
        assert(stream.last() == stream.take(end)[end - 1]);
        assert(lines.drop_first() =~= Seq::<Seq<u8>>::empty());
        assert(joined_lines(lines.drop_first()) =~= Seq::<u8>::empty());
        assert(joined_lines(lines) =~= stream + seq![LINE_FEED]);
    }
}

/// The views of the byte vectors in `lines`.
pub open spec fn line_views(lines: Seq<Vec<u8>>) -> Seq<Seq<u8>> {
    Seq::new(lines.len(), |i: int| lines[i]@)
}

/// Finds where the line that starts at `from` ends.
pub(crate) fn find_line_end_from(bytes: &[u8], from: usize) -> (end: usize)
    requires
        from <= bytes@.len(),
    ensures
        from <= end <= bytes@.len(),
        end - from == line_end(bytes@.skip(from as int)),
{
    let mut end: usize = from;
    while end < bytes.len() && bytes[end] != LINE_FEED
        invariant
            from <= end <= bytes@.len(),
            forall|i: int| from <= i < end ==> bytes@[i] != LINE_FEED,
        decreases bytes@.len() - end,
    {
        end += 1;
    }
    proof {
        lemma_line_end_is(bytes@.skip(from as int), end - from);
    }
    end
}

/// A copy of the bytes of `bytes` from `from` up to `to`.
pub(crate) fn copy_range(bytes: &[u8], from: usize, to: usize) -> (copy: Vec<u8>)
    requires
        from <= to <= bytes@.len(),
    ensures
        copy@ == bytes@.subrange(from as int, to as int),
{
    let mut copy: Vec<u8> = Vec::new();
    let mut i: usize = from;
    while i < to
        invariant
            from <= i <= to <= bytes@.len(),
            copy@ == bytes@.subrange(from as int, i as int),
        decreases to - i,
    {
        copy.push(bytes[i]);
        i += 1;
        assert(copy@ =~= bytes@.subrange(from as int, i as int));
    }
    copy
}

/// A stream that ends on a line boundary, and then one more terminated line:
/// the lines are those of the stream and then that line.
pub proof fn lemma_lines_of_next_line(head: Seq<u8>, tail: Seq<u8>)
    requires
        ends_on_line_boundary(head),
        has_complete_line(tail),
    ensures
        lines_of(head + tail.take(line_end(tail) + 1)) == lines_of(head).push(first_line(tail)),
        ends_on_line_boundary(head + tail.take(line_end(tail) + 1)),
{
    lemma_line_end_bounds(tail);
    let end = line_end(tail);
    let line = tail.take(end + 1);
    assert(line_end(line) == end) by {
        assert forall|i: int| 0 <= i < end implies line[i] != LINE_FEED by {
            assert(tail.take(end)[i] == tail[i]);
        }
        lemma_line_end_is(line, end);
    }
    assert(line.take(end) =~= tail.take(end));
    assert(after_first_line(line) =~= Seq::<u8>::empty());
    assert(lines_of(Seq::<u8>::empty()) =~= Seq::<Seq<u8>>::empty());
    assert(first_line(line) == first_line(tail));
    assert(lines_of(line) =~= seq![first_line(tail)]);
    lemma_lines_of_concat(head, line);
    assert(lines_of(head) + seq![first_line(tail)] =~= lines_of(head).push(first_line(tail)));
    assert((head + line).last() == LINE_FEED);
}

/// A stream that ends on a line boundary, and then bytes without a line feed:
/// the lines are those of the stream and then, if there are any, those bytes.
pub proof fn lemma_lines_of_last_line(head: Seq<u8>, tail: Seq<u8>)
    requires
        ends_on_line_boundary(head),
        !has_complete_line(tail),
    ensures
        tail.len() > 0 ==> lines_of(head + tail) == lines_of(head).push(tail),
        tail.len() == 0 ==> lines_of(head + tail) == lines_of(head),
{
    lemma_line_end_bounds(tail);
    lemma_lines_of_concat(head, tail);
    if tail.len() > 0 {
        assert(lines_of(tail) =~= seq![tail]);
        assert(lines_of(head) + seq![tail] =~= lines_of(head).push(tail));
    } else {
        assert(lines_of(head) + lines_of(tail) =~= lines_of(head));
    }
}

/// Drops one trailing carriage return from `line`, if there is one.
pub fn drop_carriage_return(line: &mut Vec<u8>)
    ensures
        final(line)@ == strip_carriage_return(old(line)@),
{
    let n: usize = line.len();
    if n > 0 && line[n - 1] == CARRIAGE_RETURN {
        line.pop();
        assert(line@ =~= old(line)@.drop_last());
    }
}

/// Splits a whole stream into its lines.
pub fn split_lines(stream: &[u8]) -> (lines: Vec<Vec<u8>>)
    ensures
        line_views(lines@) == lines_of(stream@),
{
    let mut lines: Vec<Vec<u8>> = Vec::new();
    let mut start: usize = 0;
    assert(stream@.skip(0) =~= stream@);
    assert(line_views(lines@) + lines_of(stream@) =~= lines_of(stream@));
    while start < stream.len()
        invariant
            start <= stream@.len(),
            line_views(lines@) + lines_of(stream@.skip(start as int)) == lines_of(stream@),
        decreases stream@.len() - start,
    {
        let ghost rest = stream@.skip(start as int);
        let ghost before = lines@;
        let end: usize = find_line_end_from(stream, start);
        let mut line = copy_range(stream, start, end);
        assert(line@ =~= rest.take(end - start));
        if end < stream.len() {
            drop_carriage_return(&mut line);
            lines.push(line);
            start = end + 1;
            proof {
                assert(after_first_line(rest) =~= stream@.skip(start as int));
                assert(line_views(lines@) =~= line_views(before) + seq![first_line(rest)]);
                assert(line_views(lines@) + lines_of(stream@.skip(start as int)) =~= line_views(
                    before,
                ) + lines_of(rest));
            }
        } else {
            proof {
                assert(rest.take(end - start) =~= rest);
                lemma_line_end_bounds(rest);
            }
            lines.push(line);
            start = end;
            proof {
                assert(stream@.skip(start as int) =~= Seq::<u8>::empty());
                assert(lines_of(stream@.skip(start as int)) =~= Seq::<Seq<u8>>::empty());
                assert(line_views(lines@) =~= line_views(before) + seq![rest]);
                assert(line_views(lines@) + lines_of(stream@.skip(start as int)) =~= line_views(
                    before,
                ) + lines_of(rest));
            }
        }
    }
    assert(stream@.skip(start as int) =~= Seq::<u8>::empty());
    assert(line_views(lines@) + lines_of(stream@.skip(start as int)) =~= line_views(lines@));
    lines
}

} // verus!
