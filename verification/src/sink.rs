//! What the shared connection receives.
//!
//! Two forwarders write to one connection. Each write is one whole record, so
//! the connection receives the records of both in some interleaving. Whatever
//! the interleaving, every line arrives exactly once under the tag of its
//! stream, and the lines of one stream arrive in the order of that stream.

use crate::forwarder::{Decision, ForwarderView};
use crate::lines::{lemma_lines_hold_no_line_feed, lines_of};
use crate::record::{has_tag, is_frame, lemma_record_shape, payload, record_of, Origin};
use crate::text::{is_single_line, lemma_decoded_text_is_single_line, texts_of};
use vstd::prelude::*;

verus! {

/// Every text in `texts` is a single line.
pub open spec fn all_single_lines(texts: Seq<Seq<char>>) -> bool {
    forall|k: int| 0 <= k < texts.len() ==> is_single_line(#[trigger] texts[k])
}

/// The records of the lines `texts` of `origin`, in order.
pub open spec fn records_of(origin: Origin, texts: Seq<Seq<char>>) -> Seq<Seq<char>> {
    Seq::new(texts.len(), |k: int| record_of(origin, texts[k]))
}

/// `merged` is an interleaving of `first` and `second`: it holds the items of
/// both, and those of each in their own order.
pub open spec fn interleaves<T>(merged: Seq<T>, first: Seq<T>, second: Seq<T>) -> bool
    decreases merged.len(),
{
    if merged.len() == 0 {
        first.len() == 0 && second.len() == 0
    } else {
        ||| (first.len() > 0 && merged.last() == first.last() && interleaves(
            merged.drop_last(),
            first.drop_last(),
            second,
        ))
        ||| (second.len() > 0 && merged.last() == second.last() && interleaves(
            merged.drop_last(),
            first,
            second.drop_last(),
        ))
    }
}

/// The texts of the records in `sink` that carry the tag of `origin`, in the
/// order of their arrival.
pub open spec fn received_from(sink: Seq<Seq<char>>, origin: Origin) -> Seq<Seq<char>>
    decreases sink.len(),
{
    if sink.len() == 0 {
        Seq::empty()
    } else if has_tag(sink.last(), origin) {
        received_from(sink.drop_last(), origin).push(payload(sink.last()))
    } else {
        received_from(sink.drop_last(), origin)
    }
}

/// Every record in `sink` is one whole frame.
pub open spec fn all_frames(sink: Seq<Seq<char>>) -> bool {
    forall|i: int| 0 <= i < sink.len() ==> is_frame(#[trigger] sink[i])
}

/// An interleaving holds each item of its two parts exactly once.
pub proof fn lemma_interleaving_holds_each_once<T>(merged: Seq<T>, first: Seq<T>, second: Seq<T>)
    requires
        interleaves(merged, first, second),
    ensures
        merged.len() == first.len() + second.len(),
        merged.to_multiset() == first.to_multiset().add(second.to_multiset()),
    decreases merged.len(),
{
    broadcast use vstd::seq_lib::group_to_multiset_ensures;

    if merged.len() == 0 {
        assert(merged.to_multiset() =~= first.to_multiset().add(second.to_multiset()));
    } else {
        let last = merged.last();
        let before = merged.drop_last();
        assert(merged =~= before.push(last));
        if first.len() > 0 && last == first.last() && interleaves(
            before,
            first.drop_last(),
            second,
        ) {
            lemma_interleaving_holds_each_once(before, first.drop_last(), second);
            assert(first =~= first.drop_last().push(last));
            assert(first.to_multiset() =~= first.drop_last().to_multiset().insert(last));
            assert(merged.to_multiset() =~= before.to_multiset().insert(last));
            assert(merged.to_multiset() =~= first.to_multiset().add(second.to_multiset()));
        } else {
            lemma_interleaving_holds_each_once(before, first, second.drop_last());
            assert(second =~= second.drop_last().push(last));
            assert(second.to_multiset() =~= second.drop_last().to_multiset().insert(last));
            assert(merged.to_multiset() =~= before.to_multiset().insert(last));
            assert(merged.to_multiset() =~= first.to_multiset().add(second.to_multiset()));
        }
    }
}

proof fn lemma_records_drop_last(origin: Origin, texts: Seq<Seq<char>>)
    requires
        texts.len() > 0,
    ensures
        records_of(origin, texts).drop_last() == records_of(origin, texts.drop_last()),
        records_of(origin, texts).last() == record_of(origin, texts.last()),
{
    assert(records_of(origin, texts).drop_last() =~= records_of(origin, texts.drop_last()));
}

proof fn lemma_interleaved_records(
    sink: Seq<Seq<char>>,
    origin: Origin,
    own: Seq<Seq<char>>,
    other: Seq<Seq<char>>,
)
    requires
        all_single_lines(own),
        all_single_lines(other),
        interleaves(sink, records_of(origin, own), records_of(origin.sibling(), other)),
    ensures
        received_from(sink, origin) == own,
        received_from(sink, origin.sibling()) == other,
        all_frames(sink),
    decreases sink.len(),
{
    let sibling = origin.sibling();
    if sink.len() == 0 {
        assert(own =~= Seq::<Seq<char>>::empty());
        assert(other =~= Seq::<Seq<char>>::empty());
    } else {
        let before = sink.drop_last();
        let own_records = records_of(origin, own);
        let other_records = records_of(sibling, other);
        if own_records.len() > 0 && sink.last() == own_records.last() && interleaves(
            before,
            own_records.drop_last(),
            other_records,
        ) {
            lemma_records_drop_last(origin, own);
            lemma_record_shape(origin, own.last());
            lemma_interleaved_records(before, origin, own.drop_last(), other);
            assert(own =~= own.drop_last().push(own.last()));
        } else {
            lemma_records_drop_last(sibling, other);
            lemma_record_shape(sibling, other.last());
            assert(sibling.sibling() == origin);
            lemma_interleaved_records(before, origin, own, other.drop_last());
            assert(other =~= other.drop_last().push(other.last()));
        }
        assert forall|i: int| 0 <= i < sink.len() implies is_frame(#[trigger] sink[i]) by {
            if i < before.len() {
                assert(sink[i] == before[i]);
            }
        }
    }
}

/// However the records of the two streams interleave on the connection, the
/// connection receives each line exactly once, under the tag of its stream,
/// whole, and the lines of each stream in the order of that stream.
pub proof fn lemma_interleaving_delivers_both_streams(
    sink: Seq<Seq<char>>,
    out_lines: Seq<Seq<char>>,
    err_lines: Seq<Seq<char>>,
)
    requires
        all_single_lines(out_lines),
        all_single_lines(err_lines),
        interleaves(
            sink,
            records_of(Origin::Stdout, out_lines),
            records_of(Origin::Stderr, err_lines),
        ),
    ensures
        sink.len() == out_lines.len() + err_lines.len(),
        sink.to_multiset() == records_of(Origin::Stdout, out_lines).to_multiset().add(
            records_of(Origin::Stderr, err_lines).to_multiset(),
        ),
        received_from(sink, Origin::Stdout) == out_lines,
        received_from(sink, Origin::Stderr) == err_lines,
        all_frames(sink),
{
    lemma_interleaving_holds_each_once(
        sink,
        records_of(Origin::Stdout, out_lines),
        records_of(Origin::Stderr, err_lines),
    );
    lemma_interleaved_records(sink, Origin::Stdout, out_lines, err_lines);
}

/// The lines that a forwarder has handed out are single lines.
pub proof fn lemma_issued_lines_are_single(v: ForwarderView)
    requires
        v.wf(),
    ensures
        all_single_lines(v.issued),
{
    let lines = lines_of(v.taken());
    lemma_lines_hold_no_line_feed(v.taken());
    assert forall|k: int| 0 <= k < v.issued.len() implies is_single_line(
        #[trigger] v.issued[k],
    ) by {
        assert(vstd::utf8::valid_utf8(lines[k]));
        lemma_decoded_text_is_single_line(lines[k]);
    }
}

/// Two forwarders, one for each stream, have both finished, and the
/// connection received their records in some interleaving. Then it received
/// every line of each stream, under the tag of that stream and in its order.
pub proof fn lemma_forwarding_delivers_every_line(
    stdout: ForwarderView,
    stderr: ForwarderView,
    sink: Seq<Seq<char>>,
)
    requires
        stdout.wf(),
        stderr.wf(),
        stdout.origin == Origin::Stdout,
        stderr.origin == Origin::Stderr,
        stdout.decide() == Decision::Finished,
        stderr.decide() == Decision::Finished,
        interleaves(
            sink,
            records_of(Origin::Stdout, stdout.issued),
            records_of(Origin::Stderr, stderr.issued),
        ),
    ensures
        received_from(sink, Origin::Stdout) == texts_of(lines_of(stdout.consumed)),
        received_from(sink, Origin::Stderr) == texts_of(lines_of(stderr.consumed)),
        sink.len() == lines_of(stdout.consumed).len() + lines_of(stderr.consumed).len(),
        all_frames(sink),
{
    crate::forwarder::lemma_finished_forwarded_every_line(stdout);
    crate::forwarder::lemma_finished_forwarded_every_line(stderr);
    lemma_issued_lines_are_single(stdout);
    lemma_issued_lines_are_single(stderr);
    lemma_interleaving_delivers_both_streams(sink, stdout.issued, stderr.issued);
}

} // verus!
