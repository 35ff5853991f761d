use test_dispatch::forwarder::{ForwardError, ForwarderAction, StreamForwarder};
use test_dispatch::record::{LogLine, Origin};

fn line(origin: Origin, text: &str) -> LogLine {
    LogLine::from_bytes(origin, text.as_bytes().to_vec()).unwrap()
}

/// Runs a forwarder over `chunks` and then the end of the stream, with every
/// write succeeding, and gives back the records in the order of their writes.
fn forward(origin: Origin, chunks: &[&[u8]]) -> (Vec<String>, ForwarderAction) {
    let mut forwarder = StreamForwarder::new(origin);
    let mut records = Vec::new();
    let mut next = 0;
    loop {
        match forwarder.next_action() {
            ForwarderAction::Read => {
                if next < chunks.len() {
                    forwarder.accept(chunks[next]);
                    next += 1;
                } else {
                    forwarder.end_of_stream();
                }
            }
            ForwarderAction::Write(line) => {
                assert_eq!(line.origin(), origin);
                records.push(line.to_record());
            }
            last => return (records, last),
        }
    }
}

#[test]
fn origin_tags() {
    assert_eq!(Origin::Stdout.tag(), "stdout");
    assert_eq!(Origin::Stderr.tag(), "stderr");
}

#[test]
fn record_is_tag_separator_text_and_line_feed() {
    assert_eq!(line(Origin::Stdout, "A").to_record(), "stdout: A\n");
    assert_eq!(line(Origin::Stderr, "B").to_record(), "stderr: B\n");
    assert_eq!(
        line(Origin::Stdout, "test result: ok. 3 passed").to_record(),
        "stdout: test result: ok. 3 passed\n"
    );
    assert_eq!(line(Origin::Stderr, "").to_record(), "stderr: \n");
}

#[test]
fn record_keeps_a_text_that_looks_like_a_tag() {
    assert_eq!(line(Origin::Stdout, "stderr: x").to_record(), "stdout: stderr: x\n");
}

#[test]
fn line_clone_is_equal() {
    let first = line(Origin::Stderr, "warning: unused");
    let copy = first.clone();
    assert_eq!(copy, first);
    assert_eq!(copy.text(), "warning: unused");
}

#[test]
fn new_forwarder_asks_to_read() {
    let mut forwarder = StreamForwarder::new(Origin::Stderr);
    assert_eq!(forwarder.origin(), Origin::Stderr);
    assert_eq!(forwarder.failure(), None);
    assert_eq!(forwarder.next_action(), ForwarderAction::Read);
}

#[test]
fn forwarder_hands_out_each_line_once_and_in_order() {
    let (records, last) = forward(Origin::Stdout, &[b"one\ntwo\nthree\n"]);
    assert_eq!(records, vec!["stdout: one\n", "stdout: two\n", "stdout: three\n"]);
    assert_eq!(last, ForwarderAction::Finished);
}

#[test]
fn forwarder_waits_for_the_line_feed() {
    let mut forwarder = StreamForwarder::new(Origin::Stdout);
    forwarder.accept(b"par");
    assert_eq!(forwarder.next_action(), ForwarderAction::Read);
    forwarder.accept(b"tial");
    assert_eq!(forwarder.next_action(), ForwarderAction::Read);
    forwarder.accept(b"\nnext");
    assert_eq!(forwarder.next_action(), ForwarderAction::Write(line(Origin::Stdout, "partial")));
    assert_eq!(forwarder.next_action(), ForwarderAction::Read);
}

#[test]
fn forwarder_does_not_depend_on_how_the_stream_is_cut() {
    let stream: &[u8] = b"alpha\r\nbeta\n\ngamma";
    let (whole, _) = forward(Origin::Stderr, &[stream]);
    assert_eq!(
        whole,
        vec!["stderr: alpha\n", "stderr: beta\n", "stderr: \n", "stderr: gamma\n"]
    );
    for cut in 0..=stream.len() {
        let (records, last) = forward(Origin::Stderr, &[&stream[..cut], &stream[cut..]]);
        assert_eq!(records, whole);
        assert_eq!(last, ForwarderAction::Finished);
    }
    let single: Vec<&[u8]> = stream.chunks(1).collect();
    let (records, last) = forward(Origin::Stderr, &single);
    assert_eq!(records, whole);
    assert_eq!(last, ForwarderAction::Finished);
}

#[test]
fn forwarder_flushes_the_unterminated_last_line_at_the_end() {
    let mut forwarder = StreamForwarder::new(Origin::Stdout);
    forwarder.accept(b"tail");
    assert_eq!(forwarder.next_action(), ForwarderAction::Read);
    forwarder.end_of_stream();
    assert_eq!(forwarder.next_action(), ForwarderAction::Write(line(Origin::Stdout, "tail")));
    assert_eq!(forwarder.next_action(), ForwarderAction::Finished);
    assert_eq!(forwarder.next_action(), ForwarderAction::Finished);
}

#[test]
fn forwarder_keeps_a_carriage_return_at_the_very_end() {
    let (records, last) = forward(Origin::Stdout, &[b"a\r"]);
    assert_eq!(records, vec!["stdout: a\r\n"]);
    assert_eq!(last, ForwarderAction::Finished);
}

#[test]
fn forwarder_of_an_empty_stream_finishes_at_once() {
    let (records, last) = forward(Origin::Stdout, &[]);
    assert!(records.is_empty());
    assert_eq!(last, ForwarderAction::Finished);
}

#[test]
fn forwarder_drops_bytes_after_the_end() {
    let mut forwarder = StreamForwarder::new(Origin::Stdout);
    forwarder.end_of_stream();
    forwarder.accept(b"late\n");
    assert_eq!(forwarder.next_action(), ForwarderAction::Finished);
}

#[test]
fn line_that_is_not_utf8_is_a_read_error() {
    let (records, last) = forward(Origin::Stdout, &[b"good\nba\xffd\nnever\n"]);
    assert_eq!(records, vec!["stdout: good\n"]);
    assert_eq!(last, ForwarderAction::Failed(ForwardError::Read));
}

#[test]
fn last_line_that_is_not_utf8_is_a_read_error() {
    let (records, last) = forward(Origin::Stderr, &[b"good\n\xc3"]);
    assert_eq!(records, vec!["stderr: good\n"]);
    assert_eq!(last, ForwarderAction::Failed(ForwardError::Read));
}

#[test]
fn read_failure_stops_the_forwarder() {
    let mut forwarder = StreamForwarder::new(Origin::Stdout);
    forwarder.accept(b"done\nhalf");
    assert_eq!(forwarder.next_action(), ForwarderAction::Write(line(Origin::Stdout, "done")));
    assert_eq!(forwarder.next_action(), ForwarderAction::Read);
    forwarder.read_failed();
    assert_eq!(forwarder.failure(), Some(ForwardError::Read));
    assert_eq!(forwarder.next_action(), ForwarderAction::Failed(ForwardError::Read));
    forwarder.accept(b"more\n");
    assert_eq!(forwarder.next_action(), ForwarderAction::Failed(ForwardError::Read));
}

#[test]
fn write_failure_stops_the_forwarder() {
    let mut forwarder = StreamForwarder::new(Origin::Stderr);
    forwarder.accept(b"first\nsecond\n");
    assert_eq!(forwarder.next_action(), ForwarderAction::Write(line(Origin::Stderr, "first")));
    forwarder.write_failed();
    assert_eq!(forwarder.failure(), Some(ForwardError::Write));
    assert_eq!(forwarder.next_action(), ForwarderAction::Failed(ForwardError::Write));
}

#[test]
fn first_failure_stays() {
    let mut forwarder = StreamForwarder::new(Origin::Stdout);
    forwarder.write_failed();
    forwarder.read_failed();
    forwarder.end_of_stream();
    assert_eq!(forwarder.next_action(), ForwarderAction::Failed(ForwardError::Write));
}

#[test]
fn failure_of_one_forwarder_leaves_the_other_alone() {
    let mut out = StreamForwarder::new(Origin::Stdout);
    let mut err = StreamForwarder::new(Origin::Stderr);
    out.accept(b"a\n");
    err.accept(b"b\n");
    out.read_failed();
    assert_eq!(out.next_action(), ForwarderAction::Failed(ForwardError::Read));
    assert_eq!(err.next_action(), ForwarderAction::Write(line(Origin::Stderr, "b")));
    err.end_of_stream();
    assert_eq!(err.next_action(), ForwarderAction::Finished);
    assert_eq!(err.failure(), None);
}

/// Runs both forwarders to the end. `order` says whose turn it is at each
/// step (`true` for stdout); the sink is what was written, in order.
fn run_both(out_stream: &[u8], err_stream: &[u8], order: &[bool]) -> Vec<String> {
    let mut out = StreamForwarder::new(Origin::Stdout);
    let mut err = StreamForwarder::new(Origin::Stderr);
    out.accept(out_stream);
    out.end_of_stream();
    err.accept(err_stream);
    err.end_of_stream();
    let mut sink = Vec::new();
    let mut out_done = false;
    let mut err_done = false;
    let mut turn = 0;
    while !(out_done && err_done) {
        let pick_out = if out_done {
            false
        } else if err_done {
            true
        } else {
            order[turn % order.len()]
        };
        turn += 1;
        let forwarder = if pick_out { &mut out } else { &mut err };
        match forwarder.next_action() {
            ForwarderAction::Write(line) => sink.push(line.to_record()),
            ForwarderAction::Finished => {
                if pick_out {
                    out_done = true;
                } else {
                    err_done = true;
                }
            }
            other => panic!("unexpected action {:?}", other),
        }
    }
    sink
}

fn received_from(sink: &[String], tag: &str) -> Vec<String> {
    let prefix = format!("{}: ", tag);
    sink.iter()
        .filter(|record| record.starts_with(&prefix))
        .map(|record| record[prefix.len()..record.len() - 1].to_string())
        .collect()
}

#[test]
fn every_interleaving_delivers_both_streams_in_order() {
    let out_stream = b"o1\no2\no3\n";
    let err_stream = b"e1\ne2\n";
    let orders: [&[bool]; 6] = [
        &[true],
        &[false],
        &[true, false],
        &[false, true],
        &[true, true, false],
        &[false, false, true],
    ];
    for order in orders {
        let sink = run_both(out_stream, err_stream, order);
        assert_eq!(sink.len(), 5);
        assert_eq!(received_from(&sink, "stdout"), vec!["o1", "o2", "o3"]);
        assert_eq!(received_from(&sink, "stderr"), vec!["e1", "e2"]);
        for record in &sink {
            assert!(record.ends_with('\n'));
            assert_eq!(record.matches('\n').count(), 1);
        }
    }
}

#[test]
fn one_line_on_each_stream_gives_two_whole_records() {
    for order in [[true, false], [false, true]] {
        let mut sink = run_both(b"A\n", b"B\n", &order);
        assert_eq!(sink.len(), 2);
        sink.sort();
        assert_eq!(sink, vec!["stderr: B\n", "stdout: A\n"]);
    }
    let first_out = run_both(b"A\n", b"B\n", &[true, false]);
    assert_eq!(first_out, vec!["stdout: A\n", "stderr: B\n"]);
    let first_err = run_both(b"A\n", b"B\n", &[false, true]);
    assert_eq!(first_err, vec!["stderr: B\n", "stdout: A\n"]);
}
