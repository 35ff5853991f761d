use test_dispatch::lines::{drop_carriage_return, split_lines};
use test_dispatch::record::{LogLine, Origin};

fn lines_of(stream: &[u8]) -> Vec<Vec<u8>> {
    split_lines(stream)
}

fn bytes(lines: &[&str]) -> Vec<Vec<u8>> {
    lines.iter().map(|line| line.as_bytes().to_vec()).collect()
}

#[test]
fn empty_stream_has_no_lines() {
    assert_eq!(lines_of(b""), Vec::<Vec<u8>>::new());
}

#[test]
fn terminated_lines_lose_their_line_feed() {
    assert_eq!(lines_of(b"one\ntwo\n"), bytes(&["one", "two"]));
}

#[test]
fn unterminated_last_line_is_a_line() {
    assert_eq!(lines_of(b"one\ntwo"), bytes(&["one", "two"]));
    assert_eq!(lines_of(b"only"), bytes(&["only"]));
}

#[test]
fn empty_lines_are_kept() {
    assert_eq!(lines_of(b"\n"), bytes(&[""]));
    assert_eq!(lines_of(b"a\n\nb\n"), bytes(&["a", "", "b"]));
    assert_eq!(lines_of(b"\n\n"), bytes(&["", ""]));
}

#[test]
fn carriage_return_before_line_feed_is_dropped_once() {
    assert_eq!(lines_of(b"a\r\nb\r\n"), bytes(&["a", "b"]));
    assert_eq!(lines_of(b"a\r\r\n"), bytes(&["a\r"]));
    assert_eq!(lines_of(b"\r\n"), bytes(&[""]));
}

#[test]
fn carriage_return_elsewhere_stays() {
    assert_eq!(lines_of(b"a\rb\n"), bytes(&["a\rb"]));
    assert_eq!(lines_of(b"tail\r"), bytes(&["tail\r"]));
}

#[test]
fn split_lines_agrees_with_std_lines() {
    let streams: [&[u8]; 8] = [
        b"",
        b"x",
        b"x\n",
        b"x\r\n",
        b"\n\nx",
        b"a b c\nd e f\r\n\r\ng",
        b"\r",
        b"\r\n\r",
    ];
    for stream in streams {
        let expected: Vec<Vec<u8>> = std::io::BufRead::lines(stream)
            .map(|line| line.unwrap().into_bytes())
            .collect();
        assert_eq!(lines_of(stream), expected);
    }
}

#[test]
fn drop_carriage_return_takes_one() {
    let mut line = b"ab\r\r".to_vec();
    drop_carriage_return(&mut line);
    assert_eq!(line, b"ab\r".to_vec());
    let mut plain = b"ab".to_vec();
    drop_carriage_return(&mut plain);
    assert_eq!(plain, b"ab".to_vec());
    let mut empty: Vec<u8> = Vec::new();
    drop_carriage_return(&mut empty);
    assert!(empty.is_empty());
}

#[test]
fn line_from_bytes_decodes_utf8() {
    let line = LogLine::from_bytes(Origin::Stdout, "h\u{e9}llo \u{2713}".as_bytes().to_vec()).unwrap();
    assert_eq!(line.text(), "h\u{e9}llo \u{2713}");
    assert_eq!(line.origin(), Origin::Stdout);
}

#[test]
fn line_from_bytes_refuses_what_is_not_utf8() {
    assert_eq!(LogLine::from_bytes(Origin::Stdout, vec![0x66, 0xff, 0x6f]), None);
    assert_eq!(LogLine::from_bytes(Origin::Stderr, vec![0xc3]), None);
    assert_eq!(LogLine::from_bytes(Origin::Stderr, vec![0xed, 0xa0, 0x80]), None);
}

#[test]
fn line_from_bytes_refuses_a_line_feed() {
    assert_eq!(LogLine::from_bytes(Origin::Stdout, b"a\nb".to_vec()), None);
    assert_eq!(LogLine::from_bytes(Origin::Stdout, b"\n".to_vec()), None);
}

#[test]
fn line_from_empty_bytes_is_an_empty_line() {
    let line = LogLine::from_bytes(Origin::Stderr, Vec::new()).unwrap();
    assert_eq!(line.text(), "");
    assert_eq!(line.to_record(), "stderr: \n");
}
