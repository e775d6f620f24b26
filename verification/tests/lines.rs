use httplib::lines::{read_lines, read_text_lines, LinesReader};
use httplib::stream::{Action, Event};
use httplib::Error;

#[test]
fn lines_end_at_the_empty_line() {
    let mut lines = Vec::new();
    assert_eq!(read_lines(b"GET / HTTP/1.1\r\nA: 1\r\n\r\nbody\r\n", &mut lines, None), Ok(24));
    assert_eq!(lines, vec!["GET / HTTP/1.1", "A: 1"]);
    let mut lines = Vec::new();
    assert_eq!(read_text_lines("a\r\n\r\n", &mut lines, None), Ok(5));
    assert_eq!(lines, vec!["a"]);
}

#[test]
fn first_line_may_be_empty() {
    let mut lines = Vec::new();
    assert_eq!(read_lines(b"\r\n\r\nx", &mut lines, None), Ok(4));
    assert_eq!(lines, vec![""]);
}

#[test]
fn lines_end_with_the_stream() {
    let mut lines = vec![String::from("before")];
    assert_eq!(read_lines(b"a\r\nb\r\nc", &mut lines, None), Ok(7));
    assert_eq!(lines, vec!["before", "a", "b"]);
    let mut lines: Vec<String> = Vec::new();
    assert_eq!(read_lines(b"", &mut lines, None), Ok(0));
    assert!(lines.is_empty());
}

#[test]
fn lines_reject_broken_line_ends() {
    let cases: [&[u8]; 5] = [b"a\nb\r\n", b"a\rb\r\n", b"a\r\r\n", b"a\r\n\rb", b"a\r\n\n"];
    for case in cases {
        let mut lines = Vec::new();
        assert_eq!(read_lines(case, &mut lines, None), Err(Error::InvalidData));
    }
}

#[test]
fn lines_hold_to_the_limit() {
    let mut lines = Vec::new();
    assert_eq!(read_lines(b"ab\r\n\r\n", &mut lines, Some(6)), Ok(6));
    let mut lines = Vec::new();
    assert_eq!(read_lines(b"ab\r\n\r\n", &mut lines, Some(5)), Err(Error::SizeLimitExceeded(5)));
    assert_eq!(lines, vec!["ab"]);
    let mut lines = Vec::new();
    assert_eq!(read_text_lines("ab\r\n\r\n", &mut lines, Some(3)), Err(Error::SizeLimitExceeded(3)));
    assert!(lines.is_empty());
}

#[test]
fn lines_of_a_text_keep_its_characters() {
    let mut lines = Vec::new();
    assert_eq!(read_text_lines("h\u{e9}llo: w\u{f6}rld \u{4e16}\r\n", &mut lines, None), Ok(16));
    assert_eq!(lines, vec!["h\u{e9}llo: w\u{f6}rld \u{4e16}"]);
    let mut lines = Vec::new();
    assert_eq!(read_lines(&[b'h', 0xE9, 13, 10], &mut lines, None), Ok(4));
    assert_eq!(lines, vec!["h\u{e9}"]);
}

#[test]
fn lines_reader_takes_events_and_characters() {
    let mut lines = Vec::new();
    let mut reader = LinesReader::new(None);
    assert_eq!(reader.action(), Action::ReadByte);
    reader.feed(Event::Byte(b'a'), &mut lines);
    reader.take('b', &mut lines);
    reader.feed(Event::Byte(13), &mut lines);
    reader.feed(Event::Byte(10), &mut lines);
    assert_eq!(lines, vec!["ab"]);
    reader.feed(Event::End, &mut lines);
    assert_eq!(reader.action(), Action::Done);
    assert_eq!(reader.finish(), Some(Ok(4)));
    let mut reader = LinesReader::new(None);
    reader.feed(Event::ReadFailed, &mut lines);
    assert_eq!(reader.finish(), Some(Err(Error::StreamNotReadable)));
}
