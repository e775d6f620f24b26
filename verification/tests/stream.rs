use httplib::stream::{outcome, write_result, Action, Event, WINDOW};
use httplib::{Error, Request, Response};

#[test]
fn window_is_a_kibibyte() {
    assert_eq!(WINDOW, 1024);
}

#[test]
fn writes_come_to_their_count_or_fail() {
    assert_eq!(write_result(Event::Written, 7), Ok(7));
    assert_eq!(write_result(Event::WriteFailed, 7), Err(Error::StreamNotWritable));
    assert_eq!(write_result(Event::End, 7), Err(Error::StreamNotWritable));
    assert_eq!(write_result(Event::Byte(1), 7), Err(Error::StreamNotWritable));
}

#[test]
fn machines_end_with_their_outcome() {
    assert_eq!(outcome(Some(Ok(3))), Ok(3));
    assert_eq!(outcome(Some(Err(Error::InvalidData))), Err(Error::InvalidData));
    assert_eq!(outcome(None), Err(Error::StreamNotReadable));
}

#[test]
fn actions_compare() {
    assert_eq!(Action::ReadExact(3), Action::ReadExact(3));
    assert_ne!(Action::ReadExact(3), Action::ReadSome(3));
    assert_ne!(Action::Write, Action::Done);
}

#[test]
fn request_takes_blocks_that_were_read_elsewhere() {
    let mut req = Request::new();
    req.set_length_limit(10);
    assert_eq!(req.lines_room(), Ok(10));
    assert_eq!(req.headers_room(), Some(10));
    let block = vec![String::from("GET / HTTP/1.1")];
    assert_eq!(req.take_block(Ok(4), block), Ok(4));
    assert_eq!(req.length(), 4);
    assert_eq!(req.lines(), &vec!["GET / HTTP/1.1"]);
    assert_eq!(req.lines_room(), Ok(6));
    assert_eq!(req.headers_room(), Some(6));
    let block = vec![String::from("dropped")];
    assert_eq!(
        req.take_block(Err(Error::SizeLimitExceeded(6)), block),
        Err(Error::SizeLimitExceeded(10))
    );
    assert_eq!(req.take_block(Err(Error::InvalidData), Vec::new()), Err(Error::InvalidData));
    assert_eq!(req.length(), 4);
    assert_eq!(req.lines().len(), 1);
    req.set_length_limit(3);
    assert_eq!(req.lines_room(), Err(Error::SizeLimitExceeded(3)));
    assert_eq!(req.headers_room(), Some(0));
    req.remove_length_limit();
    assert_eq!(req.lines_room(), Ok(usize::MAX - 4));
    assert_eq!(req.headers_room(), None);
    assert_eq!(req.take_block(Ok(usize::MAX), Vec::new()), Ok(usize::MAX));
    assert_eq!(req.length(), usize::MAX);
}

#[test]
fn response_takes_blocks_that_were_read_elsewhere() {
    let mut res = Response::new();
    res.set_length_limit(20);
    assert_eq!(res.lines_room(), Ok(20));
    let block = vec![String::from("HTTP/1.1 200 OK"), String::from("A: 1")];
    assert_eq!(res.take_block(Ok(19), block), Ok(19));
    assert_eq!(res.length(), 19);
    assert_eq!(res.lines().len(), 2);
    assert_eq!(res.headers_room(), Some(1));
    assert_eq!(res.parse_head(), Ok(()));
    assert_eq!(res.parse_headers(), Ok(()));
    assert_eq!(res.status_code(), Some(200));
    assert_eq!(res.header("A").unwrap(), "1");
}

#[test]
fn memory_takes_what_is_written() {
    let mut stream = vec![1u8];
    assert_eq!(httplib::write_to_stream(&mut stream, &[2, 3]), Ok(2));
    assert_eq!(httplib::write_to_stream(&mut stream, &[]), Ok(0));
    assert_eq!(httplib::flush_stream(&mut stream), Ok(()));
    assert_eq!(stream, vec![1, 2, 3]);
}
