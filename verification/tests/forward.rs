use httplib::forward::{ChunkedRelay, SizedRelay};
use httplib::stream::{Action, Event, WINDOW};
use httplib::{read_chunked_stream, relay_chunked_stream, relay_sized_stream, Error};

#[test]
fn relays_what_the_decoder_reads() {
    let stream = b"6\r\nHello \r\n6\r\nWorld!\r\n0\r\n\r\n";
    let mut body = Vec::new();
    assert_eq!(read_chunked_stream(stream, &mut body, None), Ok(12));
    assert_eq!(body, b"Hello World!");
    assert_eq!(body.len(), 12);

    let mut output = Vec::new();
    assert_eq!(relay_chunked_stream(stream, &mut output, None), Ok(stream.len()));
    assert_eq!(output, stream);

    let mut decoded = Vec::new();
    assert_eq!(read_chunked_stream(&output, &mut decoded, None), Ok(12));
    assert_eq!(decoded, body);
}

#[test]
fn chunked_relay_stops_at_the_terminator() {
    let mut stream = Vec::new();
    for _ in 0..200 {
        stream.extend_from_slice(b"5\r\nhello\r\n");
    }
    assert_eq!(stream.len(), 2000);
    stream.extend_from_slice(b"3\r\nabc\r\n");
    stream.extend_from_slice(&[b'.'; 35]);
    stream.extend_from_slice(b"0\r\n\r\n");
    assert_eq!(stream.len(), 2 * WINDOW);
    let mut longer = stream.clone();
    longer.extend_from_slice(b"GET / HTTP/1.1\r\n\r\n");
    let mut output = vec![b'>'];
    assert_eq!(relay_chunked_stream(&longer, &mut output, None), Ok(2048));
    assert_eq!(&output[1..], &stream[..]);
}

#[test]
fn chunked_relay_goes_on_to_the_end_of_the_input() {
    let mut output = Vec::new();
    assert_eq!(relay_chunked_stream(b"5\r\nhello\r\n", &mut output, None), Ok(10));
    assert_eq!(output, b"5\r\nhello\r\n");
    let mut output = Vec::new();
    assert_eq!(relay_chunked_stream(b"", &mut output, None), Ok(0));
    let mut output = Vec::new();
    assert_eq!(relay_chunked_stream(b"0\r\n\r\nmore", &mut output, None), Ok(9));
    assert_eq!(output, b"0\r\n\r\nmore");
}

#[test]
fn chunked_relay_holds_to_the_limit() {
    let stream = b"6\r\nHello \r\n6\r\nWorld!\r\n0\r\n\r\n";
    assert_eq!(stream.len(), 27);
    let mut output = Vec::new();
    assert_eq!(relay_chunked_stream(stream, &mut output, Some(27)), Ok(27));
    assert_eq!(output, stream);
    let mut output = Vec::new();
    assert_eq!(relay_chunked_stream(stream, &mut output, Some(28)), Ok(27));
    let mut output = Vec::new();
    assert_eq!(
        relay_chunked_stream(stream, &mut output, Some(26)),
        Err(Error::SizeLimitExceeded(26))
    );
    assert_eq!(output, &stream[..26]);
    let mut output = Vec::new();
    assert_eq!(relay_chunked_stream(stream, &mut output, Some(0)), Err(Error::SizeLimitExceeded(0)));
    assert!(output.is_empty());
}

#[test]
fn sized_relay_stops_at_the_length() {
    let mut output = vec![b'>'];
    assert_eq!(relay_sized_stream(b"hello world", &mut output, 5), Ok(5));
    assert_eq!(output, b">hello");
    let mut output = Vec::new();
    assert_eq!(relay_sized_stream(b"hello", &mut output, 0), Ok(0));
    assert!(output.is_empty());
    let input = vec![7u8; 3000];
    let mut output = Vec::new();
    assert_eq!(relay_sized_stream(&input, &mut output, 2500), Ok(2500));
    assert_eq!(output, &input[..2500]);
}

#[test]
fn sized_relay_takes_a_short_input_for_a_short_body() {
    let mut output = Vec::new();
    assert_eq!(relay_sized_stream(b"hell", &mut output, 5), Ok(4));
    assert_eq!(output, b"hell");
    let mut output = Vec::new();
    assert_eq!(relay_sized_stream(b"", &mut output, 5), Ok(0));
    assert!(output.is_empty());
}

#[test]
fn sized_relay_asks_for_no_more_than_is_left() {
    let mut relay = SizedRelay::new(1500);
    assert_eq!(relay.action(), Action::ReadSome(1024));
    relay.feed(Event::Block(vec![0; 1000]));
    assert_eq!(relay.action(), Action::Write);
    assert_eq!(relay.pending().len(), 1000);
    relay.feed(Event::Written);
    assert_eq!(relay.action(), Action::ReadSome(500));
    relay.feed(Event::Block(vec![0; 500]));
    relay.feed(Event::Written);
    assert_eq!(relay.action(), Action::Done);
    assert_eq!(relay.finish(), Some(Ok(1500)));

    let relay = SizedRelay::new(0);
    assert_eq!(relay.action(), Action::Done);
    assert_eq!(relay.finish(), Some(Ok(0)));
}

#[test]
fn sized_relay_refuses_more_than_the_length() {
    let mut relay = SizedRelay::new(3);
    relay.feed(Event::Block(vec![0; 4]));
    assert_eq!(relay.action(), Action::Done);
    assert_eq!(relay.finish(), Some(Err(Error::SizeLimitExceeded(3))));
}

#[test]
fn relays_fail_with_the_streams() {
    let mut relay = SizedRelay::new(3);
    relay.feed(Event::ReadFailed);
    assert_eq!(relay.finish(), Some(Err(Error::StreamNotReadable)));
    let mut relay = SizedRelay::new(3);
    relay.feed(Event::Block(vec![1, 2]));
    relay.feed(Event::WriteFailed);
    assert_eq!(relay.finish(), Some(Err(Error::StreamNotWritable)));

    let mut relay = ChunkedRelay::new(None);
    relay.feed(Event::ReadFailed);
    assert_eq!(relay.finish(), Some(Err(Error::StreamNotReadable)));
    let mut relay = ChunkedRelay::new(None);
    relay.feed(Event::Block(vec![1, 2]));
    relay.feed(Event::WriteFailed);
    assert_eq!(relay.finish(), Some(Err(Error::StreamNotWritable)));
}

#[test]
fn chunked_relay_sees_a_terminator_across_reads() {
    let mut relay = ChunkedRelay::new(Some(100));
    assert_eq!(relay.action(), Action::ReadSome(100));
    relay.feed(Event::Block(b"3\r\nabc\r\n0\r".to_vec()));
    assert_eq!(relay.action(), Action::Write);
    assert_eq!(relay.pending(), b"3\r\nabc\r\n0\r");
    relay.feed(Event::Written);
    assert_eq!(relay.action(), Action::ReadSome(90));
    relay.feed(Event::Block(b"\n\r\n".to_vec()));
    relay.feed(Event::Written);
    assert_eq!(relay.action(), Action::Done);
    assert_eq!(relay.finish(), Some(Ok(13)));
}

#[test]
fn chunked_relay_misses_a_terminator_inside_a_read() {
    let mut relay = ChunkedRelay::new(None);
    assert_eq!(relay.action(), Action::ReadSome(WINDOW));
    relay.feed(Event::Block(b"0\r\n\r\nX".to_vec()));
    relay.feed(Event::Written);
    assert_eq!(relay.action(), Action::ReadSome(WINDOW));
    relay.feed(Event::End);
    assert_eq!(relay.finish(), Some(Ok(6)));
}
