use httplib::chunked::ChunkedReader;
use httplib::sized::SizedReader;
use httplib::stream::{Action, Event};
use httplib::{read_chunked_stream, read_sized_stream, Error};

#[test]
fn reads_chunked_stream() {
    let stream = String::from("6\r\nHello \r\n6\r\nWorld!\r\n0\r\n\r\n");
    let stream = stream.as_bytes();
    let mut source = Vec::new();
    read_chunked_stream(stream, &mut source, None).unwrap();
    assert_eq!(String::from_utf8(source).unwrap(), "Hello World!");
}

#[test]
fn chunked_returns_the_bytes_decoded() {
    let mut source = vec![b'>'];
    let res = read_chunked_stream(b"6\r\nHello \r\n6\r\nWorld!\r\n0\r\n\r\n", &mut source, None);
    assert_eq!(res, Ok(12));
    assert_eq!(source, b">Hello World!");
}

#[test]
fn chunked_reads_sizes_in_hexadecimal() {
    let mut stream = b"1a\r\n".to_vec();
    stream.extend_from_slice(&[b'x'; 26]);
    stream.extend_from_slice(b"\r\n0A\r\n");
    stream.extend_from_slice(&[b'y'; 10]);
    stream.extend_from_slice(b"\r\n000\r\n\r\n");
    let mut source = Vec::new();
    assert_eq!(read_chunked_stream(&stream, &mut source, None), Ok(36));
    assert_eq!(source.len(), 36);
    assert_eq!(source[25], b'x');
    assert_eq!(source[26], b'y');
}

#[test]
fn chunked_rejects_what_is_no_size() {
    let cases: [&[u8]; 8] = [
        b"\r\n",
        b"g\r\n",
        b"+5\r\nhello\r\n0\r\n\r\n",
        b"-5\r\nhello\r\n0\r\n\r\n",
        b"5 \r\nhello\r\n0\r\n\r\n",
        b"5;x=1\r\nhello\r\n0\r\n\r\n",
        b"5\nhello\r\n0\r\n\r\n",
        b"5\r5\n",
    ];
    for case in cases {
        let mut source = Vec::new();
        assert_eq!(read_chunked_stream(case, &mut source, None), Err(Error::InvalidData));
        assert!(source.is_empty());
    }
    let mut source = Vec::new();
    assert_eq!(
        read_chunked_stream(b"8000000000000000\r\n", &mut source, None),
        Err(Error::InvalidData)
    );
    let mut source = Vec::new();
    assert_eq!(read_chunked_stream(b"5\r\r\n", &mut source, None), Err(Error::InvalidData));
}

#[test]
fn chunked_fails_where_the_stream_is_short() {
    let mut source = Vec::new();
    assert_eq!(read_chunked_stream(b"6\r\nHell", &mut source, None), Err(Error::StreamNotReadable));
    assert!(source.is_empty());
    let mut source = Vec::new();
    assert_eq!(
        read_chunked_stream(b"6\r\nHello \r", &mut source, None),
        Err(Error::StreamNotReadable)
    );
    assert_eq!(source, b"Hello ");
}

#[test]
fn chunked_ends_with_the_stream_in_a_size_line() {
    let mut source = Vec::new();
    assert_eq!(read_chunked_stream(b"", &mut source, None), Ok(0));
    let mut source = Vec::new();
    assert_eq!(read_chunked_stream(b"6\r\nHello \r\n", &mut source, None), Ok(6));
    assert_eq!(source, b"Hello ");
    let mut source = Vec::new();
    assert_eq!(read_chunked_stream(b"6\r\nHello \r\n6", &mut source, None), Ok(6));
}

#[test]
fn chunked_drops_the_two_bytes_behind_a_chunk_unread() {
    let mut source = Vec::new();
    assert_eq!(read_chunked_stream(b"2\r\nabXY1\r\nc??0\r\n", &mut source, None), Ok(3));
    assert_eq!(source, b"abc");
}

#[test]
fn chunked_holds_to_the_limit() {
    let stream = b"6\r\nHello \r\n6\r\nWorld!\r\n0\r\n\r\n";
    let mut source = Vec::new();
    assert_eq!(read_chunked_stream(stream, &mut source, Some(12)), Ok(12));
    assert_eq!(source, b"Hello World!");
    let mut source = Vec::new();
    assert_eq!(read_chunked_stream(stream, &mut source, Some(11)), Err(Error::SizeLimitExceeded(11)));
    assert_eq!(source, b"Hello ");
    let mut source = Vec::new();
    assert_eq!(read_chunked_stream(stream, &mut source, Some(5)), Err(Error::SizeLimitExceeded(5)));
    assert!(source.is_empty());
    let mut source = Vec::new();
    assert_eq!(read_chunked_stream(stream, &mut source, Some(0)), Err(Error::SizeLimitExceeded(0)));
    let mut source = Vec::new();
    assert_eq!(read_chunked_stream(b"0\r\n\r\n", &mut source, Some(0)), Ok(0));
}

#[test]
fn chunked_reader_asks_for_what_it_needs() {
    let mut source = Vec::new();
    let mut reader = ChunkedReader::new(None);
    assert_eq!(reader.action(), Action::ReadByte);
    reader.feed(Event::Byte(b'3'), &mut source);
    reader.feed(Event::Byte(13), &mut source);
    assert_eq!(reader.action(), Action::ReadByte);
    reader.feed(Event::Byte(10), &mut source);
    assert_eq!(reader.action(), Action::ReadExact(3));
    reader.feed(Event::Block(b"abc".to_vec()), &mut source);
    assert_eq!(source, b"abc");
    assert_eq!(reader.action(), Action::ReadExact(2));
    reader.feed(Event::Block(b"\r\n".to_vec()), &mut source);
    assert_eq!(reader.action(), Action::ReadByte);
    reader.feed(Event::Byte(b'0'), &mut source);
    reader.feed(Event::Byte(13), &mut source);
    reader.feed(Event::Byte(10), &mut source);
    assert_eq!(reader.action(), Action::Done);
    assert_eq!(reader.finish(), Some(Ok(3)));
}

#[test]
fn chunked_reader_fails_on_a_block_of_another_length() {
    let mut source = Vec::new();
    let mut reader = ChunkedReader::new(None);
    reader.feed(Event::Byte(b'3'), &mut source);
    reader.feed(Event::Byte(13), &mut source);
    reader.feed(Event::Byte(10), &mut source);
    reader.feed(Event::Block(b"ab".to_vec()), &mut source);
    assert!(source.is_empty());
    assert_eq!(reader.finish(), Some(Err(Error::StreamNotReadable)));

    let mut reader = ChunkedReader::new(None);
    reader.feed(Event::Byte(b'3'), &mut source);
    reader.feed(Event::Byte(13), &mut source);
    reader.feed(Event::Byte(10), &mut source);
    reader.feed(Event::ReadFailed, &mut source);
    assert_eq!(reader.finish(), Some(Err(Error::StreamNotReadable)));
}

#[test]
fn sized_reads_exactly_or_fails() {
    let mut source = vec![1u8];
    assert_eq!(read_sized_stream(b"hello world", &mut source, 5), Ok(5));
    assert_eq!(source, b"\x01hello");
    let mut source = vec![1u8];
    assert_eq!(read_sized_stream(b"hello", &mut source, 5), Ok(5));
    let mut source = vec![1u8];
    assert_eq!(read_sized_stream(b"hell", &mut source, 5), Err(Error::StreamNotReadable));
    assert_eq!(source, vec![1u8]);
    let mut source = Vec::new();
    assert_eq!(read_sized_stream(b"", &mut source, 0), Ok(0));
    assert!(source.is_empty());
}

#[test]
fn sized_reader_wants_one_exact_read() {
    let mut source = Vec::new();
    let mut reader = SizedReader::new(4);
    assert_eq!(reader.action(), Action::ReadExact(4));
    reader.feed(Event::Block(b"abcd".to_vec()), &mut source);
    assert_eq!(reader.action(), Action::Done);
    assert_eq!(reader.finish(), Some(Ok(4)));
    assert_eq!(source, b"abcd");

    let mut reader = SizedReader::new(4);
    reader.feed(Event::End, &mut source);
    assert_eq!(reader.finish(), Some(Err(Error::StreamNotReadable)));
    let mut reader = SizedReader::new(4);
    reader.feed(Event::Block(b"abc".to_vec()), &mut source);
    assert_eq!(reader.finish(), Some(Err(Error::StreamNotReadable)));
    assert_eq!(source, b"abcd");
}
