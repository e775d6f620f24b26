use httplib::chunked::ChunkedReader;
use httplib::sized::SizedReader;
use httplib::stream::Event;
use httplib::{Body, Error, Headers};

fn body_headers(pairs: &[(&str, &str)]) -> Headers {
    let mut h = Headers::new();
    for (name, value) in pairs {
        h.insert(String::from(*name), String::from(*value));
    }
    h
}

#[test]
fn body_starts_empty() {
    let body = Body::new();
    assert!(body.bytes().is_empty());
    assert_eq!(body.length(), 0);
    assert_eq!(body.length_limit(), None);
    assert!(!body.has_length_limit());
}

#[test]
fn body_keeps_its_limit() {
    let mut body = Body::new();
    body.set_length_limit(10);
    assert_eq!(body.length_limit(), Some(10));
    assert!(body.has_length_limit());
    body.remove_length_limit();
    assert_eq!(body.length_limit(), None);
    assert!(!body.has_length_limit());
}

#[test]
fn body_reads_by_content_length() {
    let mut body = Body::new();
    let res = body.read(b"hello world", &body_headers(&[("Content-Length", "5")]));
    assert_eq!(res, Ok(5));
    assert_eq!(body.bytes(), b"hello");
    assert_eq!(body.length(), 5);
    let res = body.read(b" world", &body_headers(&[("Content-Length", "+6")]));
    assert_eq!(res, Ok(6));
    assert_eq!(body.bytes(), b"hello world");
    assert_eq!(body.length(), 11);
}

#[test]
fn body_reads_in_chunks_where_the_encoding_says_so() {
    let stream = b"6\r\nHello \r\n6\r\nWorld!\r\n0\r\n\r\n";
    let mut body = Body::new();
    let res = body.read(stream, &body_headers(&[("Transfer-Encoding", "chunked")]));
    assert_eq!(res, Ok(12));
    assert_eq!(body.bytes(), b"Hello World!");
    let mut body = Body::new();
    let res = body.read(
        stream,
        &body_headers(&[("Content-Length", "3"), ("Transfer-Encoding", "gzip, chunked")]),
    );
    assert_eq!(res, Ok(12));
    let mut body = Body::new();
    let res = body.read(
        stream,
        &body_headers(&[("Content-Length", "3"), ("Transfer-Encoding", "Chunked")]),
    );
    assert_eq!(res, Ok(3));
    assert_eq!(body.bytes(), b"6\r\n");
}

#[test]
fn body_needs_a_length_that_is_a_count() {
    let wrong = Err(Error::InvalidHeader(String::from("Content-Length")));
    for value in ["", "x", "5 ", " 5", "-5", "+", "5.0", "0x5", "99999999999999999999999999"] {
        let mut body = Body::new();
        assert_eq!(body.read(b"hello", &body_headers(&[("Content-Length", value)])), wrong);
        assert_eq!(body.length(), 0);
    }
    let mut body = Body::new();
    assert_eq!(body.read(b"hello", &Headers::new()), wrong);
    let mut body = Body::new();
    assert_eq!(body.read(b"hello", &body_headers(&[("content-length", "5")])), wrong);
    let mut body = Body::new();
    assert_eq!(body.read(b"hello", &body_headers(&[("Transfer-Encoding", "gzip")])), wrong);
}

#[test]
fn sized_body_succeeds_up_to_the_limit() {
    for limit in 0..8usize {
        for size in 0..8usize {
            let mut body = Body::new();
            body.set_length_limit(limit);
            let res = body.read_sized(b"0123456789", size);
            if size <= limit {
                assert_eq!(res, Ok(size));
                assert_eq!(body.bytes(), &b"0123456789"[..size]);
            } else {
                assert_eq!(res, Err(Error::SizeLimitExceeded(limit)));
                assert!(body.bytes().is_empty());
            }
        }
    }
}

#[test]
fn chunked_body_succeeds_up_to_the_limit() {
    let stream = b"3\r\nabc\r\n4\r\ndefg\r\n0\r\n\r\n";
    for limit in 0..10usize {
        let mut body = Body::new();
        body.set_length_limit(limit);
        let res = body.read_chunked(stream);
        if 7 <= limit {
            assert_eq!(res, Ok(7));
            assert_eq!(body.bytes(), b"abcdefg");
        } else {
            assert_eq!(res, Err(Error::SizeLimitExceeded(limit)));
            if limit >= 3 {
                assert_eq!(body.bytes(), b"abc");
            } else {
                assert!(body.bytes().is_empty());
            }
        }
        assert_eq!(body.length(), body.bytes().len());
        assert!(body.length() <= limit);
    }
}

#[test]
fn body_counts_what_it_holds_against_the_limit() {
    let mut body = Body::new();
    body.set_length_limit(8);
    assert_eq!(body.read_sized(b"hello", 5), Ok(5));
    assert_eq!(body.read_sized(b"world", 4), Err(Error::SizeLimitExceeded(8)));
    assert_eq!(body.read_sized(b"world", 3), Ok(3));
    assert_eq!(body.bytes(), b"hellowor");
    assert_eq!(body.read_chunked(b"1\r\nx\r\n0\r\n\r\n"), Err(Error::SizeLimitExceeded(8)));
    assert_eq!(body.read_chunked(b"0\r\n\r\n"), Ok(0));
    body.set_length_limit(4);
    assert_eq!(body.read_chunked(b"0\r\n\r\n"), Err(Error::SizeLimitExceeded(4)));
    assert_eq!(body.read_sized(b"", 0), Err(Error::SizeLimitExceeded(4)));
    assert_eq!(body.chunked_room(), Err(Error::SizeLimitExceeded(4)));
    assert_eq!(body.sized_room(0), Err(Error::SizeLimitExceeded(4)));
    body.set_length_limit(10);
    assert_eq!(body.chunked_room(), Ok(2));
    assert_eq!(body.sized_room(2), Ok(()));
    assert_eq!(body.sized_room(3), Err(Error::SizeLimitExceeded(10)));
}

#[test]
fn sized_body_fails_on_a_short_stream() {
    let mut body = Body::new();
    assert_eq!(body.read_sized(b"hell", 5), Err(Error::StreamNotReadable));
    assert_eq!(body.length(), 0);
    let res = body.read(b"hell", &body_headers(&[("Content-Length", "5")]));
    assert_eq!(res, Err(Error::StreamNotReadable));
    assert_eq!(body.length(), 0);
}

#[test]
fn body_writes_its_bytes() {
    let mut body = Body::new();
    assert_eq!(body.read_sized(b"hello", 5), Ok(5));
    let mut output = vec![b'>'];
    assert_eq!(body.write(&mut output), Ok(5));
    assert_eq!(output, b">hello");
    assert_eq!(body.bytes(), b"hello");
}

#[test]
fn body_clears() {
    let mut body = Body::new();
    body.set_length_limit(10);
    assert_eq!(body.read_sized(b"hello", 5), Ok(5));
    body.clear();
    assert!(body.bytes().is_empty());
    assert_eq!(body.length(), 0);
    assert_eq!(body.length_limit(), None);
}

#[test]
fn body_is_filled_by_readers() {
    let mut body = Body::new();
    let mut reader = SizedReader::new(3);
    body.feed_sized(&mut reader, Event::Block(b"abc".to_vec()));
    assert_eq!(reader.finish(), Some(Ok(3)));
    assert_eq!(body.bytes(), b"abc");

    let mut reader = ChunkedReader::new(Some(body.chunked_room().unwrap()));
    for b in b"2\r\n" {
        body.feed_chunked(&mut reader, Event::Byte(*b));
    }
    body.feed_chunked(&mut reader, Event::Block(b"de".to_vec()));
    assert_eq!(body.bytes(), b"abcde");
    assert_eq!(body.length(), 5);
}

#[test]
fn body_names_its_limit_in_errors() {
    let mut body = Body::new();
    body.set_length_limit(9);
    assert_eq!(body.settle(Err(Error::SizeLimitExceeded(4))), Err(Error::SizeLimitExceeded(9)));
    assert_eq!(body.settle(Err(Error::InvalidData)), Err(Error::InvalidData));
    assert_eq!(body.settle(Ok(4)), Ok(4));
}

#[test]
fn body_lists_its_bytes() {
    let mut body = Body::new();
    assert_eq!(body.to_string(), "[]");
    assert_eq!(body.read_sized(&[7], 1), Ok(1));
    assert_eq!(body.to_string(), "[7]");
    assert_eq!(body.read_sized(&[0, 255, 10], 3), Ok(3));
    assert_eq!(body.to_string(), "[7, 0, 255, 10]");
    assert_eq!(body.to_string(), format!("{:?}", body.bytes()));
}
