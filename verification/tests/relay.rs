use httplib::{Error, Headers, Relay};

fn relay_headers(pairs: &[(&str, &str)]) -> Headers {
    let mut h = Headers::new();
    for (name, value) in pairs {
        h.insert(String::from(*name), String::from(*value));
    }
    h
}

#[test]
fn relay_starts_empty() {
    let relay = Relay::new();
    assert_eq!(relay.length(), 0);
    assert_eq!(relay.length_limit(), None);
    assert!(!relay.has_length_limit());
}

#[test]
fn relay_keeps_its_limit() {
    let mut relay = Relay::new();
    relay.set_length_limit(10);
    assert_eq!(relay.length_limit(), Some(10));
    assert!(relay.has_length_limit());
    relay.remove_length_limit();
    assert_eq!(relay.length_limit(), None);
    relay.set_length_limit(3);
    relay.record(2);
    relay.clear();
    assert_eq!(relay.length(), 0);
    assert_eq!(relay.length_limit(), None);
}

#[test]
fn relay_goes_by_the_headers() {
    let stream = b"6\r\nHello \r\n6\r\nWorld!\r\n0\r\n\r\n";
    let mut relay = Relay::new();
    let mut output = Vec::new();
    let res = relay.relay(stream, &mut output, &relay_headers(&[("Transfer-Encoding", "chunked")]));
    assert_eq!(res, Ok(27));
    assert_eq!(output, stream);
    assert_eq!(relay.length(), 27);

    let mut output = Vec::new();
    let res = relay.relay(stream, &mut output, &relay_headers(&[("Content-Length", "9")]));
    assert_eq!(res, Ok(9));
    assert_eq!(output, b"6\r\nHello ");
    assert_eq!(relay.length(), 36);

    let mut output = Vec::new();
    let res = relay.relay(stream, &mut output, &Headers::new());
    assert_eq!(res, Err(Error::InvalidHeader(String::from("Content-Length"))));
    assert!(output.is_empty());
    assert_eq!(relay.length(), 36);
}

#[test]
fn sized_relay_succeeds_up_to_the_limit() {
    for limit in 0..8usize {
        for size in 0..8usize {
            let mut relay = Relay::new();
            relay.set_length_limit(limit);
            let mut output = Vec::new();
            let res = relay.relay_sized(b"0123456789", &mut output, size);
            if size <= limit {
                assert_eq!(res, Ok(size));
                assert_eq!(output, &b"0123456789"[..size]);
                assert_eq!(relay.length(), size);
            } else {
                assert_eq!(res, Err(Error::SizeLimitExceeded(limit)));
                assert!(output.is_empty());
                assert_eq!(relay.length(), 0);
            }
        }
    }
}

#[test]
fn chunked_relay_succeeds_up_to_the_limit() {
    let stream = b"3\r\nabc\r\n4\r\ndefg\r\n0\r\n\r\n";
    assert_eq!(stream.len(), 22);
    for limit in 0..30usize {
        let mut relay = Relay::new();
        relay.set_length_limit(limit);
        let mut output = Vec::new();
        let res = relay.relay_chunked(stream, &mut output);
        if 22 <= limit {
            assert_eq!(res, Ok(22));
            assert_eq!(output, stream);
            assert_eq!(relay.length(), 22);
        } else {
            assert_eq!(res, Err(Error::SizeLimitExceeded(limit)));
            assert_eq!(output, &stream[..limit]);
            assert_eq!(relay.length(), 0);
        }
    }
}

#[test]
fn relay_counts_what_went_through_against_the_limit() {
    let mut relay = Relay::new();
    relay.set_length_limit(30);
    let mut output = Vec::new();
    assert_eq!(relay.relay_sized(b"0123456789", &mut output, 10), Ok(10));
    assert_eq!(relay.relay_sized(b"0123456789", &mut output, 21), Err(Error::SizeLimitExceeded(30)));
    assert_eq!(relay.relay_chunked(b"3\r\nabc\r\n0\r\n\r\n", &mut output), Ok(13));
    assert_eq!(relay.length(), 23);
    assert_eq!(output.len(), 23);
    assert_eq!(
        relay.relay_chunked(b"3\r\nabc\r\n0\r\n\r\n", &mut output),
        Err(Error::SizeLimitExceeded(30))
    );
    assert_eq!(output.len(), 30);
    assert_eq!(relay.length(), 23);
    assert_eq!(relay.chunked_room(), Ok(7));
    assert_eq!(relay.sized_room(7), Ok(()));
    assert_eq!(relay.sized_room(8), Err(Error::SizeLimitExceeded(30)));
    relay.set_length_limit(20);
    assert_eq!(relay.chunked_room(), Err(Error::SizeLimitExceeded(20)));
    assert_eq!(relay.relay_chunked(b"0\r\n\r\n", &mut output), Err(Error::SizeLimitExceeded(20)));
    assert_eq!(relay.relay_sized(b"", &mut output, 0), Err(Error::SizeLimitExceeded(20)));
}

#[test]
fn sized_relay_tolerates_a_short_stream_where_the_reader_fails() {
    let mut body = httplib::Body::new();
    assert_eq!(body.read_sized(b"hell", 5), Err(Error::StreamNotReadable));
    let mut relay = Relay::new();
    let mut output = Vec::new();
    assert_eq!(relay.relay_sized(b"hell", &mut output, 5), Ok(4));
    assert_eq!(output, b"hell");
    assert_eq!(relay.length(), 4);
}

#[test]
fn relay_record_stays_at_the_largest_count() {
    let mut relay = Relay::new();
    relay.record(usize::MAX - 1);
    relay.record(5);
    assert_eq!(relay.length(), usize::MAX);
}

#[test]
fn relay_settles_what_came_through() {
    let mut relay = Relay::new();
    relay.set_length_limit(9);
    assert_eq!(relay.settle(Ok(4)), Ok(4));
    assert_eq!(relay.length(), 4);
    assert_eq!(relay.settle(Err(Error::SizeLimitExceeded(5))), Err(Error::SizeLimitExceeded(9)));
    assert_eq!(relay.settle(Err(Error::StreamNotWritable)), Err(Error::StreamNotWritable));
    assert_eq!(relay.length(), 4);
}
