use httplib::{Error, Response};

#[test]
fn response_creates_from_stream() {
    let stream = String::from("HTTP/1.1 200 OK\r\nH: V\r\n\r\n");
    let res = Response::read(stream.as_bytes(), None).unwrap();
    assert_eq!(res.status_code(), Some(200));
    assert_eq!(res.status_message().unwrap(), "OK");
    assert_eq!(res.version().unwrap(), "HTTP/1.1");
    assert_eq!(res.headers().len(), 1);
    assert_eq!(res.header("H").unwrap(), "V");
}

#[test]
fn response_starts_empty() {
    let res = Response::new();
    assert_eq!(res.status_code(), None);
    assert_eq!(res.status_message(), None);
    assert_eq!(res.version(), None);
    assert!(!res.has_headers());
    assert_eq!(res.length(), 0);
    assert_eq!(res.length_limit(), None);
    assert!(res.lines().is_empty());
    assert_eq!(res.to_string(), "\r\n");
}

#[test]
fn response_reason_may_have_spaces() {
    let res = Response::read(b"HTTP/1.1 404 Not Found\r\n\r\n", Some(26)).unwrap();
    assert_eq!(res.status_code(), Some(404));
    assert_eq!(res.status_message().unwrap(), "Not Found");
    assert_eq!(res.length(), 26);
    assert_eq!(res.length_limit(), Some(26));
    assert!(res.has_status_code(404));
    assert!(!res.has_status_code(200));
    assert!(res.has_version("HTTP/1.1"));
}

#[test]
fn response_needs_version_status_and_reason() {
    assert_eq!(Response::read(b"HTTP/1.1 200\r\n\r\n", None).err(), Some(Error::InvalidData));
    assert_eq!(Response::read(b"HTTP/1.1\r\n\r\n", None).err(), Some(Error::InvalidData));
    assert_eq!(Response::read(b"HTTP/1.1 abc OK\r\n\r\n", None).err(), Some(Error::InvalidData));
    assert_eq!(Response::read(b"HTTP/1.1 -1 OK\r\n\r\n", None).err(), Some(Error::InvalidData));
    assert_eq!(Response::read(b"", None).err(), Some(Error::InvalidData));
    assert!(Response::read(b"HTTP/1.1 200 \r\n\r\n", None).is_ok());
    assert_eq!(
        Response::read(b"HTTP/1.1 200 OK\r\n\r\n", Some(16)).err(),
        Some(Error::SizeLimitExceeded(16))
    );
    assert_eq!(
        Response::read(b"HTTP/1.1 200 OK\r\n\r\n", Some(18)).err(),
        Some(Error::SizeLimitExceeded(1))
    );
    assert!(Response::read(b"HTTP/1.1 200 OK\r\n\r\n", Some(19)).is_ok());
}

#[test]
fn response_setters_and_tests() {
    let mut res = Response::new();
    res.set_status_code(201);
    res.set_status_message("Created");
    res.set_version("HTTP/1.0");
    assert!(res.has_status_code(201));
    assert_eq!(res.status_message().unwrap(), "Created");
    assert!(res.has_version("HTTP/1.0"));
    res.set_header("A", "1");
    res.set_header("A", "2");
    assert!(res.has_headers());
    assert!(res.has_header("A"));
    assert_eq!(res.header("A").unwrap(), "2");
    res.remove_header("A");
    assert!(!res.has_headers());
    res.set_header("B", "1");
    res.clear_headers();
    assert!(!res.has_header("B"));
    res.set_length_limit(9);
    assert!(res.has_length_limit());
    res.remove_length_limit();
    assert_eq!(res.length_limit(), None);
}

#[test]
fn response_builds_its_lines() {
    let mut res = Response::new();
    assert_eq!(res.build_head(), Err(Error::InvalidData));
    res.set_version("HTTP/1.1");
    res.set_status_code(200);
    assert_eq!(res.build_head(), Err(Error::InvalidData));
    res.set_status_message("OK");
    res.set_header("Content-Length", "0");
    assert_eq!(res.build_head(), Ok(()));
    res.build_headers();
    assert_eq!(res.lines(), &vec!["HTTP/1.1 200 OK", "Content-Length: 0"]);
    assert_eq!(res.to_string(), "HTTP/1.1 200 OK\r\nContent-Length: 0\r\n\r\n");
    assert_eq!(res.to_bytes(), b"HTTP/1.1 200 OK\r\nContent-Length: 0\r\n\r\n".to_vec());
    res.set_status_code(0);
    assert_eq!(res.build_head(), Ok(()));
    assert_eq!(res.lines()[0], "HTTP/1.1 0 OK");
    res.set_status_code(1234567890);
    assert_eq!(res.build_head(), Ok(()));
    assert_eq!(res.lines()[0], "HTTP/1.1 1234567890 OK");
}

#[test]
fn response_status_line_has_two_or_three_fields() {
    let cases: [(&str, Option<(&str, usize, &str)>); 9] = [
        ("HTTP/1.1 200 OK\r\n", Some(("HTTP/1.1", 200, "OK"))),
        ("HTTP/1.0 404 Not Found\r\n", Some(("HTTP/1.0", 404, "Not Found"))),
        ("HTTP/1.1 200\r\n", Some(("HTTP/1.1", 200, ""))),
        ("HTTP/1.1 200 \r\n", Some(("HTTP/1.1", 200, ""))),
        ("HTTP/1.1 +200 OK\r\n", Some(("HTTP/1.1", 200, "OK"))),
        ("HTTP/2 200 OK\r\n", None),
        ("HTTP/1.1 2x0 OK\r\n", None),
        ("HTTP/1.1  200 OK\r\n", None),
        ("HTTP/1.1\r\n", None),
    ];
    for (text, fields) in cases {
        let mut res = Response::new();
        assert_eq!(res.read_string(text), Ok(text.len()));
        match fields {
            Some((version, code, message)) => {
                assert_eq!(res.parse_head(), Ok(()));
                assert_eq!(res.version().unwrap(), version);
                assert_eq!(res.status_code(), Some(code));
                assert_eq!(res.status_message().unwrap(), message);
            }
            None => {
                assert_eq!(res.parse_head(), Err(Error::InvalidData));
                assert_eq!(res.version(), None);
            }
        }
    }
}

#[test]
fn response_headers_stop_at_an_empty_line() {
    let mut res = Response::new();
    assert_eq!(res.read_string("HTTP/1.1 200 OK\r\nA: 1\r\n"), Ok(23));
    assert_eq!(res.read_string("\r\nnot a header\r\n"), Ok(16));
    assert_eq!(res.lines(), &vec!["HTTP/1.1 200 OK", "A: 1", "", "not a header"]);
    assert_eq!(res.parse_headers(), Ok(()));
    assert_eq!(res.headers().len(), 1);
    assert_eq!(res.header("A").unwrap(), "1");

    let mut res = Response::new();
    assert_eq!(res.read_string("HTTP/1.1 200 OK\r\nA: 1\r\nB\r\n\r\n"), Ok(28));
    assert_eq!(res.parse_headers(), Err(Error::InvalidData));
    assert!(!res.has_headers());
}

#[test]
fn response_comes_back_from_its_text() {
    let mut res = Response::new();
    res.set_version("HTTP/1.1");
    res.set_status_code(503);
    res.set_status_message("Service Unavailable");
    res.set_header("Retry-After", "120");
    res.set_header("Server", "x y z");
    res.build_head().unwrap();
    res.build_headers();
    let text = res.to_string();
    assert_eq!(text, "HTTP/1.1 503 Service Unavailable\r\nRetry-After: 120\r\nServer: x y z\r\n\r\n");

    let mut back = Response::new();
    assert_eq!(back.read_stream(text.as_bytes()), Ok(text.len()));
    back.parse_head().unwrap();
    back.parse_headers().unwrap();
    assert_eq!(back.version(), res.version());
    assert_eq!(back.status_code(), Some(503));
    assert_eq!(back.status_message(), res.status_message());
    assert_eq!(back.headers().len(), 2);
    assert_eq!(back.header("Retry-After").unwrap(), "120");
    assert_eq!(back.header("Server").unwrap(), "x y z");
}

#[test]
fn response_clears() {
    let mut res = Response::read(b"HTTP/1.1 200 OK\r\nH: V\r\n\r\n", Some(100)).unwrap();
    res.read_string("x\r\n").unwrap();
    res.clear();
    assert_eq!(res.status_code(), None);
    assert_eq!(res.status_message(), None);
    assert_eq!(res.version(), None);
    assert!(!res.has_headers());
    assert_eq!(res.length(), 0);
    assert_eq!(res.length_limit(), None);
    assert!(res.lines().is_empty());
}
