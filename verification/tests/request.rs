use httplib::{Error, Headers, Request};

#[test]
fn request_creates_from_stream() {
    let stream = String::from("GET / HTTP/1.1\r\nH: V\r\n\r\n");
    let req = Request::read(stream.as_bytes(), None).unwrap();
    assert_eq!(req.method().unwrap(), "GET");
    assert_eq!(req.uri().unwrap(), "/");
    assert_eq!(req.version().unwrap(), "HTTP/1.1");
    assert_eq!(req.headers().len(), 1);
    assert_eq!(req.header("H").unwrap(), "V");
}

#[test]
fn request_starts_empty() {
    let req = Request::new();
    assert_eq!(req.method(), None);
    assert_eq!(req.uri(), None);
    assert_eq!(req.version(), None);
    assert!(!req.has_headers());
    assert_eq!(req.length(), 0);
    assert_eq!(req.length_limit(), None);
    assert!(req.lines().is_empty());
    assert_eq!(req.to_string(), "\r\n");
}

#[test]
fn request_read_counts_and_remembers_the_limit() {
    let stream = b"GET / HTTP/1.1\r\nH: V\r\n\r\nbody";
    let req = Request::read(stream, Some(24)).unwrap();
    assert_eq!(req.length(), 24);
    assert_eq!(req.length_limit(), Some(24));
    assert!(req.lines().is_empty());
    assert_eq!(Request::read(stream, Some(23)).err(), Some(Error::SizeLimitExceeded(7)));
    assert_eq!(Request::read(stream, Some(15)).err(), Some(Error::SizeLimitExceeded(15)));
    assert_eq!(Request::read(stream, Some(16)).err(), Some(Error::SizeLimitExceeded(0)));
}

#[test]
fn request_without_version_has_no_headers() {
    let req = Request::read(b"GET /index\r\nH: V\r\n\r\n", None).unwrap();
    assert_eq!(req.method().unwrap(), "GET");
    assert_eq!(req.uri().unwrap(), "/index");
    assert_eq!(req.version().unwrap(), "HTTP/0.9");
    assert!(req.has_version("HTTP/0.9"));
    assert!(!req.has_headers());
    assert_eq!(req.length(), 12);
    assert!(!req.expects_headers());
}

#[test]
fn request_needs_method_and_target() {
    assert_eq!(Request::read(b"GET\r\n\r\n", None).err(), Some(Error::InvalidData));
    assert_eq!(Request::read(b"", None).err(), Some(Error::InvalidData));
    assert_eq!(Request::read(b"GET /", None).err(), Some(Error::InvalidData));
    assert_eq!(Request::read(b"GET / HTTP/1.1\n", None).err(), Some(Error::InvalidData));
    assert_eq!(
        Request::read(b"GET / HTTP/1.1\r\nH:V\r\n\r\n", None).err(),
        Some(Error::InvalidData)
    );
}

#[test]
fn request_setters_and_tests() {
    let mut req = Request::new();
    req.set_method("POST");
    req.set_uri("/x");
    req.set_version("HTTP/1.0");
    assert!(req.has_method("POST"));
    assert!(!req.has_method("GET"));
    assert!(req.has_version("HTTP/1.0"));
    assert!(!req.has_version("HTTP/1.1"));
    assert_eq!(req.uri().unwrap(), "/x");
    req.set_header("A", "1");
    req.set_header("B", "2");
    req.set_header("A", "3");
    assert!(req.has_headers());
    assert!(req.has_header("A"));
    assert!(!req.has_header("a"));
    assert_eq!(req.header("A").unwrap(), "3");
    assert_eq!(req.headers().len(), 2);
    req.remove_header("A");
    assert!(!req.has_header("A"));
    assert_eq!(req.header("A"), None);
    req.clear_headers();
    assert!(!req.has_headers());
    req.set_length_limit(5);
    assert!(req.has_length_limit());
    assert_eq!(req.length_limit(), Some(5));
    req.remove_length_limit();
    assert!(!req.has_length_limit());
}

#[test]
fn request_builds_its_lines() {
    let mut req = Request::new();
    assert_eq!(req.build_head(), Err(Error::InvalidData));
    req.set_method("GET");
    req.set_uri("/");
    assert_eq!(req.build_head(), Err(Error::InvalidData));
    assert!(req.lines().is_empty());
    req.set_version("HTTP/1.1");
    req.set_header("Host", "example.com");
    req.set_header("Accept", "*/*");
    assert_eq!(req.build_head(), Ok(()));
    assert_eq!(req.lines(), &vec!["GET / HTTP/1.1"]);
    req.build_headers();
    assert_eq!(req.lines(), &vec!["GET / HTTP/1.1", "Host: example.com", "Accept: */*"]);
    assert_eq!(req.to_string(), "GET / HTTP/1.1\r\nHost: example.com\r\nAccept: */*\r\n\r\n");
    assert_eq!(
        req.to_bytes(),
        b"GET / HTTP/1.1\r\nHost: example.com\r\nAccept: */*\r\n\r\n".to_vec()
    );
    req.set_method("PUT");
    req.remove_header("Host");
    assert_eq!(req.build_head(), Ok(()));
    assert_eq!(req.lines()[0], "PUT / HTTP/1.1");
    assert_eq!(req.lines().len(), 3);
    req.build_headers();
    assert_eq!(req.lines(), &vec!["PUT / HTTP/1.1", "Accept: */*"]);
}

#[test]
fn request_builds_headers_behind_an_empty_first_line() {
    let mut req = Request::new();
    req.set_header("A", "1");
    req.build_headers();
    assert_eq!(req.lines(), &vec!["", "A: 1"]);
    assert_eq!(req.to_string(), "\r\nA: 1\r\n\r\n");
}

#[test]
fn request_reads_and_parses_in_two_phases() {
    let mut req = Request::new();
    assert_eq!(req.read_stream(b"GET /a b HTTP/1.1\r\nH: V\r\nI: W: X\r\n\r\nbody"), Ok(36));
    assert_eq!(req.length(), 36);
    assert_eq!(req.lines(), &vec!["GET /a b HTTP/1.1", "H: V", "I: W: X"]);
    assert_eq!(req.method(), None);
    assert_eq!(req.parse_head(), Err(Error::InvalidData));
    assert_eq!(req.parse_headers(), Ok(()));
    assert_eq!(req.header("H").unwrap(), "V");
    assert_eq!(req.header("I").unwrap(), "W: X");

    let mut req = Request::new();
    assert_eq!(req.read_stream(b"GET / HTTP/1.1\r\nH: V\r\n\r\n"), Ok(24));
    assert_eq!(req.parse_head(), Ok(()));
    assert_eq!(req.method().unwrap(), "GET");
    assert_eq!(req.uri().unwrap(), "/");
    assert_eq!(req.version().unwrap(), "HTTP/1.1");
    assert_eq!(req.parse_headers(), Ok(()));
    assert_eq!(req.headers().len(), 1);
    assert_eq!(req.header("H").unwrap(), "V");
}

#[test]
fn request_head_line_has_two_or_three_fields() {
    let cases: [(&str, Option<(&str, &str, &str)>); 8] = [
        ("GET / HTTP/1.1\r\n", Some(("GET", "/", "HTTP/1.1"))),
        ("GET / HTTP/1.0\r\n", Some(("GET", "/", "HTTP/1.0"))),
        ("GET /\r\n", Some(("GET", "/", "HTTP/0.9"))),
        ("GET \r\n", Some(("GET", "", "HTTP/0.9"))),
        ("GET / HTTP/2\r\n", None),
        ("GET / HTTP/0.9\r\n", None),
        ("GET / HTTP/1.1 \r\n", None),
        ("GET\r\n", None),
    ];
    for (text, fields) in cases {
        let mut req = Request::new();
        assert_eq!(req.read_string(text), Ok(text.len()));
        match fields {
            Some((method, uri, version)) => {
                assert_eq!(req.parse_head(), Ok(()));
                assert_eq!(req.method().unwrap(), method);
                assert_eq!(req.uri().unwrap(), uri);
                assert_eq!(req.version().unwrap(), version);
            }
            None => {
                assert_eq!(req.parse_head(), Err(Error::InvalidData));
                assert_eq!(req.method(), None);
            }
        }
    }
    let mut req = Request::new();
    assert_eq!(req.parse_head(), Err(Error::InvalidData));
}

#[test]
fn request_takes_an_empty_line_for_a_bad_header() {
    let mut req = Request::new();
    assert_eq!(req.read_string("\r\nGET / HTTP/1.1\r\n"), Ok(18));
    assert_eq!(req.lines(), &vec!["", "GET / HTTP/1.1"]);
    let mut req = Request::new();
    assert_eq!(req.read_string("GET / HTTP/1.1\r\nA: 1\r\n"), Ok(22));
    assert_eq!(req.read_string("\r\nB: 2\r\n"), Ok(8));
    assert_eq!(req.lines(), &vec!["GET / HTTP/1.1", "A: 1", "", "B: 2"]);
    assert_eq!(req.parse_headers(), Err(Error::InvalidData));
    assert!(!req.has_headers());
}

#[test]
fn request_text_needs_a_line_end() {
    let mut req = Request::new();
    assert_eq!(req.read_string("GET / HTTP/1.1"), Err(Error::InvalidData));
    assert_eq!(req.read_string(""), Err(Error::InvalidData));
    assert_eq!(req.length(), 0);
    assert!(req.lines().is_empty());
    assert_eq!(req.read_string("GET / HTTP/1.1\r\nHost: x"), Ok(23));
    assert_eq!(req.lines(), &vec!["GET / HTTP/1.1"]);
    assert_eq!(req.read_string("a\nb\r\n"), Err(Error::InvalidData));
    assert_eq!(req.lines().len(), 1);
    assert_eq!(req.length(), 23);
}

#[test]
fn request_lines_hold_to_the_limit() {
    let text = "GET / HTTP/1.1\r\nH: V\r\n\r\n";
    let mut req = Request::new();
    req.set_length_limit(24);
    assert_eq!(req.read_string(text), Ok(24));
    assert_eq!(req.read_string("\r\n"), Err(Error::SizeLimitExceeded(24)));
    assert_eq!(req.read_stream(b"\r\n"), Err(Error::SizeLimitExceeded(24)));
    assert_eq!(req.read_stream(b""), Ok(0));
    assert_eq!(req.lines().len(), 2);
    let mut req = Request::new();
    req.set_length_limit(23);
    assert_eq!(req.read_stream(text.as_bytes()), Err(Error::SizeLimitExceeded(23)));
    assert!(req.lines().is_empty());
    assert_eq!(req.length(), 0);
    req.set_length_limit(10);
    assert_eq!(req.read_string("a\r\n"), Ok(3));
    req.set_length_limit(2);
    assert_eq!(req.read_string("a\r\n"), Err(Error::SizeLimitExceeded(2)));
}

#[test]
fn request_comes_back_from_its_text() {
    let mut req = Request::new();
    req.set_method("DELETE");
    req.set_uri("/a/b?c=d");
    req.set_version("HTTP/1.0");
    req.set_header("Host", "example.com:8080");
    req.set_header("X-Empty", "");
    req.set_header("Date", "Mon, 01 Jan 2024 00:00:00 GMT");
    req.build_head().unwrap();
    req.build_headers();
    let text = req.to_string();

    let mut back = Request::new();
    assert_eq!(back.read_string(&text), Ok(text.len()));
    back.parse_head().unwrap();
    back.parse_headers().unwrap();
    assert_eq!(back.method(), req.method());
    assert_eq!(back.uri(), req.uri());
    assert_eq!(back.version(), req.version());
    assert_eq!(back.headers().len(), 3);
    assert_eq!(back.header("Host").unwrap(), "example.com:8080");
    assert_eq!(back.header("X-Empty").unwrap(), "");
    assert_eq!(back.header("Date").unwrap(), "Mon, 01 Jan 2024 00:00:00 GMT");
    assert_eq!(back.lines(), req.lines());

    let mut streamed = Request::new();
    assert_eq!(streamed.read_stream(&req.to_bytes()), Ok(text.len()));
    streamed.parse_head().unwrap();
    streamed.parse_headers().unwrap();
    assert_eq!(streamed.method(), req.method());
    assert_eq!(streamed.header("Date"), req.header("Date"));
    assert_eq!(streamed.headers().len(), 3);
}

#[test]
fn request_clears() {
    let mut req = Request::read(b"GET / HTTP/1.1\r\nH: V\r\n\r\n", Some(100)).unwrap();
    req.read_string("x\r\n").unwrap();
    req.clear();
    assert_eq!(req.method(), None);
    assert_eq!(req.uri(), None);
    assert_eq!(req.version(), None);
    assert!(!req.has_headers());
    assert_eq!(req.length(), 0);
    assert_eq!(req.length_limit(), None);
    assert!(req.lines().is_empty());
}

#[test]
fn request_is_made_from_the_tokens_of_a_head() {
    let parts = vec![String::from("GET"), String::from("/"), String::from("HTTP/1.1")];
    let mut req = Request::from_head(&parts, 16, Some(20)).ok().unwrap();
    assert!(req.expects_headers());
    let mut headers = Headers::new();
    headers.insert(String::from("H"), String::from("V"));
    req.put_headers(headers, 4);
    assert_eq!(req.length(), 20);
    assert_eq!(req.header("H").unwrap(), "V");
    assert_eq!(Request::from_head(&parts, 21, Some(20)).err(), Some(Error::SizeLimitExceeded(20)));
    assert_eq!(Request::from_head(&parts[..1].to_vec(), 5, None).err(), Some(Error::InvalidData));
}
