use httplib::framing::{framing, Framing};
use httplib::limit::{name_limit, room};
use httplib::message::{join_fields, join_lines, join_pair, split_fields, split_pair};
use httplib::text::{
    bytes_eq, contains, find, format_decimal, parse_decimal, parse_number, str_eq, to_chars,
};
use httplib::{Error, Headers};

#[test]
fn numbers_are_read_to_a_base() {
    let digits: Vec<char> = "1f".chars().collect();
    assert_eq!(parse_number(&digits, 16, usize::MAX), Some(31));
    assert_eq!(parse_number(&digits, 10, usize::MAX), None);
    let digits: Vec<char> = "1F".chars().collect();
    assert_eq!(parse_number(&digits, 16, usize::MAX), Some(31));
    let digits: Vec<char> = "0012".chars().collect();
    assert_eq!(parse_number(&digits, 10, usize::MAX), Some(12));
    assert_eq!(parse_number(&digits, 10, 12), Some(12));
    assert_eq!(parse_number(&digits, 10, 11), None);
    assert_eq!(parse_number(&digits, 2, 100), None);
    assert_eq!(parse_number(&[], 10, usize::MAX), None);
    let digits: Vec<char> = "101".chars().collect();
    assert_eq!(parse_number(&digits, 2, 100), Some(5));
    assert_eq!(parse_number(&digits, 1, 100), None);
    assert_eq!(parse_number(&digits, 17, 100), None);
    assert_eq!(parse_number(&digits, 16, 1000), Some(257));
}

#[test]
fn counts_are_read_in_decimal() {
    assert_eq!(parse_decimal("0"), Some(0));
    assert_eq!(parse_decimal("42"), Some(42));
    assert_eq!(parse_decimal("+42"), Some(42));
    assert_eq!(parse_decimal("18446744073709551615"), Some(usize::MAX));
    assert_eq!(parse_decimal("18446744073709551616"), None);
    assert_eq!(parse_decimal(""), None);
    assert_eq!(parse_decimal("+"), None);
    assert_eq!(parse_decimal("++1"), None);
    assert_eq!(parse_decimal("-1"), None);
    assert_eq!(parse_decimal("1a"), None);
    assert_eq!(parse_decimal("\u{661}"), None);
}

#[test]
fn counts_are_written_in_decimal() {
    assert_eq!(format_decimal(0), "0");
    assert_eq!(format_decimal(7), "7");
    assert_eq!(format_decimal(10), "10");
    assert_eq!(format_decimal(404), "404");
    assert_eq!(format_decimal(usize::MAX), "18446744073709551615");
    for n in [0usize, 1, 9, 10, 99, 100, 12345, usize::MAX] {
        assert_eq!(parse_decimal(&format_decimal(n)), Some(n));
    }
}

#[test]
fn texts_are_compared_and_searched() {
    assert!(str_eq("abc", "abc"));
    assert!(!str_eq("abc", "abd"));
    assert!(!str_eq("abc", "ab"));
    assert!(str_eq("", ""));
    assert!(bytes_eq(b"ab", b"ab"));
    assert!(!bytes_eq(b"ab", b"ba"));
    assert!(contains("gzip, chunked", "chunked"));
    assert!(!contains("gzip", "chunked"));
    assert!(contains("anything", ""));
    let text: Vec<char> = "a: b: c".chars().collect();
    assert_eq!(find(&text, &[':', ' '], 0), Some(1));
    assert_eq!(find(&text, &[':', ' '], 2), Some(4));
    assert_eq!(find(&text, &[':', ' '], 5), None);
    assert_eq!(find(&text, &[], 7), Some(7));
    assert_eq!(find(&text, &[], 8), None);
    assert_eq!(find(&text, &['c'], 0), Some(6));
}

#[test]
fn strings_are_made_of_characters() {
    assert_eq!(to_chars("h\u{e9}"), vec!['h', '\u{e9}']);
    assert_eq!(to_chars(""), Vec::<char>::new());
}

#[test]
fn lines_are_cut_and_joined() {
    assert_eq!(split_fields("GET / HTTP/1.1"), vec!["GET", "/", "HTTP/1.1"]);
    assert_eq!(split_fields("a b c d e"), vec!["a", "b", "c d e"]);
    assert_eq!(split_fields("a b"), vec!["a", "b"]);
    assert_eq!(split_fields("a"), vec!["a"]);
    assert_eq!(split_fields(""), vec![""]);
    assert_eq!(split_fields(" "), vec!["", ""]);
    assert_eq!(split_fields("  "), vec!["", "", ""]);
    assert_eq!(split_pair("a: b"), Some((String::from("a"), String::from("b"))));
    assert_eq!(split_pair("a: b: c"), Some((String::from("a"), String::from("b: c"))));
    assert_eq!(split_pair("a:: b"), Some((String::from("a:"), String::from("b"))));
    assert_eq!(split_pair(": "), Some((String::new(), String::new())));
    assert_eq!(split_pair("a:b"), None);
    assert_eq!(split_pair(""), None);
    assert_eq!(join_pair("a", "b"), "a: b");
    assert_eq!(join_fields("a", "b", "c d"), "a b c d");
    assert_eq!(join_lines(&vec![String::from("a"), String::from("b")]), "a\r\nb\r\n\r\n");
    assert_eq!(join_lines(&Vec::new()), "\r\n");
}

#[test]
fn framing_goes_by_the_headers() {
    let mut h = Headers::new();
    assert_eq!(framing(&h), Err(Error::InvalidHeader(String::from("Content-Length"))));
    h.insert(String::from("Content-Length"), String::from("12"));
    assert_eq!(framing(&h), Ok(Framing::Sized(12)));
    h.insert(String::from("Transfer-Encoding"), String::from("identity"));
    assert_eq!(framing(&h), Ok(Framing::Sized(12)));
    h.insert(String::from("Transfer-Encoding"), String::from("chunked"));
    assert_eq!(framing(&h), Ok(Framing::Chunked));
    h.remove("Content-Length");
    assert_eq!(framing(&h), Ok(Framing::Chunked));
}

#[test]
fn limits_leave_room_and_give_errors_their_name() {
    assert_eq!(room(Some(10), 4), Ok(6));
    assert_eq!(room(Some(10), 10), Ok(0));
    assert_eq!(room(Some(10), 11), Err(Error::SizeLimitExceeded(10)));
    assert_eq!(room(None, 4), Ok(usize::MAX - 4));
    assert_eq!(name_limit(Ok(3), Some(10)), Ok(3));
    assert_eq!(name_limit(Err(Error::SizeLimitExceeded(6)), Some(10)), Err(Error::SizeLimitExceeded(10)));
    assert_eq!(name_limit(Err(Error::SizeLimitExceeded(6)), None), Err(Error::SizeLimitExceeded(usize::MAX)));
    assert_eq!(name_limit(Err(Error::InvalidData), Some(10)), Err(Error::InvalidData));
}
