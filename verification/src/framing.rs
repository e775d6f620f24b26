//! How the headers of a message say that its body is framed.

use vstd::prelude::*;
use crate::errors::Error;
use crate::headers::Headers;
use crate::text::{contains, decimal, parse_decimal, position};

verus! {

/// The framing of a body.
#[derive(Clone, Copy, Debug, PartialEq, Eq, Structural)]
pub enum Framing {
    /// In chunks, up to a chunk of size zero.
    Chunked,
    /// This many bytes.
    Sized(usize),
}

/// The framing that headers ask for, if they ask for one: in chunks where
/// `Transfer-Encoding` holds the word `chunked`; else of the length that
/// `Content-Length` gives, which must be there and be a count in decimal.
pub open spec fn framing_of(headers: Map<Seq<char>, Seq<char>>) -> Option<Framing> {
    if headers.contains_key("Transfer-Encoding"@) && position(
        headers["Transfer-Encoding"@],
        "chunked"@,
    ) >= 0 {
        Some(Framing::Chunked)
    } else if headers.contains_key("Content-Length"@) {
        match decimal(headers["Content-Length"@]) {
            Some(n) => Some(Framing::Sized(n)),
            None => None,
        }
    } else {
        None
    }
}

/// Tells from the headers how the body is framed. Headers that ask for no
/// framing are an error: `InvalidHeader` with the name `Content-Length`.
pub fn framing(headers: &Headers) -> (res: Result<Framing, Error>)
    ensures
        match framing_of(headers@) {
            Some(f) => res == Ok::<Framing, Error>(f),
            None => res matches Err(Error::InvalidHeader(name)) && name@ == "Content-Length"@,
        },
{
    let chunked = match headers.get("Transfer-Encoding") {
        Some(encoding) => contains(encoding.as_str(), "chunked"),
        None => false,
    };
    if chunked {
        return Ok(Framing::Chunked);
    }
    let length = match headers.get("Content-Length") {
        Some(value) => parse_decimal(value.as_str()),
        None => None,
    };
    match length {
        Some(n) => Ok(Framing::Sized(n)),
        None => Err(Error::InvalidHeader(String::from_str("Content-Length"))),
    }
}

} // verus!
