//! A request: its method, target and version, its headers, and the raw lines
//! of its head.

use vstd::prelude::*;
use crate::errors::Error;
use crate::head::{
    head_run, lemma_head_of_three, lemma_head_of_two, line_of_three, line_of_two, plain, read_head,
    texts, word, HeadState, MAX_HEAD,
};
use crate::header_block::{
    headers_run, lemma_header_block_read, line_holds, put_raws, raw_lines, read_headers,
    HeadersState, Raw,
};
use crate::headers::{drop_pair, pairs_to_map, put_pair, Headers, Pair};
use crate::limit::{ceiling, room, room_under};
use crate::lines::{block_read, block_settled, read_block, read_text_block, settle_block};
use crate::message::{
    fields, head_line, headers_room, http09, join_fields, join_lines, known_version, line_end,
    message_text, parse_header_lines, parse_lines, split_fields, text_of, text_of_ref,
    with_head_line, with_header_lines, write_header_lines,
};
use crate::stream::ended;
use crate::text::{contains, latin1, position, str_eq};
use crate::utils::validate_size_constraint;

verus! {

/// A request.
#[derive(Debug)]
pub struct Request {
    method: Option<String>,
    uri: Option<String>,
    version: Option<String>,
    headers: Headers,
    length: usize,
    length_limit: Option<usize>,
    lines: Vec<String>,
}

/// A [`Request`] as contracts see it.
pub struct RequestView {
    /// The method, once it is known.
    pub method: Option<Seq<char>>,
    /// The target, once it is known.
    pub uri: Option<Seq<char>>,
    /// The version as the start line names it, once it is known.
    pub version: Option<Seq<char>>,
    /// The headers, in the order in which their names were first written.
    pub headers: Seq<Pair>,
    /// The bytes taken from streams and texts so far.
    pub length: usize,
    /// The most bytes that may be taken, if that is limited.
    pub length_limit: Option<usize>,
    /// The raw lines of the head: the start line, then the header lines.
    pub lines: Seq<Seq<char>>,
}

impl RequestView {
    /// A request of which nothing is known.
    pub open spec fn empty() -> RequestView {
        RequestView {
            method: None,
            uri: None,
            version: None,
            headers: Seq::empty(),
            length: 0,
            length_limit: None,
            lines: Seq::empty(),
        }
    }
}

impl View for Request {
    type V = RequestView;

    closed spec fn view(&self) -> RequestView {
        RequestView {
            method: text_of(self.method),
            uri: text_of(self.uri),
            version: text_of(self.version),
            headers: self.headers.pairs(),
            length: self.length,
            length_limit: self.length_limit,
            lines: texts(self.lines@),
        }
    }
}

/// The request that the tokens of a start line make, when the line took
/// `length` bytes of the `limit` that the whole head may take.
///
/// A line longer than the limit is `SizeLimitExceeded`. The method and the
/// target must be there, else `InvalidData`; a line without a version is of
/// version `HTTP/0.9`.
pub open spec fn request_of_head(tokens: Seq<Seq<char>>, length: usize, limit: Option<usize>)
    -> Result<RequestView, Error> {
    if limit is Some && limit->0 < length {
        Err(Error::SizeLimitExceeded(limit->0))
    } else if tokens.len() < 2 {
        Err(Error::InvalidData)
    } else {
        Ok(
            RequestView {
                method: Some(tokens[0]),
                uri: Some(tokens[1]),
                version: Some(
                    if tokens.len() >= 3 {
                        tokens[2]
                    } else {
                        http09()
                    },
                ),
                headers: Seq::empty(),
                length,
                length_limit: limit,
                lines: Seq::empty(),
            },
        )
    }
}

/// The request that stands at the start of a stream held in memory, read in
/// one go: the start line as `head_run` reads it, and, unless the version is
/// `HTTP/0.9`, the header block behind it as `headers_run` reads it, with
/// what the start line left of the limit. The first error of either is the
/// outcome.
pub open spec fn request_read(input: Seq<u8>, limit: Option<usize>) -> Result<RequestView, Error> {
    let head = head_run(HeadState::start(), input);
    match ended(head.outcome) {
        Ok(n) => match request_of_head(head.tokens, n, limit) {
            Err(e) => Err(e),
            Ok(r) => if r.version == Some(http09()) {
                Ok(r)
            } else {
                let block = headers_run(
                    HeadersState::start(headers_room(limit, n)),
                    input.skip(n as int),
                    Seq::empty(),
                );
                match block.0 {
                    Ok(m) => Ok(RequestView { headers: block.1, length: (n + m) as usize, ..r }),
                    Err(e) => Err(e),
                }
            },
        },
        Err(e) => Err(e),
    }
}

/// The method, target and version that a request line holds, if it holds
/// them: two fields, and the version is `HTTP/0.9`, or three, of which the
/// third is `HTTP/1.0` or `HTTP/1.1`.
pub open spec fn request_fields(line: Seq<char>) -> Option<(Seq<char>, Seq<char>, Seq<char>)> {
    let f = fields(line);
    if f.len() == 2 {
        Some((f[0], f[1], http09()))
    } else if f.len() == 3 && known_version(f[2]) {
        Some((f[0], f[1], f[2]))
    } else {
        None
    }
}

impl Request {
    /// A request of which nothing is known.
    pub fn new() -> (req: Self)
        ensures
            req@ == RequestView::empty(),
    {
        let req = Request {
            method: None,
            uri: None,
            version: None,
            headers: Headers::new(),
            length: 0,
            length_limit: None,
            lines: Vec::new(),
        };
        assert(texts(req.lines@) == Seq::<Seq<char>>::empty());
        req
    }

    /// The request that the tokens of a start line make, as
    /// `request_of_head` says.
    pub fn from_head(parts: &Vec<String>, length: usize, limit: Option<usize>) -> (res: Result<
        Request,
        Error,
    >)
        ensures
            match request_of_head(texts(parts@), length, limit) {
                Ok(v) => res matches Ok(req) && req@ == v,
                Err(e) => res matches Err(x) && x == e,
            },
    {
        match validate_size_constraint(length, limit) {
            Err(e) => {
                return Err(e);
            },
            Ok(_) => {},
        }
        if parts.len() < 2 {
            return Err(Error::InvalidData);
        }
        let version = if parts.len() >= 3 {
            parts[2].clone()
        } else {
            String::from_str("HTTP/0.9")
        };
        let req = Request {
            method: Some(parts[0].clone()),
            uri: Some(parts[1].clone()),
            version: Some(version),
            headers: Headers::new(),
            length,
            length_limit: limit,
            lines: Vec::new(),
        };
        assert(texts(req.lines@) == Seq::<Seq<char>>::empty());
        Ok(req)
    }

    /// Whether a header block follows the start line: it does unless the
    /// version is `HTTP/0.9`.
    pub fn expects_headers(&self) -> (expected: bool)
        ensures
            expected == (self@.version != Some(http09())),
    {
        !self.has_version("HTTP/0.9")
    }

    /// Gives the request the headers of its header block and counts the bytes
    /// that the block took. A count that the machine cannot hold stays at the
    /// largest that it can.
    pub fn put_headers(&mut self, headers: Headers, count: usize)
        ensures
            final(self)@ == (RequestView {
                headers: headers.pairs(),
                length: if old(self)@.length + count <= usize::MAX {
                    (old(self)@.length + count) as usize
                } else {
                    usize::MAX
                },
                ..old(self)@
            }),
    {
        self.headers = headers;
        self.length = if count <= usize::MAX - self.length {
            self.length + count
        } else {
            usize::MAX
        };
    }

    /// The room that the limit leaves for the header block behind the start
    /// line, if there is a limit.
    pub fn headers_room(&self) -> (room: Option<usize>)
        ensures
            room == headers_room(self@.length_limit, self@.length),
    {
        match self.length_limit {
            Some(l) => Some(
                if self.length <= l {
                    l - self.length
                } else {
                    0
                },
            ),
            None => None,
        }
    }

    /// The room that the limit leaves for raw lines, or `SizeLimitExceeded`
    /// where the request is over its limit already.
    pub fn lines_room(&self) -> (res: Result<usize, Error>)
        ensures
            match room_under(self@.length_limit, self@.length) {
                Some(r) => res == Ok::<usize, Error>(r),
                None => self@.length_limit is Some && res == Err::<usize, Error>(
                    Error::SizeLimitExceeded(self@.length_limit->0),
                ),
            },
    {
        room(self.length_limit, self.length)
    }

    /// Takes a block of raw lines that was read in the room that the limit
    /// left, with the result `res`, as `block_settled` says.
    pub fn take_block(&mut self, res: Result<usize, Error>, block: Vec<String>) -> (named: Result<
        usize,
        Error,
    >)
        ensures
            (named, final(self)@.length, final(self)@.lines) == block_settled(
                old(self)@.length,
                old(self)@.length_limit,
                old(self)@.lines,
                res,
                texts(block@),
            ),
            final(self)@ == (RequestView {
                length: final(self)@.length,
                lines: final(self)@.lines,
                ..old(self)@
            }),
    {
        settle_block(&mut self.length, self.length_limit, &mut self.lines, res, block)
    }

    /// Reads the request at the start of a stream held in memory in one go,
    /// taking `limit` bytes at most, as `request_read` says.
    pub fn read(input: &[u8], limit: Option<usize>) -> (res: Result<Request, Error>)
        ensures
            match request_read(input@, limit) {
                Ok(v) => res matches Ok(req) && req@ == v,
                Err(e) => res matches Err(x) && x == e,
            },
    {
        let mut head: Vec<String> = Vec::new();
        assert(texts(head@) == Seq::<Seq<char>>::empty());
        let n = match read_head(input, &mut head) {
            Ok(n) => n,
            Err(e) => {
                return Err(e);
            },
        };
        assert(texts(head@) == head_run(HeadState::start(), input@).tokens);
        let mut req = match Request::from_head(&head, n, limit) {
            Ok(req) => req,
            Err(e) => {
                return Err(e);
            },
        };
        if req.expects_headers() {
            let room = req.headers_room();
            let mut headers = Headers::new();
            let rest = vstd::slice::slice_subrange(input, n, input.len());
            assert(rest@ == input@.skip(n as int));
            match read_headers(rest, &mut headers, room) {
                Ok(m) => req.put_headers(headers, m),
                Err(e) => {
                    return Err(e);
                },
            }
        }
        Ok(req)
    }

    /// The method, once it is known.
    pub fn method(&self) -> (method: Option<&String>)
        ensures
            text_of_ref(method) == self@.method,
    {
        self.method.as_ref()
    }

    /// The target, once it is known.
    pub fn uri(&self) -> (uri: Option<&String>)
        ensures
            text_of_ref(uri) == self@.uri,
    {
        self.uri.as_ref()
    }

    /// The version, once it is known.
    pub fn version(&self) -> (version: Option<&String>)
        ensures
            text_of_ref(version) == self@.version,
    {
        self.version.as_ref()
    }

    /// The headers.
    pub fn headers(&self) -> (headers: &Headers)
        ensures
            headers.pairs() == self@.headers,
    {
        &self.headers
    }

    /// The value of the header of that name, if there is one.
    pub fn header(&self, name: &str) -> (value: Option<&String>)
        ensures
            value is Some == pairs_to_map(self@.headers).contains_key(name@),
            value is Some ==> value->0@ == pairs_to_map(self@.headers)[name@],
    {
        self.headers.get(name)
    }

    /// The bytes taken from streams and texts so far.
    pub fn length(&self) -> (n: usize)
        ensures
            n == self@.length,
    {
        self.length
    }

    /// The most bytes that may be taken, if that is limited.
    pub fn length_limit(&self) -> (limit: Option<usize>)
        ensures
            limit == self@.length_limit,
    {
        self.length_limit
    }

    /// The raw lines of the head.
    pub fn lines(&self) -> (lines: &Vec<String>)
        ensures
            texts(lines@) == self@.lines,
    {
        &self.lines
    }

    /// Whether the method is known and is `value`.
    pub fn has_method(&self, value: &str) -> (same: bool)
        ensures
            same == (self@.method == Some(value@)),
    {
        match &self.method {
            Some(method) => str_eq(method.as_str(), value),
            None => false,
        }
    }

    /// Whether the version is known and is `value`.
    pub fn has_version(&self, value: &str) -> (same: bool)
        ensures
            same == (self@.version == Some(value@)),
    {
        match &self.version {
            Some(version) => str_eq(version.as_str(), value),
            None => false,
        }
    }

    /// Whether there is a header.
    pub fn has_headers(&self) -> (any: bool)
        ensures
            any == (self@.headers.len() > 0),
    {
        !self.headers.is_empty()
    }

    /// Whether there is a header of that name.
    pub fn has_header(&self, name: &str) -> (found: bool)
        ensures
            found == pairs_to_map(self@.headers).contains_key(name@),
    {
        self.headers.contains_key(name)
    }

    /// Whether the bytes that may be taken are limited.
    pub fn has_length_limit(&self) -> (limited: bool)
        ensures
            limited == self@.length_limit is Some,
    {
        self.length_limit.is_some()
    }

    /// Makes `value` the method.
    pub fn set_method(&mut self, value: &str)
        ensures
            final(self)@ == (RequestView { method: Some(value@), ..old(self)@ }),
    {
        self.method = Some(String::from_str(value));
    }

    /// Makes `value` the target.
    pub fn set_uri(&mut self, value: &str)
        ensures
            final(self)@ == (RequestView { uri: Some(value@), ..old(self)@ }),
    {
        self.uri = Some(String::from_str(value));
    }

    /// Makes `value` the version.
    pub fn set_version(&mut self, value: &str)
        ensures
            final(self)@ == (RequestView { version: Some(value@), ..old(self)@ }),
    {
        self.version = Some(String::from_str(value));
    }

    /// Gives the header `name` the value `value`, whatever it had before.
    pub fn set_header(&mut self, name: &str, value: &str)
        ensures
            final(self)@ == (RequestView {
                headers: put_pair(old(self)@.headers, name@, value@),
                ..old(self)@
            }),
            pairs_to_map(final(self)@.headers) == pairs_to_map(old(self)@.headers).insert(
                name@,
                value@,
            ),
    {
        self.headers.insert(String::from_str(name), String::from_str(value));
    }

    /// Takes the header of that name out, if it is there.
    pub fn remove_header(&mut self, name: &str)
        ensures
            final(self)@ == (RequestView {
                headers: drop_pair(old(self)@.headers, name@),
                ..old(self)@
            }),
            pairs_to_map(final(self)@.headers) == pairs_to_map(old(self)@.headers).remove(name@),
    {
        self.headers.remove(name);
    }

    /// Takes every header out.
    pub fn clear_headers(&mut self)
        ensures
            final(self)@ == (RequestView { headers: Seq::empty(), ..old(self)@ }),
    {
        self.headers.clear();
    }

    /// Limits the bytes that may be taken to `limit`.
    pub fn set_length_limit(&mut self, limit: usize)
        ensures
            final(self)@ == (RequestView { length_limit: Some(limit), ..old(self)@ }),
    {
        self.length_limit = Some(limit);
    }

    /// Takes the limit away.
    pub fn remove_length_limit(&mut self)
        ensures
            final(self)@ == (RequestView { length_limit: None, ..old(self)@ }),
    {
        self.length_limit = None;
    }

    /// Forgets everything: the request is as `new` makes it.
    pub fn clear(&mut self)
        ensures
            final(self)@ == RequestView::empty(),
    {
        self.method = None;
        self.uri = None;
        self.version = None;
        self.headers.clear();
        self.length = 0;
        self.length_limit = None;
        self.lines = Vec::new();
        assert(texts(self.lines@) == Seq::<Seq<char>>::empty());
    }

    /// Reads raw lines from a stream held in memory, every byte one
    /// character, up to the empty line that ends the head or the end of the
    /// stream, as `block_read` says. The lines are added to those that are
    /// there and the bytes are counted; after an error the request is as it
    /// was.
    pub fn read_stream(&mut self, input: &[u8]) -> (res: Result<usize, Error>)
        ensures
            (res, final(self)@.length, final(self)@.lines) == block_read(
                old(self)@.length,
                old(self)@.length_limit,
                old(self)@.lines,
                latin1(input@),
            ),
            final(self)@ == (RequestView {
                length: final(self)@.length,
                lines: final(self)@.lines,
                ..old(self)@
            }),
    {
        read_block(input, &mut self.length, self.length_limit, &mut self.lines)
    }

    /// Reads raw lines from a text as from a stream. A text without a line
    /// end is `InvalidData`.
    pub fn read_string(&mut self, text: &str) -> (res: Result<usize, Error>)
        ensures
            position(text@, line_end()) < 0 ==> res == Err::<usize, Error>(Error::InvalidData)
                && final(self)@ == old(self)@,
            position(text@, line_end()) >= 0 ==> (res, final(self)@.length, final(self)@.lines)
                == block_read(
                old(self)@.length,
                old(self)@.length_limit,
                old(self)@.lines,
                text@,
            ) && final(self)@ == (RequestView {
                length: final(self)@.length,
                lines: final(self)@.lines,
                ..old(self)@
            }),
    {
        proof {
            reveal_strlit("\r\n");
            assert("\r\n"@ == line_end());
        }
        if !contains(text, "\r\n") {
            return Err(Error::InvalidData);
        }
        read_text_block(text, &mut self.length, self.length_limit, &mut self.lines)
    }

    /// Reads the method, the target and the version from the first raw line,
    /// as `request_fields` says. Where there is no line, or the line does not
    /// hold them, the outcome is `InvalidData` and the request stays as it
    /// was.
    pub fn parse_head(&mut self) -> (res: Result<(), Error>)
        ensures
            match (if old(self)@.lines.len() > 0 {
                request_fields(old(self)@.lines[0])
            } else {
                None
            }) {
                Some((method, uri, version)) => res is Ok && final(self)@ == (RequestView {
                    method: Some(method),
                    uri: Some(uri),
                    version: Some(version),
                    ..old(self)@
                }),
                None => res == Err::<(), Error>(Error::InvalidData) && final(self)@ == old(self)@,
            },
    {
        if self.lines.len() == 0 {
            return Err(Error::InvalidData);
        }
        assert(texts(self.lines@)[0] == self.lines@[0]@);
        let parts = split_fields(self.lines[0].as_str());
        let ghost f = fields(self.lines@[0]@);
        assert(texts(parts@).len() == parts@.len());
        if parts.len() == 2 {
            assert(f[0] == parts@[0]@ && f[1] == parts@[1]@);
            self.method = Some(parts[0].clone());
            self.uri = Some(parts[1].clone());
            self.version = Some(String::from_str("HTTP/0.9"));
            Ok(())
        } else if parts.len() == 3 && (str_eq(parts[2].as_str(), "HTTP/1.0") || str_eq(
            parts[2].as_str(),
            "HTTP/1.1",
        )) {
            assert(f[0] == parts@[0]@ && f[1] == parts@[1]@ && f[2] == parts@[2]@);
            self.method = Some(parts[0].clone());
            self.uri = Some(parts[1].clone());
            self.version = Some(parts[2].clone());
            Ok(())
        } else {
            assert(parts@.len() == 3 ==> f[2] == parts@[2]@);
            Err(Error::InvalidData)
        }
    }

    /// Reads the headers from the raw lines behind the first and writes them
    /// into the mapping, a later line overriding an earlier one of the same
    /// name. Every such line must be a header line, an empty line too: else
    /// the outcome is `InvalidData` and the request stays as it was.
    pub fn parse_headers(&mut self) -> (res: Result<(), Error>)
        ensures
            match parse_lines(old(self)@.lines, 1, false, old(self)@.headers) {
                Some(pairs) => res is Ok && final(self)@ == (RequestView {
                    headers: pairs,
                    ..old(self)@
                }),
                None => res == Err::<(), Error>(Error::InvalidData) && final(self)@ == old(self)@,
            },
    {
        parse_header_lines(&self.lines, 1, false, &mut self.headers)
    }

    /// Writes the first raw line from the method, the target and the version.
    /// Where one of them is not known, the outcome is `InvalidData` and the
    /// request stays as it was.
    pub fn build_head(&mut self) -> (res: Result<(), Error>)
        ensures
            match (old(self)@.method, old(self)@.uri, old(self)@.version) {
                (Some(method), Some(uri), Some(version)) => res is Ok && final(self)@
                    == (RequestView {
                    lines: with_head_line(old(self)@.lines, head_line(method, uri, version)),
                    ..old(self)@
                }),
                _ => res == Err::<(), Error>(Error::InvalidData) && final(self)@ == old(self)@,
            },
    {
        let line = match (&self.method, &self.uri, &self.version) {
            (Some(method), Some(uri), Some(version)) => join_fields(
                method.as_str(),
                uri.as_str(),
                version.as_str(),
            ),
            _ => {
                return Err(Error::InvalidData);
            },
        };
        let ghost before = self.lines@;
        if self.lines.len() == 0 {
            self.lines.push(line);
            assert(texts(self.lines@) == seq![line@]);
        } else {
            self.lines.set(0, line);
            assert(texts(self.lines@) == texts(before).update(0, line@));
        }
        Ok(())
    }

    /// Writes the raw lines behind the first anew, one for each header, in
    /// the order of the headers. The lines that stood there are dropped.
    pub fn build_headers(&mut self)
        ensures
            final(self)@ == (RequestView {
                lines: with_header_lines(old(self)@.lines, old(self)@.headers),
                ..old(self)@
            }),
    {
        let ghost before = self.lines@;
        if self.lines.len() == 0 {
            self.lines.push(String::new());
            assert(texts(self.lines@) == seq![Seq::<char>::empty()]);
        } else {
            self.lines.truncate(1);
            assert(texts(self.lines@) == seq![texts(before)[0]]);
        }
        write_header_lines(&self.headers, &mut self.lines);
    }

    /// The text of the head: its raw lines, each with its line end, and the
    /// empty line that ends it.
    pub fn to_string(&self) -> (text: String)
        ensures
            text@ == message_text(self@.lines),
    {
        join_lines(&self.lines)
    }

    /// The text of the head as bytes.
    pub fn to_bytes(&self) -> (bytes: Vec<u8>)
        ensures
            bytes@ == vstd::utf8::encode_utf8(message_text(self@.lines)),
    {
        let text = join_lines(&self.lines);
        text.as_str().as_bytes_vec()
    }
}

/// A request line of method, target and version, and a block of headers
/// behind it, are read in one go as the request that they spell, if the line
/// is no longer than a line may be and the whole is no longer than the limit
/// allows. Every byte is one character, and all bytes of line and block are
/// counted.
pub proof fn lemma_request_read(
    method: Seq<u8>,
    uri: Seq<u8>,
    version: Seq<u8>,
    raws: Seq<Raw>,
    rest: Seq<u8>,
    limit: Option<usize>,
)
    requires
        word(method),
        word(uri),
        plain(version),
        latin1(version) != http09(),
        line_of_three(method, uri, version).len() <= MAX_HEAD,
        forall|i: int| 0 <= i < raws.len() ==> line_holds(#[trigger] raws[i]),
        line_of_three(method, uri, version).len() + raw_lines(raws).len() + 2 <= ceiling(limit),
    ensures
        request_read(
            line_of_three(method, uri, version) + raw_lines(raws) + seq![13u8, 10u8] + rest,
            limit,
        ) == Ok::<RequestView, Error>(
            RequestView {
                method: Some(latin1(method)),
                uri: Some(latin1(uri)),
                version: Some(latin1(version)),
                headers: put_raws(Seq::empty(), raws),
                length: (line_of_three(method, uri, version).len() + raw_lines(raws).len()
                    + 2) as usize,
                length_limit: limit,
                lines: Seq::empty(),
            },
        ),
{
    let line = line_of_three(method, uri, version);
    let block = raw_lines(raws) + seq![13u8, 10u8] + rest;
    let input = line + raw_lines(raws) + seq![13u8, 10u8] + rest;
    assert(input == line + block);
    lemma_head_of_three(method, uri, version, block);
    let n = line.len() as usize;
    assert(input.skip(n as int) == block);
    lemma_header_block_read(raws, rest, headers_room(limit, n), Seq::empty());
}

/// A request line of method and target alone is read in one go as a request
/// of version `HTTP/0.9`, without headers, whatever follows the line.
pub proof fn lemma_request_read_without_version(
    method: Seq<u8>,
    uri: Seq<u8>,
    rest: Seq<u8>,
    limit: Option<usize>,
)
    requires
        word(method),
        word(uri),
        line_of_two(method, uri).len() <= MAX_HEAD,
        line_of_two(method, uri).len() <= ceiling(limit),
    ensures
        request_read(line_of_two(method, uri) + rest, limit) == Ok::<RequestView, Error>(
            RequestView {
                method: Some(latin1(method)),
                uri: Some(latin1(uri)),
                version: Some(http09()),
                headers: Seq::empty(),
                length: line_of_two(method, uri).len() as usize,
                length_limit: limit,
                lines: Seq::empty(),
            },
        ),
{
    lemma_head_of_two(method, uri, rest);
}

} // verus!
