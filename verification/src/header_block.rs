//! The header block of a message: one `Name: Value` pair on each line, the
//! block ended by an empty line.

use vstd::prelude::*;
use crate::errors::Error;
use crate::headers::{pairs_to_map, put_pair, Headers, Pair};
use crate::limit::ceiling;
use crate::stream::{outcome, read_memory, Action, Event, Reply};
use crate::text::{latin1, push_char};

verus! {

/// Where in a header line the reader stands.
#[derive(Clone, Copy, Debug, PartialEq, Eq, Structural)]
pub enum HeaderStage {
    /// In the name, or at the start of a line.
    Name,
    /// Behind the colon that ends the name.
    Colon,
    /// In the value, behind the space that follows the colon.
    Value,
    /// Behind the carriage return that ends the line.
    LineEnd,
}

/// Reads a header block byte by byte.
pub struct HeadersReader {
    stage: HeaderStage,
    name: String,
    value: String,
    length: usize,
    limit: Option<usize>,
    outcome: Option<Result<usize, Error>>,
}

/// The state of a [`HeadersReader`].
pub struct HeadersState {
    /// Where in the line the reader stands.
    pub stage: HeaderStage,
    /// The name read so far on this line.
    pub name: Seq<char>,
    /// The value read so far on this line.
    pub value: Seq<char>,
    /// The bytes taken so far.
    pub length: usize,
    /// The most bytes that the block may have.
    pub limit: Option<usize>,
    /// How the reading ended, once it has: with the bytes taken, or an error.
    pub outcome: Option<Result<usize, Error>>,
}

impl HeadersState {
    /// The state before the first byte.
    pub open spec fn start(limit: Option<usize>) -> HeadersState {
        HeadersState {
            stage: HeaderStage::Name,
            name: Seq::empty(),
            value: Seq::empty(),
            length: 0,
            limit,
            outcome: None,
        }
    }

    /// This state, ended with `result`.
    pub open spec fn end(self, result: Result<usize, Error>) -> HeadersState {
        HeadersState { outcome: Some(result), ..self }
    }

    /// This state at another place in the line.
    pub open spec fn at(self, stage: HeaderStage) -> HeadersState {
        HeadersState { stage, ..self }
    }
}

/// What one byte of the block does: the next state, and the pair that the
/// byte completed, if it ended a line that holds one. `s.length` counts the
/// byte already.
///
/// A colon ends the name and must be followed by one space; a carriage return
/// ends the line, in the name (the value is then empty) or in the value, and
/// must be followed by a line feed; a line without name and value ends the
/// block. A colon, a space, a carriage return or a line feed anywhere else is
/// `InvalidData`, and so is any other byte behind a colon or a carriage return.
pub open spec fn header_byte(s: HeadersState, b: u8) -> (HeadersState, Option<Pair>) {
    if b == 58 {
        if s.stage == HeaderStage::Name {
            (s.at(HeaderStage::Colon), None)
        } else {
            (s.end(Err(Error::InvalidData)), None)
        }
    } else if b == 32 {
        if s.stage == HeaderStage::Colon {
            (s.at(HeaderStage::Value), None)
        } else {
            (s.end(Err(Error::InvalidData)), None)
        }
    } else if b == 13 {
        if s.stage == HeaderStage::Name || s.stage == HeaderStage::Value {
            (s.at(HeaderStage::LineEnd), None)
        } else {
            (s.end(Err(Error::InvalidData)), None)
        }
    } else if b == 10 {
        if s.stage != HeaderStage::LineEnd {
            (s.end(Err(Error::InvalidData)), None)
        } else if s.name.len() == 0 && s.value.len() == 0 {
            (s.end(Ok(s.length)), None)
        } else {
            (
                HeadersState {
                    stage: HeaderStage::Name,
                    name: Seq::empty(),
                    value: Seq::empty(),
                    ..s
                },
                Some((s.name, s.value)),
            )
        }
    } else {
        match s.stage {
            HeaderStage::Name => (HeadersState { name: s.name.push(b as char), ..s }, None),
            HeaderStage::Value => (HeadersState { value: s.value.push(b as char), ..s }, None),
            _ => (s.end(Err(Error::InvalidData)), None),
        }
    }
}

/// What one event does to a reader of header blocks.
///
/// A reader that has its outcome stays as it is. A byte that would make the
/// count exceed the limit ends the reading with `SizeLimitExceeded`, whatever
/// the byte is; any other byte is counted and read as `header_byte` says. The
/// end of the input ends the reading with the bytes taken so far, an
/// unfinished line being dropped. Any other event is a failed read.
pub open spec fn headers_step(s: HeadersState, reply: Reply) -> (HeadersState, Option<Pair>) {
    if s.outcome is Some {
        (s, None)
    } else {
        match reply {
            Reply::Byte(b) => if s.length >= ceiling(s.limit) {
                (s.end(Err(Error::SizeLimitExceeded(ceiling(s.limit)))), None)
            } else {
                header_byte(HeadersState { length: (s.length + 1) as usize, ..s }, b)
            },
            Reply::End => (s.end(Ok(s.length)), None),
            _ => (s.end(Err(Error::StreamNotReadable)), None),
        }
    }
}

/// The pairs after one step.
pub open spec fn emit(pairs: Seq<Pair>, pair: Option<Pair>) -> Seq<Pair> {
    match pair {
        Some((name, value)) => put_pair(pairs, name, value),
        None => pairs,
    }
}

/// What a reader in state `s` makes of a stream held in memory, of which
/// `rest` is unread, when `pairs` are the headers so far: how it ends, and the
/// headers then.
pub open spec fn headers_run(s: HeadersState, rest: Seq<u8>, pairs: Seq<Pair>) -> (
    Result<usize, Error>,
    Seq<Pair>,
)
    decreases rest.len(),
{
    if s.outcome is Some {
        (s.outcome->0, pairs)
    } else if rest.len() == 0 {
        (Ok(s.length), pairs)
    } else {
        let (next, pair) = headers_step(s, Reply::Byte(rest[0]));
        headers_run(next, rest.skip(1), emit(pairs, pair))
    }
}

impl View for HeadersReader {
    type V = HeadersState;

    closed spec fn view(&self) -> HeadersState {
        HeadersState {
            stage: self.stage,
            name: self.name@,
            value: self.value@,
            length: self.length,
            limit: self.limit,
            outcome: self.outcome,
        }
    }
}

impl HeadersReader {
    /// A reader at the start of a block that may have `limit` bytes at most.
    pub fn new(limit: Option<usize>) -> (reader: Self)
        ensures
            reader@ == HeadersState::start(limit),
    {
        HeadersReader {
            stage: HeaderStage::Name,
            name: String::new(),
            value: String::new(),
            length: 0,
            limit,
            outcome: None,
        }
    }

    /// What the reader wants next: a byte, until it has its outcome.
    pub fn action(&self) -> (action: Action)
        ensures
            action == if self@.outcome is Some {
                Action::Done
            } else {
                Action::ReadByte
            },
    {
        if self.outcome.is_some() {
            Action::Done
        } else {
            Action::ReadByte
        }
    }

    /// Ends the reading with `Err(InvalidData)`.
    fn reject(&mut self)
        ensures
            final(self)@ == old(self)@.end(Err(Error::InvalidData)),
    {
        self.outcome = Some(Err(Error::InvalidData));
    }

    /// Takes what came of the last action. A pair that the event completes
    /// goes into `output`.
    pub fn feed(&mut self, event: Event, output: &mut Headers)
        ensures
            final(self)@ == headers_step(old(self)@, event@).0,
            final(output).pairs() == emit(
                old(output).pairs(),
                headers_step(old(self)@, event@).1,
            ),
            final(output)@ == match headers_step(old(self)@, event@).1 {
                Some((name, value)) => old(output)@.insert(name, value),
                None => old(output)@,
            },
    {
        if self.outcome.is_some() {
            return ;
        }
        let b = match event {
            Event::Byte(b) => b,
            Event::End => {
                self.outcome = Some(Ok(self.length));
                return ;
            },
            _ => {
                self.outcome = Some(Err(Error::StreamNotReadable));
                return ;
            },
        };
        let most = match self.limit {
            Some(l) => l,
            None => usize::MAX,
        };
        if self.length >= most {
            self.outcome = Some(Err(Error::SizeLimitExceeded(most)));
            return ;
        }
        self.length = self.length + 1;
        if b == 58 {
            if self.stage == HeaderStage::Name {
                self.stage = HeaderStage::Colon;
            } else {
                self.reject();
            }
        } else if b == 32 {
            if self.stage == HeaderStage::Colon {
                self.stage = HeaderStage::Value;
            } else {
                self.reject();
            }
        } else if b == 13 {
            if self.stage == HeaderStage::Name || self.stage == HeaderStage::Value {
                self.stage = HeaderStage::LineEnd;
            } else {
                self.reject();
            }
        } else if b == 10 {
            if self.stage != HeaderStage::LineEnd {
                self.reject();
            } else if self.name.as_str().is_empty() && self.value.as_str().is_empty() {
                self.outcome = Some(Ok(self.length));
            } else {
                let mut name = String::new();
                let mut value = String::new();
                core::mem::swap(&mut name, &mut self.name);
                core::mem::swap(&mut value, &mut self.value);
                self.stage = HeaderStage::Name;
                output.insert(name, value);
            }
        } else {
            match self.stage {
                HeaderStage::Name => push_char(&mut self.name, b as char),
                HeaderStage::Value => push_char(&mut self.value, b as char),
                _ => self.reject(),
            }
        }
    }

    /// How the reading ended, if it has.
    pub fn finish(self) -> (outcome: Option<Result<usize, Error>>)
        ensures
            outcome == self@.outcome,
    {
        self.outcome
    }
}

/// Reads a header block from a stream held in memory into `output`, taking
/// `limit` bytes at most, and returns the number of bytes taken.
///
/// The stream is read byte by byte as `headers_step` says, up to the empty
/// line, the end of the stream or the first error. The pairs of the lines
/// read before an error stay in `output`.
pub fn read_headers(input: &[u8], output: &mut Headers, limit: Option<usize>) -> (res: Result<
    usize,
    Error,
>)
    ensures
        res == headers_run(HeadersState::start(limit), input@, old(output).pairs()).0,
        final(output).pairs() == headers_run(
            HeadersState::start(limit),
            input@,
            old(output).pairs(),
        ).1,
        final(output)@ == pairs_to_map(final(output).pairs()),
        res matches Ok(n) ==> n <= input@.len() && n <= ceiling(limit),
{
    let mut reader = HeadersReader::new(limit);
    let mut pos: usize = 0;
    let ghost start = HeadersState::start(limit);
    let ghost before = output.pairs();
    assert(input@.skip(0) == input@);
    loop
        invariant
            pos <= input@.len(),
            reader@.limit == limit,
            reader@.length <= pos,
            reader@.length <= ceiling(limit),
            reader@.outcome matches Some(Ok(n)) ==> n == reader@.length,
            headers_run(start, input@, before) == headers_run(
                reader@,
                input@.skip(pos as int),
                output.pairs(),
            ),
        ensures
            reader@.outcome is Some,
            reader@.outcome matches Some(Ok(n)) ==> n <= input@.len() && n <= ceiling(limit),
            headers_run(start, input@, before) == (reader@.outcome->0, output.pairs()),
        decreases
            input@.len() - pos + (if reader@.outcome is None {
                1int
            } else {
                0int
            }),
    {
        let action = reader.action();
        if action == Action::Done {
            break ;
        }
        let ghost rest = input@.skip(pos as int);
        let event = read_memory(action, input, &mut pos);
        proof {
            if rest.len() > 0 {
                assert(rest.skip(1) == input@.skip(pos as int));
            }
        }
        reader.feed(event, output);
    }
    outcome(reader.finish())
}

/// The bytes can stand in a name or a value as they are: none is a colon, a
/// space, a carriage return or a line feed.
pub open spec fn bare(bytes: Seq<u8>) -> bool {
    forall|i: int|
        0 <= i < bytes.len() ==> #[trigger] bytes[i] != 58 && bytes[i] != 32 && bytes[i] != 13
            && bytes[i] != 10
}

/// A header in bytes: its name and its value.
pub type Raw = (Seq<u8>, Seq<u8>);

/// A header that a line can hold: name and value are bare, and not both are
/// empty.
pub open spec fn line_holds(raw: Raw) -> bool {
    bare(raw.0) && bare(raw.1) && raw.0.len() + raw.1.len() > 0
}

/// The line of a header in bytes, with its line end.
pub open spec fn raw_line(raw: Raw) -> Seq<u8> {
    raw.0 + seq![58u8, 32u8] + raw.1 + seq![13u8, 10u8]
}

/// The lines of headers in bytes, one behind the other.
pub open spec fn raw_lines(raws: Seq<Raw>) -> Seq<u8>
    decreases raws.len(),
{
    if raws.len() == 0 {
        Seq::empty()
    } else {
        raw_line(raws[0]) + raw_lines(raws.skip(1))
    }
}

/// The pairs after each of the headers was written into them, from the first
/// on, every byte one character.
pub open spec fn put_raws(pairs: Seq<Pair>, raws: Seq<Raw>) -> Seq<Pair>
    decreases raws.len(),
{
    if raws.len() == 0 {
        pairs
    } else {
        put_raws(put_pair(pairs, latin1(raws[0].0), latin1(raws[0].1)), raws.skip(1))
    }
}

/// A reader takes bare bytes into the name.
proof fn lemma_name_taken(s: HeadersState, bytes: Seq<u8>, rest: Seq<u8>, pairs: Seq<Pair>)
    requires
        s.outcome is None,
        s.stage == HeaderStage::Name,
        bare(bytes),
        s.length + bytes.len() <= ceiling(s.limit),
    ensures
        headers_run(s, bytes + rest, pairs) == headers_run(
            HeadersState {
                name: s.name + latin1(bytes),
                length: (s.length + bytes.len()) as usize,
                ..s
            },
            rest,
            pairs,
        ),
    decreases bytes.len(),
{
    if bytes.len() == 0 {
        assert(bytes + rest == rest);
        assert(s.name + latin1(bytes) == s.name);
    } else {
        let b = bytes[0];
        let stream = bytes + rest;
        assert(stream[0] == b);
        assert(b != 58 && b != 32 && b != 13 && b != 10);
        let next = HeadersState { name: s.name.push(b as char), length: (s.length + 1) as usize, ..s };
        assert(headers_step(s, Reply::Byte(b)) == (next, None::<Pair>));
        assert(stream.skip(1) == bytes.skip(1) + rest);
        assert(bare(bytes.skip(1))) by {
            assert forall|i: int| 0 <= i < bytes.skip(1).len() implies #[trigger] bytes.skip(1)[i]
                != 58 && bytes.skip(1)[i] != 32 && bytes.skip(1)[i] != 13 && bytes.skip(1)[i]
                != 10 by {
                assert(bytes.skip(1)[i] == bytes[i + 1]);
            }
        }
        lemma_name_taken(next, bytes.skip(1), rest, pairs);
        assert(next.name + latin1(bytes.skip(1)) == s.name + latin1(bytes));
    }
}

/// A reader takes bare bytes into the value.
proof fn lemma_value_taken(s: HeadersState, bytes: Seq<u8>, rest: Seq<u8>, pairs: Seq<Pair>)
    requires
        s.outcome is None,
        s.stage == HeaderStage::Value,
        bare(bytes),
        s.length + bytes.len() <= ceiling(s.limit),
    ensures
        headers_run(s, bytes + rest, pairs) == headers_run(
            HeadersState {
                value: s.value + latin1(bytes),
                length: (s.length + bytes.len()) as usize,
                ..s
            },
            rest,
            pairs,
        ),
    decreases bytes.len(),
{
    if bytes.len() == 0 {
        assert(bytes + rest == rest);
        assert(s.value + latin1(bytes) == s.value);
    } else {
        let b = bytes[0];
        let stream = bytes + rest;
        assert(stream[0] == b);
        assert(b != 58 && b != 32 && b != 13 && b != 10);
        let next = HeadersState {
            value: s.value.push(b as char),
            length: (s.length + 1) as usize,
            ..s
        };
        assert(headers_step(s, Reply::Byte(b)) == (next, None::<Pair>));
        assert(stream.skip(1) == bytes.skip(1) + rest);
        assert(bare(bytes.skip(1))) by {
            assert forall|i: int| 0 <= i < bytes.skip(1).len() implies #[trigger] bytes.skip(1)[i]
                != 58 && bytes.skip(1)[i] != 32 && bytes.skip(1)[i] != 13 && bytes.skip(1)[i]
                != 10 by {
                assert(bytes.skip(1)[i] == bytes[i + 1]);
            }
        }
        lemma_value_taken(next, bytes.skip(1), rest, pairs);
        assert(next.value + latin1(bytes.skip(1)) == s.value + latin1(bytes));
    }
}

/// A reader at the start of a line takes the line of a header for that
/// header.
proof fn lemma_raw_line_read(s: HeadersState, raw: Raw, rest: Seq<u8>, pairs: Seq<Pair>)
    requires
        s.outcome is None,
        s.stage == HeaderStage::Name,
        s.name.len() == 0,
        s.value.len() == 0,
        line_holds(raw),
        s.length + raw_line(raw).len() <= ceiling(s.limit),
    ensures
        headers_run(s, raw_line(raw) + rest, pairs) == headers_run(
            HeadersState { length: (s.length + raw_line(raw).len()) as usize, ..s },
            rest,
            put_pair(pairs, latin1(raw.0), latin1(raw.1)),
        ),
{
    let (name, value) = raw;
    let after_value = seq![13u8, 10u8] + rest;
    let after_name = seq![58u8, 32u8] + (value + after_value);
    assert(raw_line(raw) + rest == name + after_name);
    lemma_name_taken(s, name, after_name, pairs);
    assert(s.name + latin1(name) == latin1(name));
    let named = HeadersState { name: latin1(name), length: (s.length + name.len()) as usize, ..s };
    assert(after_name[0] == 58u8);
    let colon = HeadersState {
        stage: HeaderStage::Colon,
        length: (named.length + 1) as usize,
        ..named
    };
    assert(headers_step(named, Reply::Byte(58u8)) == (colon, None::<Pair>));
    let after_colon = after_name.skip(1);
    assert(headers_run(named, after_name, pairs) == headers_run(colon, after_colon, pairs));
    assert(after_colon[0] == 32u8);
    let in_value = HeadersState {
        stage: HeaderStage::Value,
        length: (colon.length + 1) as usize,
        ..colon
    };
    assert(headers_step(colon, Reply::Byte(32u8)) == (in_value, None::<Pair>));
    assert(after_colon.skip(1) == value + after_value);
    assert(headers_run(colon, after_colon, pairs) == headers_run(
        in_value,
        value + after_value,
        pairs,
    ));
    lemma_value_taken(in_value, value, after_value, pairs);
    assert(in_value.value + latin1(value) == latin1(value));
    let valued = HeadersState {
        value: latin1(value),
        length: (in_value.length + value.len()) as usize,
        ..in_value
    };
    assert(after_value[0] == 13u8);
    let at_end = HeadersState {
        stage: HeaderStage::LineEnd,
        length: (valued.length + 1) as usize,
        ..valued
    };
    assert(headers_step(valued, Reply::Byte(13u8)) == (at_end, None::<Pair>));
    let behind = after_value.skip(1);
    assert(headers_run(valued, after_value, pairs) == headers_run(at_end, behind, pairs));
    assert(behind[0] == 10u8);
    assert(behind.skip(1) == rest);
    assert(latin1(name).len() + latin1(value).len() > 0);
    let next = HeadersState {
        stage: HeaderStage::Name,
        name: Seq::empty(),
        value: Seq::empty(),
        length: (at_end.length + 1) as usize,
        ..at_end
    };
    assert(headers_step(at_end, Reply::Byte(10u8)) == (
        next,
        Some((latin1(name), latin1(value))),
    ));
    assert(headers_run(at_end, behind, pairs) == headers_run(
        next,
        rest,
        put_pair(pairs, latin1(name), latin1(value)),
    ));
    assert(raw_line(raw).len() == name.len() + value.len() + 4);
    assert(s.name == Seq::<char>::empty());
    assert(s.value == Seq::<char>::empty());
    assert(next == HeadersState { length: (s.length + raw_line(raw).len()) as usize, ..s });
}

/// A reader at the start of a line takes the lines of headers, and the empty
/// line behind them, for these headers.
proof fn lemma_raw_lines_read(s: HeadersState, raws: Seq<Raw>, rest: Seq<u8>, pairs: Seq<Pair>)
    requires
        s.outcome is None,
        s.stage == HeaderStage::Name,
        s.name.len() == 0,
        s.value.len() == 0,
        forall|i: int| 0 <= i < raws.len() ==> line_holds(#[trigger] raws[i]),
        s.length + raw_lines(raws).len() + 2 <= ceiling(s.limit),
    ensures
        headers_run(s, raw_lines(raws) + seq![13u8, 10u8] + rest, pairs) == (
            Ok::<usize, Error>((s.length + raw_lines(raws).len() + 2) as usize),
            put_raws(pairs, raws),
        ),
    decreases raws.len(),
{
    let stream = raw_lines(raws) + seq![13u8, 10u8] + rest;
    if raws.len() == 0 {
        assert(stream == seq![13u8, 10u8] + rest);
        assert(stream[0] == 13u8);
        let at_end = HeadersState {
            stage: HeaderStage::LineEnd,
            length: (s.length + 1) as usize,
            ..s
        };
        assert(headers_step(s, Reply::Byte(13u8)) == (at_end, None::<Pair>));
        let behind = stream.skip(1);
        assert(headers_run(s, stream, pairs) == headers_run(at_end, behind, pairs));
        assert(behind[0] == 10u8);
        let done = HeadersState { length: (at_end.length + 1) as usize, ..at_end }.end(
            Ok((at_end.length + 1) as usize),
        );
        assert(headers_step(at_end, Reply::Byte(10u8)) == (done, None::<Pair>));
        assert(headers_run(at_end, behind, pairs) == headers_run(done, behind.skip(1), pairs));
    } else {
        let raw = raws[0];
        let more = raws.skip(1);
        let tail = raw_lines(more) + seq![13u8, 10u8] + rest;
        assert(stream == raw_line(raw) + tail);
        lemma_raw_line_read(s, raw, tail, pairs);
        let next = HeadersState { length: (s.length + raw_line(raw).len()) as usize, ..s };
        assert forall|i: int| 0 <= i < more.len() implies line_holds(#[trigger] more[i]) by {
            assert(more[i] == raws[i + 1]);
        }
        lemma_raw_lines_read(next, more, rest, put_pair(pairs, latin1(raw.0), latin1(raw.1)));
    }
}

/// A block of headers that lines can hold, ended by an empty line and no
/// longer than the limit allows, is read as these headers, whatever follows
/// it: each is written into the mapping, the first first, and all the bytes of
/// the block are taken.
pub proof fn lemma_header_block_read(
    raws: Seq<Raw>,
    rest: Seq<u8>,
    limit: Option<usize>,
    pairs: Seq<Pair>,
)
    requires
        forall|i: int| 0 <= i < raws.len() ==> line_holds(#[trigger] raws[i]),
        raw_lines(raws).len() + 2 <= ceiling(limit),
    ensures
        headers_run(
            HeadersState::start(limit),
            raw_lines(raws) + seq![13u8, 10u8] + rest,
            pairs,
        ) == (Ok::<usize, Error>((raw_lines(raws).len() + 2) as usize), put_raws(pairs, raws)),
{
    lemma_raw_lines_read(HeadersState::start(limit), raws, rest, pairs);
}

} // verus!
