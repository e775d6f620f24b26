//! A body in chunks: each chunk its size in hexadecimal on a line of its own,
//! then that many bytes and a line end; a chunk of size zero ends the body.

use vstd::prelude::*;
use crate::errors::Error;
use crate::limit::ceiling;
use crate::stream::{memory_reply, outcome, read_memory, reply_len, Action, Event, Reply};
use crate::text::{all_digits, digit, latin1, parse_number, parsed};

verus! {

/// The largest size that a chunk may announce.
pub const MAX_CHUNK: u64 = 0x7fff_ffff_ffff_ffff;

/// The largest size of a chunk that this machine can hold.
pub open spec fn most_chunk() -> usize {
    if usize::MAX <= MAX_CHUNK {
        usize::MAX
    } else {
        MAX_CHUNK as usize
    }
}

/// Where in a chunk the reader stands.
#[derive(Clone, Copy, Debug, PartialEq, Eq, Structural)]
pub enum ChunkStage {
    /// In the line that holds the size.
    Size,
    /// Behind the carriage return that ends that line.
    SizeEnd,
    /// Before the bytes of a chunk of this size.
    Data(usize),
    /// Behind the bytes of a chunk of this size, before the two bytes of its
    /// line end.
    Trailer(usize),
}

/// Decodes a body in chunks.
pub struct ChunkedReader {
    stage: ChunkStage,
    line: Vec<char>,
    total: usize,
    limit: Option<usize>,
    outcome: Option<Result<usize, Error>>,
}

/// The state of a [`ChunkedReader`].
pub struct ChunkedState {
    /// Where in the chunk the reader stands.
    pub stage: ChunkStage,
    /// The size line read so far, each byte one character.
    pub line: Seq<char>,
    /// The bytes of the chunks decoded so far.
    pub total: usize,
    /// The most bytes that the body may have.
    pub limit: Option<usize>,
    /// How the reading ended, once it has: with the bytes decoded, or an error.
    pub outcome: Option<Result<usize, Error>>,
}

impl ChunkedState {
    /// The state before the first byte.
    pub open spec fn start(limit: Option<usize>) -> ChunkedState {
        ChunkedState {
            stage: ChunkStage::Size,
            line: Seq::empty(),
            total: 0,
            limit,
            outcome: None,
        }
    }

    /// This state, ended with `result`.
    pub open spec fn end(self, result: Result<usize, Error>) -> ChunkedState {
        ChunkedState { outcome: Some(result), ..self }
    }

    /// How many steps the reader may take at most before it reads a byte or
    /// ends.
    pub open spec fn rank(self) -> nat {
        if self.outcome is Some {
            0
        } else if self.stage is Data {
            2
        } else {
            1
        }
    }

    /// What a reader in this state wants next.
    pub open spec fn action(self) -> Action {
        if self.outcome is Some {
            Action::Done
        } else {
            match self.stage {
                ChunkStage::Size => Action::ReadByte,
                ChunkStage::SizeEnd => Action::ReadByte,
                ChunkStage::Data(n) => Action::ReadExact(n),
                ChunkStage::Trailer(_) => Action::ReadExact(2),
            }
        }
    }
}

/// What the end of a size line does. The line must be a number in
/// hexadecimal, else the outcome is `InvalidData`. Zero ends the body. A chunk
/// that would take the body over the limit ends the reading with
/// `SizeLimitExceeded`, before any of its bytes is read.
pub open spec fn size_line_end(s: ChunkedState) -> ChunkedState {
    match parsed(s.line, 16, most_chunk()) {
        None => s.end(Err(Error::InvalidData)),
        Some(n) => if n == 0 {
            s.end(Ok(s.total))
        } else if s.total + n > ceiling(s.limit) {
            s.end(Err(Error::SizeLimitExceeded(ceiling(s.limit))))
        } else {
            ChunkedState { stage: ChunkStage::Data(n), line: Seq::empty(), ..s }
        },
    }
}

/// What one byte of a size line does. A carriage return must be followed by a
/// line feed, and a line feed must follow one; else the outcome is
/// `InvalidData`.
pub open spec fn size_line_byte(s: ChunkedState, b: u8) -> ChunkedState {
    if b == 13 {
        if s.stage == ChunkStage::Size {
            ChunkedState { stage: ChunkStage::SizeEnd, ..s }
        } else {
            s.end(Err(Error::InvalidData))
        }
    } else if b == 10 {
        if s.stage == ChunkStage::SizeEnd {
            size_line_end(s)
        } else {
            s.end(Err(Error::InvalidData))
        }
    } else {
        if s.stage == ChunkStage::Size {
            ChunkedState { line: s.line.push(b as char), ..s }
        } else {
            s.end(Err(Error::InvalidData))
        }
    }
}

/// What one event does to a reader of chunks: the next state, and the bytes
/// that go to the end of the accumulator.
///
/// In a size line the end of the input ends the reading with the bytes
/// decoded so far. The bytes of a chunk go to the accumulator when all of them
/// have come; the two bytes behind them are dropped unread, and only then is
/// the chunk counted. An event that is not what the reader asked for is a
/// failed read, and so is a chunk that the count cannot hold, which no size
/// line lets through.
pub open spec fn chunked_step(s: ChunkedState, reply: Reply) -> (ChunkedState, Seq<u8>) {
    if s.outcome is Some {
        (s, Seq::empty())
    } else {
        match (s.stage, reply) {
            (ChunkStage::Size, Reply::Byte(b)) => (size_line_byte(s, b), Seq::empty()),
            (ChunkStage::SizeEnd, Reply::Byte(b)) => (size_line_byte(s, b), Seq::empty()),
            (ChunkStage::Size, Reply::End) => (s.end(Ok(s.total)), Seq::empty()),
            (ChunkStage::SizeEnd, Reply::End) => (s.end(Ok(s.total)), Seq::empty()),
            (ChunkStage::Data(n), Reply::Block(bytes)) => if bytes.len() == n {
                (ChunkedState { stage: ChunkStage::Trailer(n), ..s }, bytes)
            } else {
                (s.end(Err(Error::StreamNotReadable)), Seq::empty())
            },
            (ChunkStage::Trailer(n), Reply::Block(bytes)) => if bytes.len() == 2 && s.total + n
                <= usize::MAX {
                (
                    ChunkedState { stage: ChunkStage::Size, total: (s.total + n) as usize, ..s },
                    Seq::empty(),
                )
            } else {
                (s.end(Err(Error::StreamNotReadable)), Seq::empty())
            },
            _ => (s.end(Err(Error::StreamNotReadable)), Seq::empty()),
        }
    }
}

/// What a reader in state `s` makes of a stream held in memory, of which
/// `rest` is unread, when the accumulator holds `acc`: how it ends, and what
/// the accumulator holds then.
pub open spec fn chunked_run(s: ChunkedState, rest: Seq<u8>, acc: Seq<u8>) -> (
    Result<usize, Error>,
    Seq<u8>,
)
    decreases rest.len(), s.rank(),
{
    if s.outcome is Some {
        (s.outcome->0, acc)
    } else {
        let reply = memory_reply(s.action(), rest);
        let (next, more) = chunked_step(s, reply);
        if next.outcome is Some {
            (next.outcome->0, acc + more)
        } else {
            chunked_run(next, rest.skip(reply_len(reply) as int), acc + more)
        }
    }
}

impl View for ChunkedReader {
    type V = ChunkedState;

    closed spec fn view(&self) -> ChunkedState {
        ChunkedState {
            stage: self.stage,
            line: self.line@,
            total: self.total,
            limit: self.limit,
            outcome: self.outcome,
        }
    }
}

impl ChunkedReader {
    /// A reader at the start of a body that may have `limit` bytes at most.
    pub fn new(limit: Option<usize>) -> (reader: Self)
        ensures
            reader@ == ChunkedState::start(limit),
    {
        ChunkedReader { stage: ChunkStage::Size, line: Vec::new(), total: 0, limit, outcome: None }
    }

    /// What the reader wants next.
    pub fn action(&self) -> (action: Action)
        ensures
            action == self@.action(),
    {
        if self.outcome.is_some() {
            Action::Done
        } else {
            match self.stage {
                ChunkStage::Size => Action::ReadByte,
                ChunkStage::SizeEnd => Action::ReadByte,
                ChunkStage::Data(n) => Action::ReadExact(n),
                ChunkStage::Trailer(_) => Action::ReadExact(2),
            }
        }
    }

    /// Ends the reading with `result`.
    fn end(&mut self, result: Result<usize, Error>)
        ensures
            final(self)@ == old(self)@.end(result),
    {
        self.outcome = Some(result);
    }

    /// Takes one byte of a size line.
    fn size_byte(&mut self, b: u8)
        requires
            old(self)@.outcome is None,
        ensures
            final(self)@ == size_line_byte(old(self)@, b),
    {
        if b == 13 {
            if self.stage == ChunkStage::Size {
                self.stage = ChunkStage::SizeEnd;
            } else {
                self.end(Err(Error::InvalidData));
            }
        } else if b == 10 {
            if self.stage == ChunkStage::SizeEnd {
                let most: usize = if usize::MAX as u64 <= MAX_CHUNK {
                    usize::MAX
                } else {
                    MAX_CHUNK as usize
                };
                let room: usize = match self.limit {
                    Some(l) => l,
                    None => usize::MAX,
                };
                match parse_number(self.line.as_slice(), 16, most) {
                    None => self.end(Err(Error::InvalidData)),
                    Some(n) => {
                        if n == 0 {
                            self.end(Ok(self.total));
                        } else if self.total > room || n > room - self.total {
                            self.end(Err(Error::SizeLimitExceeded(room)));
                        } else {
                            self.stage = ChunkStage::Data(n);
                            self.line = Vec::new();
                        }
                    },
                }
            } else {
                self.end(Err(Error::InvalidData));
            }
        } else {
            if self.stage == ChunkStage::Size {
                self.line.push(b as char);
            } else {
                self.end(Err(Error::InvalidData));
            }
        }
    }

    /// Takes what came of the last action. The bytes of a chunk go to the end
    /// of `source`.
    pub fn feed(&mut self, event: Event, source: &mut Vec<u8>)
        ensures
            final(self)@ == chunked_step(old(self)@, event@).0,
            final(source)@ == old(source)@ + chunked_step(old(self)@, event@).1,
    {
        if self.outcome.is_some() {
            assert(source@ + Seq::<u8>::empty() == source@);
            return ;
        }
        let ghost before = source@;
        match self.stage {
            ChunkStage::Size | ChunkStage::SizeEnd => {
                match event {
                    Event::Byte(b) => self.size_byte(b),
                    Event::End => self.end(Ok(self.total)),
                    _ => self.end(Err(Error::StreamNotReadable)),
                }
            },
            ChunkStage::Data(n) => {
                match event {
                    Event::Block(bytes) => {
                        if bytes.len() == n {
                            let mut bytes = bytes;
                            source.append(&mut bytes);
                            self.stage = ChunkStage::Trailer(n);
                        } else {
                            self.end(Err(Error::StreamNotReadable));
                        }
                    },
                    _ => self.end(Err(Error::StreamNotReadable)),
                }
            },
            ChunkStage::Trailer(n) => {
                match event {
                    Event::Block(bytes) => {
                        if bytes.len() == 2 && n <= usize::MAX - self.total {
                            self.total = self.total + n;
                            self.stage = ChunkStage::Size;
                        } else {
                            self.end(Err(Error::StreamNotReadable));
                        }
                    },
                    _ => self.end(Err(Error::StreamNotReadable)),
                }
            },
        }
        assert(before + Seq::<u8>::empty() == before);
    }

    /// How the reading ended, if it has.
    pub fn finish(self) -> (outcome: Option<Result<usize, Error>>)
        ensures
            outcome == self@.outcome,
    {
        self.outcome
    }
}

/// What holds of a reader of chunks at every step of a run that began with
/// an accumulator of `base` bytes: the chunks counted are in the
/// accumulator, the chunk under way fits under the limit, and an outcome
/// tells the truth.
pub open spec fn chunked_sound(s: ChunkedState, base: nat, acc: Seq<u8>) -> bool {
    &&& match s.stage {
        ChunkStage::Size => acc.len() == base + s.total,
        ChunkStage::SizeEnd => acc.len() == base + s.total,
        ChunkStage::Data(n) => acc.len() == base + s.total && s.total + n <= ceiling(s.limit),
        ChunkStage::Trailer(n) => acc.len() == base + s.total + n && s.total + n <= ceiling(
            s.limit,
        ),
    }
    &&& s.total <= ceiling(s.limit)
    &&& match s.outcome {
        Some(Ok(n)) => n == s.total && acc.len() == base + s.total,
        Some(Err(Error::SizeLimitExceeded(l))) => l == ceiling(s.limit),
        _ => true,
    }
}

/// A step keeps a reader sound, and keeps what the accumulator held.
pub proof fn lemma_chunked_step_sound(s: ChunkedState, reply: Reply, base: nat, acc: Seq<u8>)
    requires
        chunked_sound(s, base, acc),
    ensures
        chunked_sound(chunked_step(s, reply).0, base, acc + chunked_step(s, reply).1),
        chunked_step(s, reply).0.limit == s.limit,
{
    assert(acc + Seq::<u8>::empty() == acc);
}

/// Decodes a body in chunks from a stream held in memory, puts the bytes of
/// its chunks at the end of `source`, and returns how many they are. The body
/// may have `limit` bytes at most.
///
/// The stream is read as `chunked_step` says, up to the chunk of size zero,
/// the end of the stream in a size line, or the first error. Whatever the
/// outcome, `source` keeps what it held, gains whole chunks only, and never
/// more than `limit` bytes.
pub fn read_chunked_stream(stream: &[u8], source: &mut Vec<u8>, limit: Option<usize>) -> (res:
    Result<usize, Error>)
    ensures
        res == chunked_run(ChunkedState::start(limit), stream@, old(source)@).0,
        final(source)@ == chunked_run(ChunkedState::start(limit), stream@, old(source)@).1,
        old(source)@.is_prefix_of(final(source)@),
        final(source)@.len() - old(source)@.len() <= ceiling(limit),
        res matches Ok(n) ==> final(source)@.len() == old(source)@.len() + n,
        res matches Err(Error::SizeLimitExceeded(l)) ==> limit == Some(l) || (limit is None && l
            == usize::MAX),
{
    let mut reader = ChunkedReader::new(limit);
    let mut pos: usize = 0;
    let ghost start = ChunkedState::start(limit);
    let ghost before = source@;
    assert(stream@.skip(0) == stream@);
    loop
        invariant
            pos <= stream@.len(),
            reader@.limit == limit,
            chunked_sound(reader@, before.len(), source@),
            before.is_prefix_of(source@),
            chunked_run(start, stream@, before) == chunked_run(
                reader@,
                stream@.skip(pos as int),
                source@,
            ),
        ensures
            reader@.outcome is Some,
            reader@.limit == limit,
            chunked_sound(reader@, before.len(), source@),
            before.is_prefix_of(source@),
            chunked_run(start, stream@, before) == (reader@.outcome->0, source@),
        decreases stream@.len() - pos, reader@.rank(),
    {
        let action = reader.action();
        if action == Action::Done {
            break ;
        }
        let ghost rest = stream@.skip(pos as int);
        let ghost held = source@;
        let ghost state = reader@;
        let event = read_memory(action, stream, &mut pos);
        proof {
            assert(rest.skip(reply_len(event@) as int) == stream@.skip(pos as int));
            lemma_chunked_step_sound(state, event@, before.len(), held);
        }
        reader.feed(event, source);
    }
    outcome(reader.finish())
}

/// A chunk as it stands in a stream.
pub struct Chunk {
    /// The line that holds the size, without its line end.
    pub size: Seq<u8>,
    /// The bytes of the chunk.
    pub data: Seq<u8>,
}

/// The two bytes that end a line.
pub open spec fn crlf() -> Seq<u8> {
    seq![13u8, 10u8]
}

impl Chunk {
    /// The chunk has a byte at least, and its size line is the number of its
    /// bytes in hexadecimal.
    pub open spec fn well_formed(self) -> bool {
        &&& self.data.len() > 0
        &&& parsed(latin1(self.size), 16, most_chunk()) matches Some(n)
        &&& n == self.data.len()
    }

    /// The chunk on the wire: the size line, the bytes, and a line end behind
    /// each.
    pub open spec fn frame(self) -> Seq<u8> {
        self.size + crlf() + self.data + crlf()
    }
}

/// Chunks on the wire, one behind the other.
pub open spec fn frames(chunks: Seq<Chunk>) -> Seq<u8>
    decreases chunks.len(),
{
    if chunks.len() == 0 {
        Seq::empty()
    } else {
        chunks[0].frame() + frames(chunks.skip(1))
    }
}

/// The bytes of chunks, one behind the other.
pub open spec fn payload(chunks: Seq<Chunk>) -> Seq<u8>
    decreases chunks.len(),
{
    if chunks.len() == 0 {
        Seq::empty()
    } else {
        chunks[0].data + payload(chunks.skip(1))
    }
}

/// The bytes of the chunks that fit into `room`, taken from the first on, up
/// to the first that does not fit.
pub open spec fn fitting(chunks: Seq<Chunk>, room: int) -> Seq<u8>
    decreases chunks.len(),
{
    if chunks.len() == 0 || chunks[0].data.len() > room {
        Seq::empty()
    } else {
        chunks[0].data + fitting(chunks.skip(1), room - chunks[0].data.len())
    }
}

/// A reader in a size line takes digits into the line, one by one.
proof fn lemma_size_line(s: ChunkedState, digits: Seq<u8>, rest: Seq<u8>, acc: Seq<u8>)
    requires
        s.outcome is None,
        s.stage == ChunkStage::Size,
        all_digits(latin1(digits), 16),
    ensures
        chunked_run(s, digits + rest, acc) == chunked_run(
            ChunkedState { line: s.line + latin1(digits), ..s },
            rest,
            acc,
        ),
    decreases digits.len(),
{
    if digits.len() == 0 {
        assert(digits + rest == rest);
        assert(s.line + latin1(digits) == s.line);
    } else {
        let b = digits[0];
        let stream = digits + rest;
        assert(stream[0] == b);
        assert(latin1(digits)[0] == b as char);
        assert(digit(b as char, 16) is Some);
        assert(b != 13 && b != 10);
        let next = ChunkedState { line: s.line.push(b as char), ..s };
        assert(chunked_step(s, Reply::Byte(b)) == (next, Seq::<u8>::empty()));
        assert(acc + Seq::<u8>::empty() == acc);
        assert(stream.skip(1) == digits.skip(1) + rest);
        assert(chunked_run(s, stream, acc) == chunked_run(next, digits.skip(1) + rest, acc));
        assert forall|i: int| 0 <= i < latin1(digits.skip(1)).len() implies digit(
            #[trigger] latin1(digits.skip(1))[i],
            16,
        ) is Some by {
            assert(latin1(digits.skip(1))[i] == latin1(digits)[i + 1]);
        }
        lemma_size_line(next, digits.skip(1), rest, acc);
        assert(next.line + latin1(digits.skip(1)) == s.line + latin1(digits));
    }
}

/// A reader at the start of a size line reads the whole line and comes to its
/// end.
proof fn lemma_size_line_read(s: ChunkedState, digits: Seq<u8>, rest: Seq<u8>, acc: Seq<u8>)
    requires
        s.outcome is None,
        s.stage == ChunkStage::Size,
        s.line.len() == 0,
        parsed(latin1(digits), 16, most_chunk()) is Some,
    ensures
        size_line_end(ChunkedState { stage: ChunkStage::SizeEnd, line: latin1(digits), ..s }).outcome
            is Some ==> chunked_run(s, digits + crlf() + rest, acc) == (
            size_line_end(
                ChunkedState { stage: ChunkStage::SizeEnd, line: latin1(digits), ..s },
            ).outcome->0,
            acc,
        ),
        size_line_end(ChunkedState { stage: ChunkStage::SizeEnd, line: latin1(digits), ..s }).outcome
            is None ==> chunked_run(s, digits + crlf() + rest, acc) == chunked_run(
            size_line_end(ChunkedState { stage: ChunkStage::SizeEnd, line: latin1(digits), ..s }),
            rest,
            acc,
        ),
{
    let tail = crlf() + rest;
    assert(digits + crlf() + rest == digits + tail);
    lemma_size_line(s, digits, tail, acc);
    assert(s.line + latin1(digits) == latin1(digits));
    let in_line = ChunkedState { line: latin1(digits), ..s };
    let at_end = ChunkedState { stage: ChunkStage::SizeEnd, ..in_line };
    assert(acc + Seq::<u8>::empty() == acc);
    assert(tail[0] == 13u8);
    assert(chunked_step(in_line, Reply::Byte(13u8)) == (at_end, Seq::<u8>::empty()));
    let behind = tail.skip(1);
    assert(chunked_run(in_line, tail, acc) == chunked_run(at_end, behind, acc));
    assert(behind[0] == 10u8);
    assert(behind.skip(1) == rest);
    assert(chunked_step(at_end, Reply::Byte(10u8)) == (size_line_end(at_end), Seq::<u8>::empty()));
}

/// What a reader at the start of a chunk makes of well-formed chunks, the
/// chunk of size zero behind them, and whatever follows.
proof fn lemma_chunks_read(
    s: ChunkedState,
    chunks: Seq<Chunk>,
    last: Seq<u8>,
    rest: Seq<u8>,
    acc: Seq<u8>,
)
    requires
        s.outcome is None,
        s.stage == ChunkStage::Size,
        s.line.len() == 0,
        s.total <= ceiling(s.limit),
        forall|i: int| 0 <= i < chunks.len() ==> (#[trigger] chunks[i]).well_formed(),
        parsed(latin1(last), 16, most_chunk()) == Some(0usize),
    ensures
        chunked_run(s, frames(chunks) + last + crlf() + rest, acc) == (if s.total + payload(
            chunks,
        ).len() <= ceiling(s.limit) {
            (Ok::<usize, Error>((s.total + payload(chunks).len()) as usize), acc + payload(chunks))
        } else {
            (
                Err::<usize, Error>(Error::SizeLimitExceeded(ceiling(s.limit))),
                acc + fitting(chunks, ceiling(s.limit) - s.total),
            )
        }),
    decreases chunks.len(),
{
    let stream = frames(chunks) + last + crlf() + rest;
    if chunks.len() == 0 {
        assert(stream == last + crlf() + rest);
        lemma_size_line_read(s, last, rest, acc);
        assert(acc + payload(chunks) == acc);
    } else {
        let c = chunks[0];
        let more = chunks.skip(1);
        let n = c.data.len() as usize;
        assert(c.well_formed());
        let behind = c.data + crlf() + (frames(more) + last + crlf() + rest);
        assert(stream == c.size + crlf() + behind);
        lemma_size_line_read(s, c.size, behind, acc);
        let at_end = ChunkedState { stage: ChunkStage::SizeEnd, line: latin1(c.size), ..s };
        if s.total + n > ceiling(s.limit) {
            assert(acc + fitting(chunks, ceiling(s.limit) - s.total) == acc);
            assert(payload(chunks).len() >= n);
        } else {
            let before_data = ChunkedState {
                stage: ChunkStage::Data(n),
                line: Seq::empty(),
                ..at_end
            };
            assert(size_line_end(at_end) == before_data);
            assert(behind.take(n as int) == c.data);
            assert(memory_reply(before_data.action(), behind) == Reply::Block(c.data));
            let before_trailer = ChunkedState { stage: ChunkStage::Trailer(n), ..before_data };
            assert(chunked_step(before_data, Reply::Block(c.data)) == (before_trailer, c.data));
            let trailer = behind.skip(n as int);
            assert(trailer == crlf() + (frames(more) + last + crlf() + rest));
            assert(chunked_run(before_data, behind, acc) == chunked_run(
                before_trailer,
                trailer,
                acc + c.data,
            ));
            assert(trailer.take(2) == crlf());
            assert(memory_reply(before_trailer.action(), trailer) == Reply::Block(crlf()));
            let next = ChunkedState {
                stage: ChunkStage::Size,
                total: (s.total + n) as usize,
                ..before_trailer
            };
            assert(chunked_step(before_trailer, Reply::Block(crlf())) == (
                next,
                Seq::<u8>::empty(),
            ));
            let tail = trailer.skip(2);
            assert(tail == frames(more) + last + crlf() + rest);
            assert(acc + c.data + Seq::<u8>::empty() == acc + c.data);
            assert(chunked_run(before_trailer, trailer, acc + c.data) == chunked_run(
                next,
                tail,
                acc + c.data,
            ));
            assert forall|i: int| 0 <= i < more.len() implies (#[trigger] more[i]).well_formed() by {
                assert(more[i] == chunks[i + 1]);
            }
            lemma_chunks_read(next, more, last, rest, acc + c.data);
            assert(acc + c.data + payload(more) == acc + payload(chunks));
            assert(acc + c.data + fitting(more, ceiling(s.limit) - next.total) == acc + fitting(
                chunks,
                ceiling(s.limit) - s.total,
            ));
        }
    }
}

/// A body of well-formed chunks is decoded if and only if it fits under the
/// limit. Where it fits, the outcome is the number of its bytes, and the
/// accumulator gains them all. Where it does not, the outcome is
/// `SizeLimitExceeded` with the limit, and the accumulator gains the chunks
/// before the first that does not fit, and nothing of that one.
///
/// `last` is the size line of the chunk of size zero, and `rest` is whatever
/// follows it in the stream.
pub proof fn lemma_chunked_body_fits_or_fails(
    chunks: Seq<Chunk>,
    last: Seq<u8>,
    rest: Seq<u8>,
    limit: Option<usize>,
    acc: Seq<u8>,
)
    requires
        forall|i: int| 0 <= i < chunks.len() ==> (#[trigger] chunks[i]).well_formed(),
        parsed(latin1(last), 16, most_chunk()) == Some(0usize),
    ensures
        chunked_run(
            ChunkedState::start(limit),
            frames(chunks) + last + crlf() + rest,
            acc,
        ) == (if payload(chunks).len() <= ceiling(limit) {
            (Ok::<usize, Error>(payload(chunks).len() as usize), acc + payload(chunks))
        } else {
            (
                Err::<usize, Error>(Error::SizeLimitExceeded(ceiling(limit))),
                acc + fitting(chunks, ceiling(limit) as int),
            )
        }),
        fitting(chunks, ceiling(limit) as int).len() <= ceiling(limit),
        fitting(chunks, ceiling(limit) as int).is_prefix_of(payload(chunks)),
{
    lemma_chunks_read(ChunkedState::start(limit), chunks, last, rest, acc);
    lemma_fitting(chunks, ceiling(limit) as int);
}

/// The chunks that fit are the first of all, and fit.
pub proof fn lemma_fitting(chunks: Seq<Chunk>, room: int)
    requires
        0 <= room,
    ensures
        fitting(chunks, room).len() <= room,
        fitting(chunks, room).is_prefix_of(payload(chunks)),
    decreases chunks.len(),
{
    if chunks.len() > 0 && chunks[0].data.len() <= room {
        lemma_fitting(chunks.skip(1), room - chunks[0].data.len());
    }
}

} // verus!
