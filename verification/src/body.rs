//! The body of a message, held in memory.

use vstd::prelude::*;
use crate::chunked::{
    chunked_run, chunked_step, crlf, fitting, frames, lemma_chunked_body_fits_or_fails, most_chunk,
    payload, read_chunked_stream, Chunk, ChunkedReader, ChunkedState,
};
use crate::errors::Error;
use crate::framing::{framing, framing_of, Framing};
use crate::headers::Headers;
use crate::limit::{ceiling, name_limit, room, room_under, under_limit};
use crate::sized::{read_sized_stream, sized_step, SizedReader};
use crate::stream::{flush_stream, write_to_stream, Event};
use crate::text::{decimal_text, format_decimal, latin1, parsed, push_char};

verus! {

/// A body: the bytes read so far, and the most that it may come to hold.
pub struct Body {
    bytes: Vec<u8>,
    length_limit: Option<usize>,
}

/// A [`Body`] as contracts see it.
pub struct BodyView {
    /// The bytes of the body.
    pub bytes: Seq<u8>,
    /// The most bytes that it may hold, if that is limited.
    pub length_limit: Option<usize>,
}

impl View for Body {
    type V = BodyView;

    closed spec fn view(&self) -> BodyView {
        BodyView { bytes: self.bytes@, length_limit: self.length_limit }
    }
}

/// What reading a body in chunks from a stream held in memory makes of a body
/// that holds `bytes` under `limit`: how it ends, and what the body holds
/// then.
///
/// A body that is over its limit already reads nothing. Else the stream is
/// decoded with the room that the limit leaves, as `chunked_run` says.
pub open spec fn body_chunked(bytes: Seq<u8>, limit: Option<usize>, stream: Seq<u8>) -> (
    Result<usize, Error>,
    Seq<u8>,
) {
    if bytes.len() > ceiling(limit) {
        (Err(Error::SizeLimitExceeded(ceiling(limit))), bytes)
    } else {
        let run = chunked_run(
            ChunkedState::start(Some((ceiling(limit) - bytes.len()) as usize)),
            stream,
            bytes,
        );
        (under_limit(run.0, limit), run.1)
    }
}

/// What reading a body of `length` bytes from a stream held in memory makes
/// of a body that holds `bytes` under `limit`.
///
/// Bytes that would take the body over its limit are not read:
/// `SizeLimitExceeded`. A stream that has fewer bytes is `StreamNotReadable`.
/// Either way the body stays as it was.
pub open spec fn body_sized(bytes: Seq<u8>, limit: Option<usize>, stream: Seq<u8>, length: usize)
    -> (Result<usize, Error>, Seq<u8>) {
    if bytes.len() + length > ceiling(limit) {
        (Err(Error::SizeLimitExceeded(ceiling(limit))), bytes)
    } else if length > stream.len() {
        (Err(Error::StreamNotReadable), bytes)
    } else {
        (Ok(length), bytes + stream.take(length as int))
    }
}

/// Numbers in decimal, with a comma and a space between them.
pub open spec fn items(bytes: Seq<u8>) -> Seq<char>
    decreases bytes.len(),
{
    if bytes.len() == 0 {
        Seq::empty()
    } else if bytes.len() == 1 {
        decimal_text(bytes[0] as nat)
    } else {
        items(bytes.drop_last()) + seq![',', ' '] + decimal_text(bytes.last() as nat)
    }
}

/// Numbers in decimal as a list in square brackets.
pub open spec fn listed(bytes: Seq<u8>) -> Seq<char> {
    seq!['['] + items(bytes) + seq![']']
}

impl Body {
    /// A body without bytes and without a limit.
    pub fn new() -> (body: Self)
        ensures
            body@.bytes == Seq::<u8>::empty(),
            body@.length_limit is None,
    {
        Body { bytes: Vec::new(), length_limit: None }
    }

    /// The bytes of the body.
    pub fn bytes(&self) -> (bytes: &Vec<u8>)
        ensures
            bytes@ == self@.bytes,
    {
        &self.bytes
    }

    /// The number of bytes that the body holds.
    pub fn length(&self) -> (n: usize)
        ensures
            n == self@.bytes.len(),
    {
        self.bytes.len()
    }

    /// The most bytes that the body may hold, if that is limited.
    pub fn length_limit(&self) -> (limit: Option<usize>)
        ensures
            limit == self@.length_limit,
    {
        self.length_limit
    }

    /// Whether the body has a limit.
    pub fn has_length_limit(&self) -> (limited: bool)
        ensures
            limited == self@.length_limit is Some,
    {
        self.length_limit.is_some()
    }

    /// Limits the body to `limit` bytes. The bytes that it holds stay, also
    /// where they are more: reading fails from then on.
    pub fn set_length_limit(&mut self, limit: usize)
        ensures
            final(self)@ == (BodyView { length_limit: Some(limit), ..old(self)@ }),
    {
        self.length_limit = Some(limit);
    }

    /// Takes the limit away.
    pub fn remove_length_limit(&mut self)
        ensures
            final(self)@ == (BodyView { length_limit: None, ..old(self)@ }),
    {
        self.length_limit = None;
    }

    /// Takes the bytes and the limit away.
    pub fn clear(&mut self)
        ensures
            final(self)@ == (BodyView { bytes: Seq::empty(), length_limit: None }),
    {
        self.bytes.clear();
        self.length_limit = None;
    }

    /// The room that is left under the limit, for a reader of chunks to work
    /// in, or `SizeLimitExceeded` where the body is over its limit already.
    pub fn chunked_room(&self) -> (res: Result<usize, Error>)
        ensures
            match room_under(self@.length_limit, self@.bytes.len() as usize) {
                Some(r) => res == Ok::<usize, Error>(r),
                None => self@.length_limit is Some && res == Err::<usize, Error>(
                    Error::SizeLimitExceeded(self@.length_limit->0),
                ),
            },
    {
        room(self.length_limit, self.bytes.len())
    }

    /// Whether `length` bytes more fit under the limit: if not,
    /// `SizeLimitExceeded`.
    pub fn sized_room(&self, length: usize) -> (res: Result<(), Error>)
        ensures
            if self@.bytes.len() + length > ceiling(self@.length_limit) {
                res == Err::<(), Error>(Error::SizeLimitExceeded(ceiling(self@.length_limit)))
            } else {
                res is Ok
            },
    {
        let most = match self.length_limit {
            Some(l) => l,
            None => usize::MAX,
        };
        if self.bytes.len() > most || length > most - self.bytes.len() {
            Err(Error::SizeLimitExceeded(most))
        } else {
            Ok(())
        }
    }

    /// Hands an event to a reader of chunks that fills this body.
    pub fn feed_chunked(&mut self, reader: &mut ChunkedReader, event: Event)
        ensures
            final(reader)@ == chunked_step(old(reader)@, event@).0,
            final(self)@ == (BodyView {
                bytes: old(self)@.bytes + chunked_step(old(reader)@, event@).1,
                ..old(self)@
            }),
    {
        reader.feed(event, &mut self.bytes);
    }

    /// Hands an event to a reader of a sized body that fills this body.
    pub fn feed_sized(&mut self, reader: &mut SizedReader, event: Event)
        ensures
            final(reader)@ == sized_step(old(reader)@, event@).0,
            final(self)@ == (BodyView {
                bytes: old(self)@.bytes + sized_step(old(reader)@, event@).1,
                ..old(self)@
            }),
    {
        reader.feed(event, &mut self.bytes);
    }

    /// Takes the result of a reading that worked in the room that the limit
    /// left: `SizeLimitExceeded` names the limit.
    pub fn settle(&self, res: Result<usize, Error>) -> (named: Result<usize, Error>)
        ensures
            named == under_limit(res, self@.length_limit),
    {
        name_limit(res, self.length_limit)
    }

    /// Reads a body in chunks from a stream held in memory and returns how
    /// many bytes the body gained.
    ///
    /// Whatever the outcome, the body keeps what it held and gains whole
    /// chunks only; a body that was within its limit stays within it.
    pub fn read_chunked(&mut self, stream: &[u8]) -> (res: Result<usize, Error>)
        ensures
            res == body_chunked(old(self)@.bytes, old(self)@.length_limit, stream@).0,
            final(self)@.bytes == body_chunked(
                old(self)@.bytes,
                old(self)@.length_limit,
                stream@,
            ).1,
            final(self)@.length_limit == old(self)@.length_limit,
            old(self)@.bytes.is_prefix_of(final(self)@.bytes),
            old(self)@.bytes.len() <= ceiling(old(self)@.length_limit) ==> final(self)@.bytes.len()
                <= ceiling(old(self)@.length_limit),
            res matches Ok(n) ==> final(self)@.bytes.len() == old(self)@.bytes.len() + n,
    {
        match room(self.length_limit, self.bytes.len()) {
            Err(e) => Err(e),
            Ok(r) => {
                let res = read_chunked_stream(stream, &mut self.bytes, Some(r));
                self.settle(res)
            },
        }
    }

    /// Reads a body of `length` bytes from a stream held in memory.
    pub fn read_sized(&mut self, stream: &[u8], length: usize) -> (res: Result<usize, Error>)
        ensures
            res == body_sized(old(self)@.bytes, old(self)@.length_limit, stream@, length).0,
            final(self)@.bytes == body_sized(
                old(self)@.bytes,
                old(self)@.length_limit,
                stream@,
                length,
            ).1,
            final(self)@.length_limit == old(self)@.length_limit,
    {
        match self.sized_room(length) {
            Err(e) => Err(e),
            Ok(_) => read_sized_stream(stream, &mut self.bytes, length),
        }
    }

    /// Reads the body that the headers `res` announce from a stream held in
    /// memory: in chunks or of a given length, as `framing_of` says. Headers
    /// that announce neither are `InvalidHeader` with the name
    /// `Content-Length`, and nothing is read.
    pub fn read(&mut self, stream: &[u8], res: &Headers) -> (read: Result<usize, Error>)
        ensures
            final(self)@.length_limit == old(self)@.length_limit,
            match framing_of(res@) {
                Some(Framing::Chunked) => (read, final(self)@.bytes) == body_chunked(
                    old(self)@.bytes,
                    old(self)@.length_limit,
                    stream@,
                ),
                Some(Framing::Sized(n)) => (read, final(self)@.bytes) == body_sized(
                    old(self)@.bytes,
                    old(self)@.length_limit,
                    stream@,
                    n,
                ),
                None => final(self)@.bytes == old(self)@.bytes && (read matches Err(
                    Error::InvalidHeader(name),
                ) && name@ == "Content-Length"@),
            },
    {
        match framing(res) {
            Ok(Framing::Chunked) => self.read_chunked(stream),
            Ok(Framing::Sized(n)) => self.read_sized(stream, n),
            Err(e) => Err(e),
        }
    }

    /// Writes the body to an output in memory: its bytes go to the end of
    /// `output`, and their number comes back.
    pub fn write(&self, output: &mut Vec<u8>) -> (res: Result<usize, Error>)
        ensures
            res == Ok::<usize, Error>(self@.bytes.len() as usize),
            final(output)@ == old(output)@ + self@.bytes,
    {
        let size = match write_to_stream(output, self.bytes.as_slice()) {
            Ok(size) => size,
            Err(e) => {
                return Err(e);
            },
        };
        match flush_stream(output) {
            Ok(_) => Ok(size),
            Err(e) => Err(e),
        }
    }

    /// The bytes of the body as a list of numbers in decimal, in square
    /// brackets, with a comma and a space between them.
    pub fn to_string(&self) -> (text: String)
        ensures
            text@ == listed(self@.bytes),
    {
        let mut text = String::new();
        push_char(&mut text, '[');
        let mut i: usize = 0;
        assert(self.bytes@.take(0) == Seq::<u8>::empty());
        while i < self.bytes.len()
            invariant
                i <= self.bytes@.len(),
                text@ == seq!['['] + items(self.bytes@.take(i as int)),
            decreases self.bytes@.len() - i,
        {
            if i > 0 {
                push_char(&mut text, ',');
                push_char(&mut text, ' ');
            }
            let number = format_decimal(self.bytes[i] as usize);
            let ghost before = text@;
            text.append(number.as_str());
            i += 1;
            proof {
                let shorter = self.bytes@.take(i - 1);
                let longer = self.bytes@.take(i as int);
                assert(longer.drop_last() == shorter);
                assert(longer.last() == self.bytes@[i - 1]);
                if i > 1 {
                    assert(text@ == seq!['['] + (items(shorter) + seq![',', ' '] + decimal_text(
                        self.bytes@[i - 1] as nat,
                    )));
                } else {
                    assert(items(shorter) == Seq::<char>::empty());
                    assert(text@ == seq!['['] + decimal_text(self.bytes@[i - 1] as nat));
                }
            }
        }
        assert(self.bytes@.take(i as int) == self.bytes@);
        push_char(&mut text, ']');
        text
    }
}

/// A body of well-formed chunks is read if and only if, with what the body
/// holds, it fits under the limit. Where it fits, the outcome is the number
/// of its bytes and the body gains them all. Where it does not, the outcome is
/// `SizeLimitExceeded` with the limit, and the body gains the chunks before
/// the first that does not fit and nothing of that one, so that it holds no
/// more than the limit as long as it did not before.
///
/// `last` is the size line of the chunk of size zero, and `rest` is whatever
/// follows it in the stream.
pub proof fn lemma_chunked_body_holds_to_limit(
    bytes: Seq<u8>,
    limit: Option<usize>,
    chunks: Seq<Chunk>,
    last: Seq<u8>,
    rest: Seq<u8>,
)
    requires
        forall|i: int| 0 <= i < chunks.len() ==> (#[trigger] chunks[i]).well_formed(),
        parsed(latin1(last), 16, most_chunk()) == Some(0usize),
    ensures
        ({
            let read = body_chunked(bytes, limit, frames(chunks) + last + crlf() + rest);
            let kept = fitting(chunks, ceiling(limit) - bytes.len());
            if bytes.len() + payload(chunks).len() <= ceiling(limit) {
                read == (Ok::<usize, Error>(payload(chunks).len() as usize), bytes + payload(chunks))
            } else {
                &&& read == (
                    Err::<usize, Error>(Error::SizeLimitExceeded(ceiling(limit))),
                    bytes + kept,
                )
                &&& kept.is_prefix_of(payload(chunks))
                &&& bytes.len() <= ceiling(limit) ==> (bytes + kept).len() <= ceiling(limit)
            }
        }),
{
    let room = ceiling(limit) - bytes.len();
    if room >= 0 {
        lemma_chunked_body_fits_or_fails(chunks, last, rest, Some(room as usize), bytes);
    } else {
        assert(fitting(chunks, room) == Seq::<u8>::empty());
        assert(bytes + fitting(chunks, room) == bytes);
    }
}

/// A body of known length that the stream holds in full is read if and only
/// if, with what the body holds, it fits under the limit. Where it does not,
/// the outcome is `SizeLimitExceeded` with the limit, and the body stays as it
/// was.
pub proof fn lemma_sized_body_holds_to_limit(
    bytes: Seq<u8>,
    limit: Option<usize>,
    stream: Seq<u8>,
    size: usize,
)
    requires
        size <= stream.len(),
    ensures
        body_sized(bytes, limit, stream, size) == (if bytes.len() + size <= ceiling(limit) {
            (Ok::<usize, Error>(size), bytes + stream.take(size as int))
        } else {
            (Err::<usize, Error>(Error::SizeLimitExceeded(ceiling(limit))), bytes)
        }),
{
}

} // verus!
