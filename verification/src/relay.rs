//! Relaying the body of a message from one stream to another: nothing is
//! held but the number of bytes that went through.

use vstd::prelude::*;
use crate::body::body_sized;
use crate::errors::Error;
use crate::forward::{
    chunked_relay_run, ends_body, least, lemma_chunked_relay_fits_or_fails, relay_chunked_stream,
    relay_sized_stream, ChunkedRelayState,
};
use crate::framing::{framing, framing_of, Framing};
use crate::headers::Headers;
use crate::limit::{ceiling, name_limit, room, room_under, under_limit};

verus! {

/// A relay: the bytes relayed so far, and the most that it may relay.
#[derive(Debug)]
pub struct Relay {
    length: usize,
    length_limit: Option<usize>,
}

/// A [`Relay`] as contracts see it.
pub struct RelayView {
    /// The bytes relayed so far.
    pub length: usize,
    /// The most bytes that it may relay, if that is limited.
    pub length_limit: Option<usize>,
}

impl View for Relay {
    type V = RelayView;

    closed spec fn view(&self) -> RelayView {
        RelayView { length: self.length, length_limit: self.length_limit }
    }
}

/// What relaying a body in chunks between streams held in memory makes of a
/// relay that has relayed `length` bytes under `limit`, when the output holds
/// `out`: how it ends, and what the output holds then.
///
/// A relay that is over its limit already relays nothing. Else the input is
/// relayed with the room that the limit leaves, as `chunked_relay_run` says.
pub open spec fn relay_chunked(length: usize, limit: Option<usize>, input: Seq<u8>, out: Seq<u8>)
    -> (Result<usize, Error>, Seq<u8>) {
    if length > ceiling(limit) {
        (Err(Error::SizeLimitExceeded(ceiling(limit))), out)
    } else {
        let run = chunked_relay_run(
            ChunkedRelayState::start(Some((ceiling(limit) - length) as usize)),
            input,
            out,
        );
        (under_limit(run.0, limit), run.1)
    }
}

/// What relaying a body of `size` bytes between streams held in memory makes
/// of a relay that has relayed `length` bytes under `limit`.
///
/// A body that would take the relay over its limit is not relayed:
/// `SizeLimitExceeded`. Else its bytes go to the output, or those that the
/// input has where they are fewer.
pub open spec fn relay_sized(
    length: usize,
    limit: Option<usize>,
    input: Seq<u8>,
    out: Seq<u8>,
    size: usize,
) -> (Result<usize, Error>, Seq<u8>) {
    if length + size > ceiling(limit) {
        (Err(Error::SizeLimitExceeded(ceiling(limit))), out)
    } else {
        let n = least(size as int, input.len() as int);
        (Ok(n as usize), out + input.take(n))
    }
}

/// The bytes relayed after a relaying that ended with `res`: what came
/// through is counted where it ended well.
pub open spec fn relayed(length: usize, res: Result<usize, Error>) -> int {
    match res {
        Ok(n) => length + n,
        Err(_) => length as int,
    }
}

impl Relay {
    /// A relay that has relayed nothing and has no limit.
    pub fn new() -> (relay: Self)
        ensures
            relay@ == (RelayView { length: 0, length_limit: None }),
    {
        Relay { length: 0, length_limit: None }
    }

    /// The number of bytes relayed so far.
    pub fn length(&self) -> (n: usize)
        ensures
            n == self@.length,
    {
        self.length
    }

    /// The most bytes that the relay may relay, if that is limited.
    pub fn length_limit(&self) -> (limit: Option<usize>)
        ensures
            limit == self@.length_limit,
    {
        self.length_limit
    }

    /// Whether the relay has a limit.
    pub fn has_length_limit(&self) -> (limited: bool)
        ensures
            limited == self@.length_limit is Some,
    {
        self.length_limit.is_some()
    }

    /// Limits the relay to `limit` bytes.
    pub fn set_length_limit(&mut self, limit: usize)
        ensures
            final(self)@ == (RelayView { length_limit: Some(limit), ..old(self)@ }),
    {
        self.length_limit = Some(limit);
    }

    /// Takes the limit away.
    pub fn remove_length_limit(&mut self)
        ensures
            final(self)@ == (RelayView { length_limit: None, ..old(self)@ }),
    {
        self.length_limit = None;
    }

    /// Forgets the count and the limit.
    pub fn clear(&mut self)
        ensures
            final(self)@ == (RelayView { length: 0, length_limit: None }),
    {
        self.length = 0;
        self.length_limit = None;
    }

    /// The room that is left under the limit, for a relay of chunks to work
    /// in, or `SizeLimitExceeded` where the relay is over its limit already.
    pub fn chunked_room(&self) -> (res: Result<usize, Error>)
        ensures
            match room_under(self@.length_limit, self@.length) {
                Some(r) => res == Ok::<usize, Error>(r),
                None => self@.length_limit is Some && res == Err::<usize, Error>(
                    Error::SizeLimitExceeded(self@.length_limit->0),
                ),
            },
    {
        room(self.length_limit, self.length)
    }

    /// Whether a body of `size` bytes fits under the limit: if not,
    /// `SizeLimitExceeded`.
    pub fn sized_room(&self, size: usize) -> (res: Result<(), Error>)
        ensures
            if self@.length + size > ceiling(self@.length_limit) {
                res == Err::<(), Error>(Error::SizeLimitExceeded(ceiling(self@.length_limit)))
            } else {
                res is Ok
            },
    {
        let most = match self.length_limit {
            Some(l) => l,
            None => usize::MAX,
        };
        if self.length > most || size > most - self.length {
            Err(Error::SizeLimitExceeded(most))
        } else {
            Ok(())
        }
    }

    /// Counts the bytes of a relaying that ended well. A count that the
    /// machine cannot hold stays at the largest that it can.
    pub fn record(&mut self, count: usize)
        ensures
            final(self)@.length_limit == old(self)@.length_limit,
            final(self)@.length == if old(self)@.length + count <= usize::MAX {
                old(self)@.length + count
            } else {
                usize::MAX as int
            },
    {
        self.length = if count <= usize::MAX - self.length {
            self.length + count
        } else {
            usize::MAX
        };
    }

    /// Takes the result of a relaying that worked in the room that the limit
    /// left: the bytes are counted where it ended well, and
    /// `SizeLimitExceeded` names the limit. A count that the machine cannot
    /// hold stays at the largest that it can.
    pub fn settle(&mut self, res: Result<usize, Error>) -> (named: Result<usize, Error>)
        ensures
            named == under_limit(res, old(self)@.length_limit),
            final(self)@.length_limit == old(self)@.length_limit,
            final(self)@.length == (if relayed(old(self)@.length, res) <= usize::MAX {
                relayed(old(self)@.length, res)
            } else {
                usize::MAX as int
            }),
    {
        if let Ok(n) = res {
            self.record(n);
        }
        name_limit(res, self.length_limit)
    }

    /// Relays a body in chunks from an input held in memory to an output in
    /// memory and returns how many bytes went through. They are counted where
    /// the relaying ends well, and then the relay is within its limit.
    pub fn relay_chunked(&mut self, input: &[u8], output: &mut Vec<u8>) -> (res: Result<
        usize,
        Error,
    >)
        ensures
            (res, final(output)@) == relay_chunked(
                old(self)@.length,
                old(self)@.length_limit,
                input@,
                old(output)@,
            ),
            final(self)@.length_limit == old(self)@.length_limit,
            final(self)@.length == relayed(old(self)@.length, res),
            res is Ok ==> final(self)@.length <= ceiling(old(self)@.length_limit),
    {
        match room(self.length_limit, self.length) {
            Err(e) => Err(e),
            Ok(r) => {
                let res = relay_chunked_stream(input, output, Some(r));
                self.settle(res)
            },
        }
    }

    /// Relays a body of `size` bytes from an input held in memory to an
    /// output in memory and returns how many bytes went through, which are
    /// then counted. An input that ends early is no error.
    pub fn relay_sized(&mut self, input: &[u8], output: &mut Vec<u8>, size: usize) -> (res: Result<
        usize,
        Error,
    >)
        ensures
            (res, final(output)@) == relay_sized(
                old(self)@.length,
                old(self)@.length_limit,
                input@,
                old(output)@,
                size,
            ),
            final(self)@.length_limit == old(self)@.length_limit,
            final(self)@.length == relayed(old(self)@.length, res),
    {
        match self.sized_room(size) {
            Err(e) => Err(e),
            Ok(_) => {
                let res = relay_sized_stream(input, output, size);
                self.settle(res)
            },
        }
    }

    /// Relays the body that the headers `req` announce: in chunks or of a
    /// given length, as `framing_of` says. Headers that announce neither are
    /// `InvalidHeader` with the name `Content-Length`, and nothing is
    /// relayed.
    pub fn relay(&mut self, input: &[u8], output: &mut Vec<u8>, req: &Headers) -> (res: Result<
        usize,
        Error,
    >)
        ensures
            final(self)@.length_limit == old(self)@.length_limit,
            final(self)@.length == relayed(old(self)@.length, res),
            match framing_of(req@) {
                Some(Framing::Chunked) => (res, final(output)@) == relay_chunked(
                    old(self)@.length,
                    old(self)@.length_limit,
                    input@,
                    old(output)@,
                ),
                Some(Framing::Sized(n)) => (res, final(output)@) == relay_sized(
                    old(self)@.length,
                    old(self)@.length_limit,
                    input@,
                    old(output)@,
                    n,
                ),
                None => final(output)@ == old(output)@ && (res matches Err(
                    Error::InvalidHeader(name),
                ) && name@ == "Content-Length"@),
            },
    {
        match framing(req) {
            Ok(Framing::Chunked) => self.relay_chunked(input, output),
            Ok(Framing::Sized(n)) => self.relay_sized(input, output, n),
            Err(e) => Err(e),
        }
    }
}

/// A body in chunks that ends the input is relayed if and only if, with what
/// the relay has relayed, it fits under the limit, all that stands on the
/// wire counted. Where it does not, the outcome is `SizeLimitExceeded` with
/// the limit, and the output gains the first bytes of the body, as many as
/// the limit leaves room for, and not one more.
pub proof fn lemma_chunked_relay_holds_to_limit(
    length: usize,
    limit: Option<usize>,
    input: Seq<u8>,
    out: Seq<u8>,
)
    requires
        ends_body(input),
    ensures
        relay_chunked(length, limit, input, out) == (if length + input.len() <= ceiling(limit) {
            (Ok::<usize, Error>(input.len() as usize), out + input)
        } else if length <= ceiling(limit) {
            (
                Err::<usize, Error>(Error::SizeLimitExceeded(ceiling(limit))),
                out + input.take(ceiling(limit) - length),
            )
        } else {
            (Err::<usize, Error>(Error::SizeLimitExceeded(ceiling(limit))), out)
        }),
{
    if length <= ceiling(limit) {
        lemma_chunked_relay_fits_or_fails(input, Some((ceiling(limit) - length) as usize), out);
    }
}

/// A body of known length that the input holds in full is relayed if and
/// only if, with what the relay has relayed, it fits under the limit. Where
/// it does not, the outcome is `SizeLimitExceeded` with the limit, and the
/// output stays as it was.
pub proof fn lemma_sized_relay_holds_to_limit(
    length: usize,
    limit: Option<usize>,
    input: Seq<u8>,
    out: Seq<u8>,
    size: usize,
)
    requires
        size <= input.len(),
    ensures
        relay_sized(length, limit, input, out, size) == (if length + size <= ceiling(limit) {
            (Ok::<usize, Error>(size), out + input.take(size as int))
        } else {
            (Err::<usize, Error>(Error::SizeLimitExceeded(ceiling(limit))), out)
        }),
{
}

/// A stream that ends before the body does: the reader fails with
/// `StreamNotReadable` and leaves the body as it was, where the relay ends
/// without an error and has relayed what the stream had. Neither holds where
/// the limit stands against the body.
pub proof fn lemma_short_stream(
    bytes: Seq<u8>,
    length: usize,
    limit: Option<usize>,
    stream: Seq<u8>,
    out: Seq<u8>,
    size: usize,
)
    requires
        stream.len() < size,
        bytes.len() + size <= ceiling(limit),
        length + size <= ceiling(limit),
    ensures
        body_sized(bytes, limit, stream, size) == (
            Err::<usize, Error>(Error::StreamNotReadable),
            bytes,
        ),
        relay_sized(length, limit, stream, out, size) == (
            Ok::<usize, Error>(stream.len() as usize),
            out + stream,
        ),
{
    assert(stream.take(stream.len() as int) == stream);
}

} // verus!
