//! A body of known length: that many bytes, with no framing.

use vstd::prelude::*;
use crate::errors::Error;
use crate::stream::{outcome, read_memory, Action, Event, Reply};

verus! {

/// The state of a [`SizedReader`].
pub struct SizedState {
    /// The bytes that the body has.
    pub length: usize,
    /// How the reading ended, once it has: with the bytes read, or an error.
    pub outcome: Option<Result<usize, Error>>,
}

impl SizedState {
    /// The state before the read.
    pub open spec fn start(length: usize) -> SizedState {
        SizedState { length, outcome: None }
    }

    /// What a reader in this state wants next: the whole body in one exact
    /// read.
    pub open spec fn action(self) -> Action {
        if self.outcome is Some {
            Action::Done
        } else {
            Action::ReadExact(self.length)
        }
    }
}

/// What one event does to a reader of a sized body: the next state, and the
/// bytes that go to the end of the accumulator. The body is all there or the
/// read has failed: anything but a block of the full length is
/// `StreamNotReadable`.
pub open spec fn sized_step(s: SizedState, reply: Reply) -> (SizedState, Seq<u8>) {
    if s.outcome is Some {
        (s, Seq::empty())
    } else {
        match reply {
            Reply::Block(bytes) if bytes.len() == s.length => (
                SizedState { outcome: Some(Ok(s.length)), ..s },
                bytes,
            ),
            _ => (SizedState { outcome: Some(Err(Error::StreamNotReadable)), ..s }, Seq::empty()),
        }
    }
}

/// Reads a body of known length.
pub struct SizedReader {
    length: usize,
    outcome: Option<Result<usize, Error>>,
}

impl View for SizedReader {
    type V = SizedState;

    closed spec fn view(&self) -> SizedState {
        SizedState { length: self.length, outcome: self.outcome }
    }
}

impl SizedReader {
    /// A reader of a body of `length` bytes.
    pub fn new(length: usize) -> (reader: Self)
        ensures
            reader@ == SizedState::start(length),
    {
        SizedReader { length, outcome: None }
    }

    /// What the reader wants next.
    pub fn action(&self) -> (action: Action)
        ensures
            action == self@.action(),
    {
        if self.outcome.is_some() {
            Action::Done
        } else {
            Action::ReadExact(self.length)
        }
    }

    /// Takes what came of the last action. The bytes of the body go to the end
    /// of `source`.
    pub fn feed(&mut self, event: Event, source: &mut Vec<u8>)
        ensures
            final(self)@ == sized_step(old(self)@, event@).0,
            final(source)@ == old(source)@ + sized_step(old(self)@, event@).1,
    {
        let ghost before = source@;
        assert(before + Seq::<u8>::empty() == before);
        if self.outcome.is_some() {
            return ;
        }
        match event {
            Event::Block(bytes) => {
                if bytes.len() == self.length {
                    let mut bytes = bytes;
                    source.append(&mut bytes);
                    self.outcome = Some(Ok(self.length));
                } else {
                    self.outcome = Some(Err(Error::StreamNotReadable));
                }
            },
            _ => {
                self.outcome = Some(Err(Error::StreamNotReadable));
            },
        }
    }

    /// How the reading ended, if it has.
    pub fn finish(self) -> (outcome: Option<Result<usize, Error>>)
        ensures
            outcome == self@.outcome,
    {
        self.outcome
    }
}

/// Reads exactly `length` bytes from a stream held in memory and puts them at
/// the end of `source`. A stream that ends before that is
/// `StreamNotReadable`, and `source` then stays as it was.
pub fn read_sized_stream(stream: &[u8], source: &mut Vec<u8>, length: usize) -> (res: Result<
    usize,
    Error,
>)
    ensures
        length <= stream@.len() ==> res == Ok::<usize, Error>(length)
            && final(source)@ == old(source)@ + stream@.take(length as int),
        length > stream@.len() ==> res == Err::<usize, Error>(Error::StreamNotReadable)
            && final(source)@ == old(source)@,
{
    let mut reader = SizedReader::new(length);
    let mut pos: usize = 0;
    assert(stream@.skip(0) == stream@);
    let event = read_memory(reader.action(), stream, &mut pos);
    reader.feed(event, source);
    outcome(reader.finish())
}

} // verus!
