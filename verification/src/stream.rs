//! How the readers and relays talk to a byte stream.
//!
//! None of them touches a stream. Each is a state machine: it says what it
//! wants next (an [`Action`]), whoever owns the streams does that, and hands
//! back what came of it (an [`Event`]). The functions of this crate that take
//! a slice of bytes drive the machines over a stream held in memory, which
//! ends where the slice ends.

use vstd::prelude::*;
use crate::errors::Error;

verus! {

/// The most bytes that a relay takes from its input in one read.
pub const WINDOW: usize = 1024;

/// What a machine wants done next.
#[derive(Clone, Copy, Debug, PartialEq, Eq, Structural)]
pub enum Action {
    /// Read one byte from the input.
    ReadByte,
    /// Read exactly this many bytes from the input.
    ReadExact(usize),
    /// Read what the input has ready: one byte at least, this many at most.
    ReadSome(usize),
    /// Write the machine's pending bytes to the output, all of them, and
    /// flush it.
    Write,
    /// Nothing: the machine has its outcome.
    Done,
}

/// What came of an action.
#[derive(Debug)]
pub enum Event {
    /// The byte that was read.
    Byte(u8),
    /// The bytes that were read: all that an exact read asked for, or what a
    /// read of some bytes got.
    Block(Vec<u8>),
    /// The input is at its end: the read got no byte.
    End,
    /// The read failed, or an exact read came up short.
    ReadFailed,
    /// The bytes were written and the output flushed.
    Written,
    /// The write or the flush failed.
    WriteFailed,
}

/// An [`Event`] as contracts see it.
pub enum Reply {
    Byte(u8),
    Block(Seq<u8>),
    End,
    ReadFailed,
    Written,
    WriteFailed,
}

impl View for Event {
    type V = Reply;

    open spec fn view(&self) -> Reply {
        match self {
            Event::Byte(b) => Reply::Byte(*b),
            Event::Block(v) => Reply::Block(v@),
            Event::End => Reply::End,
            Event::ReadFailed => Reply::ReadFailed,
            Event::Written => Reply::Written,
            Event::WriteFailed => Reply::WriteFailed,
        }
    }
}

/// What a read gives on a stream held in memory of which `rest` is still
/// unread: a read of one byte or of some bytes ends where the stream ends, an
/// exact read fails where the stream is too short.
pub open spec fn memory_reply(action: Action, rest: Seq<u8>) -> Reply {
    match action {
        Action::ReadByte => if rest.len() == 0 {
            Reply::End
        } else {
            Reply::Byte(rest[0])
        },
        Action::ReadExact(n) => if n <= rest.len() {
            Reply::Block(rest.take(n as int))
        } else {
            Reply::ReadFailed
        },
        Action::ReadSome(n) => if rest.len() == 0 || n == 0 {
            Reply::End
        } else if rest.len() <= n {
            Reply::Block(rest)
        } else {
            Reply::Block(rest.take(n as int))
        },
        Action::Write => Reply::Written,
        Action::Done => Reply::End,
    }
}

/// How many bytes of the stream the reply to a read used up.
pub open spec fn reply_len(reply: Reply) -> nat {
    match reply {
        Reply::Byte(_) => 1,
        Reply::Block(bytes) => bytes.len(),
        _ => 0,
    }
}

/// Performs a read on the stream `input`, of which the first `*pos` bytes were
/// read before, and moves `*pos` past what this read took.
pub(crate) fn read_memory(action: Action, input: &[u8], pos: &mut usize) -> (event: Event)
    requires
        *old(pos) <= input@.len(),
    ensures
        event@ == memory_reply(action, input@.skip(*old(pos) as int)),
        *final(pos) == *old(pos) + reply_len(event@),
        *final(pos) <= input@.len(),
{
    let start = *pos;
    let left = input.len() - start;
    let ghost rest = input@.skip(start as int);
    match action {
        Action::ReadByte => {
            if left == 0 {
                Event::End
            } else {
                *pos = start + 1;
                Event::Byte(input[start])
            }
        },
        Action::ReadExact(n) => {
            if n <= left {
                let block = vstd::slice::slice_to_vec(&input[start..start + n]);
                assert(block@ == rest.take(n as int));
                *pos = start + n;
                Event::Block(block)
            } else {
                Event::ReadFailed
            }
        },
        Action::ReadSome(most) => {
            if left == 0 || most == 0 {
                Event::End
            } else {
                let n = if left <= most {
                    left
                } else {
                    most
                };
                let block = vstd::slice::slice_to_vec(&input[start..start + n]);
                assert(block@ == rest.take(n as int));
                assert(rest.take(rest.len() as int) == rest);
                *pos = start + n;
                Event::Block(block)
            }
        },
        Action::Write => Event::Written,
        Action::Done => Event::End,
    }
}

/// What a write of `count` bytes came to: their number where the bytes were
/// written and flushed, else `StreamNotWritable`.
pub open spec fn write_outcome(reply: Reply, count: usize) -> Result<usize, Error> {
    match reply {
        Reply::Written => Ok(count),
        _ => Err(Error::StreamNotWritable),
    }
}

/// Tells what a write of `count` bytes came to, as `write_outcome` says.
pub fn write_result(event: Event, count: usize) -> (res: Result<usize, Error>)
    ensures
        res == write_outcome(event@, count),
{
    match event {
        Event::Written => Ok(count),
        _ => Err(Error::StreamNotWritable),
    }
}

/// How a machine ended. A machine that has no outcome ended with a failed
/// read: whoever drove it gave up.
pub open spec fn ended(end: Option<Result<usize, Error>>) -> Result<usize, Error> {
    match end {
        Some(res) => res,
        None => Err(Error::StreamNotReadable),
    }
}

/// Tells how a machine ended, as `ended` says.
pub fn outcome(end: Option<Result<usize, Error>>) -> (res: Result<usize, Error>)
    ensures
        res == ended(end),
{
    match end {
        Some(res) => res,
        None => Err(Error::StreamNotReadable),
    }
}

/// Writes `data` to an output held in memory: the bytes go to its end, and
/// their number comes back. Such an output takes every byte.
pub fn write_to_stream(stream: &mut Vec<u8>, data: &[u8]) -> (res: Result<usize, Error>)
    ensures
        final(stream)@ == old(stream)@ + data@,
        res == write_outcome(Reply::Written, data@.len() as usize),
{
    stream.extend_from_slice(data);
    write_result(Event::Written, data.len())
}

/// Flushes an output held in memory, which holds what was written to it as
/// it is: nothing changes.
pub fn flush_stream(stream: &mut Vec<u8>) -> (res: Result<(), Error>)
    ensures
        final(stream)@ == old(stream)@,
        res is Ok,
{
    Ok(())
}

} // verus!
