//! Relaying a body from one stream to another without holding it: what is
//! read is written and flushed before the next read.

use vstd::prelude::*;
use crate::errors::Error;
use crate::limit::ceiling;
use crate::sequence::{has_sequence, occurs, occurs_at};
use crate::stream::{memory_reply, outcome, read_memory, reply_len, Action, Event, Reply, WINDOW};

verus! {

/// The bytes that end a body in chunks: a chunk of size zero and an empty
/// line.
pub open spec fn terminator() -> Seq<u8> {
    seq![48u8, 13u8, 10u8, 13u8, 10u8]
}

/// The last five bytes of `seen`, or all of it where it has fewer.
pub open spec fn trail(seen: Seq<u8>) -> Seq<u8> {
    if seen.len() <= 5 {
        seen
    } else {
        seen.skip(seen.len() - 5)
    }
}

/// The most that a relay asks of one read when `room` bytes may still come.
pub open spec fn window(room: int) -> usize {
    if room <= 0 {
        0
    } else if room <= WINDOW {
        room as usize
    } else {
        WINDOW
    }
}

/// The state of a [`ChunkedRelay`].
pub struct ChunkedRelayState {
    /// The bytes written so far.
    pub count: usize,
    /// The last bytes written, five at most.
    pub tail: Seq<u8>,
    /// The most bytes that may be written.
    pub limit: Option<usize>,
    /// The bytes that were read and wait to be written, if any do.
    pub pending: Option<Seq<u8>>,
    /// How the relaying ended, once it has: with the bytes written, or an
    /// error.
    pub outcome: Option<Result<usize, Error>>,
}

impl ChunkedRelayState {
    /// The state before the first read. With a limit of zero nothing can be
    /// relayed.
    pub open spec fn start(limit: Option<usize>) -> ChunkedRelayState {
        ChunkedRelayState {
            count: 0,
            tail: Seq::empty(),
            limit,
            pending: None,
            outcome: if ceiling(limit) == 0 {
                Some(Err(Error::SizeLimitExceeded(0)))
            } else {
                None
            },
        }
    }

    /// This state, ended with `result`.
    pub open spec fn end(self, result: Result<usize, Error>) -> ChunkedRelayState {
        ChunkedRelayState { outcome: Some(result), ..self }
    }

    /// What a relay in this state wants next: to write what it holds, else to
    /// read, never more than the limit leaves room for.
    pub open spec fn action(self) -> Action {
        if self.outcome is Some {
            Action::Done
        } else if self.pending is Some {
            Action::Write
        } else {
            Action::ReadSome(window(ceiling(self.limit) - self.count))
        }
    }

    /// How many steps the relay may take at most before it reads or ends.
    pub open spec fn rank(self) -> nat {
        if self.outcome is Some {
            0
        } else if self.pending is Some {
            2
        } else {
            1
        }
    }
}

/// What one event does to a relay of a body in chunks.
///
/// Bytes that were read and would take the count over the limit end the
/// relaying with `SizeLimitExceeded` before any of them is written. The end of
/// the input, or a read that got nothing, ends it with the bytes written so
/// far. Once bytes are written, they are counted; the relaying is done when the
/// last five bytes written are the [`terminator`], and has failed with
/// `SizeLimitExceeded` when they are not and the limit is reached. A failed
/// read is `StreamNotReadable`, a failed write `StreamNotWritable`.
pub open spec fn chunked_relay_step(s: ChunkedRelayState, reply: Reply) -> ChunkedRelayState {
    if s.outcome is Some {
        s
    } else {
        match s.pending {
            None => match reply {
                Reply::Block(bytes) => if bytes.len() == 0 {
                    s.end(Ok(s.count))
                } else if s.count + bytes.len() > ceiling(s.limit) {
                    s.end(Err(Error::SizeLimitExceeded(ceiling(s.limit))))
                } else {
                    ChunkedRelayState { pending: Some(bytes), ..s }
                },
                Reply::End => s.end(Ok(s.count)),
                _ => s.end(Err(Error::StreamNotReadable)),
            },
            Some(bytes) => match reply {
                Reply::Written => if s.count + bytes.len() > ceiling(s.limit) {
                    s.end(Err(Error::SizeLimitExceeded(ceiling(s.limit))))
                } else {
                    let next = ChunkedRelayState {
                        count: (s.count + bytes.len()) as usize,
                        tail: trail(s.tail + bytes),
                        pending: None,
                        ..s
                    };
                    if occurs(next.tail, terminator()) {
                        next.end(Ok(next.count))
                    } else if next.count >= ceiling(s.limit) {
                        next.end(Err(Error::SizeLimitExceeded(ceiling(s.limit))))
                    } else {
                        next
                    }
                },
                _ => s.end(Err(Error::StreamNotWritable)),
            },
        }
    }
}

/// What a relay in state `s` makes of an input held in memory, of which
/// `rest` is unread, and an output in memory that holds `out`: how it ends,
/// and what the output holds then.
pub open spec fn chunked_relay_run(s: ChunkedRelayState, rest: Seq<u8>, out: Seq<u8>) -> (
    Result<usize, Error>,
    Seq<u8>,
)
    decreases rest.len(), s.rank(),
{
    if s.outcome is Some {
        (s.outcome->0, out)
    } else if s.pending is Some {
        chunked_relay_run(chunked_relay_step(s, Reply::Written), rest, out + s.pending->0)
    } else {
        let reply = memory_reply(s.action(), rest);
        chunked_relay_run(chunked_relay_step(s, reply), rest.skip(reply_len(reply) as int), out)
    }
}

/// Relays a body in chunks.
pub struct ChunkedRelay {
    count: usize,
    tail: Vec<u8>,
    limit: Option<usize>,
    pending: Vec<u8>,
    writing: bool,
    outcome: Option<Result<usize, Error>>,
}

impl View for ChunkedRelay {
    type V = ChunkedRelayState;

    closed spec fn view(&self) -> ChunkedRelayState {
        ChunkedRelayState {
            count: self.count,
            tail: self.tail@,
            limit: self.limit,
            pending: if self.writing {
                Some(self.pending@)
            } else {
                None
            },
            outcome: self.outcome,
        }
    }
}

/// The last five bytes of `tail` followed by `bytes`.
fn next_tail(tail: &Vec<u8>, bytes: &Vec<u8>) -> (next: Vec<u8>)
    ensures
        next@ == trail(tail@ + bytes@),
{
    let ghost joined = tail@ + bytes@;
    let mut next: Vec<u8> = Vec::new();
    if bytes.len() >= 5 {
        let from = bytes.len() - 5;
        next.extend_from_slice(vstd::slice::slice_subrange(bytes.as_slice(), from, bytes.len()));
        assert(next@ == trail(joined));
    } else {
        let keep = 5 - bytes.len();
        let skip: usize = if tail.len() > keep {
            tail.len() - keep
        } else {
            0
        };
        next.extend_from_slice(vstd::slice::slice_subrange(tail.as_slice(), skip, tail.len()));
        next.extend_from_slice(bytes.as_slice());
        assert(next@ == trail(joined));
    }
    next
}

impl ChunkedRelay {
    /// A relay before its first read, which may write `limit` bytes at most.
    pub fn new(limit: Option<usize>) -> (relay: Self)
        ensures
            relay@ == ChunkedRelayState::start(limit),
    {
        let outcome = match limit {
            Some(0) => Some(Err(Error::SizeLimitExceeded(0))),
            _ => None,
        };
        ChunkedRelay {
            count: 0,
            tail: Vec::new(),
            limit,
            pending: Vec::new(),
            writing: false,
            outcome,
        }
    }

    /// What the relay wants next.
    pub fn action(&self) -> (action: Action)
        ensures
            action == self@.action(),
    {
        if self.outcome.is_some() {
            Action::Done
        } else if self.writing {
            Action::Write
        } else {
            let most = match self.limit {
                Some(l) => l,
                None => usize::MAX,
            };
            if most <= self.count {
                Action::ReadSome(0)
            } else if most - self.count <= WINDOW {
                Action::ReadSome(most - self.count)
            } else {
                Action::ReadSome(WINDOW)
            }
        }
    }

    /// The bytes that wait to be written.
    pub fn pending(&self) -> (bytes: &Vec<u8>)
        ensures
            self@.pending matches Some(held) ==> bytes@ == held,
    {
        &self.pending
    }

    /// Takes what came of the last action.
    pub fn feed(&mut self, event: Event)
        ensures
            final(self)@ == chunked_relay_step(old(self)@, event@),
    {
        if self.outcome.is_some() {
            return ;
        }
        let most = match self.limit {
            Some(l) => l,
            None => usize::MAX,
        };
        if !self.writing {
            match event {
                Event::Block(bytes) => {
                    if bytes.len() == 0 {
                        self.outcome = Some(Ok(self.count));
                    } else if self.count > most || bytes.len() > most - self.count {
                        self.outcome = Some(Err(Error::SizeLimitExceeded(most)));
                    } else {
                        self.pending = bytes;
                        self.writing = true;
                    }
                },
                Event::End => {
                    self.outcome = Some(Ok(self.count));
                },
                _ => {
                    self.outcome = Some(Err(Error::StreamNotReadable));
                },
            }
        } else {
            match event {
                Event::Written => {
                    if self.count > most || self.pending.len() > most - self.count {
                        self.outcome = Some(Err(Error::SizeLimitExceeded(most)));
                    } else {
                        self.count = self.count + self.pending.len();
                        self.tail = next_tail(&self.tail, &self.pending);
                        self.writing = false;
                        let end: [u8; 5] = [48, 13, 10, 13, 10];
                        assert(end@ == terminator());
                        if has_sequence(self.tail.as_slice(), end.as_slice()) {
                            self.outcome = Some(Ok(self.count));
                        } else if self.count >= most {
                            self.outcome = Some(Err(Error::SizeLimitExceeded(most)));
                        }
                    }
                },
                _ => {
                    self.outcome = Some(Err(Error::StreamNotWritable));
                },
            }
        }
    }

    /// How the relaying ended, if it has.
    pub fn finish(self) -> (outcome: Option<Result<usize, Error>>)
        ensures
            outcome == self@.outcome,
    {
        self.outcome
    }
}

/// Relays a body in chunks from an input held in memory to an output in
/// memory, and returns how many bytes it wrote. It may write `limit` bytes at
/// most.
///
/// The input is read in pieces of [`WINDOW`] bytes, or fewer where the stream
/// ends or the limit leaves less room, and each piece is written before the
/// next is read, as `chunked_relay_step` says. Whatever the outcome, the
/// output gains the first bytes of the input, as many as were written, and
/// never more than `limit`.
pub fn relay_chunked_stream(input: &[u8], output: &mut Vec<u8>, limit: Option<usize>) -> (res:
    Result<usize, Error>)
    ensures
        res == chunked_relay_run(ChunkedRelayState::start(limit), input@, old(output)@).0,
        final(output)@ == chunked_relay_run(
            ChunkedRelayState::start(limit),
            input@,
            old(output)@,
        ).1,
        final(output)@.len() - old(output)@.len() <= ceiling(limit),
        final(output)@.len() - old(output)@.len() <= input@.len(),
        final(output)@ == old(output)@ + input@.take(final(output)@.len() - old(output)@.len()),
        res matches Ok(n) ==> final(output)@.len() == old(output)@.len() + n,
        res matches Err(e) ==> e == Error::SizeLimitExceeded(ceiling(limit)),
{
    let mut relay = ChunkedRelay::new(limit);
    let mut pos: usize = 0;
    let ghost start = ChunkedRelayState::start(limit);
    let ghost before = output@;
    assert(input@.skip(0) == input@);
    assert(before + input@.take(0) == before);
    loop
        invariant
            pos <= input@.len(),
            relay@.limit == limit,
            relay@.count <= ceiling(limit),
            output@ == before + input@.take(relay@.count as int),
            match relay@.pending {
                Some(held) => relay@.count + held.len() == pos && pos <= ceiling(limit) && held
                    == input@.subrange(relay@.count as int, pos as int),
                None => relay@.count == pos,
            },
            relay@.outcome matches Some(Ok(n)) ==> n == relay@.count && relay@.pending is None,
            relay@.outcome matches Some(Err(e)) ==> e == Error::SizeLimitExceeded(ceiling(limit)),
            chunked_relay_run(start, input@, before) == chunked_relay_run(
                relay@,
                input@.skip(pos as int),
                output@,
            ),
        ensures
            relay@.outcome is Some,
            relay@.count <= ceiling(limit),
            relay@.count <= input@.len(),
            output@ == before + input@.take(relay@.count as int),
            relay@.outcome matches Some(Ok(n)) ==> n == relay@.count,
            relay@.outcome matches Some(Err(e)) ==> e == Error::SizeLimitExceeded(ceiling(limit)),
            chunked_relay_run(start, input@, before) == (relay@.outcome->0, output@),
        decreases input@.len() - pos, relay@.rank(),
    {
        let action = relay.action();
        let ghost rest = input@.skip(pos as int);
        match action {
            Action::Done => {
                break ;
            },
            Action::Write => {
                let ghost held = relay@.pending->0;
                let ghost state = relay@;
                let ghost out = output@;
                output.extend_from_slice(relay.pending().as_slice());
                assert(input@.take(relay@.count as int) + held == input@.take(pos as int));
                assert(chunked_relay_run(state, rest, out) == chunked_relay_run(
                    chunked_relay_step(state, Reply::Written),
                    rest,
                    out + held,
                ));
                assert(output@ == out + held);
                relay.feed(Event::Written);
                assert(relay@ == chunked_relay_step(state, Reply::Written));
            },
            _ => {
                let ghost state = relay@;
                let event = read_memory(action, input, &mut pos);
                proof {
                    assert(rest.skip(reply_len(event@) as int) == input@.skip(pos as int));
                    assert(chunked_relay_run(state, rest, output@) == chunked_relay_run(
                        chunked_relay_step(state, event@),
                        rest.skip(reply_len(event@) as int),
                        output@,
                    ));
                    if let Reply::Block(bytes) = event@ {
                        assert(bytes == input@.subrange(relay@.count as int, pos as int));
                    }
                }
                relay.feed(event);
            },
        }
    }
    outcome(relay.finish())
}

/// The state of a [`SizedRelay`].
pub struct SizedRelayState {
    /// The bytes written so far.
    pub count: usize,
    /// The bytes that the body has.
    pub length: usize,
    /// The bytes that were read and wait to be written, if any do.
    pub pending: Option<Seq<u8>>,
    /// How the relaying ended, once it has: with the bytes written, or an
    /// error.
    pub outcome: Option<Result<usize, Error>>,
}

impl SizedRelayState {
    /// The state before the first read. A body without bytes is relayed at
    /// once.
    pub open spec fn start(length: usize) -> SizedRelayState {
        SizedRelayState {
            count: 0,
            length,
            pending: None,
            outcome: if length == 0 {
                Some(Ok(0))
            } else {
                None
            },
        }
    }

    /// This state, ended with `result`.
    pub open spec fn end(self, result: Result<usize, Error>) -> SizedRelayState {
        SizedRelayState { outcome: Some(result), ..self }
    }

    /// What a relay in this state wants next: to write what it holds, else to
    /// read, never more than the body still has.
    pub open spec fn action(self) -> Action {
        if self.outcome is Some {
            Action::Done
        } else if self.pending is Some {
            Action::Write
        } else {
            Action::ReadSome(window(self.length - self.count))
        }
    }
}

/// What one event does to a relay of a sized body.
///
/// The end of the input, or a read that got nothing, ends the relaying
/// without an error, with the bytes written so far: a peer may close early.
/// Bytes that were read and would take the count over the length end it with
/// `SizeLimitExceeded` before any of them is written. Once bytes are written,
/// they are counted, and the relaying is done when the count is the length. A
/// failed read is `StreamNotReadable`, a failed write `StreamNotWritable`.
pub open spec fn sized_relay_step(s: SizedRelayState, reply: Reply) -> SizedRelayState {
    if s.outcome is Some {
        s
    } else {
        match s.pending {
            None => match reply {
                Reply::Block(bytes) => if bytes.len() == 0 {
                    s.end(Ok(s.count))
                } else if s.count + bytes.len() > s.length {
                    s.end(Err(Error::SizeLimitExceeded(s.length)))
                } else {
                    SizedRelayState { pending: Some(bytes), ..s }
                },
                Reply::End => s.end(Ok(s.count)),
                _ => s.end(Err(Error::StreamNotReadable)),
            },
            Some(bytes) => match reply {
                Reply::Written => if s.count + bytes.len() > s.length {
                    s.end(Err(Error::SizeLimitExceeded(s.length)))
                } else {
                    let next = SizedRelayState {
                        count: (s.count + bytes.len()) as usize,
                        pending: None,
                        ..s
                    };
                    if next.count == s.length {
                        next.end(Ok(next.count))
                    } else {
                        next
                    }
                },
                _ => s.end(Err(Error::StreamNotWritable)),
            },
        }
    }
}

/// Relays a body of known length.
pub struct SizedRelay {
    count: usize,
    length: usize,
    pending: Vec<u8>,
    writing: bool,
    outcome: Option<Result<usize, Error>>,
}

impl View for SizedRelay {
    type V = SizedRelayState;

    closed spec fn view(&self) -> SizedRelayState {
        SizedRelayState {
            count: self.count,
            length: self.length,
            pending: if self.writing {
                Some(self.pending@)
            } else {
                None
            },
            outcome: self.outcome,
        }
    }
}

impl SizedRelay {
    /// A relay of a body of `length` bytes, before its first read.
    pub fn new(length: usize) -> (relay: Self)
        ensures
            relay@ == SizedRelayState::start(length),
    {
        let outcome = if length == 0 {
            Some(Ok(0))
        } else {
            None
        };
        SizedRelay { count: 0, length, pending: Vec::new(), writing: false, outcome }
    }

    /// What the relay wants next.
    pub fn action(&self) -> (action: Action)
        ensures
            action == self@.action(),
    {
        if self.outcome.is_some() {
            Action::Done
        } else if self.writing {
            Action::Write
        } else if self.length <= self.count {
            Action::ReadSome(0)
        } else if self.length - self.count <= WINDOW {
            Action::ReadSome(self.length - self.count)
        } else {
            Action::ReadSome(WINDOW)
        }
    }

    /// The bytes that wait to be written.
    pub fn pending(&self) -> (bytes: &Vec<u8>)
        ensures
            self@.pending matches Some(held) ==> bytes@ == held,
    {
        &self.pending
    }

    /// Takes what came of the last action.
    pub fn feed(&mut self, event: Event)
        ensures
            final(self)@ == sized_relay_step(old(self)@, event@),
    {
        if self.outcome.is_some() {
            return ;
        }
        if !self.writing {
            match event {
                Event::Block(bytes) => {
                    if bytes.len() == 0 {
                        self.outcome = Some(Ok(self.count));
                    } else if self.count > self.length || bytes.len() > self.length - self.count {
                        self.outcome = Some(Err(Error::SizeLimitExceeded(self.length)));
                    } else {
                        self.pending = bytes;
                        self.writing = true;
                    }
                },
                Event::End => {
                    self.outcome = Some(Ok(self.count));
                },
                _ => {
                    self.outcome = Some(Err(Error::StreamNotReadable));
                },
            }
        } else {
            match event {
                Event::Written => {
                    if self.count > self.length || self.pending.len() > self.length - self.count {
                        self.outcome = Some(Err(Error::SizeLimitExceeded(self.length)));
                    } else {
                        self.count = self.count + self.pending.len();
                        self.writing = false;
                        if self.count == self.length {
                            self.outcome = Some(Ok(self.count));
                        }
                    }
                },
                _ => {
                    self.outcome = Some(Err(Error::StreamNotWritable));
                },
            }
        }
    }

    /// How the relaying ended, if it has.
    pub fn finish(self) -> (outcome: Option<Result<usize, Error>>)
        ensures
            outcome == self@.outcome,
    {
        self.outcome
    }
}

/// The smaller of two counts.
pub open spec fn least(a: int, b: int) -> int {
    if a <= b {
        a
    } else {
        b
    }
}

/// Relays a body of `length` bytes from an input held in memory to an output
/// in memory, and returns how many bytes it wrote: `length`, or all that the
/// input has where that is less. An input that ends early is no error.
pub fn relay_sized_stream(input: &[u8], output: &mut Vec<u8>, length: usize) -> (res: Result<
    usize,
    Error,
>)
    ensures
        res == Ok::<usize, Error>(least(length as int, input@.len() as int) as usize),
        final(output)@ == old(output)@ + input@.take(least(length as int, input@.len() as int)),
{
    let mut relay = SizedRelay::new(length);
    let mut pos: usize = 0;
    let ghost before = output@;
    let ghost goal = least(length as int, input@.len() as int);
    assert(before + input@.take(0) == before);
    loop
        invariant
            pos <= goal,
            goal == least(length as int, input@.len() as int),
            relay@.length == length,
            output@ == before + input@.take(relay@.count as int),
            match relay@.pending {
                Some(held) => relay@.count + held.len() == pos && held == input@.subrange(
                    relay@.count as int,
                    pos as int,
                ),
                None => relay@.count == pos,
            },
            match relay@.outcome {
                Some(res) => res == Ok::<usize, Error>(goal as usize) && relay@.count == goal
                    && relay@.pending is None,
                None => relay@.count < length,
            },
        ensures
            relay@.outcome == Some(Ok::<usize, Error>(goal as usize)),
            output@ == before + input@.take(goal),
        decreases
            input@.len() - pos, (if relay@.outcome is Some {
                0int
            } else if relay@.pending is Some {
                2int
            } else {
                1int
            }),
    {
        let action = relay.action();
        match action {
            Action::Done => {
                break ;
            },
            Action::Write => {
                let ghost held = relay@.pending->0;
                output.extend_from_slice(relay.pending().as_slice());
                assert(input@.take(relay@.count as int) + held == input@.take(pos as int));
                relay.feed(Event::Written);
            },
            _ => {
                let event = read_memory(action, input, &mut pos);
                proof {
                    if let Reply::Block(bytes) = event@ {
                        assert(bytes == input@.subrange(relay@.count as int, pos as int));
                    }
                }
                relay.feed(event);
            },
        }
    }
    outcome(relay.finish())
}

/// The input is a body in chunks that a relay can tell: it ends with the
/// [`terminator`], and nothing that stands before its end does.
pub open spec fn ends_body(input: Seq<u8>) -> bool {
    &&& trail(input) == terminator()
    &&& forall|k: int| 0 <= k < input.len() ==> trail(#[trigger] input.take(k)) != terminator()
}

/// Five bytes or fewer hold the terminator just when they are the
/// terminator.
pub proof fn lemma_trail_occurs(tail: Seq<u8>)
    requires
        tail.len() <= 5,
    ensures
        occurs(tail, terminator()) == (tail == terminator()),
{
    let end = terminator();
    assert(end.len() == 5);
    if tail == end {
        assert(tail.subrange(0, 5) == end);
        assert(occurs_at(tail, end, 0));
    }
    if occurs(tail, end) {
        let at = choose|at: int| occurs_at(tail, end, at);
        assert(occurs_at(tail, end, at));
        assert(at == 0 && tail.len() == 5);
        assert(tail.subrange(0, 5) == tail);
    }
}

/// The last five bytes of what was seen are the last five of the last five
/// before, followed by what came since.
pub proof fn lemma_trail_grows(seen: Seq<u8>, more: Seq<u8>)
    ensures
        trail(trail(seen) + more) == trail(seen + more),
{
    let joined = trail(seen) + more;
    let all = seen + more;
    assert(trail(joined).len() == trail(all).len());
    assert forall|i: int| 0 <= i < trail(all).len() implies trail(joined)[i] == trail(all)[i] by {}
}

/// What a relay that has written the first `s.count` bytes of a body makes
/// of the rest.
proof fn lemma_relay_goes_on(s: ChunkedRelayState, input: Seq<u8>, out: Seq<u8>)
    requires
        ends_body(input),
        s.outcome is None,
        s.pending is None,
        s.count < input.len(),
        s.count < ceiling(s.limit),
        s.tail == trail(input.take(s.count as int)),
    ensures
        chunked_relay_run(s, input.skip(s.count as int), out + input.take(s.count as int)) == (
        if input.len() <= ceiling(s.limit) {
            (Ok::<usize, Error>(input.len() as usize), out + input)
        } else {
            (
                Err::<usize, Error>(Error::SizeLimitExceeded(ceiling(s.limit))),
                out + input.take(ceiling(s.limit) as int),
            )
        }),
    decreases input.len() - s.count,
{
    let most = ceiling(s.limit);
    let c = s.count as int;
    let rest = input.skip(c);
    let held = out + input.take(c);
    let reply = memory_reply(s.action(), rest);
    let n = reply_len(reply) as int;
    let block = input.subrange(c, c + n);
    assert(0 < n && c + n <= input.len() && c + n <= most);
    assert(reply == Reply::Block(block)) by {
        if rest.len() <= window(most - c) {
            assert(rest == block);
        } else {
            assert(rest.take(n) == block);
        }
    }
    let reading = chunked_relay_step(s, reply);
    assert(reading == ChunkedRelayState { pending: Some(block), ..s });
    assert(rest.skip(n) == input.skip(c + n));
    assert(chunked_relay_run(s, rest, held) == chunked_relay_run(reading, input.skip(c + n), held));
    let written = chunked_relay_step(reading, Reply::Written);
    assert(chunked_relay_run(reading, input.skip(c + n), held) == chunked_relay_run(
        written,
        input.skip(c + n),
        held + block,
    ));
    assert(held + block == out + input.take(c + n)) by {
        assert(input.take(c) + block == input.take(c + n));
    }
    let next = ChunkedRelayState {
        count: (c + n) as usize,
        tail: trail(s.tail + block),
        pending: None,
        ..reading
    };
    assert(next.tail == trail(input.take(c + n))) by {
        lemma_trail_grows(input.take(c), block);
        assert(input.take(c) + block == input.take(c + n));
    }
    lemma_trail_occurs(next.tail);
    if c + n == input.len() {
        assert(input.take(c + n) == input);
        assert(written == next.end(Ok(next.count)));
    } else {
        assert(next.tail != terminator());
        if c + n >= most {
            assert(written == next.end(Err(Error::SizeLimitExceeded(most))));
        } else {
            assert(written == next);
            lemma_relay_goes_on(next, input, out);
        }
    }
}

/// A body in chunks is relayed if and only if it fits under the limit, all
/// that stands on the wire counted. Where it fits, the outcome is the number
/// of its bytes, and the output gains them all. Where it does not, the
/// outcome is `SizeLimitExceeded` with the limit, and the output gains the
/// first bytes of the body, as many as the limit allows, and not one more.
pub proof fn lemma_chunked_relay_fits_or_fails(input: Seq<u8>, limit: Option<usize>, out: Seq<u8>)
    requires
        ends_body(input),
    ensures
        chunked_relay_run(ChunkedRelayState::start(limit), input, out) == (if input.len()
            <= ceiling(limit) {
            (Ok::<usize, Error>(input.len() as usize), out + input)
        } else {
            (
                Err::<usize, Error>(Error::SizeLimitExceeded(ceiling(limit))),
                out + input.take(ceiling(limit) as int),
            )
        }),
{
    let s = ChunkedRelayState::start(limit);
    assert(input.len() >= 5) by {
        assert(terminator().len() == 5);
    }
    assert(input.take(0) == Seq::<u8>::empty());
    assert(out + input.take(0) == out);
    assert(input.skip(0) == input);
    if ceiling(limit) > 0 {
        assert(s.tail == trail(input.take(0)));
        lemma_relay_goes_on(s, input, out);
    }
}

} // verus!
