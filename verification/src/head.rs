//! The start line of a message: up to three tokens with one space between
//! them, ended by a carriage return and a line feed.

use vstd::prelude::*;
use crate::errors::Error;
use crate::stream::{outcome, read_memory, Action, Event, Reply};
use crate::text::{latin1, push_char};

verus! {

/// The most bytes that a start line may have, its line end counted.
pub const MAX_HEAD: usize = 265;

/// The text of each string.
pub open spec fn texts(strings: Seq<String>) -> Seq<Seq<char>> {
    strings.map_values(|s: String| s@)
}

/// Reads a start line byte by byte.
pub struct HeadReader {
    tokens: Vec<String>,
    token: String,
    length: usize,
    line_end: bool,
    outcome: Option<Result<usize, Error>>,
}

/// The state of a [`HeadReader`].
pub struct HeadState {
    /// The tokens that are complete.
    pub tokens: Seq<Seq<char>>,
    /// The token under way.
    pub token: Seq<char>,
    /// The bytes taken so far.
    pub length: usize,
    /// Whether the last byte was the carriage return that ends the line.
    pub line_end: bool,
    /// How the reading ended, once it has: with the bytes taken, or an error.
    pub outcome: Option<Result<usize, Error>>,
}

impl HeadState {
    /// The state before the first byte.
    pub open spec fn start() -> HeadState {
        HeadState {
            tokens: Seq::empty(),
            token: Seq::empty(),
            length: 0,
            line_end: false,
            outcome: None,
        }
    }

    /// This state, ended with `result`.
    pub open spec fn end(self, result: Result<usize, Error>) -> HeadState {
        HeadState { outcome: Some(result), ..self }
    }
}

/// What one byte of the line does. `s.length` counts the byte already.
///
/// A space ends the first token and the second; in the third it is a
/// character like any other. A carriage return ends the line and must be
/// followed by a line feed, which completes the last token and ends the
/// reading. A line feed anywhere else is `InvalidData`, and so is any other
/// byte behind the carriage return. Every other byte is one character of the
/// token under way.
pub open spec fn head_byte(s: HeadState, b: u8) -> HeadState {
    if s.line_end {
        if b == 10 {
            HeadState { tokens: s.tokens.push(s.token), token: Seq::empty(), ..s }.end(
                Ok(s.length),
            )
        } else {
            s.end(Err(Error::InvalidData))
        }
    } else if b == 32 && s.tokens.len() < 2 {
        HeadState { tokens: s.tokens.push(s.token), token: Seq::empty(), ..s }
    } else if b == 13 {
        HeadState { line_end: true, ..s }
    } else if b == 10 {
        s.end(Err(Error::InvalidData))
    } else {
        HeadState { token: s.token.push(b as char), ..s }
    }
}

/// What one event does to a reader of start lines.
///
/// A reader that has its outcome stays as it is. A byte beyond the
/// [`MAX_HEAD`] that a line may have ends the reading with `InvalidData`; any
/// other byte is counted and read as `head_byte` says. The end of the input
/// ends the reading with the bytes taken so far: the tokens that are complete
/// are all there is, and the token under way is dropped. Any other event is a
/// failed read.
pub open spec fn head_step(s: HeadState, reply: Reply) -> HeadState {
    if s.outcome is Some {
        s
    } else {
        match reply {
            Reply::Byte(b) => if s.length >= MAX_HEAD {
                s.end(Err(Error::InvalidData))
            } else {
                head_byte(HeadState { length: (s.length + 1) as usize, ..s }, b)
            },
            Reply::End => s.end(Ok(s.length)),
            _ => s.end(Err(Error::StreamNotReadable)),
        }
    }
}

/// The state in which a reader in state `s` ends on a stream held in memory,
/// of which `rest` is unread.
pub open spec fn head_run(s: HeadState, rest: Seq<u8>) -> HeadState
    decreases rest.len(),
{
    if s.outcome is Some {
        s
    } else if rest.len() == 0 {
        head_step(s, Reply::End)
    } else {
        head_run(head_step(s, Reply::Byte(rest[0])), rest.skip(1))
    }
}

impl View for HeadReader {
    type V = HeadState;

    closed spec fn view(&self) -> HeadState {
        HeadState {
            tokens: texts(self.tokens@),
            token: self.token@,
            length: self.length,
            line_end: self.line_end,
            outcome: self.outcome,
        }
    }
}

impl HeadReader {
    /// A reader at the start of a line.
    pub fn new() -> (reader: Self)
        ensures
            reader@ == HeadState::start(),
    {
        let reader = HeadReader {
            tokens: Vec::new(),
            token: String::new(),
            length: 0,
            line_end: false,
            outcome: None,
        };
        assert(texts(reader.tokens@) == Seq::<Seq<char>>::empty());
        reader
    }

    /// What the reader wants next: a byte, until it has its outcome.
    pub fn action(&self) -> (action: Action)
        ensures
            action == if self@.outcome is Some {
                Action::Done
            } else {
                Action::ReadByte
            },
    {
        if self.outcome.is_some() {
            Action::Done
        } else {
            Action::ReadByte
        }
    }

    /// Completes the token under way.
    fn close_token(&mut self)
        ensures
            final(self)@ == (HeadState {
                tokens: old(self)@.tokens.push(old(self)@.token),
                token: Seq::empty(),
                ..old(self)@
            }),
    {
        let mut token = String::new();
        core::mem::swap(&mut token, &mut self.token);
        let ghost before = self.tokens@;
        self.tokens.push(token);
        assert(texts(self.tokens@) == texts(before).push(token@));
    }

    /// Takes what came of the last action.
    pub fn feed(&mut self, event: Event)
        ensures
            final(self)@ == head_step(old(self)@, event@),
    {
        if self.outcome.is_some() {
            return ;
        }
        let b = match event {
            Event::Byte(b) => b,
            Event::End => {
                self.outcome = Some(Ok(self.length));
                return ;
            },
            _ => {
                self.outcome = Some(Err(Error::StreamNotReadable));
                return ;
            },
        };
        if self.length >= MAX_HEAD {
            self.outcome = Some(Err(Error::InvalidData));
            return ;
        }
        self.length = self.length + 1;
        if self.line_end {
            if b == 10 {
                self.close_token();
                self.outcome = Some(Ok(self.length));
            } else {
                self.outcome = Some(Err(Error::InvalidData));
            }
        } else if b == 32 && self.tokens.len() < 2 {
            self.close_token();
        } else if b == 13 {
            self.line_end = true;
        } else if b == 10 {
            self.outcome = Some(Err(Error::InvalidData));
        } else {
            push_char(&mut self.token, b as char);
        }
    }

    /// How the reading ended, if it has, and the tokens that are complete.
    pub fn finish(self) -> (end: (Option<Result<usize, Error>>, Vec<String>))
        ensures
            end.0 == self@.outcome,
            texts(end.1@) == self@.tokens,
    {
        (self.outcome, self.tokens)
    }
}

/// Reads a start line from a stream held in memory, puts its tokens at the
/// end of `parts`, and returns the number of bytes taken.
///
/// The stream is read byte by byte as `head_step` says, up to the end of the
/// line, the end of the stream or the first error. The tokens completed
/// before an error go to `parts` as well.
pub fn read_head(input: &[u8], parts: &mut Vec<String>) -> (res: Result<usize, Error>)
    ensures
        Some(res) == head_run(HeadState::start(), input@).outcome,
        texts(final(parts)@) == texts(old(parts)@) + head_run(HeadState::start(), input@).tokens,
        res matches Ok(n) ==> n <= input@.len() && n <= MAX_HEAD,
{
    let mut reader = HeadReader::new();
    let mut pos: usize = 0;
    assert(input@.skip(0) == input@);
    loop
        invariant
            pos <= input@.len(),
            reader@.length <= pos,
            reader@.length <= MAX_HEAD,
            reader@.outcome matches Some(Ok(n)) ==> n == reader@.length,
            head_run(HeadState::start(), input@) == head_run(reader@, input@.skip(pos as int)),
        ensures
            reader@.outcome is Some,
            reader@.outcome matches Some(Ok(n)) ==> n <= input@.len() && n <= MAX_HEAD,
            head_run(HeadState::start(), input@) == reader@,
        decreases
            input@.len() - pos + (if reader@.outcome is None {
                1int
            } else {
                0int
            }),
    {
        let action = reader.action();
        if action == Action::Done {
            break ;
        }
        let ghost rest = input@.skip(pos as int);
        let event = read_memory(action, input, &mut pos);
        proof {
            if rest.len() > 0 {
                assert(rest.skip(1) == input@.skip(pos as int));
            }
        }
        reader.feed(event);
    }
    let (end, mut tokens) = reader.finish();
    let ghost before = parts@;
    let ghost added = tokens@;
    parts.append(&mut tokens);
    assert(texts(before + added) == texts(before) + texts(added));
    outcome(end)
}

/// The bytes hold no carriage return and no line feed.
pub open spec fn plain(bytes: Seq<u8>) -> bool {
    forall|i: int| 0 <= i < bytes.len() ==> #[trigger] bytes[i] != 13 && bytes[i] != 10
}

/// The bytes hold no space, no carriage return and no line feed.
pub open spec fn word(bytes: Seq<u8>) -> bool {
    forall|i: int|
        0 <= i < bytes.len() ==> #[trigger] bytes[i] != 32 && bytes[i] != 13 && bytes[i] != 10
}

/// A reader takes the bytes of a token into the token: bytes without a line
/// end, and, where a space would end the token, without a space.
proof fn lemma_token_taken(s: HeadState, bytes: Seq<u8>, rest: Seq<u8>)
    requires
        s.outcome is None,
        !s.line_end,
        plain(bytes),
        s.tokens.len() < 2 ==> word(bytes),
        s.length + bytes.len() <= MAX_HEAD,
    ensures
        head_run(s, bytes + rest) == head_run(
            HeadState {
                token: s.token + latin1(bytes),
                length: (s.length + bytes.len()) as usize,
                ..s
            },
            rest,
        ),
    decreases bytes.len(),
{
    if bytes.len() == 0 {
        assert(bytes + rest == rest);
        assert(s.token + latin1(bytes) == s.token);
    } else {
        let b = bytes[0];
        let stream = bytes + rest;
        assert(stream[0] == b);
        assert(b != 13 && b != 10);
        assert(s.tokens.len() < 2 ==> b != 32);
        let next = HeadState { token: s.token.push(b as char), length: (s.length + 1) as usize, ..s };
        assert(head_step(s, Reply::Byte(b)) == next);
        assert(stream.skip(1) == bytes.skip(1) + rest);
        assert(plain(bytes.skip(1))) by {
            assert forall|i: int| 0 <= i < bytes.skip(1).len() implies #[trigger] bytes.skip(1)[i]
                != 13 && bytes.skip(1)[i] != 10 by {
                assert(bytes.skip(1)[i] == bytes[i + 1]);
            }
        }
        if s.tokens.len() < 2 {
            assert forall|i: int| 0 <= i < bytes.skip(1).len() implies #[trigger] bytes.skip(1)[i]
                != 32 && bytes.skip(1)[i] != 13 && bytes.skip(1)[i] != 10 by {
                assert(bytes.skip(1)[i] == bytes[i + 1]);
            }
        }
        lemma_token_taken(next, bytes.skip(1), rest);
        assert(next.token + latin1(bytes.skip(1)) == s.token + latin1(bytes));
    }
}

/// A reader at the start of one of the first two tokens takes a word and the
/// space behind it for a token.
proof fn lemma_word_read(s: HeadState, bytes: Seq<u8>, rest: Seq<u8>)
    requires
        s.outcome is None,
        !s.line_end,
        s.token.len() == 0,
        s.tokens.len() < 2,
        word(bytes),
        s.length + bytes.len() + 1 <= MAX_HEAD,
    ensures
        head_run(s, bytes + seq![32u8] + rest) == head_run(
            HeadState {
                tokens: s.tokens.push(latin1(bytes)),
                token: Seq::empty(),
                length: (s.length + bytes.len() + 1) as usize,
                ..s
            },
            rest,
        ),
{
    let tail = seq![32u8] + rest;
    assert(bytes + seq![32u8] + rest == bytes + tail);
    lemma_token_taken(s, bytes, tail);
    assert(s.token + latin1(bytes) == latin1(bytes));
    let in_token = HeadState {
        token: latin1(bytes),
        length: (s.length + bytes.len()) as usize,
        ..s
    };
    assert(tail[0] == 32u8);
    assert(tail.skip(1) == rest);
}

/// A reader takes the last token of a line and the line end behind it for a
/// token, and is done.
proof fn lemma_last_token_read(s: HeadState, bytes: Seq<u8>, rest: Seq<u8>)
    requires
        s.outcome is None,
        !s.line_end,
        s.token.len() == 0,
        plain(bytes),
        s.tokens.len() < 2 ==> word(bytes),
        s.length + bytes.len() + 2 <= MAX_HEAD,
    ensures
        head_run(s, bytes + seq![13u8, 10u8] + rest) == (HeadState {
            tokens: s.tokens.push(latin1(bytes)),
            token: Seq::empty(),
            length: (s.length + bytes.len() + 2) as usize,
            line_end: true,
            outcome: Some(Ok((s.length + bytes.len() + 2) as usize)),
        }),
{
    let tail = seq![13u8, 10u8] + rest;
    assert(bytes + seq![13u8, 10u8] + rest == bytes + tail);
    lemma_token_taken(s, bytes, tail);
    assert(s.token + latin1(bytes) == latin1(bytes));
    let in_token = HeadState {
        token: latin1(bytes),
        length: (s.length + bytes.len()) as usize,
        ..s
    };
    assert(tail[0] == 13u8);
    let at_end = HeadState { line_end: true, length: (in_token.length + 1) as usize, ..in_token };
    assert(head_step(in_token, Reply::Byte(13u8)) == at_end);
    let behind = tail.skip(1);
    assert(head_run(in_token, tail) == head_run(at_end, behind));
    assert(behind[0] == 10u8);
    let done = head_step(at_end, Reply::Byte(10u8));
    assert(head_run(at_end, behind) == head_run(done, behind.skip(1)));
}

/// The bytes of a start line of two words.
pub open spec fn line_of_two(first: Seq<u8>, second: Seq<u8>) -> Seq<u8> {
    first + seq![32u8] + second + seq![13u8, 10u8]
}

/// The bytes of a start line of two words and a third field.
pub open spec fn line_of_three(first: Seq<u8>, second: Seq<u8>, third: Seq<u8>) -> Seq<u8> {
    first + seq![32u8] + second + seq![32u8] + third + seq![13u8, 10u8]
}

/// A start line of two words that is no longer than a line may be is read as
/// these two tokens, whatever follows it, and all its bytes are taken.
pub proof fn lemma_head_of_two(first: Seq<u8>, second: Seq<u8>, rest: Seq<u8>)
    requires
        word(first),
        word(second),
        line_of_two(first, second).len() <= MAX_HEAD,
    ensures
        head_run(HeadState::start(), line_of_two(first, second) + rest).outcome == Some(
            Ok::<usize, Error>(line_of_two(first, second).len() as usize),
        ),
        head_run(HeadState::start(), line_of_two(first, second) + rest).tokens == seq![
            latin1(first),
            latin1(second),
        ],
{
    let s = HeadState::start();
    let tail = second + seq![13u8, 10u8] + rest;
    assert(line_of_two(first, second) + rest == first + seq![32u8] + tail);
    lemma_word_read(s, first, tail);
    let next = HeadState {
        tokens: s.tokens.push(latin1(first)),
        token: Seq::empty(),
        length: (first.len() + 1) as usize,
        ..s
    };
    lemma_last_token_read(next, second, rest);
    assert(next.tokens.push(latin1(second)) == seq![latin1(first), latin1(second)]);
}

/// A start line of two words and a third field without a line end in it,
/// no longer than a line may be, is read as these three tokens, whatever
/// follows it, and all its bytes are taken. The third field may hold spaces.
pub proof fn lemma_head_of_three(
    first: Seq<u8>,
    second: Seq<u8>,
    third: Seq<u8>,
    rest: Seq<u8>,
)
    requires
        word(first),
        word(second),
        plain(third),
        line_of_three(first, second, third).len() <= MAX_HEAD,
    ensures
        head_run(HeadState::start(), line_of_three(first, second, third) + rest).outcome == Some(
            Ok::<usize, Error>(line_of_three(first, second, third).len() as usize),
        ),
        head_run(HeadState::start(), line_of_three(first, second, third) + rest).tokens == seq![
            latin1(first),
            latin1(second),
            latin1(third),
        ],
{
    let s = HeadState::start();
    let behind = third + seq![13u8, 10u8] + rest;
    let tail = second + seq![32u8] + behind;
    assert(line_of_three(first, second, third) + rest == first + seq![32u8] + tail);
    lemma_word_read(s, first, tail);
    let one = HeadState {
        tokens: s.tokens.push(latin1(first)),
        token: Seq::empty(),
        length: (first.len() + 1) as usize,
        ..s
    };
    lemma_word_read(one, second, behind);
    let two = HeadState {
        tokens: one.tokens.push(latin1(second)),
        token: Seq::empty(),
        length: (one.length + second.len() + 1) as usize,
        ..one
    };
    lemma_last_token_read(two, third, rest);
    assert(two.tokens.push(latin1(third)) == seq![latin1(first), latin1(second), latin1(third)]);
}

} // verus!
