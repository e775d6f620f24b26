//! The head of a message as raw lines: every line up to the empty line that
//! ends the block, as it stands, with nothing read into it.

use vstd::prelude::*;
use crate::errors::Error;
use crate::head::texts;
use crate::limit::{ceiling, name_limit, room, room_under, under_limit};
use crate::stream::{outcome, read_memory, Action, Event, Reply};
use crate::text::{latin1, push_char, to_chars};

verus! {

/// Where in a block of lines the reader stands.
#[derive(Clone, Copy, Debug, PartialEq, Eq, Structural)]
pub enum LineStage {
    /// In a line.
    Text,
    /// Behind the carriage return that ends a line with text before it.
    TextEnd,
    /// At the start of a line, behind a line end.
    Start,
    /// Behind a carriage return at the start of a line.
    BlockEnd,
}

/// Reads a block of lines character by character.
pub struct LinesReader {
    stage: LineStage,
    line: String,
    length: usize,
    limit: Option<usize>,
    outcome: Option<Result<usize, Error>>,
}

/// The state of a [`LinesReader`].
pub struct LinesState {
    /// Where in the block the reader stands.
    pub stage: LineStage,
    /// The line read so far.
    pub line: Seq<char>,
    /// The characters taken so far.
    pub length: usize,
    /// The most characters that the block may have.
    pub limit: Option<usize>,
    /// How the reading ended, once it has: with the characters taken, or an
    /// error.
    pub outcome: Option<Result<usize, Error>>,
}

impl LinesState {
    /// The state before the first character: in the first line.
    pub open spec fn start(limit: Option<usize>) -> LinesState {
        LinesState { stage: LineStage::Text, line: Seq::empty(), length: 0, limit, outcome: None }
    }

    /// This state, ended with `result`.
    pub open spec fn end(self, result: Result<usize, Error>) -> LinesState {
        LinesState { outcome: Some(result), ..self }
    }
}

/// What one character of the block does: the next state, and the line that
/// the character completed, if it did. `s.length` counts the character
/// already.
///
/// A carriage return ends a line and must be followed by a line feed, which
/// completes the line. An empty line ends the block, if it is not the first
/// line, and is no line of the block. A line feed that follows no carriage
/// return is `InvalidData`, and so is any other character that follows one.
pub open spec fn line_char(s: LinesState, c: char) -> (LinesState, Option<Seq<char>>) {
    if c == '\r' {
        match s.stage {
            LineStage::Text => (LinesState { stage: LineStage::TextEnd, ..s }, None),
            LineStage::Start => (LinesState { stage: LineStage::BlockEnd, ..s }, None),
            _ => (s.end(Err(Error::InvalidData)), None),
        }
    } else if c == '\n' {
        match s.stage {
            LineStage::TextEnd => (
                LinesState { stage: LineStage::Start, line: Seq::empty(), ..s },
                Some(s.line),
            ),
            LineStage::BlockEnd => (s.end(Ok(s.length)), None),
            _ => (s.end(Err(Error::InvalidData)), None),
        }
    } else {
        match s.stage {
            LineStage::Text => (LinesState { line: s.line.push(c), ..s }, None),
            LineStage::Start => (
                LinesState { stage: LineStage::Text, line: s.line.push(c), ..s },
                None,
            ),
            _ => (s.end(Err(Error::InvalidData)), None),
        }
    }
}

/// What one character does to a reader of lines. A reader that has its
/// outcome stays as it is. A character that would make the count exceed the
/// limit ends the reading with `SizeLimitExceeded`; any other is counted and
/// read as `line_char` says.
pub open spec fn lines_take(s: LinesState, c: char) -> (LinesState, Option<Seq<char>>) {
    if s.outcome is Some {
        (s, None)
    } else if s.length >= ceiling(s.limit) {
        (s.end(Err(Error::SizeLimitExceeded(ceiling(s.limit)))), None)
    } else {
        line_char(LinesState { length: (s.length + 1) as usize, ..s }, c)
    }
}

/// What one event does to a reader of lines. A byte is one character. The end
/// of the input ends the reading with the characters taken so far, an
/// unfinished line being dropped. Any other event is a failed read.
pub open spec fn lines_step(s: LinesState, reply: Reply) -> (LinesState, Option<Seq<char>>) {
    if s.outcome is Some {
        (s, None)
    } else {
        match reply {
            Reply::Byte(b) => lines_take(s, b as char),
            Reply::End => (s.end(Ok(s.length)), None),
            _ => (s.end(Err(Error::StreamNotReadable)), None),
        }
    }
}

/// The lines after one step.
pub open spec fn gain(lines: Seq<Seq<char>>, line: Option<Seq<char>>) -> Seq<Seq<char>> {
    match line {
        Some(l) => lines.push(l),
        None => lines,
    }
}

/// What a reader in state `s` makes of the characters `rest` and their end,
/// when `lines` are the lines so far: how it ends, and the lines then.
pub open spec fn lines_run(s: LinesState, rest: Seq<char>, lines: Seq<Seq<char>>) -> (
    Result<usize, Error>,
    Seq<Seq<char>>,
)
    decreases rest.len(),
{
    if s.outcome is Some {
        (s.outcome->0, lines)
    } else if rest.len() == 0 {
        (Ok(s.length), lines)
    } else {
        let (next, line) = lines_take(s, rest[0]);
        lines_run(next, rest.skip(1), gain(lines, line))
    }
}

impl View for LinesReader {
    type V = LinesState;

    closed spec fn view(&self) -> LinesState {
        LinesState {
            stage: self.stage,
            line: self.line@,
            length: self.length,
            limit: self.limit,
            outcome: self.outcome,
        }
    }
}

impl LinesReader {
    /// A reader at the start of a block that may have `limit` characters at
    /// most.
    pub fn new(limit: Option<usize>) -> (reader: Self)
        ensures
            reader@ == LinesState::start(limit),
    {
        LinesReader {
            stage: LineStage::Text,
            line: String::new(),
            length: 0,
            limit,
            outcome: None,
        }
    }

    /// What the reader wants next: a byte, until it has its outcome.
    pub fn action(&self) -> (action: Action)
        ensures
            action == if self@.outcome is Some {
                Action::Done
            } else {
                Action::ReadByte
            },
    {
        if self.outcome.is_some() {
            Action::Done
        } else {
            Action::ReadByte
        }
    }

    /// Ends the reading with `Err(InvalidData)`.
    fn reject(&mut self)
        ensures
            final(self)@ == old(self)@.end(Err(Error::InvalidData)),
    {
        self.outcome = Some(Err(Error::InvalidData));
    }

    /// Takes one character. A line that it completes goes to the end of
    /// `lines`.
    pub fn take(&mut self, c: char, lines: &mut Vec<String>)
        ensures
            final(self)@ == lines_take(old(self)@, c).0,
            texts(final(lines)@) == gain(texts(old(lines)@), lines_take(old(self)@, c).1),
    {
        if self.outcome.is_some() {
            return ;
        }
        let most = match self.limit {
            Some(l) => l,
            None => usize::MAX,
        };
        if self.length >= most {
            self.outcome = Some(Err(Error::SizeLimitExceeded(most)));
            return ;
        }
        self.length = self.length + 1;
        if c == '\r' {
            match self.stage {
                LineStage::Text => {
                    self.stage = LineStage::TextEnd;
                },
                LineStage::Start => {
                    self.stage = LineStage::BlockEnd;
                },
                _ => self.reject(),
            }
        } else if c == '\n' {
            match self.stage {
                LineStage::TextEnd => {
                    let mut line = String::new();
                    core::mem::swap(&mut line, &mut self.line);
                    self.stage = LineStage::Start;
                    let ghost before = lines@;
                    lines.push(line);
                    assert(texts(lines@) == texts(before).push(line@));
                },
                LineStage::BlockEnd => {
                    self.outcome = Some(Ok(self.length));
                },
                _ => self.reject(),
            }
        } else {
            match self.stage {
                LineStage::Text => push_char(&mut self.line, c),
                LineStage::Start => {
                    push_char(&mut self.line, c);
                    self.stage = LineStage::Text;
                },
                _ => self.reject(),
            }
        }
    }

    /// Takes what came of the last action. A line that the event completes
    /// goes to the end of `lines`.
    pub fn feed(&mut self, event: Event, lines: &mut Vec<String>)
        ensures
            final(self)@ == lines_step(old(self)@, event@).0,
            texts(final(lines)@) == gain(texts(old(lines)@), lines_step(old(self)@, event@).1),
    {
        if self.outcome.is_some() {
            return ;
        }
        match event {
            Event::Byte(b) => self.take(b as char, lines),
            Event::End => {
                self.outcome = Some(Ok(self.length));
            },
            _ => {
                self.outcome = Some(Err(Error::StreamNotReadable));
            },
        }
    }

    /// How the reading ended, if it has.
    pub fn finish(self) -> (outcome: Option<Result<usize, Error>>)
        ensures
            outcome == self@.outcome,
    {
        self.outcome
    }
}

/// Reads a block of lines from a stream held in memory, every byte one
/// character, puts the lines at the end of `lines`, and returns the number of
/// bytes taken, which may be `limit` at most.
///
/// The stream is read as `lines_take` says, up to the empty line that ends
/// the block, the end of the stream or the first error. The lines read before
/// an error stay in `lines`.
pub fn read_lines(input: &[u8], lines: &mut Vec<String>, limit: Option<usize>) -> (res: Result<
    usize,
    Error,
>)
    ensures
        (res, texts(final(lines)@)) == lines_run(
            LinesState::start(limit),
            latin1(input@),
            texts(old(lines)@),
        ),
        res matches Ok(n) ==> n <= input@.len() && n <= ceiling(limit),
{
    let mut reader = LinesReader::new(limit);
    let mut pos: usize = 0;
    let ghost start = LinesState::start(limit);
    let ghost before = texts(lines@);
    assert(input@.skip(0) == input@);
    loop
        invariant
            pos <= input@.len(),
            reader@.limit == limit,
            reader@.length <= pos,
            reader@.length <= ceiling(limit),
            reader@.outcome matches Some(Ok(n)) ==> n == reader@.length,
            lines_run(start, latin1(input@), before) == lines_run(
                reader@,
                latin1(input@.skip(pos as int)),
                texts(lines@),
            ),
        ensures
            reader@.outcome is Some,
            reader@.outcome matches Some(Ok(n)) ==> n <= input@.len() && n <= ceiling(limit),
            lines_run(start, latin1(input@), before) == (reader@.outcome->0, texts(lines@)),
        decreases
            input@.len() - pos + (if reader@.outcome is None {
                1int
            } else {
                0int
            }),
    {
        let action = reader.action();
        if action == Action::Done {
            break ;
        }
        let ghost rest = input@.skip(pos as int);
        let event = read_memory(action, input, &mut pos);
        proof {
            if rest.len() > 0 {
                assert(rest.skip(1) == input@.skip(pos as int));
                assert(latin1(rest).skip(1) == latin1(rest.skip(1)));
                assert(latin1(rest)[0] == rest[0] as char);
            }
        }
        reader.feed(event, lines);
    }
    outcome(reader.finish())
}

/// Reads a block of lines from a text, as `read_lines` reads it from a
/// stream: the text is the stream, and ends where the stream would. Every
/// character counts as one byte.
pub fn read_text_lines(text: &str, lines: &mut Vec<String>, limit: Option<usize>) -> (res: Result<
    usize,
    Error,
>)
    ensures
        (res, texts(final(lines)@)) == lines_run(
            LinesState::start(limit),
            text@,
            texts(old(lines)@),
        ),
        res matches Ok(n) ==> n <= text@.len() && n <= ceiling(limit),
{
    let chars = to_chars(text);
    let mut reader = LinesReader::new(limit);
    let mut pos: usize = 0;
    let ghost start = LinesState::start(limit);
    let ghost before = texts(lines@);
    assert(chars@.skip(0) == chars@);
    while pos < chars.len() && reader.outcome.is_none()
        invariant
            pos <= chars@.len(),
            chars@ == text@,
            reader@.limit == limit,
            reader@.length <= pos,
            reader@.outcome is None ==> reader@.length == pos,
            reader@.length <= ceiling(limit),
            reader@.outcome matches Some(Ok(n)) ==> n == reader@.length,
            lines_run(start, text@, before) == lines_run(
                reader@,
                chars@.skip(pos as int),
                texts(lines@),
            ),
        decreases chars@.len() - pos,
    {
        let ghost rest = chars@.skip(pos as int);
        assert(rest.skip(1) == chars@.skip(pos + 1));
        reader.take(chars[pos], lines);
        pos += 1;
    }
    match reader.finish() {
        Some(res) => res,
        None => Ok(pos),
    }
}

/// What a message that has taken `length` characters under `limit` and
/// holds `lines` makes of the block `text`: how the reading ends, the
/// characters taken then, and the lines held then.
///
/// A message that is over its limit already reads nothing. Else the block is
/// read with the room that the limit leaves, as `lines_run` says. Where that
/// ends well, its characters are counted and its lines are added; else the
/// message stays as it was.
pub open spec fn block_read(
    length: usize,
    limit: Option<usize>,
    lines: Seq<Seq<char>>,
    text: Seq<char>,
) -> (Result<usize, Error>, usize, Seq<Seq<char>>) {
    match room_under(limit, length) {
        None => (Err(Error::SizeLimitExceeded(ceiling(limit))), length, lines),
        Some(r) => {
            let run = lines_run(LinesState::start(Some(r)), text, Seq::empty());
            match run.0 {
                Ok(n) => (Ok(n), (length + n) as usize, lines + run.1),
                Err(_) => (under_limit(run.0, limit), length, lines),
            }
        },
    }
}

/// Adds the lines of a block that was read to a message, and counts its
/// characters. A count that the machine cannot hold stays at the largest that
/// it can.
pub fn add_block(
    length: &mut usize,
    lines: &mut Vec<String>,
    count: usize,
    block: Vec<String>,
)
    ensures
        *final(length) == if *old(length) + count <= usize::MAX {
            *old(length) + count
        } else {
            usize::MAX as int
        },
        texts(final(lines)@) == texts(old(lines)@) + texts(block@),
{
    let ghost before = lines@;
    let mut more = block;
    lines.append(&mut more);
    assert(texts(before + block@) == texts(before) + texts(block@));
    *length = if count <= usize::MAX - *length {
        *length + count
    } else {
        usize::MAX
    };
}

/// What a message that has taken `length` characters under `limit` and
/// holds `lines` makes of a block that was read in the room that the limit
/// left, with the result `res` and the lines `block`: the result in terms of
/// the limit, the characters taken then, and the lines held then. The
/// characters are counted and the lines added where the reading ended well.
pub open spec fn block_settled(
    length: usize,
    limit: Option<usize>,
    lines: Seq<Seq<char>>,
    res: Result<usize, Error>,
    block: Seq<Seq<char>>,
) -> (Result<usize, Error>, usize, Seq<Seq<char>>) {
    match res {
        Ok(n) => (
            res,
            if length + n <= usize::MAX {
                (length + n) as usize
            } else {
                usize::MAX
            },
            lines + block,
        ),
        Err(_) => (under_limit(res, limit), length, lines),
    }
}

/// Takes a block that was read into a message, as `block_settled` says.
pub fn settle_block(
    length: &mut usize,
    limit: Option<usize>,
    lines: &mut Vec<String>,
    res: Result<usize, Error>,
    block: Vec<String>,
) -> (named: Result<usize, Error>)
    ensures
        (named, *final(length), texts(final(lines)@)) == block_settled(
            *old(length),
            limit,
            texts(old(lines)@),
            res,
            texts(block@),
        ),
{
    match res {
        Ok(n) => {
            add_block(length, lines, n, block);
            Ok(n)
        },
        Err(e) => name_limit(Err(e), limit),
    }
}

/// Reads a block of lines from a stream held in memory into a message, as
/// `block_read` says, every byte one character.
pub fn read_block(
    input: &[u8],
    length: &mut usize,
    limit: Option<usize>,
    lines: &mut Vec<String>,
) -> (res: Result<usize, Error>)
    ensures
        (res, *final(length), texts(final(lines)@)) == block_read(
            *old(length),
            limit,
            texts(old(lines)@),
            latin1(input@),
        ),
{
    match room(limit, *length) {
        Err(e) => Err(e),
        Ok(r) => {
            let mut block: Vec<String> = Vec::new();
            assert(texts(block@) == Seq::<Seq<char>>::empty());
            let res = read_lines(input, &mut block, Some(r));
            settle_block(length, limit, lines, res, block)
        },
    }
}

/// Reads a block of lines from a text into a message, as `block_read` says.
pub fn read_text_block(
    text: &str,
    length: &mut usize,
    limit: Option<usize>,
    lines: &mut Vec<String>,
) -> (res: Result<usize, Error>)
    ensures
        (res, *final(length), texts(final(lines)@)) == block_read(
            *old(length),
            limit,
            texts(old(lines)@),
            text@,
        ),
{
    match room(limit, *length) {
        Err(e) => Err(e),
        Ok(r) => {
            let mut block: Vec<String> = Vec::new();
            assert(texts(block@) == Seq::<Seq<char>>::empty());
            let res = read_text_lines(text, &mut block, Some(r));
            settle_block(length, limit, lines, res, block)
        },
    }
}

} // verus!
