//! A message head that is written and read again is the same message head.

use vstd::prelude::*;
use crate::errors::Error;
use crate::headers::{distinct_names, lemma_name_index, name_index, put_pair, Pair};
use crate::limit::ceiling;
use crate::lines::{block_read, gain, lines_run, lines_take, LineStage, LinesState};
use crate::message::{
    block_text, fields, head_line, header_line, header_lines, known_version, line_end,
    message_text, parse_lines, separator, space, split_header, with_head_line, with_header_lines,
};
use crate::request::request_fields;
use crate::response::response_fields;
use crate::text::{
    decimal_text, first_at, latin1, lemma_decimal_round_trip, lemma_decimal_text,
    lemma_first_at, position,
};

verus! {

/// The text has no carriage return and no line feed.
pub open spec fn unbroken(text: Seq<char>) -> bool {
    forall|i: int| 0 <= i < text.len() ==> #[trigger] text[i] != '\r' && text[i] != '\n'
}

/// The text has no space.
pub open spec fn spaceless(text: Seq<char>) -> bool {
    forall|i: int| 0 <= i < text.len() ==> #[trigger] text[i] != ' '
}

/// A pattern that stands nowhere before the end of `before` is first found
/// behind it.
proof fn lemma_first_at_behind(
    before: Seq<char>,
    pattern: Seq<char>,
    behind: Seq<char>,
    from: int,
)
    requires
        0 <= from <= before.len(),
        forall|i: int|
            0 <= i < before.len() ==> #[trigger] (before + pattern + behind).subrange(
                i,
                i + pattern.len(),
            ) != pattern,
    ensures
        first_at(before + pattern + behind, pattern, from) == before.len(),
    decreases before.len() - from,
{
    let text = before + pattern + behind;
    if from < before.len() {
        assert(text.subrange(from, from + pattern.len()) != pattern);
        lemma_first_at_behind(before, pattern, behind, from + 1);
    } else {
        assert(text.subrange(from, from + pattern.len()) == pattern);
    }
}

/// The first space of a text that begins with a field without spaces, and a
/// space, is that space.
proof fn lemma_first_space(field: Seq<char>, behind: Seq<char>)
    requires
        spaceless(field),
    ensures
        position(field + space() + behind, space()) == field.len(),
{
    let text = field + space() + behind;
    assert forall|i: int| 0 <= i < field.len() implies #[trigger] text.subrange(
        i,
        i + space().len(),
    ) != space() by {
        assert(text.subrange(i, i + 1)[0] == field[i]);
        assert(space()[0] == ' ');
    }
    lemma_first_at_behind(field, space(), behind, 0);
}

/// A text without spaces holds no space.
proof fn lemma_no_space(text: Seq<char>, from: int)
    requires
        spaceless(text),
        0 <= from,
    ensures
        first_at(text, space(), from) == -1,
    decreases text.len() - from + 1,
{
    if from + 1 <= text.len() {
        assert(text.subrange(from, from + 1)[0] == text[from]);
        assert(space()[0] == ' ');
        lemma_no_space(text, from + 1);
    }
}

/// A start line of three fields, of which the first two have no space, falls
/// into these fields.
pub proof fn lemma_fields_of_head_line(first: Seq<char>, second: Seq<char>, third: Seq<char>)
    requires
        spaceless(first),
        spaceless(second),
    ensures
        fields(head_line(first, second, third)) == seq![first, second, third],
{
    let line = head_line(first, second, third);
    let rest = second + space() + third;
    assert(line == first + space() + rest);
    lemma_first_space(first, rest);
    assert(line.take(first.len() as int) == first);
    assert(line.skip((first.len() + 1) as int) == rest);
    lemma_first_space(second, third);
    assert(rest.take(second.len() as int) == second);
    assert(rest.skip((second.len() + 1) as int) == third);
}

/// The line of a header whose name holds no colon with a space behind it
/// falls into the name and the value.
pub proof fn lemma_split_header_line(name: Seq<char>, value: Seq<char>)
    requires
        position(name, separator()) < 0,
    ensures
        split_header(header_line((name, value))) == Some((name, value)),
{
    let line = name + separator() + value;
    assert(separator().len() == 2);
    assert forall|i: int| 0 <= i < name.len() implies #[trigger] line.subrange(
        i,
        i + separator().len(),
    ) != separator() by {
        if i + 2 <= name.len() {
            lemma_first_at(name, separator(), 0);
            assert(name.subrange(i, i + 2) != separator());
            assert(line.subrange(i, i + 2) == name.subrange(i, i + 2));
        } else {
            assert(line.subrange(i, i + 2)[1] == ':');
            assert(separator()[1] == ' ');
        }
    }
    lemma_first_at_behind(name, separator(), value, 0);
    assert(line.take(name.len() as int) == name);
    assert(line.skip((name.len() + 2) as int) == value);
}

/// The header lines of headers with distinct names, none of which holds a
/// colon with a space behind it, are read back as these headers.
proof fn lemma_parse_header_lines(head: Seq<char>, pairs: Seq<Pair>, stop: bool, done: int)
    requires
        distinct_names(pairs),
        forall|i: int| 0 <= i < pairs.len() ==> position((#[trigger] pairs[i]).0, separator()) < 0,
        0 <= done <= pairs.len(),
    ensures
        parse_lines(seq![head] + header_lines(pairs), 1 + done, stop, pairs.take(done)) == Some(
            pairs,
        ),
    decreases pairs.len() - done,
{
    let lines = seq![head] + header_lines(pairs);
    if done == pairs.len() {
        assert(pairs.take(done) == pairs);
    } else {
        let (name, value) = pairs[done];
        assert(lines[1 + done] == header_line(pairs[done]));
        lemma_split_header_line(name, value);
        assert(lines[1 + done].len() > 0) by {
            assert(separator().len() == 2);
        }
        let so_far = pairs.take(done);
        lemma_name_index(so_far, name);
        assert(name_index(so_far, name) < 0) by {
            if name_index(so_far, name) >= 0 {
                let k = name_index(so_far, name);
                assert(so_far[k] == pairs[k]);
                assert(pairs[k].0 != pairs[done].0);
            }
        }
        assert(put_pair(so_far, name, value) == pairs.take(done + 1));
        lemma_parse_header_lines(head, pairs, stop, done + 1);
    }
}

/// Lines with their line ends, from the first on.
proof fn lemma_block_text_front(lines: Seq<Seq<char>>)
    requires
        lines.len() > 0,
    ensures
        block_text(lines) == lines[0] + line_end() + block_text(lines.skip(1)),
    decreases lines.len(),
{
    if lines.len() == 1 {
        assert(lines.drop_last() == Seq::<Seq<char>>::empty());
        assert(lines.skip(1) == Seq::<Seq<char>>::empty());
        assert(block_text(lines.drop_last()) == Seq::<char>::empty());
        assert(block_text(lines) == Seq::<char>::empty() + lines[0] + line_end());
        assert(lines[0] + line_end() + Seq::<char>::empty() == Seq::<char>::empty() + lines[0]
            + line_end());
    } else {
        let shorter = lines.drop_last();
        lemma_block_text_front(shorter);
        assert(shorter[0] == lines[0]);
        assert(shorter.skip(1) == lines.skip(1).drop_last());
        assert(lines.skip(1).last() == lines.last());
        assert(block_text(lines.skip(1)) == block_text(lines.skip(1).drop_last()) + lines.last()
            + line_end());
        assert(lines[0] + line_end() + block_text(shorter.skip(1)) + lines.last() + line_end()
            == lines[0] + line_end() + (block_text(shorter.skip(1)) + lines.last() + line_end()));
    }
}

/// A reader takes the characters of a line without line end into the line.
proof fn lemma_line_taken(s: LinesState, line: Seq<char>, rest: Seq<char>, held: Seq<Seq<char>>)
    requires
        s.outcome is None,
        s.stage == LineStage::Text || s.stage == LineStage::Start,
        unbroken(line),
        s.length + line.len() <= ceiling(s.limit),
    ensures
        lines_run(s, line + rest, held) == lines_run(
            LinesState {
                stage: if line.len() > 0 {
                    LineStage::Text
                } else {
                    s.stage
                },
                line: s.line + line,
                length: (s.length + line.len()) as usize,
                ..s
            },
            rest,
            held,
        ),
    decreases line.len(),
{
    if line.len() == 0 {
        assert(line + rest == rest);
        assert(s.line + line == s.line);
    } else {
        let c = line[0];
        let text = line + rest;
        assert(text[0] == c);
        assert(c != '\r' && c != '\n');
        let next = LinesState {
            stage: LineStage::Text,
            line: s.line.push(c),
            length: (s.length + 1) as usize,
            ..s
        };
        assert(lines_take(s, c) == (next, None::<Seq<char>>));
        assert(text.skip(1) == line.skip(1) + rest);
        assert(lines_run(s, text, held) == lines_run(next, line.skip(1) + rest, held));
        assert(unbroken(line.skip(1))) by {
            assert forall|i: int| 0 <= i < line.skip(1).len() implies #[trigger] line.skip(1)[i]
                != '\r' && line.skip(1)[i] != '\n' by {
                assert(line.skip(1)[i] == line[i + 1]);
            }
        }
        lemma_line_taken(next, line.skip(1), rest, held);
        assert(next.line + line.skip(1) == s.line + line);
    }
}

/// A reader takes a line with its line end for a line.
proof fn lemma_line_read(s: LinesState, line: Seq<char>, rest: Seq<char>, held: Seq<Seq<char>>)
    requires
        s.outcome is None,
        s.line.len() == 0,
        s.stage == LineStage::Text || (s.stage == LineStage::Start && line.len() > 0),
        unbroken(line),
        s.length + line.len() + 2 <= ceiling(s.limit),
    ensures
        lines_run(s, line + line_end() + rest, held) == lines_run(
            LinesState {
                stage: LineStage::Start,
                line: Seq::empty(),
                length: (s.length + line.len() + 2) as usize,
                ..s
            },
            rest,
            held.push(line),
        ),
{
    let tail = line_end() + rest;
    assert(line + line_end() + rest == line + tail);
    lemma_line_taken(s, line, tail, held);
    assert(s.line + line == line);
    let in_line = LinesState {
        stage: LineStage::Text,
        line: line,
        length: (s.length + line.len()) as usize,
        ..s
    };
    assert(tail[0] == '\r');
    let at_end = LinesState {
        stage: LineStage::TextEnd,
        length: (in_line.length + 1) as usize,
        ..in_line
    };
    assert(lines_take(in_line, '\r') == (at_end, None::<Seq<char>>));
    let behind = tail.skip(1);
    assert(lines_run(in_line, tail, held) == lines_run(at_end, behind, held));
    assert(behind[0] == '\n');
    assert(behind.skip(1) == rest);
    let next = LinesState {
        stage: LineStage::Start,
        line: Seq::empty(),
        length: (at_end.length + 1) as usize,
        ..at_end
    };
    assert(lines_take(at_end, '\n') == (next, Some(line)));
    assert(gain(held, Some(line)) == held.push(line));
}

/// A reader takes lines with their line ends, and the empty line behind
/// them, for these lines.
proof fn lemma_block_read(s: LinesState, lines: Seq<Seq<char>>, held: Seq<Seq<char>>)
    requires
        s.outcome is None,
        s.line.len() == 0,
        s.stage == LineStage::Start,
        forall|i: int| 0 <= i < lines.len() ==> unbroken(#[trigger] lines[i]) && lines[i].len() > 0,
        s.length + message_text(lines).len() <= ceiling(s.limit),
    ensures
        lines_run(s, message_text(lines), held) == (
            Ok::<usize, Error>((s.length + message_text(lines).len()) as usize),
            held + lines,
        ),
    decreases lines.len(),
{
    if lines.len() == 0 {
        let text = message_text(lines);
        assert(text == line_end());
        assert(held + lines == held);
        let at_end = LinesState {
            stage: LineStage::BlockEnd,
            length: (s.length + 1) as usize,
            ..s
        };
        assert(text[0] == '\r');
        assert(lines_take(s, '\r') == (at_end, None::<Seq<char>>));
        let behind = text.skip(1);
        assert(lines_run(s, text, held) == lines_run(at_end, behind, held));
        assert(behind[0] == '\n');
        let done = LinesState { length: (at_end.length + 1) as usize, ..at_end }.end(
            Ok((at_end.length + 1) as usize),
        );
        assert(lines_take(at_end, '\n') == (done, None::<Seq<char>>));
        assert(lines_run(at_end, behind, held) == lines_run(done, behind.skip(1), held));
        assert(text.len() == 2);
    } else {
        let line = lines[0];
        let more = lines.skip(1);
        lemma_block_text_front(lines);
        let rest = message_text(more);
        assert(message_text(lines) == line + line_end() + rest);
        assert(message_text(lines).len() == line.len() + 2 + rest.len());
        lemma_line_read(s, line, rest, held);
        let next = LinesState {
            stage: LineStage::Start,
            line: Seq::empty(),
            length: (s.length + line.len() + 2) as usize,
            ..s
        };
        assert forall|i: int| 0 <= i < more.len() implies unbroken(#[trigger] more[i]) && more[i].len()
            > 0 by {
            assert(more[i] == lines[i + 1]);
        }
        lemma_block_read(next, more, held.push(line));
        assert(held.push(line) + more == held + lines);
    }
}

/// The text of a message head is read back as its lines, if no line is
/// broken, none but the first is empty, and the text is no longer than the
/// limit allows. All its characters are taken.
pub proof fn lemma_message_text_read(lines: Seq<Seq<char>>, limit: Option<usize>)
    requires
        lines.len() > 0,
        forall|i: int| 0 <= i < lines.len() ==> unbroken(#[trigger] lines[i]),
        forall|i: int| 1 <= i < lines.len() ==> (#[trigger] lines[i]).len() > 0,
        message_text(lines).len() <= ceiling(limit),
    ensures
        lines_run(LinesState::start(limit), message_text(lines), Seq::empty()) == (
            Ok::<usize, Error>(message_text(lines).len() as usize),
            lines,
        ),
{
    let s = LinesState::start(limit);
    let line = lines[0];
    let more = lines.skip(1);
    lemma_block_text_front(lines);
    let rest = message_text(more);
    assert(message_text(lines) == line + line_end() + rest);
    assert(message_text(lines).len() == line.len() + 2 + rest.len());
    let none = Seq::<Seq<char>>::empty();
    lemma_line_read(s, line, rest, none);
    let next = LinesState {
        stage: LineStage::Start,
        line: Seq::empty(),
        length: (line.len() + 2) as usize,
        ..s
    };
    assert forall|i: int| 0 <= i < more.len() implies unbroken(#[trigger] more[i]) && more[i].len()
        > 0 by {
        assert(more[i] == lines[i + 1]);
    }
    lemma_block_read(next, more, none.push(line));
    assert(none.push(line) + more == lines);
}

/// A version that a start line may name has no space and is not broken.
proof fn lemma_known_version(version: Seq<char>)
    requires
        known_version(version),
    ensures
        spaceless(version),
        unbroken(version),
{
    reveal_strlit("HTTP/1.0");
    reveal_strlit("HTTP/1.1");
}

/// A start line of unbroken fields is not broken.
proof fn lemma_head_line_unbroken(first: Seq<char>, second: Seq<char>, third: Seq<char>)
    requires
        unbroken(first),
        unbroken(second),
        unbroken(third),
    ensures
        unbroken(head_line(first, second, third)),
{
    let line = head_line(first, second, third);
    assert forall|i: int| 0 <= i < line.len() implies #[trigger] line[i] != '\r' && line[i]
        != '\n' by {
        if i < first.len() {
            assert(line[i] == first[i]);
        } else if i == first.len() {
            assert(line[i] == ' ');
        } else if i < first.len() + 1 + second.len() {
            assert(line[i] == second[i - first.len() - 1]);
        } else if i == first.len() + 1 + second.len() {
            assert(line[i] == ' ');
        } else {
            assert(line[i] == third[i - first.len() - second.len() - 2]);
        }
    }
}

/// The lines of headers with unbroken names and values are not broken, and
/// none is empty.
proof fn lemma_header_lines_unbroken(pairs: Seq<Pair>, i: int)
    requires
        0 <= i < pairs.len(),
        unbroken(pairs[i].0),
        unbroken(pairs[i].1),
    ensures
        unbroken(header_lines(pairs)[i]),
        header_lines(pairs)[i].len() > 0,
{
    let (name, value) = pairs[i];
    let line = header_lines(pairs)[i];
    assert(line == name + separator() + value);
    assert(separator().len() == 2);
    assert forall|k: int| 0 <= k < line.len() implies #[trigger] line[k] != '\r' && line[k]
        != '\n' by {
        if k < name.len() {
            assert(line[k] == name[k]);
        } else if k == name.len() {
            assert(line[k] == ':');
        } else if k == name.len() + 1 {
            assert(line[k] == ' ');
        } else {
            assert(line[k] == value[k - name.len() - 2]);
        }
    }
}

/// The text of a message head holds a line end.
proof fn lemma_message_text_has_line_end(lines: Seq<Seq<char>>)
    ensures
        position(message_text(lines), line_end()) >= 0,
{
    let text = message_text(lines);
    assert(line_end().len() == 2);
    lemma_first_at(text, line_end(), 0);
    let at = text.len() - 2;
    assert(text.subrange(at, at + 2) == line_end());
}

/// The bytes that encode a text of ASCII characters, read every byte one
/// character, are the text.
pub proof fn lemma_ascii_text_as_bytes(text: Seq<char>)
    requires
        vstd::utf8::is_ascii_chars(text),
    ensures
        latin1(vstd::utf8::encode_utf8(text)) == text,
{
    vstd::utf8::is_ascii_chars_encode_utf8(text);
    let bytes = vstd::utf8::encode_utf8(text);
    assert(bytes.len() == text.len());
    assert forall|i: int| 0 <= i < text.len() implies latin1(bytes)[i] == text[i] by {
        assert(bytes[i] == text[i] as u8);
        assert(0 <= text[i] as nat <= 127);
        assert((text[i] as u8) as char == text[i]);
    }
}

/// The lines of a head that was built: the start line, and a line for each
/// header.
pub open spec fn built_lines(head: Seq<char>, headers: Seq<Pair>) -> Seq<Seq<char>> {
    seq![head] + header_lines(headers)
}

/// Headers that can be written on lines and read again: the names are
/// distinct, no name holds a colon with a space behind it, and no name and no
/// value is broken.
pub open spec fn writable(headers: Seq<Pair>) -> bool {
    &&& distinct_names(headers)
    &&& forall|i: int|
        0 <= i < headers.len() ==> position((#[trigger] headers[i]).0, separator()) < 0
            && unbroken(headers[i].0) && unbroken(headers[i].1)
}

/// What is common to requests and responses: a head that was built, with an
/// unbroken start line and writable headers, is read back line by line, and
/// its header lines give back the headers.
proof fn lemma_head_round_trip(head: Seq<char>, headers: Seq<Pair>, stop: bool)
    requires
        unbroken(head),
        writable(headers),
        message_text(built_lines(head, headers)).len() <= usize::MAX,
    ensures
        ({
            let built = built_lines(head, headers);
            let text = message_text(built);
            &&& position(text, line_end()) >= 0
            &&& block_read(0, None, Seq::empty(), text) == (
                Ok::<usize, Error>(text.len() as usize),
                text.len() as usize,
                built,
            )
            &&& built[0] == head
            &&& parse_lines(built, 1, stop, Seq::empty()) == Some(headers)
        }),
{
    let built = built_lines(head, headers);
    let text = message_text(built);
    lemma_message_text_has_line_end(built);
    assert forall|i: int| 0 <= i < built.len() implies unbroken(#[trigger] built[i]) by {
        if i > 0 {
            lemma_header_lines_unbroken(headers, i - 1);
            assert(built[i] == header_lines(headers)[i - 1]);
        }
    }
    assert forall|i: int| 1 <= i < built.len() implies (#[trigger] built[i]).len() > 0 by {
        lemma_header_lines_unbroken(headers, i - 1);
        assert(built[i] == header_lines(headers)[i - 1]);
    }
    lemma_message_text_read(built, Some(usize::MAX));
    assert(Seq::<Seq<char>>::empty() + built == built);
    lemma_parse_header_lines(head, headers, stop, 0);
    assert(headers.take(0) == Seq::<Pair>::empty());
}

/// A request that is built and written is read and parsed as the same
/// request.
///
/// Take a method and a target without spaces, a version that a request line
/// may name, and writable headers, none of them broken by a carriage return
/// or a line feed. Let `build_head` and `build_headers` write the lines of a
/// request that has them, whatever `lines` it held before, and let
/// `to_string` write its text. Then a new request that reads this text with
/// `read_string` takes all of it and holds the same lines; `parse_head` finds
/// the method, the target and the version, and `parse_headers` the headers, in
/// their order. Where the text is ASCII, `read_stream` reads the same from
/// the bytes of `to_bytes`.
pub proof fn lemma_request_round_trip(
    method: Seq<char>,
    uri: Seq<char>,
    version: Seq<char>,
    headers: Seq<Pair>,
    lines: Seq<Seq<char>>,
)
    requires
        spaceless(method),
        unbroken(method),
        spaceless(uri),
        unbroken(uri),
        known_version(version),
        writable(headers),
        message_text(built_lines(head_line(method, uri, version), headers)).len() <= usize::MAX,
    ensures
        ({
            let head = head_line(method, uri, version);
            let built = with_header_lines(with_head_line(lines, head), headers);
            let text = message_text(built);
            &&& built == built_lines(head, headers)
            &&& position(text, line_end()) >= 0
            &&& block_read(0, None, Seq::empty(), text) == (
                Ok::<usize, Error>(text.len() as usize),
                text.len() as usize,
                built,
            )
            &&& request_fields(built[0]) == Some((method, uri, version))
            &&& parse_lines(built, 1, false, Seq::empty()) == Some(headers)
            &&& vstd::utf8::is_ascii_chars(text) ==> latin1(vstd::utf8::encode_utf8(text)) == text
        }),
{
    let head = head_line(method, uri, version);
    lemma_known_version(version);
    lemma_head_line_unbroken(method, uri, version);
    lemma_head_round_trip(head, headers, false);
    lemma_fields_of_head_line(method, uri, version);
    let text = message_text(built_lines(head, headers));
    if vstd::utf8::is_ascii_chars(text) {
        lemma_ascii_text_as_bytes(text);
    }
}

/// A response that is built and written is read and parsed as the same
/// response.
///
/// Take a version that a status line may name, a status, a reason that is
/// not broken by a carriage return or a line feed, and writable headers. Let
/// `build_head` and `build_headers` write the lines of a response that has
/// them, whatever `lines` it held before, and let `to_string` write its text.
/// Then a new response that reads this text with `read_string` takes all of
/// it and holds the same lines; `parse_head` finds the version, the status and
/// the reason, and `parse_headers` the headers, in their order. Where the text
/// is ASCII, `read_stream` reads the same from the bytes of `to_bytes`.
pub proof fn lemma_response_round_trip(
    version: Seq<char>,
    code: usize,
    message: Seq<char>,
    headers: Seq<Pair>,
    lines: Seq<Seq<char>>,
)
    requires
        known_version(version),
        unbroken(message),
        writable(headers),
        message_text(
            built_lines(head_line(version, decimal_text(code as nat), message), headers),
        ).len() <= usize::MAX,
    ensures
        ({
            let head = head_line(version, decimal_text(code as nat), message);
            let built = with_header_lines(with_head_line(lines, head), headers);
            let text = message_text(built);
            &&& built == built_lines(head, headers)
            &&& position(text, line_end()) >= 0
            &&& block_read(0, None, Seq::empty(), text) == (
                Ok::<usize, Error>(text.len() as usize),
                text.len() as usize,
                built,
            )
            &&& response_fields(built[0]) == Some((version, code, message))
            &&& parse_lines(built, 1, true, Seq::empty()) == Some(headers)
            &&& vstd::utf8::is_ascii_chars(text) ==> latin1(vstd::utf8::encode_utf8(text)) == text
        }),
{
    let status = decimal_text(code as nat);
    let head = head_line(version, status, message);
    lemma_known_version(version);
    lemma_decimal_text(code as nat);
    lemma_decimal_round_trip(code);
    assert(spaceless(status) && unbroken(status)) by {
        assert forall|i: int| 0 <= i < status.len() implies #[trigger] status[i] != ' '
            && status[i] != '\r' && status[i] != '\n' by {
            assert(48 <= status[i] as u32 <= 57);
        }
    }
    lemma_head_line_unbroken(version, status, message);
    lemma_head_round_trip(head, headers, true);
    lemma_fields_of_head_line(version, status, message);
    let text = message_text(built_lines(head, headers));
    if vstd::utf8::is_ascii_chars(text) {
        lemma_ascii_text_as_bytes(text);
    }
}

} // verus!
