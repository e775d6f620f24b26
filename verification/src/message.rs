//! The lines of a message head as text: how a start line falls into fields,
//! a header line into name and value, and how lines make a message.

use vstd::prelude::*;
use crate::errors::Error;
use crate::head::texts;
use crate::headers::{put_pair, Headers, Pair};
use crate::text::{
    find, lemma_first_at, position, push_char, string_from_chars, to_chars,
};

verus! {

/// A space.
pub open spec fn space() -> Seq<char> {
    seq![' ']
}

/// What stands between the name and the value of a header: a colon and a
/// space.
pub open spec fn separator() -> Seq<char> {
    seq![':', ' ']
}

/// The end of a line: a carriage return and a line feed.
pub open spec fn line_end() -> Seq<char> {
    seq!['\r', '\n']
}

/// The version of a request line that names none.
pub open spec fn http09() -> Seq<char> {
    "HTTP/0.9"@
}

/// The versions that a start line may name.
pub open spec fn known_version(version: Seq<char>) -> bool {
    version == "HTTP/1.0"@ || version == "HTTP/1.1"@
}

/// The text of a string that may not be there.
pub open spec fn text_of(s: Option<String>) -> Option<Seq<char>> {
    match s {
        Some(t) => Some(t@),
        None => None,
    }
}

/// The room that a limit on a whole message leaves for its headers when the
/// start line took `length` bytes: what is left of the limit, and nothing
/// where more than the limit is taken already.
pub open spec fn headers_room(limit: Option<usize>, length: usize) -> Option<usize> {
    match limit {
        Some(l) => Some(
            if length <= l {
                (l - length) as usize
            } else {
                0
            },
        ),
        None => None,
    }
}

/// The fields of a start line: what stands before the first space, what
/// stands between the first and the second, and all that follows the second.
/// A line without a space is one field, a line with one space two.
pub open spec fn fields(line: Seq<char>) -> Seq<Seq<char>> {
    let i = position(line, space());
    if i < 0 {
        seq![line]
    } else {
        let rest = line.skip(i + 1);
        let j = position(rest, space());
        if j < 0 {
            seq![line.take(i), rest]
        } else {
            seq![line.take(i), rest.take(j), rest.skip(j + 1)]
        }
    }
}

/// The name and the value of a header line: what stands before the first
/// colon that a space follows, and what stands behind that space. A line
/// without the two has neither.
pub open spec fn split_header(line: Seq<char>) -> Option<Pair> {
    let i = position(line, separator());
    if i < 0 {
        None
    } else {
        Some((line.take(i), line.skip(i + 2)))
    }
}

/// The line of a header.
pub open spec fn header_line(pair: Pair) -> Seq<char> {
    pair.0 + separator() + pair.1
}

/// The lines of headers, in their order.
pub open spec fn header_lines(pairs: Seq<Pair>) -> Seq<Seq<char>> {
    pairs.map_values(|pair: Pair| header_line(pair))
}

/// The start line of three fields.
pub open spec fn head_line(first: Seq<char>, second: Seq<char>, third: Seq<char>) -> Seq<char> {
    first + space() + second + space() + third
}

/// Lines one behind the other, each with its line end.
pub open spec fn block_text(lines: Seq<Seq<char>>) -> Seq<char>
    decreases lines.len(),
{
    if lines.len() == 0 {
        Seq::empty()
    } else {
        block_text(lines.drop_last()) + lines.last() + line_end()
    }
}

/// The text of a message head: its lines, each with its line end, and the
/// empty line that ends the block.
pub open spec fn message_text(lines: Seq<Seq<char>>) -> Seq<char> {
    block_text(lines) + line_end()
}

/// The headers that the lines from place `from` on add to `pairs`, each line
/// read as `split_header` says, or nothing where a line is no header line.
/// Where `stop` is set, the first empty line ends the reading.
pub open spec fn parse_lines(lines: Seq<Seq<char>>, from: int, stop: bool, pairs: Seq<Pair>)
    -> Option<Seq<Pair>>
    decreases lines.len() - from,
{
    if from < 0 || from >= lines.len() {
        Some(pairs)
    } else if stop && lines[from].len() == 0 {
        Some(pairs)
    } else {
        match split_header(lines[from]) {
            None => None,
            Some((name, value)) => parse_lines(lines, from + 1, stop, put_pair(pairs, name, value)),
        }
    }
}

/// The lines of a head with `line` as its start line: it takes the place of
/// the first line, or is the first where there is none.
pub open spec fn with_head_line(lines: Seq<Seq<char>>, line: Seq<char>) -> Seq<Seq<char>> {
    if lines.len() == 0 {
        seq![line]
    } else {
        lines.update(0, line)
    }
}

/// The lines of a head with the lines of `pairs` as its header lines: they
/// take the place of all lines behind the first. Where there is no first
/// line, an empty one stands for it.
pub open spec fn with_header_lines(lines: Seq<Seq<char>>, pairs: Seq<Pair>) -> Seq<Seq<char>> {
    seq![if lines.len() == 0 {
        Seq::empty()
    } else {
        lines[0]
    }] + header_lines(pairs)
}

/// The text of a string that may not be there.
pub open spec fn text_of_ref(s: Option<&String>) -> Option<Seq<char>> {
    match s {
        Some(t) => Some(t@),
        None => None,
    }
}

/// Cuts a start line into its fields.
pub fn split_fields(line: &str) -> (parts: Vec<String>)
    ensures
        texts(parts@) == fields(line@),
{
    let chars = to_chars(line);
    let blank: [char; 1] = [' '];
    assert(blank@ == space());
    let mut parts: Vec<String> = Vec::new();
    match find(chars.as_slice(), blank.as_slice(), 0) {
        None => {
            parts.push(string_from_chars(chars.as_slice(), 0, chars.len()));
            assert(chars@.subrange(0, chars@.len() as int) == line@);
            assert(texts(parts@) == seq![line@]);
        },
        Some(i) => {
            proof {
                lemma_first_at(line@, space(), 0);
                assert(space().len() == 1);
            }
            let n = chars.len();
            let rest = vstd::slice::slice_subrange(chars.as_slice(), i + 1, n);
            assert(rest@ == line@.skip(i + 1));
            parts.push(string_from_chars(chars.as_slice(), 0, i));
            match find(rest, blank.as_slice(), 0) {
                None => {
                    parts.push(string_from_chars(rest, 0, rest.len()));
                    assert(rest@.subrange(0, rest@.len() as int) == rest@);
                    assert(texts(parts@) == seq![line@.take(i as int), rest@]);
                },
                Some(j) => {
                    proof {
                        lemma_first_at(rest@, space(), 0);
                        assert(space().len() == 1);
                    }
                    let m = rest.len();
                    parts.push(string_from_chars(rest, 0, j));
                    parts.push(string_from_chars(rest, j + 1, m));
                    assert(rest@.subrange(j + 1, rest@.len() as int) == rest@.skip(j + 1));
                    assert(texts(parts@) == seq![
                        line@.take(i as int),
                        rest@.take(j as int),
                        rest@.skip(j + 1),
                    ]);
                },
            }
        },
    }
    parts
}

/// Cuts a header line into name and value.
pub fn split_pair(line: &str) -> (pair: Option<(String, String)>)
    ensures
        match pair {
            Some((name, value)) => split_header(line@) == Some((name@, value@)),
            None => split_header(line@) is None,
        },
{
    let chars = to_chars(line);
    let mark: [char; 2] = [':', ' '];
    assert(mark@ == separator());
    match find(chars.as_slice(), mark.as_slice(), 0) {
        None => None,
        Some(i) => {
            proof {
                lemma_first_at(line@, separator(), 0);
                assert(separator().len() == 2);
            }
            let n = chars.len();
            let name = string_from_chars(chars.as_slice(), 0, i);
            let value = string_from_chars(chars.as_slice(), i + 2, n);
            assert(chars@.subrange(i + 2, chars@.len() as int) == line@.skip(i + 2));
            Some((name, value))
        },
    }
}

/// Writes the line of a header.
pub fn join_pair(name: &str, value: &str) -> (line: String)
    ensures
        line@ == header_line((name@, value@)),
{
    let mut line = String::from_str(name);
    push_char(&mut line, ':');
    push_char(&mut line, ' ');
    line.append(value);
    assert(line@ == name@ + separator() + value@);
    line
}

/// Writes a start line of three fields.
pub fn join_fields(first: &str, second: &str, third: &str) -> (line: String)
    ensures
        line@ == head_line(first@, second@, third@),
{
    let mut line = String::from_str(first);
    push_char(&mut line, ' ');
    line.append(second);
    push_char(&mut line, ' ');
    line.append(third);
    assert(line@ == first@ + space() + second@ + space() + third@);
    line
}

/// Writes the text of a message head.
pub fn join_lines(lines: &Vec<String>) -> (text: String)
    ensures
        text@ == message_text(texts(lines@)),
{
    let mut text = String::new();
    let mut i: usize = 0;
    assert(texts(lines@).take(0) == Seq::<Seq<char>>::empty());
    while i < lines.len()
        invariant
            i <= lines@.len(),
            text@ == block_text(texts(lines@).take(i as int)),
        decreases lines@.len() - i,
    {
        let ghost before = text@;
        text.append(lines[i].as_str());
        push_char(&mut text, '\r');
        push_char(&mut text, '\n');
        i += 1;
        proof {
            let shorter = texts(lines@).take(i - 1);
            let longer = texts(lines@).take(i as int);
            assert(longer.drop_last() == shorter);
            assert(longer.last() == lines@[i - 1]@);
            assert(text@ == before + lines@[i - 1]@ + line_end());
        }
    }
    assert(texts(lines@).take(i as int) == texts(lines@));
    push_char(&mut text, '\r');
    push_char(&mut text, '\n');
    assert(text@ == block_text(texts(lines@)) + line_end());
    text
}

/// Reads the lines from place `from` on as headers and writes them into
/// `headers`, as `parse_lines` says. A line that is no header line is
/// `InvalidData`, and `headers` then stays as it was.
pub fn parse_header_lines(lines: &Vec<String>, from: usize, stop: bool, headers: &mut Headers)
    -> (res: Result<(), Error>)
    ensures
        match parse_lines(texts(lines@), from as int, stop, old(headers).pairs()) {
            Some(pairs) => res is Ok && final(headers).pairs() == pairs,
            None => res == Err::<(), Error>(Error::InvalidData) && final(headers).pairs() == old(
                headers,
            ).pairs(),
        },
{
    let mut found: Vec<(String, String)> = Vec::new();
    let mut i: usize = from;
    let ghost all = texts(lines@);
    // What the lines hold, or the first line that is no header line.
    while i < lines.len()
        invariant
            from <= i,
            all == texts(lines@),
            found@.len() == i - from,
            i <= lines@.len() || found@.len() == 0,
            forall|k: int|
                0 <= k < found@.len() ==> split_header(#[trigger] all[from + k]) == Some(
                    (found@[k].0@, found@[k].1@),
                ),
            forall|k: int| from <= k < i ==> !(stop && (#[trigger] all[k]).len() == 0),
        ensures
            from <= i,
            found@.len() == i - from,
            i <= lines@.len() || found@.len() == 0,
            forall|k: int|
                0 <= k < found@.len() ==> split_header(#[trigger] all[from + k]) == Some(
                    (found@[k].0@, found@[k].1@),
                ),
            forall|k: int| from <= k < i ==> !(stop && (#[trigger] all[k]).len() == 0),
            i >= lines@.len() || (stop && all[i as int].len() == 0),
        decreases lines@.len() - i,
    {
        if stop && lines[i].as_str().is_empty() {
            break ;
        }
        match split_pair(lines[i].as_str()) {
            None => {
                proof {
                    assert forall|k: int| from <= k < i implies split_header(
                        #[trigger] all[k],
                    ) is Some by {
                        assert(split_header(all[from + (k - from)]) is Some);
                    }
                    lemma_parse_lines_fails(all, from as int, i as int, stop, headers.pairs());
                }
                return Err(Error::InvalidData);
            },
            Some(pair) => {
                found.push(pair);
            },
        }
        i += 1;
    }
    let ghost before = headers.pairs();
    let ghost end = i as int;
    let mut k: usize = 0;
    while k < found.len()
        invariant
            k <= found@.len(),
            from <= end,
            found@.len() == end - from,
            end <= all.len() || found@.len() == 0,
            forall|j: int|
                0 <= j < found@.len() ==> split_header(#[trigger] all[from + j]) == Some(
                    (found@[j].0@, found@[j].1@),
                ),
            forall|j: int| from <= j < end ==> !(stop && (#[trigger] all[j]).len() == 0),
            end >= all.len() || (stop && all[end].len() == 0),
            parse_lines(all, from as int, stop, before) == parse_lines(
                all,
                from + k,
                stop,
                headers.pairs(),
            ),
        decreases found@.len() - k,
    {
        let ghost at = from + k;
        assert(split_header(all[at]) == Some((found@[k as int].0@, found@[k as int].1@)));
        assert(!(stop && all[at].len() == 0));
        let name = found[k].0.clone();
        let value = found[k].1.clone();
        headers.insert(name, value);
        k += 1;
    }
    Ok(())
}

/// Lines that hold a line which is no header line give no headers.
proof fn lemma_parse_lines_fails(
    lines: Seq<Seq<char>>,
    from: int,
    bad: int,
    stop: bool,
    pairs: Seq<Pair>,
)
    requires
        0 <= from <= bad < lines.len(),
        split_header(lines[bad]) is None,
        forall|k: int| from <= k <= bad ==> !(stop && (#[trigger] lines[k]).len() == 0),
        forall|k: int| from <= k < bad ==> split_header(#[trigger] lines[k]) is Some,
    ensures
        parse_lines(lines, from, stop, pairs) is None,
    decreases bad - from,
{
    if from < bad {
        let (name, value) = split_header(lines[from])->0;
        lemma_parse_lines_fails(lines, from + 1, bad, stop, put_pair(pairs, name, value));
    }
}

/// Writes the lines of the headers, in their order.
pub fn write_header_lines(headers: &Headers, lines: &mut Vec<String>)
    ensures
        texts(final(lines)@) == texts(old(lines)@) + header_lines(headers.pairs()),
{
    let n = headers.len();
    let mut i: usize = 0;
    let ghost before = texts(lines@);
    assert(before + header_lines(headers.pairs()).take(0) == before);
    while i < n
        invariant
            i <= n,
            n == headers.pairs().len(),
            texts(lines@) == before + header_lines(headers.pairs()).take(i as int),
        decreases n - i,
    {
        match headers.entry(i) {
            Some((name, value)) => {
                let line = join_pair(name.as_str(), value.as_str());
                let ghost held = lines@;
                lines.push(line);
                assert(texts(lines@) == texts(held).push(line@));
                assert(header_lines(headers.pairs()).take(i + 1) == header_lines(
                    headers.pairs(),
                ).take(i as int).push(line@));
            },
            None => {},
        }
        i += 1;
    }
    assert(header_lines(headers.pairs()).take(n as int) == header_lines(headers.pairs()));
}

} // verus!
