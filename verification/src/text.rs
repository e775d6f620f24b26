//! Characters, strings and numbers: the small text tools that the readers and
//! the message types share.

use vstd::prelude::*;

verus! {

/// The text that a run of bytes stands for when every byte is one character.
pub open spec fn latin1(bytes: Seq<u8>) -> Seq<char> {
    bytes.map_values(|b: u8| b as char)
}

/// `String::push` of std: the character is added at the end, and nothing else
/// changes. Verus takes this on trust.
#[verifier::external_body]
pub(crate) fn push_char(s: &mut String, c: char)
    ensures
        final(s)@ == old(s)@.push(c),
{
    s.push(c)
}

/// The characters of a string, in order.
pub fn to_chars(s: &str) -> (v: Vec<char>)
    ensures
        v@ == s@,
{
    let mut v: Vec<char> = Vec::new();
    for c in it: s.chars()
        invariant
            v@ == it.seq().take(it.index()),
    {
        v.push(c);
    }
    v
}

/// The string made of the characters `chars[from..to]`.
pub(crate) fn string_from_chars(chars: &[char], from: usize, to: usize) -> (s: String)
    requires
        from <= to <= chars@.len(),
    ensures
        s@ == chars@.subrange(from as int, to as int),
{
    let mut s = String::new();
    let mut i: usize = from;
    while i < to
        invariant
            from <= i <= to <= chars@.len(),
            s@ == chars@.subrange(from as int, i as int),
        decreases to - i,
    {
        push_char(&mut s, chars[i]);
        i += 1;
    }
    s
}

/// Whether two slices of bytes hold the same bytes.
pub fn bytes_eq(a: &[u8], b: &[u8]) -> (same: bool)
    ensures
        same == (a@ == b@),
{
    if a.len() != b.len() {
        return false;
    }
    let mut i: usize = 0;
    while i < a.len()
        invariant
            a@.len() == b@.len(),
            i <= a@.len(),
            a@.subrange(0, i as int) == b@.subrange(0, i as int),
        decreases a@.len() - i,
    {
        if a[i] != b[i] {
            return false;
        }
        i += 1;
        assert(a@.subrange(0, i as int) == a@.subrange(0, i - 1).push(a@[i - 1]));
        assert(b@.subrange(0, i as int) == b@.subrange(0, i - 1).push(b@[i - 1]));
    }
    assert(a@.subrange(0, i as int) == a@);
    assert(b@.subrange(0, i as int) == b@);
    true
}

/// Whether two strings hold the same characters.
pub fn str_eq(a: &str, b: &str) -> (same: bool)
    ensures
        same == (a@ == b@),
{
    let same = bytes_eq(a.as_bytes(), b.as_bytes());
    proof {
        // Two texts with the same encoding are the same text.
        vstd::utf8::encode_utf8_decode_utf8(a@);
        vstd::utf8::encode_utf8_decode_utf8(b@);
    }
    same
}

/// What a character is worth as a digit of a number written to the base
/// `radix`, if it is one: `0` to `9`, then `a` to `f` in either case.
pub open spec fn digit(c: char, radix: u32) -> Option<u32> {
    let u = c as u32;
    let d: u32 = if 48 <= u <= 57 {
        (u - 48) as u32
    } else if 97 <= u <= 102 {
        (u - 87) as u32
    } else if 65 <= u <= 70 {
        (u - 55) as u32
    } else {
        255u32
    };
    if d < radix {
        Some(d)
    } else {
        None
    }
}

/// Every character is a digit to the base `radix`.
pub open spec fn all_digits(s: Seq<char>, radix: u32) -> bool {
    forall|i: int| 0 <= i < s.len() ==> digit(#[trigger] s[i], radix) is Some
}

/// The number that digits stand for, the first digit weighing most.
pub open spec fn number(s: Seq<char>, radix: u32) -> nat
    decreases s.len(),
{
    if s.len() == 0 {
        0
    } else {
        number(s.drop_last(), radix) * (radix as nat) + match digit(s.last(), radix) {
            Some(d) => d as nat,
            None => 0,
        }
    }
}

/// The number that a text stands for: it has one digit or more, nothing but
/// digits to a base from 2 to 16, and is `most` at most. Else there is none.
pub open spec fn parsed(s: Seq<char>, radix: u32, most: usize) -> Option<usize> {
    if 2 <= radix <= 16 && s.len() > 0 && all_digits(s, radix) && number(s, radix) <= most {
        Some(number(s, radix) as usize)
    } else {
        None
    }
}

/// The first digits of a number stand for a number that is no larger.
pub proof fn lemma_number_grows(s: Seq<char>, radix: u32, k: int)
    requires
        1 <= radix,
        0 <= k <= s.len(),
    ensures
        number(s.take(k), radix) <= number(s, radix),
    decreases s.len() - k,
{
    if k < s.len() {
        lemma_number_grows(s, radix, k + 1);
        let longer = s.take(k + 1);
        assert(longer.drop_last() == s.take(k));
        let shorter = number(s.take(k), radix);
        assert(shorter <= shorter * (radix as nat)) by (nonlinear_arith)
            requires
                1 <= radix,
        ;
    } else {
        assert(s.take(k) == s);
    }
}

/// Reads a number written to the base `radix` that may be `most` at most.
pub fn parse_number(chars: &[char], radix: u32, most: usize) -> (n: Option<usize>)
    ensures
        n == parsed(chars@, radix, most),
{
    if radix < 2 || radix > 16 || chars.len() == 0 {
        return None;
    }
    let mut acc: usize = 0;
    let mut i: usize = 0;
    while i < chars.len()
        invariant
            2 <= radix <= 16,
            i <= chars@.len(),
            all_digits(chars@.take(i as int), radix),
            acc == number(chars@.take(i as int), radix),
            acc <= most,
        decreases chars@.len() - i,
    {
        let u = chars[i] as u32;
        let d: u32 = if 48 <= u && u <= 57 {
            u - 48
        } else if 97 <= u && u <= 102 {
            u - 87
        } else if 65 <= u && u <= 70 {
            u - 55
        } else {
            255
        };
        if d >= radix {
            assert(!all_digits(chars@, radix)) by {
                assert(digit(chars@[i as int], radix) is None);
            }
            return None;
        }
        let ghost shorter = chars@.take(i as int);
        let ghost longer = chars@.take(i + 1);
        assert(longer.drop_last() == shorter);
        assert(longer.last() == chars@[i as int]);
        assert(all_digits(longer, radix)) by {
            assert forall|j: int| 0 <= j < longer.len() implies digit(
                #[trigger] longer[j],
                radix,
            ) is Some by {
                if j < i {
                    assert(shorter[j] == longer[j]);
                }
            }
        }
        assert((acc as u128) * (radix as u128) <= 0xffff_ffff_ffff_ffff * 16) by (nonlinear_arith)
            requires
                acc <= 0xffff_ffff_ffff_ffff,
                radix <= 16,
        ;
        let wide: u128 = (acc as u128) * (radix as u128) + (d as u128);
        assert(wide == number(longer, radix));
        if wide > most as u128 {
            proof {
                if all_digits(chars@, radix) {
                    lemma_number_grows(chars@, radix, i + 1);
                }
            }
            return None;
        }
        acc = wide as usize;
        i += 1;
    }
    assert(chars@.take(i as int) == chars@);
    Some(acc)
}

/// The number that a text in decimal stands for: a plus sign, or none, and
/// then digits as `parsed` says, with the largest count as the most.
pub open spec fn decimal(s: Seq<char>) -> Option<usize> {
    if s.len() > 0 && s[0] == '+' {
        parsed(s.skip(1), 10, usize::MAX)
    } else {
        parsed(s, 10, usize::MAX)
    }
}

/// Reads a count written in decimal.
pub fn parse_decimal(s: &str) -> (n: Option<usize>)
    ensures
        n == decimal(s@),
{
    let chars = to_chars(s);
    if chars.len() > 0 && chars[0] == '+' {
        let digits = vstd::slice::slice_subrange(chars.as_slice(), 1, chars.len());
        assert(digits@ == s@.skip(1));
        parse_number(digits, 10, usize::MAX)
    } else {
        parse_number(chars.as_slice(), 10, usize::MAX)
    }
}

/// The first place at or behind `from` where `pattern` stands in `text`, or
/// -1 where it stands nowhere from there on.
pub open spec fn first_at(text: Seq<char>, pattern: Seq<char>, from: int) -> int
    decreases text.len() - from + 1,
{
    if from < 0 || from + pattern.len() > text.len() {
        -1
    } else if text.subrange(from, from + pattern.len()) == pattern {
        from
    } else {
        first_at(text, pattern, from + 1)
    }
}

/// The first place where `pattern` stands in `text`, or -1.
pub open spec fn position(text: Seq<char>, pattern: Seq<char>) -> int {
    first_at(text, pattern, 0)
}

/// What `first_at` finds is the first place, and -1 means that there is none.
pub proof fn lemma_first_at(text: Seq<char>, pattern: Seq<char>, from: int)
    requires
        0 <= from,
    ensures
        first_at(text, pattern, from) == -1 || (from <= first_at(text, pattern, from)
            && first_at(text, pattern, from) + pattern.len() <= text.len()),
        first_at(text, pattern, from) >= 0 ==> text.subrange(
            first_at(text, pattern, from),
            first_at(text, pattern, from) + pattern.len(),
        ) == pattern,
        forall|i: int|
            from <= i && i + pattern.len() <= text.len() && (first_at(text, pattern, from) < 0 || i
                < first_at(text, pattern, from)) ==> #[trigger] text.subrange(
                i,
                i + pattern.len(),
            ) != pattern,
    decreases text.len() - from + 1,
{
    if from + pattern.len() <= text.len() && text.subrange(from, from + pattern.len()) != pattern {
        lemma_first_at(text, pattern, from + 1);
    }
}

/// Whether `pattern` stands in `chars` from place `at` on.
fn stands_at(chars: &[char], pattern: &[char], at: usize) -> (found: bool)
    requires
        at + pattern@.len() <= chars@.len(),
    ensures
        found == (chars@.subrange(at as int, at + pattern@.len()) == pattern@),
{
    let mut k: usize = 0;
    assert(chars@.len() == chars.len());
    while k < pattern.len()
        invariant
            at + pattern@.len() <= chars@.len() <= usize::MAX,
            k <= pattern@.len(),
            forall|j: int| 0 <= j < k ==> chars@[at + j] == pattern@[j],
        decreases pattern@.len() - k,
    {
        if chars[at + k] != pattern[k] {
            assert(chars@.subrange(at as int, at + pattern@.len())[k as int] != pattern@[k as int]);
            return false;
        }
        k += 1;
    }
    assert(chars@.subrange(at as int, at + pattern@.len()) == pattern@);
    true
}

/// Finds the first place at or behind `from` where `pattern` stands in
/// `chars`.
pub fn find(chars: &[char], pattern: &[char], from: usize) -> (at: Option<usize>)
    ensures
        match at {
            Some(i) => i == first_at(chars@, pattern@, from as int),
            None => first_at(chars@, pattern@, from as int) == -1,
        },
{
    if pattern.len() > chars.len() || from > chars.len() - pattern.len() {
        return None;
    }
    if pattern.len() == 0 {
        assert(chars@.subrange(from as int, from as int) == pattern@);
        return Some(from);
    }
    let last = chars.len() - pattern.len();
    let mut i: usize = from;
    while i <= last
        invariant
            pattern@.len() > 0,
            last + pattern@.len() == chars@.len() <= usize::MAX,
            from <= i <= last + 1,
            first_at(chars@, pattern@, from as int) == first_at(chars@, pattern@, i as int),
        decreases last + 1 - i,
    {
        if stands_at(chars, pattern, i) {
            return Some(i);
        }
        i += 1;
    }
    None
}

/// Whether `pattern` stands somewhere in `text`.
pub fn contains(text: &str, pattern: &str) -> (found: bool)
    ensures
        found == (position(text@, pattern@) >= 0),
{
    let chars = to_chars(text);
    let wanted = to_chars(pattern);
    find(chars.as_slice(), wanted.as_slice(), 0).is_some()
}

/// The character of a decimal digit.
pub open spec fn digit_char(d: nat) -> char {
    ((48 + d) as u8) as char
}

/// A count written in decimal, without a sign and without leading zeros.
pub open spec fn decimal_text(n: nat) -> Seq<char>
    decreases n,
{
    if n < 10 {
        seq![digit_char(n)]
    } else {
        decimal_text(n / 10).push(digit_char(n % 10))
    }
}

/// A count written in decimal is read back as that count, and holds nothing
/// but digits.
pub proof fn lemma_decimal_text(n: nat)
    ensures
        decimal_text(n).len() > 0,
        all_digits(decimal_text(n), 10),
        number(decimal_text(n), 10) == n,
        forall|i: int|
            0 <= i < decimal_text(n).len() ==> 48 <= (#[trigger] decimal_text(n)[i]) as u32 <= 57,
    decreases n,
{
    let text = decimal_text(n);
    if n < 10 {
        assert(digit(digit_char(n), 10) == Some(n as u32));
        assert(text.drop_last() == Seq::<char>::empty());
        assert(number(text.drop_last(), 10) == 0);
    } else {
        lemma_decimal_text(n / 10);
        let d = n % 10;
        assert(digit(digit_char(d), 10) == Some(d as u32));
        assert(text.drop_last() == decimal_text(n / 10));
        assert(text.last() == digit_char(d));
        assert forall|i: int| 0 <= i < text.len() implies digit(#[trigger] text[i], 10) is Some by {
            if i < text.len() - 1 {
                assert(text[i] == decimal_text(n / 10)[i]);
            }
        }
        assert forall|i: int| 0 <= i < text.len() implies 48 <= (#[trigger] text[i]) as u32
            <= 57 by {
            if i < text.len() - 1 {
                assert(text[i] == decimal_text(n / 10)[i]);
            }
        }
    }
}

/// A count in decimal is a count that fits, read back.
pub proof fn lemma_decimal_round_trip(n: usize)
    ensures
        decimal(decimal_text(n as nat)) == Some(n),
{
    lemma_decimal_text(n as nat);
    let text = decimal_text(n as nat);
    assert(text[0] as u32 != 43);
    assert('+' as u32 == 43);
}

/// Writes a count in decimal at the end of `text`.
fn write_decimal(n: usize, text: &mut String)
    ensures
        final(text)@ == old(text)@ + decimal_text(n as nat),
    decreases n,
{
    if n >= 10 {
        write_decimal(n / 10, text);
    }
    let d: u8 = (n % 10) as u8;
    push_char(text, (48 + d) as char);
    proof {
        if n < 10 {
            assert(old(text)@.push(digit_char(n as nat)) == old(text)@ + seq![digit_char(n as nat)]);
        } else {
            assert((old(text)@ + decimal_text((n / 10) as nat)).push(digit_char((n % 10) as nat))
                == old(text)@ + decimal_text((n / 10) as nat).push(digit_char((n % 10) as nat)));
        }
    }
}

/// Writes a count in decimal.
pub fn format_decimal(n: usize) -> (text: String)
    ensures
        text@ == decimal_text(n as nat),
{
    let mut text = String::new();
    write_decimal(n, &mut text);
    assert(Seq::<char>::empty() + decimal_text(n as nat) == decimal_text(n as nat));
    text
}

} // verus!
