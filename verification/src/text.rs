//! Text helpers shared by the front end and the engine: conversions between
//! bytes, characters and strings, decimal rendering and parsing, trimming.

use vstd::prelude::*;

verus! {

/// The text that a run of tape bytes stands for: every byte is one character
/// with the same code point.
pub open spec fn chars_of(bytes: Seq<u8>) -> Seq<char> {
    Seq::new(bytes.len(), |i: int| bytes[i] as char)
}

/// Whether `std`'s `char::is_whitespace` holds of a character.
pub uninterp spec fn char_is_whitespace(c: char) -> bool;

/// Whether `std`'s `char::is_numeric` holds of a character.
pub uninterp spec fn char_is_numeric(c: char) -> bool;

/// Whether `std`'s `char::is_alphabetic` holds of a character.
pub uninterp spec fn char_is_alphabetic(c: char) -> bool;

/// Calls `String::push`, which appends one character to the end of the string.
#[verifier::external_body]
pub(crate) fn push_char(text: &mut String, c: char)
    ensures
        final(text)@ == old(text)@.push(c),
{
    text.push(c)
}

/// Calls `char::is_whitespace`; the answer depends on the character alone and
/// is known to the proofs only by name.
#[verifier::external_body]
pub(crate) fn is_whitespace(c: char) -> (r: bool)
    ensures
        r == char_is_whitespace(c),
{
    c.is_whitespace()
}

/// Calls `char::is_numeric`; the answer depends on the character alone and is
/// known to the proofs only by name.
#[verifier::external_body]
pub(crate) fn is_numeric(c: char) -> (r: bool)
    ensures
        r == char_is_numeric(c),
{
    c.is_numeric()
}

/// Calls `char::is_alphabetic`; the answer depends on the character alone and
/// is known to the proofs only by name.
#[verifier::external_body]
pub(crate) fn is_alphabetic(c: char) -> (r: bool)
    ensures
        r == char_is_alphabetic(c),
{
    c.is_alphabetic()
}

/// Whether a string is the given text.
pub fn is_text(s: &String, text: &str) -> (r: bool)
    ensures
        r == (s@ == text@),
{
    let other = String::from_str(text);
    *s == other
}

/// Builds a string from a stretch of characters.
pub fn string_from_chars(chars: &Vec<char>, start: usize, end: usize) -> (text: String)
    requires
        start <= end <= chars.len(),
    ensures
        text@ == chars@.subrange(start as int, end as int),
{
    let mut text = String::new();
    let mut i: usize = start;
    while i < end
        invariant
            start <= i <= end <= chars.len(),
            text@ == chars@.subrange(start as int, i as int),
        decreases end - i,
    {
        push_char(&mut text, chars[i]);
        i = i + 1;
        assert(text@ =~= chars@.subrange(start as int, i as int));
    }
    text
}

/// Builds the string that a run of tape bytes stands for.
pub fn string_from_bytes(bytes: &Vec<u8>) -> (text: String)
    ensures
        text@ == chars_of(bytes@),
{
    let mut text = String::new();
    let mut i: usize = 0;
    while i < bytes.len()
        invariant
            i <= bytes.len(),
            text@ == chars_of(bytes@.take(i as int)),
        decreases bytes.len() - i,
    {
        push_char(&mut text, bytes[i] as char);
        i = i + 1;
        assert(text@ =~= chars_of(bytes@.take(i as int)));
    }
    assert(bytes@.take(bytes.len() as int) =~= bytes@);
    text
}

/// The characters of a string, in order.
pub fn string_chars(text: &String) -> (chars: Vec<char>)
    ensures
        chars@ == text@,
{
    let mut chars: Vec<char> = Vec::new();
    for c in it: text.as_str().chars()
        invariant
            it.seq() == text@,
            chars@ == it.seq().take(it.index()),
    {
        chars.push(c);
        assert(chars@ =~= it.seq().take(it.index() + 1));
    }
    assert(chars@ =~= text@);
    chars
}

/// The decimal digit character for `d`, where `0 <= d <= 9`.
pub open spec fn digit_char(d: int) -> char {
    ((48 + d) as u8) as char
}

/// The decimal digits of a natural number, most significant first, without
/// leading zeros.
pub open spec fn digits_of(n: nat) -> Seq<char>
    decreases n,
{
    if n < 10 {
        seq![digit_char(n as int)]
    } else {
        digits_of(n / 10).push(digit_char((n % 10) as int))
    }
}

/// The decimal text of an integer: a minus sign for negative numbers, then
/// the digits of its magnitude.
pub open spec fn decimal(v: int) -> Seq<char> {
    if v < 0 {
        seq!['-'] + digits_of((-v) as nat)
    } else {
        digits_of(v as nat)
    }
}

/// A sequence read back to front.
pub open spec fn backwards(s: Seq<char>) -> Seq<char> {
    Seq::new(s.len(), |i: int| s[s.len() - 1 - i])
}

/// Renders a 32-bit integer as decimal text.
pub fn int_to_string(value: i32) -> (text: String)
    ensures
        text@ == decimal(value as int),
{
    let negative = value < 0;
    let magnitude: u32 = if negative {
        (-(value as i64)) as u32
    } else {
        value as u32
    };
    let mut rest: u32 = magnitude / 10;
    let mut reversed: Vec<char> = Vec::new();
    reversed.push(((48 + magnitude % 10) as u8) as char);
    assert(digits_of(magnitude as nat) =~= (if rest > 0 {
        digits_of(rest as nat)
    } else {
        Seq::<char>::empty()
    }) + backwards(reversed@));
    while rest > 0
        invariant
            reversed@.len() > 0,
            digits_of(magnitude as nat) == (if rest > 0 {
                digits_of(rest as nat)
            } else {
                Seq::<char>::empty()
            }) + backwards(reversed@),
        decreases rest,
    {
        let ghost before = reversed@;
        let ghost old_rest = rest;
        reversed.push(((48 + rest % 10) as u8) as char);
        rest = rest / 10;
        assert(digits_of(old_rest as nat) + backwards(before) =~= (if rest > 0 {
            digits_of(rest as nat)
        } else {
            Seq::<char>::empty()
        }) + backwards(reversed@));
    }
    let mut text = String::new();
    if negative {
        push_char(&mut text, '-');
    }
    let ghost sign = text@;
    let mut left: usize = reversed.len();
    while left > 0
        invariant
            left <= reversed.len(),
            text@ == sign + backwards(reversed@).take(reversed.len() - left),
        decreases left,
    {
        left = left - 1;
        push_char(&mut text, reversed[left]);
        assert(text@ =~= sign + backwards(reversed@).take(reversed.len() - left));
    }
    assert(backwards(reversed@).take(reversed.len() as int) =~= backwards(reversed@));
    assert(digits_of(magnitude as nat) =~= backwards(reversed@));
    text
}

/// Whether a character is one of the ten decimal digits.
pub open spec fn is_digit(c: char) -> bool {
    48 <= c as u32 <= 57
}

/// The value of a decimal digit character.
pub open spec fn digit_value(c: char) -> int {
    (c as u32) as int - 48
}

/// Whether every character of a text is a decimal digit.
pub open spec fn all_digits(s: Seq<char>) -> bool {
    forall|i: int| 0 <= i < s.len() ==> is_digit(#[trigger] s[i])
}

/// The number that a run of decimal digits writes.
pub open spec fn digits_value(s: Seq<char>) -> int
    decreases s.len(),
{
    if s.len() == 0 {
        0
    } else {
        digits_value(s.drop_last()) * 10 + digit_value(s.last())
    }
}

/// Whether a text opens with a plus or a minus sign.
pub open spec fn has_sign(s: Seq<char>) -> bool {
    s.len() > 0 && (s[0] == '-' || s[0] == '+')
}

/// The 32-bit integer that a text writes in decimal: an optional sign, then at
/// least one digit and nothing else, with a value that fits in 32 bits.
/// `None` for every other text.
pub open spec fn parse_int(s: Seq<char>) -> Option<i32> {
    let body = if has_sign(s) {
        s.subrange(1, s.len() as int)
    } else {
        s
    };
    let value = if has_sign(s) && s[0] == '-' {
        -digits_value(body)
    } else {
        digits_value(body)
    };
    if body.len() == 0 || !all_digits(body) || value < i32::MIN || value > i32::MAX {
        None
    } else {
        Some(value as i32)
    }
}

/// A run of digits is worth at least as much as any of its prefixes.
pub proof fn lemma_digits_value_grows(s: Seq<char>, k: int)
    requires
        all_digits(s),
        0 <= k <= s.len(),
    ensures
        0 <= digits_value(s.take(k)) <= digits_value(s),
    decreases s.len(),
{
    if s.len() == 0 {
        assert(s.take(k) =~= s);
    } else if k == s.len() {
        assert(s.take(k) =~= s);
        lemma_digits_value_grows(s.drop_last(), k - 1);
        assert(is_digit(s[s.len() - 1]));
    } else {
        lemma_digits_value_grows(s.drop_last(), k);
        assert(s.drop_last().take(k) =~= s.take(k));
        assert(is_digit(s[s.len() - 1]));
    }
}

/// Reads a 32-bit integer from a stretch of characters.
#[verifier::loop_isolation(false)]
pub fn parse_i32(chars: &Vec<char>, start: usize, end: usize) -> (r: Option<i32>)
    requires
        start <= end <= chars.len(),
    ensures
        r == parse_int(chars@.subrange(start as int, end as int)),
{
    let ghost s = chars@.subrange(start as int, end as int);
    let signed = start < end && (chars[start] == '-' || chars[start] == '+');
    let negative = signed && chars[start] == '-';
    let first: usize = if signed {
        start + 1
    } else {
        start
    };
    let ghost body = chars@.subrange(first as int, end as int);
    proof {
        assert(signed == has_sign(s));
        if signed {
            assert(body =~= s.subrange(1, s.len() as int));
        } else {
            assert(body =~= s);
        }
    }
    if first == end {
        return None;
    }
    let mut total: i64 = 0;
    let mut i: usize = first;
    while i < end
        invariant
            first <= i <= end <= chars.len(),
            body == chars@.subrange(first as int, end as int),
            all_digits(body.take(i - first)),
            total == digits_value(body.take(i - first)),
            0 <= total <= 2147483648,
        decreases end - i,
    {
        let c = chars[i];
        let code: u32 = c as u32;
        if code < 48 || code > 57 {
            assert(!is_digit(body[i - first]));
            return None;
        }
        let ghost before = body.take(i - first);
        let ghost now = body.take(i - first + 1);
        proof {
            assert(now.drop_last() =~= before);
            assert(now.last() == c);
            assert(all_digits(now)) by {
                assert forall|j: int| 0 <= j < now.len() implies is_digit(#[trigger] now[j]) by {
                    if j < before.len() {
                        assert(now[j] == before[j]);
                    }
                }
            }
        }
        total = total * 10 + (code as i64 - 48);
        i = i + 1;
        if total > 2147483648 {
            proof {
                if all_digits(body) {
                    lemma_digits_value_grows(body, i - first);
                }
            }
            return None;
        }
    }
    proof {
        assert(body.take(i - first) =~= body);
    }
    if negative {
        Some((-total) as i32)
    } else if total > 2147483647 {
        None
    } else {
        Some(total as i32)
    }
}

/// For each character of a text, whether it is whitespace.
pub open spec fn space_flags(s: Seq<char>) -> Seq<bool> {
    Seq::new(s.len(), |i: int| char_is_whitespace(s[i]))
}

/// The first index at or after `from` that is not flagged as whitespace, or
/// the number of flags where there is none.
pub open spec fn skip_spaces(spaces: Seq<bool>, from: int) -> int
    decreases spaces.len() - from,
{
    if from < 0 || from >= spaces.len() {
        spaces.len() as int
    } else if spaces[from] {
        skip_spaces(spaces, from + 1)
    } else {
        from
    }
}

/// The end of a text once the whitespace flagged at its end is cut, never
/// before `floor`.
pub open spec fn cut_spaces(spaces: Seq<bool>, floor: int, end: int) -> int
    decreases end - floor,
{
    if end <= floor || end > spaces.len() {
        floor
    } else if spaces[end - 1] {
        cut_spaces(spaces, floor, end - 1)
    } else {
        end
    }
}

/// A text without the characters at its two ends that are flagged as
/// whitespace. There is one flag for each character.
pub open spec fn trimmed_by(s: Seq<char>, spaces: Seq<bool>) -> Seq<char> {
    let start = skip_spaces(spaces, 0);
    s.subrange(start, cut_spaces(spaces, start, spaces.len() as int))
}

/// A text without its leading and trailing whitespace.
pub open spec fn trimmed(s: Seq<char>) -> Seq<char> {
    trimmed_by(s, space_flags(s))
}

/// Finds out of each character whether it is whitespace.
pub fn space_flags_of(chars: &Vec<char>) -> (spaces: Vec<bool>)
    ensures
        spaces@ == space_flags(chars@),
{
    let mut spaces: Vec<bool> = Vec::new();
    let mut i: usize = 0;
    while i < chars.len()
        invariant
            i <= chars.len(),
            spaces@.len() == i,
            forall|k: int| 0 <= k < i ==> spaces@[k] == char_is_whitespace(chars@[k]),
        decreases chars.len() - i,
    {
        spaces.push(is_whitespace(chars[i]));
        i = i + 1;
    }
    assert(spaces@ =~= space_flags(chars@));
    spaces
}

/// The bounds of a text without the whitespace flagged at its two ends.
pub fn trim_bounds_by(spaces: &Vec<bool>) -> (r: (usize, usize))
    ensures
        r.0 <= r.1 <= spaces.len(),
        r.0 == skip_spaces(spaces@, 0),
        r.1 == cut_spaces(spaces@, r.0 as int, spaces.len() as int),
{
    let mut start: usize = 0;
    while start < spaces.len() && spaces[start]
        invariant
            start <= spaces.len(),
            skip_spaces(spaces@, start as int) == skip_spaces(spaces@, 0),
        decreases spaces.len() - start,
    {
        start = start + 1;
    }
    let mut end: usize = spaces.len();
    while end > start && spaces[end - 1]
        invariant
            start <= end <= spaces.len(),
            cut_spaces(spaces@, start as int, end as int) == cut_spaces(
                spaces@,
                start as int,
                spaces.len() as int,
            ),
        decreases end,
    {
        end = end - 1;
    }
    (start, end)
}

/// Reads a 32-bit integer from a text of which the whitespace is flagged:
/// the flagged characters at the two ends are passed over. `None` where
/// there is not one flag for each character.
pub fn parse_trimmed(chars: &Vec<char>, spaces: &Vec<bool>) -> (r: Option<i32>)
    ensures
        r == (if spaces@.len() == chars@.len() {
            parse_int(trimmed_by(chars@, spaces@))
        } else {
            None
        }),
{
    if spaces.len() != chars.len() {
        return None;
    }
    let (start, end) = trim_bounds_by(spaces);
    parse_i32(chars, start, end)
}

} // verus!
