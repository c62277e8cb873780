//! Characters, and integers in decimal notation.

use vstd::prelude::*;
use vstd::string::StringExecFns;

verus! {

/// `String::push`: appends one character to the end of the string.
pub assume_specification[ String::push ](text: &mut String, character: char)
    ensures
        final(text)@ == old(text)@.push(character),
;

/// `c` is one of the ten ASCII decimal digits.
pub open spec fn is_digit(c: char) -> bool {
    '0' <= c && c <= '9'
}

/// Every character of `text` is an ASCII decimal digit.
pub open spec fn all_digits(text: Seq<char>) -> bool {
    forall|i: int| 0 <= i < text.len() ==> is_digit(#[trigger] text[i])
}

/// The natural number that a run of decimal digits denotes, most significant digit first.
pub open spec fn magnitude(digits: Seq<char>) -> nat
    decreases digits.len(),
{
    if digits.len() == 0 {
        0
    } else {
        (magnitude(digits.drop_last()) * 10 + (digits.last() as int - '0' as int)) as nat
    }
}

/// The text with a leading `+` or `-` taken off.
pub open spec fn unsigned_part(text: Seq<char>) -> Seq<char> {
    if text.len() > 0 && (text[0] == '-' || text[0] == '+') {
        text.skip(1)
    } else {
        text
    }
}

/// The 64-bit signed integer that `text` denotes in decimal notation: an optional sign, then
/// one or more digits. `None` where the text has another shape or the number does not fit.
pub open spec fn integer_value(text: Seq<char>) -> Option<i64> {
    let digits = unsigned_part(text);
    let value = if text.len() > 0 && text[0] == '-' {
        -(magnitude(digits) as int)
    } else {
        magnitude(digits) as int
    };
    if digits.len() == 0 || !all_digits(digits) || value < i64::MIN || value > i64::MAX {
        None
    } else {
        Some(value as i64)
    }
}

/// Reading more digits never makes the number smaller.
pub proof fn lemma_magnitude_of_prefix(digits: Seq<char>, k: int)
    requires
        all_digits(digits),
        0 <= k <= digits.len(),
    ensures
        magnitude(digits.take(k)) <= magnitude(digits),
    decreases digits.len(),
{
    if k == digits.len() {
        assert(digits.take(k) == digits);
    } else {
        let shorter = digits.drop_last();
        assert(shorter.take(k) == digits.take(k));
        lemma_magnitude_of_prefix(shorter, k);
    }
}

/// The characters of a string, in order.
pub fn characters(text: &str) -> (chars: Vec<char>)
    ensures
        chars@ == text@,
{
    let mut chars: Vec<char> = Vec::new();
    for c in it: text.chars()
        invariant
            it.seq() == text@,
            chars@ == text@.take(it.index() as int),
    {
        chars.push(c);
    }
    chars
}

/// Reads a decimal integer, as `integer_value` defines it.
pub fn parse_integer(text: &str) -> (value: Option<i64>)
    ensures
        value == integer_value(text@),
{
    let chars = characters(text);
    let n = chars.len();
    if n == 0 {
        return None;
    }
    let negative = chars[0] == '-';
    let start: usize = if chars[0] == '-' || chars[0] == '+' {
        1
    } else {
        0
    };
    if start == n {
        return None;
    }
    let ghost digits = unsigned_part(text@);
    let limit: u128 = 0x8000_0000_0000_0000;
    let mut total: u128 = 0;
    let mut i: usize = start;
    while i < n
        invariant
            start <= i <= n,
            n == chars.len(),
            chars@ == text@,
            digits == text@.skip(start as int),
            digits == unsigned_part(text@),
            all_digits(digits.take(i - start)),
            total == magnitude(digits.take(i - start)),
            total <= limit,
            limit == 0x8000_0000_0000_0000,
        decreases n - i,
    {
        let c = chars[i];
        if !(c >= '0' && c <= '9') {
            assert(!is_digit(digits[i - start]));
            return None;
        }
        let digit: u128 = (c as u32 - '0' as u32) as u128;
        proof {
            let longer = digits.take(i - start + 1);
            assert(longer.drop_last() == digits.take(i - start));
            assert forall|j: int| 0 <= j < longer.len() implies is_digit(#[trigger] longer[j]) by {
                if j < i - start {
                    assert(longer[j] == digits.take(i - start)[j]);
                }
            }
        }
        total = total * 10 + digit;
        i += 1;
        if total > limit {
            proof {
                if all_digits(digits) {
                    lemma_magnitude_of_prefix(digits, i - start);
                }
            }
            return None;
        }
    }
    assert(digits.take(i - start) == digits);
    if negative {
        if total == limit {
            Some(i64::MIN)
        } else {
            Some(-(total as i64))
        }
    } else if total == limit {
        None
    } else {
        Some(total as i64)
    }
}

/// Whether a string and a string slice hold the same characters.
pub fn same_text(name: &String, text: &str) -> (same: bool)
    ensures
        same == (name@ == text@),
{
    *name == text.to_owned()
}

/// The character that stands for a digit.
pub open spec fn digit_char(digit: int) -> char {
    ('0' as int + digit) as char
}

/// The decimal digits of a natural number, most significant first, without leading zeros.
pub open spec fn digits_of(number: nat) -> Seq<char>
    decreases number,
{
    if number < 10 {
        seq![digit_char(number as int)]
    } else {
        digits_of(number / 10).push(digit_char((number % 10) as int))
    }
}

/// An integer in decimal notation: its digits, after a minus sign if it is negative.
pub open spec fn decimal_text(value: int) -> Seq<char> {
    if value < 0 {
        seq!['-'] + digits_of((-value) as nat)
    } else {
        digits_of(value as nat)
    }
}

/// The digits of a number are digits, and denote that number.
pub proof fn lemma_digits_denote(number: nat)
    ensures
        digits_of(number).len() >= 1,
        all_digits(digits_of(number)),
        magnitude(digits_of(number)) == number,
    decreases number,
{
    if number < 10 {
        let text = digits_of(number);
        assert(magnitude(text.drop_last()) == 0);
    } else {
        lemma_digits_denote(number / 10);
        let text = digits_of(number);
        assert(text.drop_last() =~= digits_of(number / 10));
        assert forall|i: int| 0 <= i < text.len() implies is_digit(#[trigger] text[i]) by {
            if i < text.len() - 1 {
                assert(text[i] == digits_of(number / 10)[i]);
            }
        }
    }
}

/// Reading what was written gives the number back.
pub proof fn lemma_decimal_text_denotes(value: i64)
    ensures
        integer_value(decimal_text(value as int)) == Some(value),
{
    let text = decimal_text(value as int);
    if value < 0 {
        let digits = digits_of((-value) as nat);
        lemma_digits_denote((-value) as nat);
        assert(unsigned_part(text) =~= digits);
    } else {
        lemma_digits_denote(value as nat);
    }
}

/// Writes an integer in decimal notation.
pub fn decimal(value: i64) -> (text: String)
    ensures
        text@ == decimal_text(value as int),
{
    let number: u64 = if value == i64::MIN {
        0x8000_0000_0000_0000
    } else if value < 0 {
        (-value) as u64
    } else {
        value as u64
    };
    // The digits come out least significant first.
    let mut reversed: Vec<char> = Vec::new();
    reversed.push(digit_of((number % 10) as u8));
    let mut rest: u64 = number / 10;
    let ghost mut read: nat = number as nat;
    while rest > 0
        invariant
            reversed.len() >= 1,
            rest == read / 10,
            digits_of(number as nat) == digits_of(read).drop_last() + reversed@.reverse(),
        decreases rest,
    {
        let ghost earlier = reversed@;
        reversed.push(digit_of((rest % 10) as u8));
        proof {
            // One more digit has been read: the last of the digits of `rest`.
            let higher = digits_of(rest as nat);
            assert(digits_of(read).drop_last() =~= higher);
            assert(reversed@.reverse() =~= seq![higher.last()] + earlier.reverse());
            read = rest as nat;
        }
        rest = rest / 10;
    }
    let mut text = String::new();
    if value < 0 {
        text.push('-');
    }
    let ghost sign = text@;
    let mut i: usize = reversed.len();
    while i > 0
        invariant
            i <= reversed.len(),
            text@ == sign + reversed@.reverse().take(reversed.len() - i),
        decreases i,
    {
        i -= 1;
        text.push(reversed[i]);
    }
    text
}

/// The text of a list of integers written one to a line: each in decimal notation, followed
/// by a line break.
pub open spec fn lines_text(values: Seq<i64>) -> Seq<char>
    decreases values.len(),
{
    if values.len() == 0 {
        Seq::empty()
    } else {
        lines_text(values.drop_last()) + decimal_text(values.last() as int) + seq!['\n']
    }
}

/// Writes integers one to a line.
pub fn lines(values: &Vec<i64>) -> (text: String)
    ensures
        text@ == lines_text(values@),
{
    let mut text = String::new();
    let mut i: usize = 0;
    while i < values.len()
        invariant
            i <= values.len(),
            text@ == lines_text(values@.take(i as int)),
        decreases values.len() - i,
    {
        let line = decimal(values[i]);
        let ghost before = text@;
        text.append(line.as_str());
        text.push('\n');
        i += 1;
        proof {
            let read = values@.take(i as int);
            assert(read.drop_last() =~= values@.take(i - 1));
        }
    }
    assert(values@.take(i as int) =~= values@);
    text
}

/// The character of a digit.
fn digit_of(digit: u8) -> (character: char)
    requires
        digit < 10,
    ensures
        character == digit_char(digit as int),
{
    ('0' as u8 + digit) as char
}

} // verus!
