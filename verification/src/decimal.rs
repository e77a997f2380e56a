//! Signed decimal integers as they are written in a machine definition.

use vstd::prelude::*;

verus! {

/// Whether `c` is one of the digits `0` to `9`.
pub open spec fn is_digit(c: char) -> bool {
    '0' <= c && c <= '9'
}

/// The number that the digit `c` stands for.
pub open spec fn digit_value(c: char) -> int {
    c as int - '0' as int
}

/// Whether every character of `text` is a digit.
pub open spec fn all_digits(text: Seq<char>) -> bool {
    forall|at: int| 0 <= at < text.len() ==> is_digit(#[trigger] text[at])
}

/// The number written by a sequence of digits, the most significant first.
pub open spec fn digits_value(digits: Seq<char>) -> int
    decreases digits.len(),
{
    if digits.len() == 0 {
        0
    } else {
        10 * digits_value(digits.drop_last()) + digit_value(digits.last())
    }
}

/// The number written by `text`: an optional sign, `+` or `-`, and then one
/// digit or more, with nothing before, between or after. `None` for any other
/// text.
pub open spec fn decimal_value(text: Seq<char>) -> Option<int> {
    let signed = text.len() > 0 && (text[0] == '-' || text[0] == '+');
    let digits = if signed {
        text.subrange(1, text.len() as int)
    } else {
        text
    };
    if digits.len() == 0 || !all_digits(digits) {
        None
    } else if signed && text[0] == '-' {
        Some(-digits_value(digits))
    } else {
        Some(digits_value(digits))
    }
}

/// The head position written by `text`: its decimal value, where it has one
/// that a 64-bit signed integer holds.
pub open spec fn position_value(text: Seq<char>) -> Option<i64> {
    match decimal_value(text) {
        Some(value) => if i64::MIN <= value <= i64::MAX {
            Some(value as i64)
        } else {
            None
        },
        None => None,
    }
}

/// The digit that stands for `value`, a number from 0 to 9.
pub open spec fn digit_char(value: int) -> char {
    if value == 0 {
        '0'
    } else if value == 1 {
        '1'
    } else if value == 2 {
        '2'
    } else if value == 3 {
        '3'
    } else if value == 4 {
        '4'
    } else if value == 5 {
        '5'
    } else if value == 6 {
        '6'
    } else if value == 7 {
        '7'
    } else if value == 8 {
        '8'
    } else {
        '9'
    }
}

/// The digits that write `value`, without leading zeros.
pub open spec fn digits_text(value: nat) -> Seq<char>
    decreases value,
{
    if value < 10 {
        seq![digit_char(value as int)]
    } else {
        digits_text(value / 10).push(digit_char(value as int % 10))
    }
}

/// The text that writes `value`: its digits, after a `-` where it is negative.
pub open spec fn decimal_text(value: int) -> Seq<char> {
    if value < 0 {
        seq!['-'] + digits_text((-value) as nat)
    } else {
        digits_text(value as nat)
    }
}

/// The digits that write a number are digits, at least one, and stand for
/// that number.
pub proof fn lemma_digits_text(value: nat)
    ensures
        digits_text(value).len() > 0,
        all_digits(digits_text(value)),
        digits_value(digits_text(value)) == value,
    decreases value,
{
    let text = digits_text(value);
    if value < 10 {
        assert(text.drop_last().len() == 0);
        assert(digits_value(text.drop_last()) == 0);
        assert(text.last() == digit_char(value as int));
    } else {
        lemma_digits_text(value / 10);
        let front = digits_text(value / 10);
        assert(text.drop_last() == front);
        assert(text.last() == digit_char(value as int % 10));
        assert forall|at: int| 0 <= at < text.len() implies is_digit(#[trigger] text[at]) by {
            if at < front.len() {
                assert(text[at] == front[at]);
            }
        }
    }
}

/// Reading back what writes a number gives that number.
pub proof fn lemma_decimal_round_trip(value: int)
    ensures
        decimal_value(decimal_text(value)) == Some(value),
        i64::MIN <= value <= i64::MAX ==> position_value(decimal_text(value)) == Some(
            value as i64,
        ),
{
    let text = decimal_text(value);
    if value < 0 {
        let digits = digits_text((-value) as nat);
        lemma_digits_text((-value) as nat);
        assert(text[0] == '-');
        assert(text.subrange(1, text.len() as int) == digits);
    } else {
        lemma_digits_text(value as nat);
        assert(is_digit(text[0]));
    }
}

/// The digits read so far never stand for more than all of them do.
proof fn lemma_prefix_value(digits: Seq<char>, count: int)
    requires
        all_digits(digits),
        0 <= count <= digits.len(),
    ensures
        0 <= digits_value(digits.take(count)) <= digits_value(digits),
    decreases digits.len(),
{
    if count == digits.len() {
        assert(digits.take(count) == digits);
        if count > 0 {
            assert(all_digits(digits.drop_last()));
            lemma_prefix_value(digits.drop_last(), count - 1);
            assert(is_digit(digits.last()));
        }
    } else {
        assert(all_digits(digits.drop_last()));
        assert(digits.drop_last().take(count) == digits.take(count));
        lemma_prefix_value(digits.drop_last(), count);
        assert(is_digit(digits.last()));
    }
}

/// Reads a head position: an optional sign and decimal digits, the whole of
/// `text`. `None` where `text` is not of that form, or where the number does
/// not fit a 64-bit signed integer.
pub fn parse_position(text: &Vec<char>) -> (position: Option<i64>)
    ensures
        position == position_value(text@),
{
    let len = text.len();
    if len == 0 {
        return None;
    }
    let negative = text[0] == '-';
    let start: usize = if text[0] == '-' || text[0] == '+' {
        1
    } else {
        0
    };
    let ghost digits = text@.subrange(start as int, len as int);
    assert(start == 0 ==> digits == text@);
    if start == len {
        return None;
    }
    let mut magnitude: i128 = 0;
    let mut at: usize = start;
    while at < len
        invariant
            start <= at <= len,
            len == text.len(),
            start == (if text@[0] == '-' || text@[0] == '+' {
                1int
            } else {
                0int
            }),
            digits == text@.subrange(start as int, len as int),
            start == 0 ==> digits == text@,
            all_digits(digits.take(at - start)),
            magnitude == digits_value(digits.take(at - start)),
            0 <= magnitude <= 0x8000_0000_0000_0000,
        decreases len - at,
    {
        let c = text[at];
        assert(digits[at - start] == c);
        if c < '0' || c > '9' {
            assert(!is_digit(digits[at - start]));
            return None;
        }
        let digit: i128 = (c as u32 - '0' as u32) as i128;
        proof {
            let longer = digits.take(at - start + 1);
            assert(longer.drop_last() == digits.take(at - start));
            assert(longer.last() == c);
            assert forall|k: int| 0 <= k < longer.len() implies is_digit(#[trigger] longer[k]) by {
                if k < at - start {
                    assert(longer[k] == digits.take(at - start)[k]);
                }
            }
        }
        magnitude = magnitude * 10 + digit;
        at += 1;
        if magnitude > 0x8000_0000_0000_0000 {
            proof {
                if all_digits(digits) {
                    lemma_prefix_value(digits, at - start);
                }
            }
            return None;
        }
    }
    assert(digits.take(at - start) == digits);
    if negative {
        Some((-magnitude) as i64)
    } else if magnitude > 0x7fff_ffff_ffff_ffff {
        None
    } else {
        Some(magnitude as i64)
    }
}

/// The digit that stands for `value`.
fn digit_of(value: u8) -> (digit: char)
    requires
        value < 10,
    ensures
        digit == digit_char(value as int),
{
    if value == 0 {
        '0'
    } else if value == 1 {
        '1'
    } else if value == 2 {
        '2'
    } else if value == 3 {
        '3'
    } else if value == 4 {
        '4'
    } else if value == 5 {
        '5'
    } else if value == 6 {
        '6'
    } else if value == 7 {
        '7'
    } else if value == 8 {
        '8'
    } else {
        '9'
    }
}

/// Appends the digits that write `value` to `out`.
fn push_digits(value: u64, out: &mut Vec<char>)
    ensures
        final(out)@ == old(out)@ + digits_text(value as nat),
    decreases value,
{
    if value >= 10 {
        push_digits(value / 10, out);
    }
    out.push(digit_of((value % 10) as u8));
    proof {
        if value >= 10 {
            assert(old(out)@ + digits_text(value as nat / 10).push(digit_char(value as int % 10))
                == (old(out)@ + digits_text(value as nat / 10)).push(
                digit_char(value as int % 10),
            ));
        } else {
            assert(old(out)@ + seq![digit_char(value as int)] == old(out)@.push(
                digit_char(value as int),
            ));
        }
    }
}

/// Appends the text that writes `position` to `out`.
pub fn push_position(position: i64, out: &mut Vec<char>)
    ensures
        final(out)@ == old(out)@ + decimal_text(position as int),
{
    if position < 0 {
        out.push('-');
        let magnitude: u64 = (-(position as i128)) as u64;
        push_digits(magnitude, out);
        assert(old(out)@.push('-') + digits_text((-position) as nat) == old(out)@ + (seq!['-']
            + digits_text((-position) as nat)));
    } else {
        push_digits(position as u64, out);
    }
}

} // verus!
