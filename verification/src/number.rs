//! Decimal numbers as text: reading integers, and writing them.
use vstd::prelude::*;
use vstd::string::*;

verus! {

/// Whether a character is one of `0` to `9`.
pub open spec fn is_digit(c: char) -> bool {
    '0' <= c && c <= '9'
}

/// Whether every character is a digit.
pub open spec fn all_digits(text: Seq<char>) -> bool {
    forall|i: int| 0 <= i < text.len() ==> is_digit(#[trigger] text[i])
}

/// The number that a run of digits writes; leading zeros do not count.
pub open spec fn digits_value(text: Seq<char>) -> nat
    decreases text.len(),
{
    if text.len() == 0 {
        0
    } else {
        (digits_value(text.drop_last()) * 10 + (text.last() as u32 - '0' as u32)) as nat
    }
}

/// The number that an unsigned decimal literal writes: digits, at least one, after an
/// optional `+`.
pub open spec fn unsigned_literal(text: Seq<char>) -> Option<nat> {
    let digits = if text.len() > 0 && text[0] == '+' {
        text.drop_first()
    } else {
        text
    };
    if digits.len() > 0 && all_digits(digits) {
        Some(digits_value(digits))
    } else {
        None
    }
}

/// The number that a signed decimal literal writes: digits, at least one, after an optional
/// `+` or `-`.
pub open spec fn signed_literal(text: Seq<char>) -> Option<int> {
    if text.len() > 0 && text[0] == '-' {
        let digits = text.drop_first();
        if digits.len() > 0 && all_digits(digits) {
            Some(-(digits_value(digits) as int))
        } else {
            None
        }
    } else {
        match unsigned_literal(text) {
            Some(n) => Some(n as int),
            None => None,
        }
    }
}

/// The digit that writes a number below ten.
pub open spec fn digit_of(n: nat) -> char
    recommends
        n < 10,
{
    if n == 0 {
        '0'
    } else if n == 1 {
        '1'
    } else if n == 2 {
        '2'
    } else if n == 3 {
        '3'
    } else if n == 4 {
        '4'
    } else if n == 5 {
        '5'
    } else if n == 6 {
        '6'
    } else if n == 7 {
        '7'
    } else if n == 8 {
        '8'
    } else {
        '9'
    }
}

/// The digits of a number, without leading zeros; `0` for zero.
pub open spec fn digits_of(n: nat) -> Seq<char>
    decreases n,
{
    if n < 10 {
        seq![digit_of(n)]
    } else {
        digits_of(n / 10).push(digit_of(n % 10))
    }
}

/// The decimal form of an integer, with `-` before a negative one.
pub open spec fn decimal_text(value: int) -> Seq<char> {
    if value < 0 {
        seq!['-'] + digits_of((-value) as nat)
    } else {
        digits_of(value as nat)
    }
}

/// The 64-bit integer that the text writes, where it writes one.
pub open spec fn int_literal(text: Seq<char>) -> Option<i64> {
    match signed_literal(text) {
        Some(v) => if i64::MIN <= v <= i64::MAX {
            Some(v as i64)
        } else {
            None
        },
        None => None,
    }
}

/// The number of fraction digits that the text asks for: an unsigned literal of at most
/// 65535, the widest precision that a number can be formatted with.
pub open spec fn places_literal(text: Seq<char>) -> Option<u16> {
    match unsigned_literal(text) {
        Some(n) => if n <= u16::MAX {
            Some(n as u16)
        } else {
            None
        },
        None => None,
    }
}

/// The value of a run of digits is at least that of each of its beginnings.
pub proof fn lemma_digits_value_grows(text: Seq<char>, count: int)
    requires
        0 <= count <= text.len(),
        all_digits(text),
    ensures
        digits_value(text.take(count)) <= digits_value(text),
    decreases text.len() - count,
{
    if count < text.len() {
        lemma_digits_value_grows(text, count + 1);
        assert(text.take(count + 1).drop_last() =~= text.take(count));
        assert(text.take(count + 1).last() == text[count]);
        assert(is_digit(text[count]));
    } else {
        assert(text.take(count) =~= text);
    }
}

/// The number that the digits of `text` from `start` on write, where they are digits, at
/// least one, and write no more than `limit`.
fn parse_digits(text: &str, start: usize, limit: u64) -> (value: Option<u64>)
    requires
        start <= text@.len(),
        limit <= 0x8000_0000_0000_0000,
    ensures
        value == ({
            let digits = text@.skip(start as int);
            if digits.len() > 0 && all_digits(digits) && digits_value(digits) <= limit {
                Some(digits_value(digits) as u64)
            } else {
                None
            }
        }),
{
    let length = text.unicode_len();
    let ghost digits = text@.skip(start as int);
    if start == length {
        return None;
    }
    let mut value: u128 = 0;
    let mut i: usize = start;
    proof {
        assert(digits.take(0) =~= Seq::empty());
    }
    while i < length
        invariant
            start <= i <= length,
            length == text@.len(),
            digits == text@.skip(start as int),
            limit <= 0x8000_0000_0000_0000,
            all_digits(digits.take(i - start)),
            value == digits_value(digits.take(i - start)),
            value <= limit,
        decreases length - i,
    {
        let c = text.get_char(i);
        proof {
            assert(digits[i - start] == c);
            assert(digits.take(i - start + 1).drop_last() =~= digits.take(i - start));
            assert(digits.take(i - start + 1).last() == c);
        }
        if !(c >= '0' && c <= '9') {
            proof {
                assert(!is_digit(digits[i - start]));
            }
            return None;
        }
        value = value * 10 + (c as u32 - '0' as u32) as u128;
        if value > limit as u128 {
            proof {
                if all_digits(digits) {
                    lemma_digits_value_grows(digits, i - start + 1);
                }
            }
            return None;
        }
        proof {
            assert forall|k: int| 0 <= k < i - start + 1 implies is_digit(
                #[trigger] digits.take(i - start + 1)[k],
            ) by {
                if k < i - start {
                    assert(digits.take(i - start)[k] == digits[k]);
                }
            }
        }
        i += 1;
    }
    proof {
        assert(digits.take(length - start) =~= digits);
    }
    Some(value as u64)
}

/// Reads a signed decimal literal of 64 bits.
pub fn parse_i64(text: &str) -> (value: Option<i64>)
    ensures
        value == int_literal(text@),
{
    let length = text.unicode_len();
    if length > 0 && text.get_char(0) == '-' {
        proof {
            assert(text@.skip(1) =~= text@.drop_first());
        }
        match parse_digits(text, 1, 0x8000_0000_0000_0000) {
            Some(magnitude) => {
                if magnitude == 0x8000_0000_0000_0000 {
                    Some(i64::MIN)
                } else {
                    Some(-(magnitude as i64))
                }
            },
            None => None,
        }
    } else {
        let start: usize = if length > 0 && text.get_char(0) == '+' {
            1
        } else {
            0
        };
        proof {
            assert(text@.skip(1) =~= text@.drop_first());
            assert(text@.skip(0) =~= text@);
        }
        match parse_digits(text, start, 0x7fff_ffff_ffff_ffff) {
            Some(magnitude) => Some(magnitude as i64),
            None => None,
        }
    }
}

/// Reads a number of fraction digits.
pub fn parse_places(text: &str) -> (value: Option<u16>)
    ensures
        value == places_literal(text@),
{
    let length = text.unicode_len();
    let start: usize = if length > 0 && text.get_char(0) == '+' {
        1
    } else {
        0
    };
    proof {
        assert(text@.skip(1) =~= text@.drop_first());
        assert(text@.skip(0) =~= text@);
    }
    match parse_digits(text, start, 0xffff) {
        Some(value) => Some(value as u16),
        None => None,
    }
}

/// The text of one digit.
fn digit_text(digit: u64) -> (text: &'static str)
    requires
        digit < 10,
    ensures
        text@ == seq![digit_of(digit as nat)],
{
    proof {
        reveal_strlit("0");
        reveal_strlit("1");
        reveal_strlit("2");
        reveal_strlit("3");
        reveal_strlit("4");
        reveal_strlit("5");
        reveal_strlit("6");
        reveal_strlit("7");
        reveal_strlit("8");
        reveal_strlit("9");
    }
    let text = if digit == 0 {
        "0"
    } else if digit == 1 {
        "1"
    } else if digit == 2 {
        "2"
    } else if digit == 3 {
        "3"
    } else if digit == 4 {
        "4"
    } else if digit == 5 {
        "5"
    } else if digit == 6 {
        "6"
    } else if digit == 7 {
        "7"
    } else if digit == 8 {
        "8"
    } else {
        "9"
    };
    proof {
        assert(text@ =~= seq![digit_of(digit as nat)]);
    }
    text
}

/// Writes the digits of a number behind `text`.
fn push_digits(text: &mut String, value: u64)
    ensures
        final(text)@ == old(text)@ + digits_of(value as nat),
    decreases value,
{
    if value >= 10 {
        push_digits(text, value / 10);
    }
    text.append(digit_text(value % 10));
    proof {
        if value >= 10 {
            assert(text@ =~= old(text)@ + digits_of(value as nat));
        }
    }
}

/// Writes an integer in decimal.
pub fn i64_to_text(value: i64) -> (text: String)
    ensures
        text@ == decimal_text(value as int),
{
    let mut text = String::new();
    if value < 0 {
        proof {
            reveal_strlit("-");
        }
        text.append("-");
        let magnitude: u64 = if value == i64::MIN {
            0x8000_0000_0000_0000
        } else {
            (-value) as u64
        };
        push_digits(&mut text, magnitude);
        proof {
            assert(text@ =~= seq!['-'] + digits_of((-value) as nat));
        }
    } else {
        push_digits(&mut text, value as u64);
        proof {
            assert(text@ =~= digits_of(value as nat));
        }
    }
    text
}

} // verus!
