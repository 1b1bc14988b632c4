//! Decimal numbers in text.

use vstd::prelude::*;

verus! {

/// Whether the character is a decimal digit.
pub open spec fn is_digit(c: char) -> bool {
    '0' <= c <= '9'
}

/// The number that a string of decimal digits stands for.
pub open spec fn digits_value(digits: Seq<char>) -> nat
    decreases digits.len(),
{
    if digits.len() == 0 {
        0
    } else {
        digits_value(digits.drop_last()) * 10 + (digits.last() as nat - '0' as nat) as nat
    }
}

/// The text without its sign, if it starts with one.
pub open spec fn unsigned_part(text: Seq<char>) -> Seq<char> {
    if text.len() > 0 && (text[0] == '-' || text[0] == '+') {
        text.drop_first()
    } else {
        text
    }
}

/// The 32-bit number that the text is: an optional sign and at least one digit, nothing else, in
/// range.
pub open spec fn parsed_i32(text: Seq<char>) -> Option<i32> {
    let digits = unsigned_part(text);
    let magnitude = digits_value(digits);
    let value = if text.len() > 0 && text[0] == '-' {
        -magnitude
    } else {
        magnitude as int
    };
    if digits.len() > 0 && (forall|i: int| 0 <= i < digits.len() ==> is_digit(#[trigger] digits[i]))
        && i32::MIN <= value <= i32::MAX {
        Some(value as i32)
    } else {
        None
    }
}

/// More digits never make a number smaller.
proof fn lemma_digits_value_grows(digits: Seq<char>, n: int)
    requires
        0 <= n <= digits.len(),
        forall|i: int| 0 <= i < digits.len() ==> is_digit(#[trigger] digits[i]),
    ensures
        digits_value(digits.take(n)) <= digits_value(digits),
    decreases digits.len() - n,
{
    if n == digits.len() {
        assert(digits.take(n) =~= digits);
    } else {
        lemma_digits_value_grows(digits, n + 1);
        assert(digits.take(n + 1).drop_last() =~= digits.take(n));
        assert(is_digit(digits[n]));
    }
}

/// Reads a 32-bit number.
pub fn parse_i32(text: &str) -> (number: Option<i32>)
    ensures
        number == parsed_i32(text@),
{
    let ghost digits = unsigned_part(text@);
    let mut first: bool = true;
    let mut negative: bool = false;
    let mut some_digit: bool = false;
    let mut value: u64 = 0;
    let ghost mut read: int = 0;
    for c in it: text.chars()
        invariant
            it.seq() == text@,
            digits == unsigned_part(text@),
            first == (it.index() == 0),
            first ==> !negative && !some_digit && read == 0,
            !first ==> negative == (text@[0] == '-'),
            !first ==> read == it.index() - (text@.len() - digits.len()),
            0 <= read <= digits.len(),
            some_digit == (read > 0),
            forall|i: int| 0 <= i < read ==> is_digit(#[trigger] digits[i]),
            value <= 2147483648,
            value == digits_value(digits.take(read)),
    {
        if first && (c == '-' || c == '+') {
            negative = c == '-';
        } else {
            assert(c == digits[read]);
            if c < '0' || '9' < c {
                assert(!is_digit(digits[read]));
                return None;
            }
            value = value * 10 + (c as u64 - '0' as u64);
            some_digit = true;
            proof {
                read = read + 1;
                assert(digits.take(read).drop_last() =~= digits.take(read - 1));
            }
            if value > 2147483648 {
                proof {
                    if forall|i: int| 0 <= i < digits.len() ==> is_digit(#[trigger] digits[i]) {
                        lemma_digits_value_grows(digits, read);
                    }
                }
                return None;
            }
        }
        first = false;
    }
    assert(read == digits.len() ==> digits.take(read) =~= digits);
    if !some_digit {
        return None;
    }
    if negative {
        Some((-(value as i64)) as i32)
    } else if value <= 2147483647 {
        Some(value as i32)
    } else {
        None
    }
}

/// A single digit is the number that it stands for, and so it is behind a sign.
pub proof fn a_digit_is_a_number(text: &str, c: char, number: Option<i32>)
    requires
        call_ensures(parse_i32, (text,), number),
        '0' <= c <= '9',
        text@ == seq![c] || text@ == seq!['+', c] || text@ == seq!['-', c],
    ensures
        number is Some,
        text@[0] != '-' ==> number->0 == c as int - '0' as int,
        text@[0] == '-' ==> number->0 == '0' as int - c as int,
{
    let digits = unsigned_part(text@);
    assert(digits =~= seq![c]);
    reveal_with_fuel(digits_value, 2);
    assert(digits.drop_last() =~= Seq::empty());
}

/// One digit more multiplies the number by ten and adds the digit, or takes it off where the number is
/// negative. What is then out of range is no number.
pub proof fn a_further_digit_counts_once(
    text: &str,
    longer: &str,
    c: char,
    number: Option<i32>,
    next: Option<i32>,
)
    requires
        call_ensures(parse_i32, (text,), number),
        call_ensures(parse_i32, (longer,), next),
        longer@ == text@.push(c),
        '0' <= c <= '9',
        number is Some,
    ensures
        ({
            let digit = c as int - '0' as int;
            let value = if text@[0] == '-' {
                10 * number->0 - digit
            } else {
                10 * number->0 + digit
            };
            if i32::MIN <= value <= i32::MAX {
                next is Some && next->0 == value
            } else {
                next is None
            }
        }),
{
    let digits = unsigned_part(text@);
    let more = unsigned_part(longer@);
    assert(more =~= digits.push(c));
    assert(more.drop_last() =~= digits);
    assert forall|i: int| 0 <= i < more.len() implies is_digit(#[trigger] more[i]) by {
        if i < digits.len() {
            assert(is_digit(digits[i]));
        }
    }
}

/// What is no number stays none, whatever is written behind it, but for the empty text and a sign that
/// stands alone.
pub proof fn no_number_becomes_one(
    text: &str,
    longer: &str,
    c: char,
    number: Option<i32>,
    next: Option<i32>,
)
    requires
        call_ensures(parse_i32, (text,), number),
        call_ensures(parse_i32, (longer,), next),
        longer@ == text@.push(c),
        number is None,
        text@.len() > 0,
        text@ != seq!['+'],
        text@ != seq!['-'],
    ensures
        next is None,
{
    let digits = unsigned_part(text@);
    let more = unsigned_part(longer@);
    assert(more =~= digits.push(c));
    assert(more.drop_last() =~= digits);
    if digits.len() == 0 {
        assert(text@ =~= seq![text@[0]]);
    }
    if forall|i: int| 0 <= i < more.len() ==> is_digit(#[trigger] more[i]) {
        assert forall|i: int| 0 <= i < digits.len() implies is_digit(#[trigger] digits[i]) by {
            assert(is_digit(more[i]));
        }
        lemma_digits_value_grows(more, digits.len() as int);
        assert(more.take(digits.len() as int) =~= digits);
    }
}

/// Text with anything in it but digits, and a sign in front, is no number; nor is text without a digit.
pub proof fn other_text_is_no_number(text: &str, i: int, number: Option<i32>)
    requires
        call_ensures(parse_i32, (text,), number),
        ({
            ||| text@.len() == 0
            ||| text@.len() == 1 && !('0' <= text@[0] <= '9')
            ||| 0 <= i < text@.len() && !('0' <= text@[i] <= '9') && (i > 0 || (text@[0] != '+'
                && text@[0] != '-'))
        }),
    ensures
        number is None,
{
    let digits = unsigned_part(text@);
    if text@.len() > 1 {
        if text@[0] == '-' || text@[0] == '+' {
            assert(digits[i - 1] == text@[i]);
        } else {
            assert(digits[i] == text@[i]);
        }
    } else if text@.len() == 1 && digits.len() == 1 {
        assert(!is_digit(digits[0]));
    }
}

}
