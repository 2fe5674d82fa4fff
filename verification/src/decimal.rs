//! Decimal text of natural numbers, written and read.

use vstd::prelude::*;
use vstd::string::*;

verus! {

/// Whether `c` is one of the ten decimal digits.
pub open spec fn is_digit(c: char) -> bool {
    '0' <= c <= '9'
}

/// The number that the digit `c` stands for.
pub open spec fn digit_value(c: char) -> nat {
    (c as nat - '0' as nat) as nat
}

/// The character that writes `d`, for `d` below ten.
pub open spec fn digit_char(d: nat) -> char {
    if d == 0 {
        '0'
    } else if d == 1 {
        '1'
    } else if d == 2 {
        '2'
    } else if d == 3 {
        '3'
    } else if d == 4 {
        '4'
    } else if d == 5 {
        '5'
    } else if d == 6 {
        '6'
    } else if d == 7 {
        '7'
    } else if d == 8 {
        '8'
    } else {
        '9'
    }
}

/// The decimal text of `n`: no sign, no leading zero, `"0"` for zero.
pub open spec fn decimal(n: nat) -> Seq<char>
    decreases n,
{
    if n < 10 {
        seq![digit_char(n)]
    } else {
        decimal(n / 10) + seq![digit_char(n % 10)]
    }
}

/// Whether every character of `text` is a decimal digit.
pub open spec fn all_digits(text: Seq<char>) -> bool {
    forall|i: int| 0 <= i < text.len() ==> is_digit(#[trigger] text[i])
}

/// The number that a run of digits writes, most significant digit first.
/// Leading zeros count for nothing and the empty run is zero.
pub open spec fn decimal_value(digits: Seq<char>) -> nat
    decreases digits.len(),
{
    if digits.len() == 0 {
        0
    } else {
        10 * decimal_value(digits.drop_last()) + digit_value(digits.last())
    }
}

/// `digit_char` writes a digit, and `digit_value` reads it back.
pub proof fn lemma_digit_round_trip(d: nat)
    requires
        d < 10,
    ensures
        is_digit(digit_char(d)),
        digit_value(digit_char(d)) == d,
{
}

/// The decimal text of a number is a non-empty run of digits whose value is
/// that number.
pub proof fn lemma_decimal_round_trip(n: nat)
    ensures
        decimal(n).len() > 0,
        all_digits(decimal(n)),
        decimal_value(decimal(n)) == n,
    decreases n,
{
    if n < 10 {
        lemma_digit_round_trip(n);
        let text = decimal(n);
        assert(decimal_value(text) == 10 * decimal_value(text.drop_last()) + digit_value(
            text.last(),
        ));
    } else {
        lemma_decimal_round_trip(n / 10);
        lemma_digit_round_trip(n % 10);
        let text = decimal(n);
        assert(text.drop_last() =~= decimal(n / 10));
    }
}

/// Two numbers with the same decimal text are the same number.
pub proof fn lemma_decimal_injective(a: nat, b: nat)
    requires
        decimal(a) == decimal(b),
    ensures
        a == b,
{
    lemma_decimal_round_trip(a);
    lemma_decimal_round_trip(b);
}

/// Reads the digits of `text` from the place `from` on, up to the first
/// character that is no digit or to the end of the text: the place where
/// the run of digits ends, and the number it writes, unless that number is
/// above `u64::MAX`.
pub(crate) fn read_digits(text: &str, from: usize) -> (read: (usize, Option<u64>))
    requires
        text.is_ascii(),
        from <= text@.len(),
    ensures
        from <= read.0 <= text@.len(),
        all_digits(text@.subrange(from as int, read.0 as int)),
        read.0 < text@.len() ==> !is_digit(text@[read.0 as int]),
        match read.1 {
            Some(value) => value == decimal_value(text@.subrange(from as int, read.0 as int)),
            None => decimal_value(text@.subrange(from as int, read.0 as int)) > u64::MAX,
        },
{
    let len = text.unicode_len();
    let mut value: Option<u64> = Some(0);
    let mut at: usize = from;
    while at < len
        invariant
            from <= at <= len,
            len == text@.len(),
            text.is_ascii(),
            all_digits(text@.subrange(from as int, at as int)),
            match value {
                Some(value) => value == decimal_value(text@.subrange(from as int, at as int)),
                None => decimal_value(text@.subrange(from as int, at as int)) > u64::MAX,
            },
        decreases len - at,
    {
        let byte = text.get_ascii(at);
        if byte < 48u8 || byte > 57u8 {
            return (at, value);
        }
        let digit: u64 = (byte - 48u8) as u64;
        proof {
            let read = text@.subrange(from as int, at as int);
            let longer = text@.subrange(from as int, at + 1);
            assert(longer.drop_last() =~= read);
            assert forall|i: int| 0 <= i < longer.len() implies is_digit(#[trigger] longer[i]) by {
                if i < read.len() {
                    assert(longer[i] == read[i]);
                }
            }
        }
        value = match value {
            None => None,
            Some(value) => match value.checked_mul(10) {
                None => None,
                Some(tens) => tens.checked_add(digit),
            },
        };
        at = at + 1;
    }
    (at, value)
}

/// The one-character text of a digit.
fn digit_text(d: u64) -> (text: &'static str)
    requires
        d < 10,
    ensures
        text@ == seq![digit_char(d as nat)],
{
    proof {
        reveal_strlit("0");
        reveal_strlit("1");
        reveal_strlit("2");
        reveal_strlit("3");
        reveal_strlit("4");
        reveal_strlit("5");
        reveal_strlit("6");
        reveal_strlit("7");
        reveal_strlit("8");
        reveal_strlit("9");
    }
    if d == 0 {
        "0"
    } else if d == 1 {
        "1"
    } else if d == 2 {
        "2"
    } else if d == 3 {
        "3"
    } else if d == 4 {
        "4"
    } else if d == 5 {
        "5"
    } else if d == 6 {
        "6"
    } else if d == 7 {
        "7"
    } else if d == 8 {
        "8"
    } else {
        "9"
    }
}

/// Writes `n` in decimal.
pub fn to_decimal(n: u64) -> (text: String)
    ensures
        text@ == decimal(n as nat),
    decreases n,
{
    if n < 10 {
        String::from_str(digit_text(n))
    } else {
        let mut text = to_decimal(n / 10);
        text.append(digit_text(n % 10));
        text
    }
}

} // verus!
