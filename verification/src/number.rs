//! Numbers: decimal notation and signed counts.

use vstd::prelude::*;

use crate::text;

verus! {

/// The decimal digit of `d`, a number below ten.
pub open spec fn digit(d: int) -> char {
    (0x30 + d) as char
}

/// `n` in decimal notation, without leading zeros.
pub open spec fn decimal(n: nat) -> Seq<char>
    decreases n,
{
    if n < 10 {
        seq![digit(n as int)]
    } else {
        decimal(n / 10).push(digit((n % 10) as int))
    }
}

/// Writes `n` in decimal notation.
pub fn decimal_text(n: u64) -> (res: String)
    ensures
        res@ == decimal(n as nat),
    decreases n,
{
    let mut res = if n < 10 {
        String::new()
    } else {
        decimal_text(n / 10)
    };
    res.push((0x30u8 + (n % 10) as u8) as char);
    res
}

/// The character is a decimal digit.
pub open spec fn is_digit(c: char) -> bool {
    '0' <= c <= '9'
}

/// All characters of `text` are decimal digits.
pub open spec fn all_digits(text: Seq<char>) -> bool {
    forall|i: int| 0 <= i < text.len() ==> is_digit(#[trigger] text[i])
}

/// The number that the decimal digits of `text` denote.
pub open spec fn digits_value(text: Seq<char>) -> nat
    decreases text.len(),
{
    if text.len() == 0 {
        0
    } else {
        (10 * digits_value(text.drop_last()) + (text.last() as int - 0x30)) as nat
    }
}

/// `text` without one plus sign at its start.
pub open spec fn without_plus(text: Seq<char>) -> Seq<char> {
    if text.len() > 0 && text[0] == '+' {
        text.skip(1)
    } else {
        text
    }
}

/// The 64-bit number that `text` denotes: decimal digits, at least one, after at most one plus
/// sign. Nothing if it is written otherwise or does not fit.
pub open spec fn number(text: Seq<char>) -> Option<u64> {
    let digits = without_plus(text);
    if digits.len() > 0 && all_digits(digits) && digits_value(digits) <= u64::MAX {
        Some(digits_value(digits) as u64)
    } else {
        None
    }
}

/// Reads a 64-bit number in decimal notation.
pub fn parse_number(s: &str) -> (res: Option<u64>)
    ensures
        res == number(s@),
{
    let chars = text::chars_of(s);
    let ghost digits = without_plus(chars@);
    let from: usize = if chars.len() > 0 && chars[0] == '+' {
        1
    } else {
        0
    };
    proof {
        assert(chars@.skip(from as int) =~= digits);
    }
    if from == chars.len() {
        return None;
    }
    let mut value: u64 = 0;
    let mut overflow = false;
    let mut i: usize = from;
    while i < chars.len()
        invariant
            from <= i <= chars@.len(),
            digits == chars@.skip(from as int),
            digits == without_plus(s@),
            forall|j: int| 0 <= j < i - from ==> is_digit(#[trigger] digits[j]),
            overflow ==> digits_value(digits.take(i - from)) > u64::MAX,
            !overflow ==> value == digits_value(digits.take(i - from)),
        decreases chars@.len() - i,
    {
        let c = chars[i];
        proof {
            assert(digits[i - from] == c);
            assert(digits.take(i + 1 - from).drop_last() =~= digits.take(i - from));
            assert(digits.take(i + 1 - from).last() == c);
        }
        if !('0' <= c && c <= '9') {
            proof {
                assert(!is_digit(digits[i - from]));
            }
            return None;
        }
        let d: u64 = (c as u64) - 0x30;
        if !overflow {
            match value.checked_mul(10) {
                Some(tens) => match tens.checked_add(d) {
                    Some(sum) => {
                        value = sum;
                    },
                    None => {
                        overflow = true;
                    },
                },
                None => {
                    overflow = true;
                },
            }
        }
        i += 1;
    }
    proof {
        assert(digits.take(i - from) =~= digits);
    }
    if overflow {
        None
    } else {
        Some(value)
    }
}

/// The signed number with the same 64 bits.
pub open spec fn signed(n: u64) -> i64 {
    if n <= i64::MAX {
        n as i64
    } else {
        (n - 0x1_0000_0000_0000_0000) as i64
    }
}

/// The signed number with the same 64 bits as `n`.
pub fn to_signed(n: u64) -> (res: i64)
    ensures
        res == signed(n),
{
    if n <= i64::MAX as u64 {
        n as i64
    } else {
        -1 - (u64::MAX - n) as i64
    }
}

/// Decimal notation consists of digits and denotes the number.
pub proof fn lemma_decimal_value(n: nat)
    ensures
        decimal(n).len() > 0,
        all_digits(decimal(n)),
        digits_value(decimal(n)) == n,
    decreases n,
{
    reveal_with_fuel(digits_value, 2);
    if n >= 10 {
        lemma_decimal_value(n / 10);
        assert(decimal(n).drop_last() =~= decimal(n / 10));
    } else {
        assert(decimal(n).drop_last() =~= Seq::<char>::empty());
    }
}

/// Reading a number undoes writing it.
pub proof fn law_number_undoes_decimal(n: u64)
    ensures
        number(decimal(n as nat)) == Some(n),
{
    lemma_decimal_value(n as nat);
    assert(is_digit(decimal(n as nat)[0]));
}

/// The ten digits are written as such.
pub proof fn law_digits_are_written(d: nat)
    requires
        d < 10,
    ensures
        decimal(d) == seq!["0123456789"@[d as int]],
{
    reveal_strlit("0123456789");
}

/// A further digit stands behind the digits before it.
pub proof fn law_digits_are_appended(n: nat, d: nat)
    requires
        n > 0,
        d < 10,
    ensures
        decimal(10 * n + d) == decimal(n) + decimal(d),
{
    assert((10 * n + d) / 10 == n);
    assert((10 * n + d) % 10 == d);
    assert(decimal(n) + decimal(d) =~= decimal(n).push(digit(d as int)));
}

/// A number is read from its decimal notation exactly if it fits into 64 bits.
pub proof fn law_numbers_are_read(n: nat)
    ensures
        number(decimal(n)) == (if n <= u64::MAX {
            Some(n as u64)
        } else {
            None
        }),
{
    lemma_decimal_value(n);
    assert(is_digit(decimal(n)[0]));
}

/// A zero before the digits changes no value.
proof fn lemma_leading_zero(digits: Seq<char>)
    ensures
        digits_value(seq!['0'] + digits) == digits_value(digits),
    decreases digits.len(),
{
    let all = seq!['0'] + digits;
    if digits.len() == 0 {
        assert(all.drop_last() =~= digits);
    } else {
        lemma_leading_zero(digits.drop_last());
        assert(all.drop_last() =~= seq!['0'] + digits.drop_last());
    }
}

/// One plus sign before the digits of a number, and zeros before its digits, change nothing.
pub proof fn law_sign_and_zeros(digits: Seq<char>)
    requires
        digits.len() > 0,
        forall|i: int| 0 <= i < digits.len() ==> '0' <= #[trigger] digits[i] <= '9',
    ensures
        number(seq!['+'] + digits) == number(digits),
        number(seq!['0'] + digits) == number(digits),
{
    let zero = seq!['0'] + digits;
    lemma_leading_zero(digits);
    assert((seq!['+'] + digits).skip(1) =~= digits);
    assert('0' <= digits[0] <= '9');
    assert(all_digits(digits));
    assert forall|i: int| 0 <= i < zero.len() implies is_digit(#[trigger] zero[i]) by {
        if i > 0 {
            assert(zero[i] == digits[i - 1]);
        }
    }
}

/// What holds anything but digits behind a plus sign at its start, or no digit, is no number.
pub proof fn law_other_texts_are_no_numbers(text: Seq<char>)
    requires
        text.len() == 0 || text == seq!['+'] || exists|i: int|
            0 <= i < text.len() && !('0' <= #[trigger] text[i] <= '9') && !(i == 0 && text[0] == '+'),
    ensures
        number(text) is None,
{
    let digits = without_plus(text);
    if text.len() > 0 && text != seq!['+'] {
        let i = choose|i: int|
            0 <= i < text.len() && !('0' <= #[trigger] text[i] <= '9') && !(i == 0 && text[0]
                == '+');
        if text[0] == '+' {
            assert(digits[i - 1] == text[i]);
            assert(!is_digit(digits[i - 1]));
        } else {
            assert(!is_digit(digits[i]));
        }
    } else if text.len() > 0 {
        assert(digits =~= Seq::<char>::empty());
    }
}

/// The signed number differs from the unsigned one by nothing or by two to the power of 64.
pub proof fn law_signed(n: u64)
    ensures
        signed(n) == n || signed(n) == n - 0x1_0000_0000_0000_0000,
        signed(n) >= 0 <==> n < 0x8000_0000_0000_0000,
{
}

} // verus!
