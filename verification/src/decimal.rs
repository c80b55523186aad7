//! Decimal notation of unsigned numbers.

use vstd::prelude::*;

use crate::text::chars_of;

verus! {

/// Whether the character is one of `0` to `9`.
pub open spec fn is_digit(c: char) -> bool {
    '0' <= c <= '9'
}

/// The number that a row of digits denotes.
pub open spec fn digits_value(digits: Seq<char>) -> nat
    decreases digits.len(),
{
    if digits.len() == 0 {
        0
    } else {
        digits_value(digits.drop_last()) * 10 + (digits.last() as nat - '0' as nat) as nat
    }
}

/// A text without the plus sign that may stand in front of a number.
pub open spec fn without_plus(s: Seq<char>) -> Seq<char> {
    if s.len() > 0 && s[0] == '+' {
        s.drop_first()
    } else {
        s
    }
}

/// The number that a text denotes: one digit or more, with or without a plus sign
/// in front, and a value that fits; no other text denotes a number.
pub open spec fn number(s: Seq<char>) -> Option<usize> {
    let digits = without_plus(s);
    if digits.len() > 0 && (forall|i: int| 0 <= i < digits.len() ==> is_digit(#[trigger] digits[i]))
        && digits_value(digits) <= usize::MAX {
        Some(digits_value(digits) as usize)
    } else {
        None
    }
}

/// A longer row of digits denotes no smaller number.
proof fn lemma_value_grows(digits: Seq<char>, n: int)
    requires
        0 <= n <= digits.len(),
        forall|i: int| 0 <= i < digits.len() ==> is_digit(#[trigger] digits[i]),
    ensures
        digits_value(digits.take(n)) <= digits_value(digits),
    decreases digits.len(),
{
    if n == digits.len() {
        assert(digits.take(n) =~= digits);
    } else {
        lemma_value_grows(digits.drop_last(), n);
        assert(digits.drop_last().take(n) =~= digits.take(n));
    }
}

/// Reads a number of ticks.
pub fn parse_number(s: &str) -> (res: Option<usize>)
    ensures
        res == number(s@),
{
    let chars: Vec<char> = chars_of(s);
    let start: usize = if chars.len() > 0 && chars[0] == '+' {
        1
    } else {
        0
    };
    let ghost digits = without_plus(s@);
    assert(digits =~= s@.skip(start as int));
    if chars.len() == start {
        return None;
    }
    let mut value: usize = 0;
    let mut i: usize = start;
    assert(digits.take(0).len() == 0);
    while i < chars.len()
        invariant
            start <= i <= chars@.len(),
            chars@ == s@,
            digits == without_plus(s@),
            digits == s@.skip(start as int),
            digits.len() > 0,
            forall|j: int| 0 <= j < i - start ==> is_digit(#[trigger] digits[j]),
            value == digits_value(digits.take(i - start)),
        decreases chars.len() - i,
    {
        let c: char = chars[i];
        assert(digits[i - start] == c);
        if c < '0' || c > '9' {
            return None;
        }
        let d: usize = c as usize - '0' as usize;
        let ghost now = digits.take(i + 1 - start);
        assert(now.drop_last() =~= digits.take(i - start));
        assert(digits_value(now) == value * 10 + d);
        let next: usize = match value.checked_mul(10) {
            Some(tens) => match tens.checked_add(d) {
                Some(sum) => sum,
                None => {
                    proof {
                        if forall|j: int| 0 <= j < digits.len() ==> is_digit(#[trigger] digits[j]) {
                            lemma_value_grows(digits, i + 1 - start);
                        }
                    }
                    return None;
                },
            },
            None => {
                proof {
                    if forall|j: int| 0 <= j < digits.len() ==> is_digit(#[trigger] digits[j]) {
                        lemma_value_grows(digits, i + 1 - start);
                    }
                }
                return None;
            },
        };
        value = next;
        i = i + 1;
    }
    assert(digits.take(digits.len() as int) =~= digits);
    Some(value)
}

/// The digits of a number as ASCII bytes, the highest first, without leading zeros.
pub open spec fn decimal_bytes(n: nat) -> Seq<u8>
    decreases n,
{
    if n < 10 {
        seq![(48 + n) as u8]
    } else {
        decimal_bytes(n / 10).push((48 + n % 10) as u8)
    }
}

/// Writes a number in decimal notation.
pub fn decimal(n: u64) -> (res: Vec<u8>)
    ensures
        res@ == decimal_bytes(n as nat),
    decreases n,
{
    if n < 10 {
        let mut res: Vec<u8> = Vec::new();
        res.push(48 + n as u8);
        assert(res@ =~= decimal_bytes(n as nat));
        res
    } else {
        let mut res: Vec<u8> = decimal(n / 10);
        res.push(48 + (n % 10) as u8);
        res
    }
}

/// The notation consists of digits.
pub proof fn lemma_decimal_digits(n: nat)
    ensures
        decimal_bytes(n).len() > 0,
        forall|i: int| 0 <= i < decimal_bytes(n).len() ==> 48 <= #[trigger] decimal_bytes(n)[i] <= 57,
    decreases n,
{
    if n >= 10 {
        lemma_decimal_digits(n / 10);
    }
}

/// A number from one billion up to, but not including, ten billion takes ten digits.
pub proof fn lemma_ten_digits(n: nat)
    requires
        1_000_000_000 <= n < 10_000_000_000,
    ensures
        decimal_bytes(n).len() == 10,
{
    reveal_with_fuel(decimal_bytes, 11);
}

/// The empty text denotes no number, and neither does a plus sign on its own.
pub proof fn law_no_digits_no_number()
    ensures
        number(Seq::empty()) is None,
        number(seq!['+']) is None,
{
    assert(seq!['+'].drop_first() =~= Seq::empty());
}

/// A digit on its own, with or without a plus sign, denotes its place among the
/// ten digits.
pub proof fn law_one_digit(c: char)
    requires
        '0' <= c <= '9',
    ensures
        number(seq![c]) == Some((c as int - '0' as int) as usize),
        number(seq!['+', c]) == number(seq![c]),
{
    let one = seq![c];
    assert(one.drop_last() =~= Seq::empty());
    assert(digits_value(Seq::empty()) == 0);
    assert(digits_value(one) == c as int - '0' as int);
    assert(seq!['+', c].drop_first() =~= one);
    assert(without_plus(one) == one);
}

/// One digit more makes the number ten times as large and adds the digit, unless it
/// gets too large for the machine.
pub proof fn law_next_digit(s: Seq<char>, n: usize, c: char)
    requires
        number(s) == Some(n),
        '0' <= c <= '9',
    ensures
        ({
            let next = n as int * 10 + (c as int - '0' as int);
            number(s.push(c)) == (if next <= usize::MAX {
                Some(next as usize)
            } else {
                None
            })
        }),
{
    let digits = without_plus(s);
    assert(without_plus(s.push(c)) =~= digits.push(c));
    assert(digits.push(c).drop_last() =~= digits);
    assert(digits_value(digits.push(c)) == n as int * 10 + (c as int - '0' as int));
    assert forall|i: int| 0 <= i < digits.push(c).len() implies is_digit(
        #[trigger] digits.push(c)[i],
    ) by {
        if i < digits.len() {
            assert(is_digit(digits[i]));
        }
    }
}

/// A character that is no digit makes a text denote no number, and what denotes no
/// number for more than the want of digits denotes none with more characters.
pub proof fn law_no_number_stays_none(s: Seq<char>, c: char)
    ensures
        !('0' <= c <= '9') ==> number(s.push(c)) is None,
        s.len() > 0 && s != seq!['+'] && number(s) is None ==> number(s.push(c)) is None,
{
    let digits = without_plus(s);
    if s.len() == 0 {
        assert(s.push(c)[0] == c);
        assert(s.push(c).drop_first() =~= Seq::empty());
        if !is_digit(c) && c != '+' {
            assert(!is_digit(without_plus(s.push(c))[0]));
        }
    } else {
        assert(without_plus(s.push(c)) =~= digits.push(c));
        assert(digits.push(c)[digits.len() as int] == c);
        assert(digits.push(c).drop_last() =~= digits);
        if digits.len() == 0 {
            assert(s =~= seq!['+']);
        } else if number(s) is None && is_digit(c) {
            if forall|i: int| 0 <= i < digits.len() ==> is_digit(#[trigger] digits[i]) {
                assert(digits_value(digits) > usize::MAX);
                assert(digits_value(digits.push(c)) > usize::MAX);
            } else {
                let i = choose|i: int|
                    0 <= i < digits.len() && !is_digit(#[trigger] digits[i]);
                assert(digits.push(c)[i] == digits[i]);
            }
        }
    }
}

/// The bytes of a notation as characters.
pub open spec fn as_text(bytes: Seq<u8>) -> Seq<char> {
    Seq::new(bytes.len(), |i: int| bytes[i] as char)
}

/// What was written is read back as the number that was written, and a number other
/// than zero is not written with a zero in front.
pub proof fn law_written_number_is_read_back(n: nat)
    ensures
        n <= usize::MAX ==> number(as_text(decimal_bytes(n))) == Some(n as usize),
        decimal_bytes(n)[0] == 48 ==> n == 0 && decimal_bytes(n).len() == 1,
        digits_value(as_text(decimal_bytes(n))) == n,
{
    lemma_decimal_digits(n);
    lemma_text_value(n);
    let text = as_text(decimal_bytes(n));
    assert forall|i: int| 0 <= i < text.len() implies is_digit(#[trigger] text[i]) by {
        assert(48 <= decimal_bytes(n)[i] <= 57);
    }
    assert(is_digit(text[0]));
    assert(without_plus(text) == text);
}

proof fn lemma_text_value(n: nat)
    ensures
        digits_value(as_text(decimal_bytes(n))) == n,
        decimal_bytes(n)[0] == 48 ==> n == 0 && decimal_bytes(n).len() == 1,
    decreases n,
{
    let text = as_text(decimal_bytes(n));
    if n < 10 {
        assert(text.drop_last() =~= Seq::empty());
        assert(digits_value(Seq::empty()) == 0);
    } else {
        lemma_text_value(n / 10);
        lemma_decimal_digits(n / 10);
        assert(text.drop_last() =~= as_text(decimal_bytes(n / 10)));
        assert(decimal_bytes(n)[0] == decimal_bytes(n / 10)[0]);
    }
}

} // verus!
