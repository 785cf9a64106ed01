//! Decimal digits of a count, as numbers and as text.

use vstd::prelude::*;

verus! {

/// The decimal digits of `n` before its last one: empty below ten.
pub open spec fn leading_digits(n: nat) -> Seq<u32>
    decreases n,
{
    if n == 0 {
        Seq::empty()
    } else {
        leading_digits(n / 10).push((n % 10) as u32)
    }
}

/// The decimal digits of `n`, most significant first. Zero has the one digit 0.
pub open spec fn decimal_digits(n: nat) -> Seq<u32> {
    leading_digits(n / 10).push((n % 10) as u32)
}

/// `decimal_digits(n)` with zeros put in front until it has `width` digits.
/// A number that already has `width` digits or more is left as it is.
pub open spec fn padded_digits(n: nat, width: nat) -> Seq<u32> {
    let digits = decimal_digits(n);
    if digits.len() >= width {
        digits
    } else {
        Seq::new((width - digits.len()) as nat, |i: int| 0u32) + digits
    }
}

/// Every digit of a number is below ten.
pub proof fn lemma_leading_digits_small(n: nat)
    ensures
        forall|i: int| 0 <= i < leading_digits(n).len() ==> #[trigger] leading_digits(n)[i] < 10,
    decreases n,
{
    if n != 0 {
        lemma_leading_digits_small(n / 10);
        let shorter = leading_digits(n / 10);
        assert forall|i: int| 0 <= i < leading_digits(n).len() implies #[trigger] leading_digits(
            n,
        )[i] < 10 by {
            if i < shorter.len() {
                assert(leading_digits(n)[i] == shorter[i]);
            }
        }
    }
}

/// A number has at least one decimal digit, and each of them is below ten.
pub proof fn lemma_decimal_digits_small(n: nat)
    ensures
        decimal_digits(n).len() >= 1,
        forall|i: int| 0 <= i < decimal_digits(n).len() ==> #[trigger] decimal_digits(n)[i] < 10,
{
    lemma_leading_digits_small(n / 10);
    let shorter = leading_digits(n / 10);
    assert forall|i: int| 0 <= i < decimal_digits(n).len() implies #[trigger] decimal_digits(
        n,
    )[i] < 10 by {
        if i < shorter.len() {
            assert(decimal_digits(n)[i] == shorter[i]);
        }
    }
}

/// Padding adds only zeros: every digit is still below ten, and there is at
/// least one.
pub proof fn lemma_padded_digits_small(n: nat, width: nat)
    ensures
        padded_digits(n, width).len() >= 1,
        padded_digits(n, width).len() >= width,
        forall|i: int|
            0 <= i < padded_digits(n, width).len() ==> #[trigger] padded_digits(n, width)[i] < 10,
{
    lemma_decimal_digits_small(n);
}

/// Splits `number` into its decimal digits, most significant first, and puts
/// zeros in front until there are at least `digit_count` of them.
pub fn u64_to_digit(number: u64, digit_count: u32) -> (digits: Vec<u32>)
    ensures
        digits@ == padded_digits(number as nat, digit_count as nat),
{
    // least significant digit first
    let mut reversed: Vec<u32> = Vec::new();
    reversed.push((number % 10) as u32);
    let mut rest: u64 = number / 10;
    while rest > 0
        invariant
            reversed.len() >= 1,
            decimal_digits(number as nat) =~= leading_digits(rest as nat) + reversed@.reverse(),
        decreases rest,
    {
        let ghost before = reversed@;
        reversed.push((rest % 10) as u32);
        assert(reversed@.reverse() =~= seq![(rest % 10) as u32] + before.reverse());
        rest = rest / 10;
    }
    assert(decimal_digits(number as nat) =~= reversed@.reverse());
    let len: usize = reversed.len();
    let wanted: usize = digit_count as usize;
    let zeros: usize = if wanted > len {
        wanted - len
    } else {
        0
    };
    let mut digits: Vec<u32> = Vec::new();
    while digits.len() < zeros
        invariant
            digits.len() <= zeros,
            digits@ =~= Seq::new(digits.len() as nat, |i: int| 0u32),
        decreases zeros - digits.len(),
    {
        digits.push(0);
    }
    let mut taken: usize = 0;
    while taken < len
        invariant
            len == reversed.len(),
            taken <= len,
            digits@ =~= Seq::new(zeros as nat, |i: int| 0u32) + reversed@.reverse().subrange(
                0,
                taken as int,
            ),
        decreases len - taken,
    {
        digits.push(reversed[len - 1 - taken]);
        taken = taken + 1;
    }
    assert(reversed@.reverse().subrange(0, len as int) =~= reversed@.reverse());
    digits
}

/// The character that stands for a decimal digit.
pub open spec fn digit_char(digit: u32) -> char {
    if digit == 0 {
        '0'
    } else if digit == 1 {
        '1'
    } else if digit == 2 {
        '2'
    } else if digit == 3 {
        '3'
    } else if digit == 4 {
        '4'
    } else if digit == 5 {
        '5'
    } else if digit == 6 {
        '6'
    } else if digit == 7 {
        '7'
    } else if digit == 8 {
        '8'
    } else {
        '9'
    }
}

/// `n` written in decimal, without sign or leading zeros.
pub open spec fn decimal_chars(n: nat) -> Seq<char> {
    Seq::new(decimal_digits(n).len(), |i: int| digit_char(decimal_digits(n)[i]))
}

/// A decimal digit as text.
fn digit_text(digit: u32) -> (text: &'static str)
    requires
        digit < 10,
    ensures
        text@ == seq![digit_char(digit)],
{
    proof {
        reveal_strlit("0");
        reveal_strlit("1");
        reveal_strlit("2");
        reveal_strlit("3");
        reveal_strlit("4");
        reveal_strlit("5");
        reveal_strlit("6");
        reveal_strlit("7");
        reveal_strlit("8");
        reveal_strlit("9");
    }
    let text = if digit == 0 {
        "0"
    } else if digit == 1 {
        "1"
    } else if digit == 2 {
        "2"
    } else if digit == 3 {
        "3"
    } else if digit == 4 {
        "4"
    } else if digit == 5 {
        "5"
    } else if digit == 6 {
        "6"
    } else if digit == 7 {
        "7"
    } else if digit == 8 {
        "8"
    } else {
        "9"
    };
    assert(text@ =~= seq![digit_char(digit)]);
    text
}

/// Writes `number` in decimal.
pub fn decimal_text(number: u64) -> (text: String)
    ensures
        text@ == decimal_chars(number as nat),
{
    let digits = u64_to_digit(number, 0);
    proof {
        lemma_decimal_digits_small(number as nat);
    }
    let mut text = String::new();
    let mut i: usize = 0;
    while i < digits.len()
        invariant
            i <= digits.len(),
            digits@ == decimal_digits(number as nat),
            forall|j: int| 0 <= j < digits.len() ==> #[trigger] digits[j] < 10,
            text@ =~= Seq::new(i as nat, |j: int| digit_char(digits[j])),
        decreases digits.len() - i,
    {
        text.append(digit_text(digits[i]));
        i = i + 1;
    }
    text
}

/// Whether two texts are the same.
pub fn same_text(left: &str, right: &str) -> (same: bool)
    ensures
        same == (left@ == right@),
{
    let len = left.unicode_len();
    if len != right.unicode_len() {
        return false;
    }
    let mut i: usize = 0;
    while i < len
        invariant
            i <= len,
            len == left@.len(),
            len == right@.len(),
            forall|j: int| 0 <= j < i ==> left@[j] == right@[j],
        decreases len - i,
    {
        if left.get_char(i) != right.get_char(i) {
            return false;
        }
        i = i + 1;
    }
    assert(left@ =~= right@);
    true
}

} // verus!
