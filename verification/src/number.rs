//! Decimal numbers in text.
use crate::text::{is_digit, CharClass};
use vstd::prelude::*;

verus! {

/// Every character of `s` is an ASCII digit.
pub open spec fn all_digits(s: Seq<char>) -> bool {
    forall|i: int| 0 <= i < s.len() ==> is_digit(#[trigger] s[i])
}

/// The number that a digit stands for.
pub open spec fn digit_value(c: char) -> nat {
    (c as int - '0' as int) as nat
}

/// The number that a sequence of digits writes in base ten.
pub open spec fn decimal_value(s: Seq<char>) -> nat
    decreases s.len(),
{
    if s.len() == 0 {
        0
    } else {
        10 * decimal_value(s.drop_last()) + digit_value(s.last())
    }
}

/// The digit that stands for `d`.
pub open spec fn digit_char(d: nat) -> char {
    (('0' as int + d) as u32) as char
}

/// The number in base ten, without leading zeros.
pub open spec fn decimal_text(n: nat) -> Seq<char>
    decreases n,
{
    if n < 10 {
        seq![digit_char(n)]
    } else {
        decimal_text(n / 10).push(digit_char(n % 10))
    }
}

/// `count` zeros.
pub open spec fn zeros(count: nat) -> Seq<char> {
    Seq::new(count, |i: int| '0')
}

/// The number in base ten, with leading zeros up to `width` digits.
pub open spec fn padded(n: nat, width: nat) -> Seq<char> {
    let digits = decimal_text(n);
    if digits.len() < width {
        zeros((width - digits.len()) as nat) + digits
    } else {
        digits
    }
}

/// The number that non-empty ASCII digits write, where it is a `u64`.
pub open spec fn number(s: Seq<char>) -> Option<u64> {
    if s.len() > 0 && all_digits(s) && decimal_value(s) <= u64::MAX {
        Some(decimal_value(s) as u64)
    } else {
        None
    }
}

pub proof fn lemma_decimal_text(n: nat)
    ensures
        decimal_text(n).len() > 0,
        all_digits(decimal_text(n)),
        decimal_value(decimal_text(n)) == n,
        n > 0 ==> decimal_text(n)[0] != '0',
        n >= 10 ==> decimal_text(n).len() >= 2,
    decreases n,
{
    reveal_with_fuel(decimal_value, 2);
    if n < 10 {
        assert(decimal_text(n).drop_last() =~= Seq::<char>::empty());
    } else {
        lemma_decimal_text(n / 10);
        let head = decimal_text(n / 10);
        assert(decimal_text(n).drop_last() =~= head);
        assert(decimal_text(n).last() == digit_char(n % 10));
        assert forall|i: int| 0 <= i < decimal_text(n).len() implies is_digit(
            #[trigger] decimal_text(n)[i],
        ) by {
            if i < head.len() {
                assert(decimal_text(n)[i] == head[i]);
            }
        }
    }
}

/// A number of at most `width` digits is padded to exactly `width`.
pub proof fn lemma_decimal_len(n: nat)
    ensures
        n < 10 ==> decimal_text(n).len() == 1,
        n < 100 ==> decimal_text(n).len() <= 2,
        n < 1000 ==> decimal_text(n).len() <= 3,
        n <= u64::MAX ==> decimal_text(n).len() <= 20,
{
    reveal_with_fuel(decimal_text, 21);
}

pub proof fn lemma_zeros_value(count: nat, digits: Seq<char>)
    ensures
        decimal_value(zeros(count) + digits) == decimal_value(digits),
    decreases digits.len() + count,
{
    let s = zeros(count) + digits;
    if digits.len() > 0 {
        assert(s.drop_last() =~= zeros(count) + digits.drop_last());
        lemma_zeros_value(count, digits.drop_last());
    } else if count > 0 {
        assert(s.drop_last() =~= zeros((count - 1) as nat) + digits);
        lemma_zeros_value((count - 1) as nat, digits);
    } else {
        assert(s =~= digits);
    }
}

pub proof fn lemma_padded(n: nat, width: nat)
    ensures
        all_digits(padded(n, width)),
        decimal_value(padded(n, width)) == n,
        padded(n, width).len() >= width,
        padded(n, width).len() > 0,
        n < 100 && width == 2 ==> padded(n, width).len() == 2,
        n < 1000 && width == 3 ==> padded(n, width).len() == 3,
{
    lemma_decimal_text(n);
    lemma_decimal_len(n);
    let digits = decimal_text(n);
    if digits.len() < width {
        lemma_zeros_value((width - digits.len()) as nat, digits);
    }
}

/// The value grows with every further digit.
pub proof fn lemma_value_monotone(s: Seq<char>, i: int)
    requires
        0 <= i <= s.len(),
    ensures
        decimal_value(s.take(i)) <= decimal_value(s),
    decreases s.len() - i,
{
    if i == s.len() {
        assert(s.take(i) =~= s);
    } else {
        lemma_value_monotone(s, i + 1);
        assert(s.take(i + 1).drop_last() =~= s.take(i));
    }
}

/// Whether every character is an ASCII digit.
pub fn is_all_digits(text: &[char]) -> (all: bool)
    ensures
        all == all_digits(text@),
{
    let mut i: usize = 0;
    while i < text.len()
        invariant
            i <= text.len(),
            forall|j: int| 0 <= j < i ==> is_digit(#[trigger] text@[j]),
        decreases text.len() - i,
    {
        if !CharClass::Digit.test(text[i]) {
            assert(!is_digit(text@[i as int]));
            return false;
        }
        i += 1;
    }
    true
}

/// The number that non-empty ASCII digits write, where it is a `u64`.
pub fn ascii_number(text: &[char]) -> (result: Option<u64>)
    ensures
        result == number(text@),
{
    if text.len() == 0 || !is_all_digits(text) {
        return None;
    }
    let mut value: u64 = 0;
    let mut i: usize = 0;
    while i < text.len()
        invariant
            i <= text.len(),
            all_digits(text@),
            text@.len() > 0,
            value == decimal_value(text@.take(i as int)),
        decreases text.len() - i,
    {
        let digit: u64 = (text[i] as u32 - 48) as u64;
        proof {
            assert(is_digit(text@[i as int]));
            assert(text@.take(i + 1).drop_last() =~= text@.take(i as int));
            lemma_value_monotone(text@, i + 1);
        }
        let next: Option<u64> = match value.checked_mul(10) {
            Some(tens) => tens.checked_add(digit),
            None => None,
        };
        match next {
            Some(sum) => {
                value = sum;
            },
            None => {
                return None;
            },
        }
        i += 1;
    }
    assert(text@.take(i as int) =~= text@);
    Some(value)
}

/// The number in base ten, without leading zeros.
pub fn decimal_chars(n: u64) -> (text: Vec<char>)
    ensures
        text@ == decimal_text(n as nat),
    decreases n,
{
    if n < 10 {
        let mut text: Vec<char> = Vec::new();
        text.push((48 + n as u8) as char);
        assert(text@ =~= decimal_text(n as nat));
        text
    } else {
        let mut text = decimal_chars(n / 10);
        text.push((48 + (n % 10) as u8) as char);
        text
    }
}

/// The number in base ten, with leading zeros up to `width` digits.
pub fn padded_chars(n: u64, width: usize) -> (text: Vec<char>)
    ensures
        text@ == padded(n as nat, width as nat),
{
    let mut digits = decimal_chars(n);
    if digits.len() >= width {
        return digits;
    }
    let missing: usize = width - digits.len();
    let mut text: Vec<char> = Vec::new();
    while text.len() < missing
        invariant
            text.len() <= missing,
            text@ =~= zeros(text@.len()),
        decreases missing - text.len(),
    {
        text.push('0');
    }
    text.append(&mut digits);
    text
}


/// The number in base ten, with a minus sign where it is negative.
pub open spec fn signed_text(n: int) -> Seq<char> {
    if n < 0 {
        seq!['-'] + decimal_text((-n) as nat)
    } else {
        decimal_text(n as nat)
    }
}

/// The number in base ten, with a minus sign where it is negative.
pub fn signed_chars(n: i64) -> (text: Vec<char>)
    ensures
        text@ == signed_text(n as int),
{
    if n >= 0 {
        return decimal_chars(n as u64);
    }
    let size: u64 = if n == i64::MIN {
        0x8000_0000_0000_0000
    } else {
        (-n) as u64
    };
    let mut text: Vec<char> = Vec::new();
    text.push('-');
    let mut digits = decimal_chars(size);
    text.append(&mut digits);
    assert(text@ =~= signed_text(n as int));
    text
}

} // verus!
