//! Decimal notation of integers, and reading it back.

use vstd::prelude::*;

verus! {

use crate::text::{chars_of, is_decimal_digit, is_digit};

/// The decimal digit of a number below ten.
pub open spec fn digit_char(n: int) -> char {
    (48 + n) as u8 as char
}

/// The decimal notation of a natural number, without leading zeros.
pub open spec fn decimal(n: nat) -> Seq<char>
    decreases n,
{
    if n < 10 {
        seq![digit_char(n as int)]
    } else {
        decimal(n / 10).push(digit_char((n % 10) as int))
    }
}

/// The decimal notation of an integer.
pub open spec fn decimal_int(i: int) -> Seq<char> {
    if i < 0 {
        "-"@ + decimal((-i) as nat)
    } else {
        decimal(i as nat)
    }
}

pub open spec fn all_digits(s: Seq<char>) -> bool {
    forall|i: int| 0 <= i < s.len() ==> is_digit(#[trigger] s[i])
}

/// The number that a run of decimal digits denotes.
pub open spec fn digits_value(s: Seq<char>) -> nat
    decreases s.len(),
{
    if s.len() == 0 {
        0
    } else {
        digits_value(s.drop_last()) * 10 + (s.last() as u32 - 48) as nat
    }
}

/// The number in an optional plus sign and decimal digits.
pub open spec fn natural(s: Seq<char>) -> Option<nat> {
    let digits = if s.len() > 0 && s.first() == '+' {
        s.drop_first()
    } else {
        s
    };
    if digits.len() > 0 && all_digits(digits) {
        Some(digits_value(digits))
    } else {
        None
    }
}

/// The number in an optional sign and decimal digits.
pub open spec fn integer(s: Seq<char>) -> Option<int> {
    if s.len() > 0 && s.first() == '-' {
        let digits = s.drop_first();
        if digits.len() > 0 && all_digits(digits) {
            Some(-(digits_value(digits) as int))
        } else {
            None
        }
    } else {
        match natural(s) {
            Some(n) => Some(n as int),
            None => None,
        }
    }
}

proof fn lemma_digit_char(n: int)
    requires
        0 <= n < 10,
    ensures
        is_digit(digit_char(n)),
        digit_char(n) as u32 - 48 == n,
        digit_char(n) != '+',
        digit_char(n) != '-',
{
}

/// Reading back the decimal notation of a number gives the number.
pub proof fn law_decimal_reads_back(n: nat)
    ensures
        natural(decimal(n)) == Some(n),
{
    lemma_decimal(n);
}

/// Reading back the decimal notation of an integer gives the integer.
pub proof fn law_decimal_int_reads_back(i: int)
    ensures
        integer(decimal_int(i)) == Some(i),
{
    reveal_strlit("-");
    if i < 0 {
        lemma_decimal((-i) as nat);
        assert(decimal_int(i).drop_first() == decimal((-i) as nat));
    } else {
        lemma_decimal(i as nat);
    }
}

/// Two numbers with the same decimal notation are equal.
pub proof fn law_decimal_injective(a: nat, b: nat)
    requires
        decimal(a) == decimal(b),
    ensures
        a == b,
{
    law_decimal_reads_back(a);
    law_decimal_reads_back(b);
}

pub proof fn lemma_decimal(n: nat)
    ensures
        decimal(n).len() > 0,
        all_digits(decimal(n)),
        digits_value(decimal(n)) == n,
        decimal(n).first() != '+',
        decimal(n).first() != '-',
    decreases n,
{
    if n < 10 {
        lemma_digit_char(n as int);
        assert(decimal(n).drop_last().len() == 0);
        assert(digits_value(decimal(n).drop_last()) == 0);
    } else {
        lemma_decimal(n / 10);
        lemma_digit_char((n % 10) as int);
        assert(decimal(n).drop_last() == decimal(n / 10));
    }
}

proof fn lemma_digits_value_grows(s: Seq<char>, k: int)
    requires
        0 <= k <= s.len(),
        all_digits(s),
    ensures
        digits_value(s.take(k)) <= digits_value(s),
    decreases s.len(),
{
    if k == s.len() {
        assert(s.take(k) == s);
    } else {
        let shorter = s.drop_last();
        assert(shorter.take(k) == s.take(k));
        lemma_digits_value_grows(shorter, k);
    }
}

fn push_decimal(text: &mut String, n: u64)
    ensures
        final(text)@ == old(text)@ + decimal(n as nat),
    decreases n,
{
    if n >= 10 {
        push_decimal(text, n / 10);
    }
    let digit: u8 = 48 + (n % 10) as u8;
    text.push(digit as char);
}

pub fn render_u64(n: u64) -> (r: String)
    ensures
        r@ == decimal(n as nat),
{
    let mut r = String::new();
    push_decimal(&mut r, n);
    r
}

pub fn render_usize(n: usize) -> (r: String)
    ensures
        r@ == decimal(n as nat),
{
    render_u64(n as u64)
}

pub fn render_i64(i: i64) -> (r: String)
    ensures
        r@ == decimal_int(i as int),
{
    if i < 0 {
        let mut r = "-".to_owned();
        let magnitude: u64 = (-(i as i128)) as u64;
        push_decimal(&mut r, magnitude);
        r
    } else {
        render_u64(i as u64)
    }
}

/// Reads decimal digits from `start` on, up to `limit`.
fn read_digits(chars: &Vec<char>, start: usize, limit: u64) -> (r: Option<u64>)
    requires
        start <= chars@.len(),
    ensures
        ({
            let digits = chars@.skip(start as int);
            let valid = digits.len() > 0 && all_digits(digits) && digits_value(digits) <= limit;
            &&& valid <==> r is Some
            &&& valid ==> r == Some(digits_value(digits) as u64)
        }),
{
    let ghost digits = chars@.skip(start as int);
    if start == chars.len() {
        return None;
    }
    let mut value: u64 = 0;
    let mut i: usize = start;
    while i < chars.len()
        invariant
            start <= i <= chars@.len(),
            digits == chars@.skip(start as int),
            forall|j: int| 0 <= j < i - start ==> is_digit(#[trigger] digits[j]),
            value == digits_value(digits.take(i - start)),
            value <= limit,
        decreases chars@.len() - i,
    {
        let c = chars[i];
        assert(c == digits[i - start]);
        if !is_decimal_digit(c) {
            return None;
        }
        let step: u64 = (c as u32 - 48) as u64;
        proof {
            assert(digits.take(i - start + 1).drop_last() == digits.take(i - start));
            if all_digits(digits) {
                lemma_digits_value_grows(digits, i - start + 1);
            }
        }
        if value > (u64::MAX - step) / 10 || value * 10 + step > limit {
            return None;
        }
        value = value * 10 + step;
        i += 1;
    }
    assert(digits.take(i - start) == digits);
    Some(value)
}

fn read_natural(text: &str, limit: u64) -> (r: Option<u64>)
    ensures
        r == (match natural(text@) {
            Some(n) if n <= limit => Some(n as u64),
            _ => None,
        }),
{
    let chars = chars_of(text);
    if chars.len() > 0 && chars[0] == '+' {
        assert(text@.skip(1) == text@.drop_first());
        read_digits(&chars, 1, limit)
    } else {
        assert(text@.skip(0) == text@);
        read_digits(&chars, 0, limit)
    }
}

pub open spec fn natural_within(s: Seq<char>, limit: int) -> Option<nat> {
    match natural(s) {
        Some(n) if n <= limit => Some(n),
        _ => None,
    }
}

pub fn parse_u64(text: &str) -> (r: Option<u64>)
    ensures
        r is Some <==> natural_within(text@, u64::MAX as int) is Some,
        r matches Some(n) ==> natural_within(text@, u64::MAX as int) == Some(n as nat),
{
    read_natural(text, u64::MAX)
}

pub fn parse_usize(text: &str) -> (r: Option<usize>)
    ensures
        r is Some <==> natural_within(text@, usize::MAX as int) is Some,
        r matches Some(n) ==> natural_within(text@, usize::MAX as int) == Some(n as nat),
{
    match read_natural(text, usize::MAX as u64) {
        Some(n) => Some(n as usize),
        None => None,
    }
}

pub open spec fn integer_within(s: Seq<char>, low: int, high: int) -> Option<int> {
    match integer(s) {
        Some(i) if low <= i <= high => Some(i),
        _ => None,
    }
}

pub fn parse_i64(text: &str) -> (r: Option<i64>)
    ensures
        r is Some <==> integer_within(text@, i64::MIN as int, i64::MAX as int) is Some,
        r matches Some(i) ==> integer_within(text@, i64::MIN as int, i64::MAX as int) == Some(
            i as int,
        ),
{
    let chars = chars_of(text);
    if chars.len() > 0 && chars[0] == '-' {
        assert(text@.skip(1) == text@.drop_first());
        match read_digits(&chars, 1, 0x8000_0000_0000_0000) {
            Some(n) => Some((-(n as i128)) as i64),
            None => None,
        }
    } else {
        match read_natural(text, 0x7fff_ffff_ffff_ffff) {
            Some(n) => Some(n as i64),
            None => None,
        }
    }
}

/// A number is read from digits and nothing else, with or without a plus sign before them: one more
/// digit behind counts ten times what was there, and zeros before change nothing.
pub proof fn law_numbers_are_read_digit_by_digit(digits: Seq<char>, last: char)
    requires
        digits.len() > 0,
        all_digits(digits),
        is_digit(last),
    ensures
        natural(digits) is Some,
        natural(digits.push(last)) == Some(
            (natural(digits)->0 * 10 + (last as u32 - '0' as u32)) as nat,
        ),
        natural(seq!['+'] + digits) == natural(digits),
        natural(seq!['0'] + digits) == natural(digits),
        integer(seq!['-'] + digits) == Some(-(natural(digits)->0 as int)),
        integer(digits) == Some(natural(digits)->0 as int),
{
    assert(is_digit(digits[0]));
    let longer = digits.push(last);
    assert(longer.drop_last() =~= digits);
    assert(all_digits(longer));
    assert(longer[0] == digits[0]);
    assert((seq!['+'] + digits).drop_first() =~= digits);
    assert((seq!['-'] + digits).drop_first() =~= digits);
    let zero = seq!['0'] + digits;
    assert(all_digits(zero)) by {
        assert forall|i: int| 0 <= i < zero.len() implies is_digit(#[trigger] zero[i]) by {
            if i > 0 {
                assert(zero[i] == digits[i - 1]);
            }
        }
    }
    lemma_leading_zero(digits);
}

proof fn lemma_leading_zero(digits: Seq<char>)
    ensures
        digits_value(seq!['0'] + digits) == digits_value(digits),
    decreases digits.len(),
{
    let zero = seq!['0'] + digits;
    if digits.len() == 0 {
        assert(zero.drop_last().len() == 0);
        assert(digits_value(zero.drop_last()) == 0);
        assert(zero.last() == '0');
    } else {
        lemma_leading_zero(digits.drop_last());
        assert(zero.drop_last() =~= seq!['0'] + digits.drop_last());
        assert(zero.last() == digits.last());
    }
}

/// A text with anything but digits behind its sign is no number, and neither is a sign alone; a
/// number beyond the limits is not read.
pub proof fn law_other_texts_are_no_numbers(s: Seq<char>, i: int, limit: int)
    ensures
        0 <= i < s.len() && !is_digit(s[i]) && !(i == 0 && s[0] == '+') ==> natural(s) is None,
        0 <= i < s.len() && !is_digit(s[i]) && !(i == 0 && (s[0] == '+' || s[0] == '-'))
            ==> integer(s) is None,
        s.len() == 0 || s == seq!['+'] || s == seq!['-'] ==> natural(s) is None && integer(s)
            is None,
        natural_within(s, limit) matches Some(n) ==> n <= limit && natural(s) == Some(n),
        natural(s) is Some && natural(s)->0 <= limit ==> natural_within(s, limit) == natural(s),
{
    if 0 < i < s.len() && !is_digit(s[i]) {
        assert(s.drop_first()[i - 1] == s[i]);
    }
    if s == seq!['-'] {
        assert(s.drop_first().len() == 0);
        assert(!is_digit(s[0]));
    }
    if s == seq!['+'] {
        assert(s.drop_first().len() == 0);
    }
}

} // verus!
