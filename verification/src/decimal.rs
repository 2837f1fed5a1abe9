//! Unsigned numbers in decimal notation: writing them and reading them.

use vstd::prelude::*;

verus! {

/// Whether `c` is one of the ten digits `0` to `9`.
pub open spec fn is_digit(c: char) -> bool {
    0x30 <= c as u32 <= 0x39
}

/// The number that the digit `c` stands for.
pub open spec fn digit_value(c: char) -> nat {
    (c as u32 - 0x30) as nat
}

/// The digit that stands for `d`, a number below ten.
pub open spec fn digit_char(d: nat) -> char {
    ((0x30 + d) as u8) as char
}

/// The number written in `s`, a sequence of digits, most significant first.
pub open spec fn digits_value(s: Seq<char>) -> nat
    decreases s.len(),
{
    if s.len() == 0 {
        0
    } else {
        digits_value(s.drop_last()) * 10 + digit_value(s.last())
    }
}

/// Whether `s` holds digits only.
pub open spec fn all_digits(s: Seq<char>) -> bool {
    forall|i: int| 0 <= i < s.len() ==> is_digit(#[trigger] s[i])
}

/// The number written in `s`, if `s` is a number in decimal notation that
/// fits in 64 bits: one or more digits, with or without a plus sign before
/// them, and nothing else.
pub open spec fn parse_decimal(s: Seq<char>) -> Option<u64> {
    let digits = if s.len() > 0 && s[0] == '+' {
        s.drop_first()
    } else {
        s
    };
    if digits.len() > 0 && all_digits(digits) && digits_value(digits) <= u64::MAX {
        Some(digits_value(digits) as u64)
    } else {
        None
    }
}

/// `n` in decimal notation, without leading zeros.
pub open spec fn decimal(n: nat) -> Seq<char>
    decreases n,
{
    if n < 10 {
        seq![digit_char(n)]
    } else {
        decimal(n / 10).push(digit_char(n % 10))
    }
}

/// The number written in the first digits of `s` is at most the number
/// written in all of `s`.
pub proof fn lemma_digits_value_prefix(s: Seq<char>, k: int)
    requires
        0 <= k <= s.len(),
    ensures
        digits_value(s.subrange(0, k)) <= digits_value(s),
    decreases s.len(),
{
    if k == s.len() {
        assert(s.subrange(0, k) == s);
    } else {
        lemma_digits_value_prefix(s.drop_last(), k);
        assert(s.drop_last().subrange(0, k) == s.subrange(0, k));
    }
}

/// What `decimal` writes is read back as the number that was written.
pub proof fn lemma_decimal_round_trip(n: nat)
    ensures
        decimal(n).len() > 0,
        all_digits(decimal(n)),
        digits_value(decimal(n)) == n,
        n <= u64::MAX ==> parse_decimal(decimal(n)) == Some(n as u64),
    decreases n,
{
    let text = decimal(n);
    if n < 10 {
        assert(text.drop_last() == Seq::<char>::empty());
        assert(digits_value(text.drop_last()) == 0);
    } else {
        lemma_decimal_round_trip(n / 10);
        assert(text.drop_last() == decimal(n / 10));
        assert(text.last() == digit_char(n % 10));
    }
    assert(text[0] != '+');
}

/// Reads `text[start..end]` as a number in decimal notation.
pub(crate) fn parse_u64(text: &[char], start: usize, end: usize) -> (r: Option<u64>)
    requires
        start <= end <= text.len(),
    ensures
        r == parse_decimal(text@.subrange(start as int, end as int)),
{
    let ghost whole = text@.subrange(start as int, end as int);
    let from: usize = if start < end && text[start] == '+' {
        start + 1
    } else {
        start
    };
    let ghost digits = text@.subrange(from as int, end as int);
    assert(digits == if whole.len() > 0 && whole[0] == '+' {
        whole.drop_first()
    } else {
        whole
    });
    if from == end {
        return None;
    }
    let mut value: u64 = 0;
    let mut i: usize = from;
    while i < end
        invariant
            from <= i <= end <= text.len(),
            whole == text@.subrange(start as int, end as int),
            digits == text@.subrange(from as int, end as int),
            digits == if whole.len() > 0 && whole[0] == '+' {
                whole.drop_first()
            } else {
                whole
            },
            all_digits(digits.subrange(0, i - from)),
            value == digits_value(digits.subrange(0, i - from)),
        decreases end - i,
    {
        let c: char = text[i];
        let u: u32 = c as u32;
        if u < 0x30 || u > 0x39 {
            assert(!is_digit(digits[i - from]));
            return None;
        }
        let d: u64 = (u - 0x30) as u64;
        let ghost longer = digits.subrange(0, i - from + 1);
        proof {
            assert(longer.drop_last() == digits.subrange(0, i - from));
            assert(longer.last() == c);
            assert(digits_value(longer) == value * 10 + d);
            lemma_digits_value_prefix(digits, i - from + 1);
        }
        let next: u64 = match value.checked_mul(10) {
            Some(tens) => match tens.checked_add(d) {
                Some(sum) => sum,
                None => {
                    return None;
                },
            },
            None => {
                return None;
            },
        };
        value = next;
        i += 1;
    }
    assert(digits.subrange(0, end - from) == digits);
    Some(value)
}

/// Appends `n` in decimal notation to `out`.
pub(crate) fn push_decimal(out: &mut String, n: u64)
    ensures
        final(out)@ == old(out)@ + decimal(n as nat),
    decreases n,
{
    if n >= 10 {
        push_decimal(out, n / 10);
    }
    let d: u8 = (n % 10) as u8;
    out.push((0x30u8 + d) as char);
}

} // verus!
