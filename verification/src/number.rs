//! Integers written as text: an optional sign and digits, in base ten or sixteen.

use vstd::prelude::*;

verus! {

/// The value of `c` as a digit or a letter that stands for one.
pub open spec fn digit_of(c: char) -> int {
    let u = c as u32 as int;
    if 0x30 <= u <= 0x39 {
        u - 0x30
    } else if 0x61 <= u <= 0x7a {
        u - 0x61 + 10
    } else if 0x41 <= u <= 0x5a {
        u - 0x41 + 10
    } else {
        36
    }
}

/// Whether every character of `s` is a digit of base `radix`.
pub open spec fn all_digits(s: Seq<char>, radix: int) -> bool {
    forall|i: int| 0 <= i < s.len() ==> digit_of(#[trigger] s[i]) < radix
}

/// The number that the digits `s` write in base `radix`, first digit highest.
pub open spec fn digits_value(s: Seq<char>, radix: int) -> int
    decreases s.len(),
{
    if s.len() == 0 {
        0
    } else {
        digits_value(s.drop_last(), radix) * radix + digit_of(s.last())
    }
}

/// Whether `s` starts with a sign.
pub open spec fn has_sign(s: Seq<char>) -> bool {
    s.len() > 0 && (s[0] == '-' || s[0] == '+')
}

/// The digits of `s`: what follows its sign, if it has one.
pub open spec fn digits_part(s: Seq<char>) -> Seq<char> {
    if has_sign(s) {
        s.drop_first()
    } else {
        s
    }
}

/// The integer that `s` writes in base `radix`: an optional `+` or `-`, then at
/// least one digit and nothing else. `None` when `s` is not of that form.
pub open spec fn parse_int(s: Seq<char>, radix: int) -> Option<int> {
    let digits = digits_part(s);
    if digits.len() == 0 || !all_digits(digits, radix) {
        None
    } else if s[0] == '-' {
        Some(-digits_value(digits, radix))
    } else {
        Some(digits_value(digits, radix))
    }
}

/// The same integer, when it fits in 32 bits with a sign.
pub open spec fn parse_i32(s: Seq<char>, radix: int) -> Option<i32> {
    match parse_int(s, radix) {
        Some(v) => if i32::MIN <= v <= i32::MAX {
            Some(v as i32)
        } else {
            None
        },
        None => None,
    }
}

proof fn lemma_digits_grow(s: Seq<char>, radix: int, k: int)
    requires
        2 <= radix,
        0 <= k <= s.len(),
        all_digits(s, radix),
    ensures
        0 <= digits_value(s.take(k), radix) <= digits_value(s, radix),
    decreases s.len() - k,
{
    if k == s.len() {
        assert(s.take(k) == s);
        lemma_digits_nonnegative(s, radix);
    } else {
        lemma_digits_grow(s, radix, k + 1);
        let t = s.take(k + 1);
        assert(t.drop_last() == s.take(k));
        lemma_digits_nonnegative(s.take(k), radix);
        let v = digits_value(s.take(k), radix);
        assert(v * radix >= v) by (nonlinear_arith)
            requires
                v >= 0,
                radix >= 2,
        ;
    }
}

proof fn lemma_digits_nonnegative(s: Seq<char>, radix: int)
    requires
        2 <= radix,
    ensures
        0 <= digits_value(s, radix),
    decreases s.len(),
{
    if s.len() > 0 {
        lemma_digits_nonnegative(s.drop_last(), radix);
        let v = digits_value(s.drop_last(), radix);
        assert(v * radix >= 0) by (nonlinear_arith)
            requires
                v >= 0,
                radix >= 2,
        ;
    }
}

/// The digit that `c` stands for, 36 when it stands for none.
pub fn to_digit(c: char) -> (d: u32)
    ensures
        d == digit_of(c),
        d <= 36,
{
    let u: u32 = c as u32;
    if 0x30 <= u && u <= 0x39 {
        u - 0x30
    } else if 0x61 <= u && u <= 0x7a {
        u - 0x61 + 10
    } else if 0x41 <= u && u <= 0x5a {
        u - 0x41 + 10
    } else {
        36
    }
}

proof fn lemma_digits_push(digits: Seq<char>, k: int, radix: int)
    requires
        0 <= k < digits.len(),
        all_digits(digits.take(k), radix),
        digit_of(digits[k]) < radix,
    ensures
        all_digits(digits.take(k + 1), radix),
        digits_value(digits.take(k + 1), radix) == digits_value(digits.take(k), radix) * radix
            + digit_of(digits[k]),
{
    let longer = digits.take(k + 1);
    assert(longer.drop_last() == digits.take(k));
    assert forall|i: int| 0 <= i < longer.len() implies digit_of(#[trigger] longer[i]) < radix by {
        if i < k {
            assert(longer[i] == digits.take(k)[i]);
        }
    }
}

proof fn lemma_next_value_bounds(acc: int, radix: int, d: int)
    by (nonlinear_arith)
    requires
        0 <= acc <= 0x1_0000_0000,
        2 <= radix <= 36,
        0 <= d <= 36,
    ensures
        0 <= acc * radix + d <= 0x1_0000_0000 * 36 + 36,
{
}

/// The number that the characters of `s` from `start` on write in base `radix`,
/// when all of them are digits and the number is at most `limit`.
#[verifier::rlimit(50)]
fn parse_digits(s: &[char], start: usize, radix: u32, limit: u64) -> (value: Option<u64>)
    requires
        2 <= radix <= 36,
        start <= s@.len(),
        limit <= 0x1_0000_0000,
    ensures
        match value {
            Some(v) => all_digits(s@.skip(start as int), radix as int) && v == digits_value(
                s@.skip(start as int),
                radix as int,
            ) && v <= limit,
            None => !all_digits(s@.skip(start as int), radix as int) || digits_value(
                s@.skip(start as int),
                radix as int,
            ) > limit,
        },
{
    let ghost digits = s@.skip(start as int);
    let mut acc: u64 = 0;
    let mut i: usize = start;
    while i < s.len()
        invariant
            start <= i <= s.len(),
            2 <= radix <= 36,
            limit <= 0x1_0000_0000,
            digits == s@.skip(start as int),
            all_digits(digits.take(i - start), radix as int),
            acc == digits_value(digits.take(i - start), radix as int),
            0 <= acc <= limit,
        decreases s.len() - i,
    {
        let d = to_digit(s[i]);
        if d >= radix {
            assert(digit_of(digits[i - start]) >= radix);
            return None;
        }
        proof {
            lemma_digits_push(digits, i - start, radix as int);
            lemma_next_value_bounds(acc as int, radix as int, d as int);
        }
        acc = acc * (radix as u64) + (d as u64);
        i = i + 1;
        if acc > limit {
            proof {
                if all_digits(digits, radix as int) {
                    lemma_digits_grow(digits, radix as int, i - start);
                }
            }
            return None;
        }
    }
    assert(digits.take(i - start) == digits);
    Some(acc)
}

/// Reads `s` as an integer of 32 bits in base `radix`: an optional `+` or `-`,
/// then at least one digit and nothing else.
pub fn parse_number(s: &[char], radix: u32) -> (value: Option<i32>)
    requires
        2 <= radix <= 36,
    ensures
        value == parse_i32(s@, radix as int),
{
    if s.len() == 0 {
        return None;
    }
    let negative = s[0] == '-';
    let start: usize = if s[0] == '-' || s[0] == '+' {
        1
    } else {
        0
    };
    if start == s.len() {
        return None;
    }
    assert(digits_part(s@) == s@.skip(start as int));
    match parse_digits(s, start, radix, 0x8000_0000) {
        None => None,
        Some(magnitude) => {
            if negative {
                Some((-(magnitude as i64)) as i32)
            } else if magnitude == 0x8000_0000 {
                None
            } else {
                Some(magnitude as i32)
            }
        },
    }
}

/// The number without sign that `s` writes in base `radix`: an optional `+`, then
/// at least one digit and nothing else. `None` when `s` is not of that form or
/// the number is above `max`.
pub open spec fn parse_unsigned(s: Seq<char>, radix: int, max: int) -> Option<int> {
    let digits = if s.len() > 0 && s[0] == '+' {
        s.drop_first()
    } else {
        s
    };
    if digits.len() == 0 || !all_digits(digits, radix) || digits_value(digits, radix) > max {
        None
    } else {
        Some(digits_value(digits, radix))
    }
}

/// Reads `s` as a number without sign in base `radix` that is at most `max`.
pub fn parse_unsigned_number(s: &[char], radix: u32, max: u32) -> (value: Option<u32>)
    requires
        2 <= radix <= 36,
    ensures
        match value {
            Some(v) => parse_unsigned(s@, radix as int, max as int) == Some(v as int) && v <= max,
            None => parse_unsigned(s@, radix as int, max as int) is None,
        },
{
    if s.len() == 0 {
        return None;
    }
    let start: usize = if s[0] == '+' {
        1
    } else {
        0
    };
    if start == s.len() {
        return None;
    }
    assert(start == 0 ==> s@ == s@.skip(0));
    match parse_digits(s, start, radix, max as u64) {
        None => None,
        Some(v) => Some(v as u32),
    }
}

} // verus!
