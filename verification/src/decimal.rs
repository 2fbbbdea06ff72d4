//! Numbers in decimal, written and read.

use vstd::arithmetic::power::{lemma_pow1, lemma_pow_increases, pow};
use vstd::prelude::*;

use crate::text::chars_of;

verus! {

// ---------------------------------------------------------------------------
// Writing
// ---------------------------------------------------------------------------

/// The character of a digit.
pub open spec fn digit(d: nat) -> char {
    (48 + d) as char
}

/// `n` in decimal.
pub open spec fn decimal(n: nat) -> Seq<char>
    decreases n,
{
    if n < 10 {
        seq![digit(n)]
    } else {
        decimal(n / 10).push(digit(n % 10))
    }
}

/// `n` in decimal, with zeros in front up to `width` characters.
pub open spec fn padded(n: nat, width: nat) -> Seq<char> {
    let digits = decimal(n);
    if digits.len() < width {
        Seq::new((width - digits.len()) as nat, |i: int| '0') + digits
    } else {
        digits
    }
}

/// Appends `n` in decimal.
fn push_decimal(out: &mut String, n: u128)
    ensures
        final(out)@ == old(out)@ + decimal(n as nat),
    decreases n,
{
    if n >= 10 {
        push_decimal(out, n / 10);
    }
    let d: u8 = (n % 10) as u8;
    out.push((48 + d) as char);
    assert(out@ =~= old(out)@ + decimal(n as nat));
}

/// Appends `n` in decimal, with zeros in front up to `width` characters.
pub fn push_padded(out: &mut String, n: u128, width: usize)
    ensures
        final(out)@ == old(out)@ + padded(n as nat, width as nat),
{
    let mut digits = String::new();
    push_decimal(&mut digits, n);
    assert(digits@ =~= decimal(n as nat));
    let len: usize = digits.as_str().unicode_len();
    let ghost start = out@;
    if len < width {
        for i in 0..width - len
            invariant
                len < width,
                out@ == start + Seq::new(i as nat, |k: int| '0'),
        {
            out.push('0');
            assert(out@ =~= start + Seq::new((i + 1) as nat, |k: int| '0'));
        }
        assert(out@ == start + Seq::new((width - len) as nat, |k: int| '0'));
        out.append(digits.as_str());
        assert(out@ =~= start + padded(n as nat, width as nat));
    } else {
        out.append(digits.as_str());
    }
}

// ---------------------------------------------------------------------------
// Reading
// ---------------------------------------------------------------------------

/// The number that a sequence of digits stands for.
pub open spec fn decimal_value(s: Seq<char>) -> int
    decreases s.len(),
{
    if s.len() == 0 {
        0
    } else {
        10 * decimal_value(s.drop_last()) + (s.last() as int - 48)
    }
}

proof fn lemma_decimal(n: nat)
    ensures
        decimal_value(decimal(n)) == n,
        decimal(n).len() > 0,
        n < 10 ==> decimal(n).len() == 1,
        10 <= n < 100 ==> decimal(n).len() == 2,
        100 <= n < 1000 ==> decimal(n).len() == 3,
        forall|i: int| 0 <= i < decimal(n).len() ==> '0' <= #[trigger] decimal(n)[i] <= '9',
    decreases n,
{
    reveal_with_fuel(decimal_value, 2);
    if n < 10 {
        assert(decimal(n).drop_last() =~= Seq::<char>::empty());
    } else {
        lemma_decimal(n / 10);
        assert(decimal(n).drop_last() =~= decimal(n / 10));
    }
}

proof fn lemma_leading_zeros(zeros: nat, s: Seq<char>)
    ensures
        decimal_value(Seq::new(zeros, |i: int| '0') + s) == decimal_value(s),
    decreases zeros + s.len(),
{
    let all = Seq::new(zeros, |i: int| '0') + s;
    if s.len() > 0 {
        lemma_leading_zeros(zeros, s.drop_last());
        assert(all.drop_last() =~= Seq::new(zeros, |i: int| '0') + s.drop_last());
    } else if zeros > 0 {
        lemma_leading_zeros((zeros - 1) as nat, s);
        assert(all.drop_last() =~= Seq::new((zeros - 1) as nat, |i: int| '0') + s);
    } else {
        assert(all =~= s);
    }
}

/// A number takes as many digits as the power of ten that it stays below.
proof fn lemma_decimal_len(n: nat, width: nat)
    requires
        width > 0,
    ensures
        n < pow(10, width) <==> decimal(n).len() <= width,
    decreases n,
{
    reveal(pow);
    lemma_decimal(n);
    if n < 10 {
        lemma_pow_increases(10, 1, width);
        lemma_pow1(10);
    } else if width == 1 {
        lemma_pow1(10);
        lemma_decimal(n / 10);
    } else {
        lemma_decimal_len(n / 10, (width - 1) as nat);
        assert(pow(10, width) == 10 * pow(10, (width - 1) as nat));
    }
}

/// A number written with a width reads back as the number, takes the width if it fits in it and
/// the digits it needs if it does not, and holds digits only.
pub proof fn law_padded(n: nat, width: nat)
    ensures
        decimal_value(padded(n, width)) == n,
        padded(n, width).len() == if decimal(n).len() < width {
            width
        } else {
            decimal(n).len()
        },
        width > 0 ==> (n < pow(10, width) <==> padded(n, width).len() == width),
        width == 2 && n < 100 ==> padded(n, width).len() == 2,
        width == 3 && n < 1000 ==> padded(n, width).len() == 3,
        forall|i: int| 0 <= i < padded(n, width).len() ==> '0' <= #[trigger] padded(n, width)[i] <= '9',
{
    lemma_decimal(n);
    if width > 0 {
        lemma_decimal_len(n, width);
    }
    if decimal(n).len() < width {
        lemma_leading_zeros((width - decimal(n).len()) as nat, decimal(n));
    }
}

/// Whether a character is one of `0` to `9`.
pub open spec fn is_digit(c: char) -> bool {
    '0' <= c && c <= '9'
}

/// At least one character, and digits only.
pub open spec fn all_digits(s: Seq<char>) -> bool {
    s.len() > 0 && forall|i: int| 0 <= i < s.len() ==> is_digit(#[trigger] s[i])
}

/// The digits of a number behind the plus sign that it may begin with.
pub open spec fn unsigned(s: Seq<char>) -> Seq<char> {
    if s.len() > 0 && s.first() == '+' {
        s.drop_first()
    } else {
        s
    }
}

/// The number that `s` stands for: digits, with a plus sign in front or without, whose value fits
/// in 64 bits.
pub open spec fn number(s: Seq<char>) -> Option<u64> {
    if all_digits(unsigned(s)) && decimal_value(unsigned(s)) <= u64::MAX {
        Some(decimal_value(unsigned(s)) as u64)
    } else {
        None
    }
}

/// More digits never make a number smaller.
proof fn lemma_decimal_value_grows(s: Seq<char>, n: int)
    requires
        0 <= n <= s.len(),
        forall|i: int| 0 <= i < s.len() ==> is_digit(#[trigger] s[i]),
    ensures
        0 <= decimal_value(s.take(n)) <= decimal_value(s),
    decreases s.len(),
{
    if s.len() > 0 {
        let init = s.drop_last();
        assert(is_digit(s[s.len() - 1]));
        assert forall|i: int| 0 <= i < init.len() implies is_digit(#[trigger] init[i]) by {
            assert(is_digit(s[i]));
        }
        if n < s.len() {
            lemma_decimal_value_grows(init, n);
            assert(init.take(n) =~= s.take(n));
        } else {
            lemma_decimal_value_grows(init, init.len() as int);
            assert(init.take(init.len() as int) =~= init);
            assert(s.take(n) =~= s);
        }
    } else {
        assert(s.take(n) =~= s);
    }
}

/// Reads a number of 64 bits: digits, with a plus sign in front or without.
pub fn parse_number(s: &str) -> (out: Option<u64>)
    ensures
        out == number(s@),
{
    let chars = chars_of(s);
    let mut start: usize = 0;
    if chars.len() > 0 && chars[0] == '+' {
        start = 1;
    }
    let ghost digits = unsigned(s@);
    assert(digits =~= s@.skip(start as int));
    if start == chars.len() {
        return None;
    }
    let mut value: u64 = 0;
    for i in start..chars.len()
        invariant
            start <= chars.len(),
            chars@ == s@,
            digits == unsigned(s@),
            digits == s@.skip(start as int),
            forall|k: int| 0 <= k < i - start ==> is_digit(#[trigger] digits[k]),
            value == decimal_value(digits.take(i - start)),
    {
        let c = chars[i];
        assert(digits[i - start] == c);
        if !('0' <= c && c <= '9') {
            return None;
        }
        let ghost prefix = digits.take(i + 1 - start);
        assert(prefix.drop_last() =~= digits.take(i - start));
        assert(prefix.last() == c);
        let d: u64 = (c as u32 - 48) as u64;
        if value > u64::MAX / 10 || value * 10 > u64::MAX - d {
            proof {
                assert(decimal_value(prefix) > u64::MAX);
                if all_digits(digits) {
                    lemma_decimal_value_grows(digits, i + 1 - start);
                }
            }
            return None;
        }
        value = value * 10 + d;
    }
    assert(digits.take(chars@.len() - start) =~= digits);
    Some(value)
}

/// A number written in decimal is read back, with a plus sign in front or without.
pub proof fn law_number_of_decimal(n: u64)
    ensures
        number(decimal(n as nat)) == Some(n),
        number(seq!['+'] + decimal(n as nat)) == Some(n),
{
    let s = decimal(n as nat);
    lemma_decimal(n as nat);
    assert(is_digit(s[0]));
    assert((seq!['+'] + s).drop_first() =~= s);
}

/// Nothing but zeros.
pub open spec fn zeros(n: nat) -> Seq<char> {
    Seq::new(n, |i: int| '0')
}

/// Digits are zeros with the number behind them that they stand for.
proof fn lemma_digits_are_a_number(s: Seq<char>) -> (k: nat)
    requires
        all_digits(s),
    ensures
        decimal_value(s) >= 0,
        s == zeros(k) + decimal(decimal_value(s) as nat),
    decreases s.len(),
{
    let init = s.drop_last();
    let last = s.last();
    assert(is_digit(s[s.len() - 1]));
    let d = (last as int - 48) as nat;
    assert(digit(d) == last);
    if init.len() == 0 {
        assert(decimal_value(init) == 0);
        assert(decimal_value(s) == d);
        assert(s =~= zeros(0) + decimal(d));
        0
    } else {
        assert forall|i: int| 0 <= i < init.len() implies is_digit(#[trigger] init[i]) by {
            assert(is_digit(s[i]));
        }
        let k = lemma_digits_are_a_number(init);
        let v = decimal_value(init) as nat;
        let n = decimal_value(s) as nat;
        assert(n == 10 * v + d);
        assert(s =~= init.push(last));
        assert(init == zeros(k) + decimal(v));
        if v == 0 {
            assert(decimal(v) == seq!['0']);
            assert(decimal(n) == seq![last]);
            assert(zeros(k) + seq!['0'] =~= zeros(k + 1));
            assert(s =~= zeros(k + 1) + decimal(n));
            k + 1
        } else {
            assert(n / 10 == v && n % 10 == d);
            assert(decimal(n) == decimal(v).push(last));
            assert(s =~= zeros(k) + decimal(n));
            k
        }
    }
}

/// A text is read as a number if and only if it is the number in decimal, with any zeros in front,
/// and with a plus sign in front of these or without.
pub proof fn law_what_is_read_as_a_number(s: Seq<char>, n: u64)
    ensures
        number(s) == Some(n) <==> exists|k: nat|
            s == #[trigger] zeros(k) + decimal(n as nat) || s == seq!['+'] + (zeros(k) + decimal(
                n as nat,
            )),
{
    let digits = unsigned(s);
    if number(s) == Some(n) {
        let k = lemma_digits_are_a_number(digits);
        assert(digits == zeros(k) + decimal(n as nat));
        if s.len() > 0 && s.first() == '+' {
            assert(s =~= seq!['+'] + digits);
        }
    }
    if exists|k: nat|
        s == #[trigger] zeros(k) + decimal(n as nat) || s == seq!['+'] + (zeros(k) + decimal(
            n as nat,
        )) {
        let k = choose|k: nat|
            s == #[trigger] zeros(k) + decimal(n as nat) || s == seq!['+'] + (zeros(k) + decimal(
                n as nat,
            ));
        let own = zeros(k) + decimal(n as nat);
        lemma_decimal(n as nat);
        assert forall|i: int| 0 <= i < own.len() implies is_digit(#[trigger] own[i]) by {
            if i >= k {
                assert(own[i] == decimal(n as nat)[i - k]);
            }
        }
        assert(is_digit(own[0]));
        assert((seq!['+'] + own).drop_first() =~= own);
        assert(digits == own);
        lemma_leading_zeros(k, decimal(n as nat));
    }
}

} // verus!
