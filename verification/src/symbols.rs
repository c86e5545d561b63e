//! The characters that can be drawn, and the decimal notation of a number as a
//! sequence of them.

use vstd::arithmetic::power::{lemma_pow_positive, pow};
use vstd::prelude::*;

verus! {

/// Whether `c` is one of the twelve characters that can be drawn: a decimal
/// digit, the minus sign or the period.
pub open spec fn is_symbol(c: char) -> bool {
    ('0' <= c && c <= '9') || c == '-' || c == '.'
}

/// The character of the digit `d`.
pub open spec fn digit_char(d: int) -> char {
    ('0' as int + d) as char
}

/// The digit that `c` stands for.
pub open spec fn digit_value(c: char) -> int {
    c as int - '0' as int
}

/// The decimal digits of `m`, most significant first, without leading zeros;
/// zero is the single digit `0`.
pub open spec fn digits(m: nat) -> Seq<char>
    decreases m,
{
    if m < 10 {
        seq![digit_char(m as int)]
    } else {
        digits(m / 10).push(digit_char((m % 10) as int))
    }
}

/// The digits of `m`, and none at all for zero: what is still to be written
/// of a number while it is taken apart from its least significant end.
pub open spec fn leading_digits(m: nat) -> Seq<char> {
    if m == 0 {
        Seq::empty()
    } else {
        digits(m)
    }
}

/// The symbols of the integer `n` from left to right: a minus sign if `n` is
/// negative, then the digits of its magnitude.
pub open spec fn symbols(n: int) -> Seq<char> {
    if n < 0 {
        seq!['-'] + digits((-n) as nat)
    } else {
        digits(n as nat)
    }
}

/// The symbols of the fixed-point value `n / 10^level` from left to right:
/// those of `n`, with a period that has `level` of them to its right. Nothing
/// is padded, so this is meant for `level <= symbols(n).len()`.
pub open spec fn fixed_symbols(n: int, level: int) -> Seq<char> {
    symbols(n).insert(symbols(n).len() - level, '.')
}

/// The number that the digit string `s` denotes in base ten.
pub open spec fn decimal_value(s: Seq<char>) -> int
    decreases s.len(),
{
    if s.len() == 0 {
        0
    } else {
        10 * decimal_value(s.drop_last()) + digit_value(s.last())
    }
}

/// `digits(m)` is the decimal numeral of `m`: it is not empty, each of its
/// characters is a digit, read in base ten it gives `m` back, and it starts
/// with `0` only when `m` is zero.
pub proof fn lemma_digits_denote(m: nat)
    ensures
        digits(m).len() >= 1,
        forall|k: int| 0 <= k < digits(m).len() ==> '0' <= #[trigger] digits(m)[k] <= '9',
        decimal_value(digits(m)) == m,
        digits(m)[0] == '0' <==> m == 0,
    decreases m,
{
    if m < 10 {
        assert(decimal_value(digits(m).drop_last()) == 0);
    } else {
        lemma_digits_denote(m / 10);
        assert(digits(m).drop_last() == digits(m / 10));
    }
}

/// A number has at most `d` digits exactly when it is below the `d`-th power
/// of ten.
pub proof fn lemma_digits_len(m: nat, d: nat)
    requires
        d >= 1,
    ensures
        digits(m).len() <= d <==> m < pow(10, d),
    decreases d,
{
    let tenth = pow(10, (d - 1) as nat);
    assert(pow(10, d) == 10 * tenth && tenth >= 1) by {
        reveal(pow);
        lemma_pow_positive(10, (d - 1) as nat);
    }
    if m >= 10 {
        lemma_digits_denote(m / 10);
        if d > 1 {
            lemma_digits_len(m / 10, (d - 1) as nat);
        } else {
            assert(pow(10, 0) == 1) by {
                reveal(pow);
            }
        }
    }
}

/// The last digit of a positive number is its remainder by ten, and before it
/// stand the digits of its tenth.
pub proof fn lemma_digits_split(m: nat)
    requires
        m > 0,
    ensures
        digits(m) == leading_digits(m / 10).push(digit_char((m % 10) as int)),
{
}

/// Every character of `symbols(n)` can be drawn, and there is at least one.
pub proof fn lemma_symbols_drawable(n: int)
    ensures
        symbols(n).len() >= 1,
        forall|k: int| 0 <= k < symbols(n).len() ==> is_symbol(#[trigger] symbols(n)[k]),
{
    if n < 0 {
        lemma_digits_denote((-n) as nat);
    } else {
        lemma_digits_denote(n as nat);
    }
}

} // verus!
