//! Exact integer money arithmetic in minor units (cents): rounding of quotients
//! half away from zero, saturation into `i64`, and decimal display.

use vstd::prelude::*;
use vstd::string::*;
use crate::calendar::{decimal_digits, zero_pad};
use crate::text::push_decimal;

verus! {

/// `n / d` rounded to the nearest integer, halves away from zero (`d > 0`).
pub open spec fn round_div(n: int, d: int) -> int {
    if n >= 0 {
        (2 * n + d) / (2 * d)
    } else {
        -((2 * (-n) + d) / (2 * d))
    }
}

/// `x` clamped into the range of `i64`.
pub open spec fn saturate_i64(x: int) -> int {
    if x > i64::MAX {
        i64::MAX as int
    } else if x < i64::MIN {
        i64::MIN as int
    } else {
        x
    }
}

pub open spec fn max_int(a: int, b: int) -> int {
    if a >= b { a } else { b }
}

pub open spec fn min_of(a: int, b: int) -> int {
    if a <= b { a } else { b }
}

pub open spec fn fits_i64(x: int) -> bool {
    i64::MIN <= x <= i64::MAX
}

/// Rounding is monotone in the numerator.
pub proof fn lemma_round_div_monotone(a: int, b: int, d: int)
    requires
        d > 0,
        a <= b,
    ensures
        round_div(a, d) <= round_div(b, d),
{
    if a >= 0 {
        vstd::arithmetic::div_mod::lemma_div_is_ordered(2 * a + d, 2 * b + d, 2 * d);
    } else if b >= 0 {
        assert(round_div(a, d) <= 0) by {
            vstd::arithmetic::div_mod::lemma_div_pos_is_pos(2 * (-a) + d, 2 * d);
        }
        assert(round_div(b, d) >= 0) by {
            vstd::arithmetic::div_mod::lemma_div_pos_is_pos(2 * b + d, 2 * d);
        }
    } else {
        vstd::arithmetic::div_mod::lemma_div_is_ordered(2 * (-b) + d, 2 * (-a) + d, 2 * d);
    }
}

/// Rounding an exact multiple gives the quotient back.
pub proof fn lemma_round_div_exact(q: int, d: int)
    requires
        d > 0,
    ensures
        round_div(q * d, d) == q,
{
    if q >= 0 {
        assert(q * d >= 0 && 2 * (q * d) + d == q * (2 * d) + d) by (nonlinear_arith)
            requires
                q >= 0,
                d > 0,
        ;
        vstd::arithmetic::div_mod::lemma_fundamental_div_mod_converse(2 * (q * d) + d, 2 * d, q, d);
    } else {
        assert(q * d < 0 && 2 * (-(q * d)) + d == (-q) * (2 * d) + d) by (nonlinear_arith)
            requires
                q < 0,
                d > 0,
        ;
        vstd::arithmetic::div_mod::lemma_fundamental_div_mod_converse(
            2 * (-(q * d)) + d,
            2 * d,
            -q,
            d,
        );
    }
}

/// Rounding by a divisor of at least one never moves away from zero past the numerator.
pub proof fn lemma_round_div_bound(n: int, d: int)
    requires
        d >= 1,
    ensures
        n >= 0 ==> 0 <= round_div(n, d) <= n,
        n < 0 ==> n <= round_div(n, d) <= 0,
{
    if n >= 0 {
        lemma_round_div_small(n, d);
    } else {
        lemma_round_div_small(-n, d);
    }
}

proof fn lemma_round_div_small(m: int, d: int)
    requires
        m >= 0,
        d >= 1,
    ensures
        0 <= (2 * m + d) / (2 * d) <= m,
{
    assert(2 * m + d < (2 * d) * (m + 1)) by (nonlinear_arith)
        requires
            m >= 0,
            d >= 1,
    ;
    vstd::arithmetic::div_mod::lemma_div_pos_is_pos(2 * m + d, 2 * d);
    if (2 * m + d) / (2 * d) > m {
        vstd::arithmetic::div_mod::lemma_fundamental_div_mod(2 * m + d, 2 * d);
        assert((2 * d) * ((2 * m + d) / (2 * d)) >= (2 * d) * (m + 1)) by (nonlinear_arith)
            requires
                (2 * m + d) / (2 * d) >= m + 1,
                d >= 1,
        ;
        vstd::arithmetic::div_mod::lemma_mod_pos_bound(2 * m + d, 2 * d);
    }
}

/// Bound under which the intermediate products of money arithmetic are kept.
pub open spec fn wide_bound() -> int {
    0x100_0000_0000_0000_0000_0000_0000_0000
}

/// `n / d` rounded half away from zero, computed exactly.
pub fn round_div_i128(n: i128, d: i128) -> (r: i128)
    requires
        1 <= d <= 0x1_0000_0000,
        -wide_bound() <= n <= wide_bound(),
    ensures
        r == round_div(n as int, d as int),
        -wide_bound() <= r <= wide_bound(),
{
    proof {
        lemma_round_div_bound(n as int, d as int);
    }
    if n >= 0 {
        (2 * n + d) / (2 * d)
    } else {
        -((2 * (-n) + d) / (2 * d))
    }
}

/// `x` clamped into `i64`, as a float-to-integer `as` cast does.
pub fn saturate_to_i64(x: i128) -> (r: i64)
    ensures
        r == saturate_i64(x as int),
{
    if x > i64::MAX as i128 {
        i64::MAX
    } else if x < i64::MIN as i128 {
        i64::MIN
    } else {
        x as i64
    }
}

/// A minor amount as decimal text with two fraction digits, e.g. `-12.05`.
pub open spec fn amount_text(n: int) -> Seq<char> {
    let a = if n < 0 { -n } else { n };
    (if n < 0 { seq!['-'] } else { Seq::<char>::empty() }) + decimal_digits((a / 100) as nat) + seq!['.']
        + zero_pad(decimal_digits((a % 100) as nat), 2)
}

/// Renders a minor amount as a decimal number of major units with two decimals.
pub fn minor_to_decimal(amount_minor: i64) -> (s: String)
    ensures
        s@ == amount_text(amount_minor as int),
{
    let magnitude: u64 = if amount_minor < 0 {
        (-(amount_minor as i128)) as u64
    } else {
        amount_minor as u64
    };
    let mut s = String::new();
    if amount_minor < 0 {
        s.append("-");
    }
    push_decimal(&mut s, magnitude / 100);
    s.append(".");
    let cents = magnitude % 100;
    if cents < 10 {
        s.append("0");
    }
    push_decimal(&mut s, cents);
    proof {
        reveal_strlit("-");
        reveal_strlit(".");
        reveal_strlit("0");
        let a = if amount_minor < 0 { -(amount_minor as int) } else { amount_minor as int };
        assert(magnitude == a);
        if cents < 10 {
            assert(decimal_digits(cents as nat) == seq![crate::calendar::digit_char(cents as int)]);
            assert(zero_pad(decimal_digits(cents as nat), 2) =~= seq!['0'] + decimal_digits(cents as nat));
        } else {
            assert(decimal_digits((cents / 10) as nat).len() == 1);
            assert(decimal_digits(cents as nat).len() == 2);
            assert(zero_pad(decimal_digits(cents as nat), 2) == decimal_digits(cents as nat));
        }
        assert(s@ =~= amount_text(amount_minor as int));
    }
    s
}

/// A quotient rounded to the nearest whole unit lies within half a divisor of the dividend.
pub proof fn lemma_round_div_close(n: int, d: int)
    requires
        d > 0,
    ensures
        -d <= 2 * (round_div(n, d) * d - n) <= d,
{
    if n >= 0 {
        vstd::arithmetic::div_mod::lemma_fundamental_div_mod(2 * n + d, 2 * d);
        let q = (2 * n + d) / (2 * d);
        let r = (2 * n + d) % (2 * d);
        assert(2 * n + d == (2 * d) * q + r);
        assert((2 * d) * q == 2 * (q * d)) by (nonlinear_arith);
    } else {
        let m = -n;
        vstd::arithmetic::div_mod::lemma_fundamental_div_mod(2 * m + d, 2 * d);
        let q = (2 * m + d) / (2 * d);
        let r = (2 * m + d) % (2 * d);
        assert(2 * m + d == (2 * d) * q + r);
        assert((2 * d) * q == 2 * (q * d)) by (nonlinear_arith);
        assert((-q) * d == -(q * d)) by (nonlinear_arith);
    }
}

} // verus!
