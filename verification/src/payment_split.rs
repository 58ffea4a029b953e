//! Splitting a payment into its interest and principal parts.

use vstd::prelude::*;
use crate::amortization::{installment_fits, period_divisor, total_for_balance, total_spec};
use crate::money::{fits_i64, max_int, min_of, round_div, round_div_i128, saturate_i64, saturate_to_i64};
use crate::types::{LoanCalcInput, PaymentFrequency};

verus! {

#[derive(Clone, Copy, Debug, PartialEq, Eq, Structural)]
pub struct PaymentSplit {
    pub interest_portion_minor: i64,
    pub principal_portion_minor: i64,
    pub balance_after_minor: i64,
}

/// Interest owed on `balance` for one period at `apr` basis points, capped at the payment;
/// in units of `1 / period_divisor` minor units.
pub open spec fn scaled_interest(apr: int, freq: PaymentFrequency, amount: int, balance: int) -> int {
    min_of(balance * apr, amount * period_divisor(freq))
}

/// What remains of the payment after interest, capped at the balance (same scale).
pub open spec fn scaled_principal(apr: int, freq: PaymentFrequency, amount: int, balance: int) -> int {
    let d = period_divisor(freq);
    min_of(max_int(amount * d - scaled_interest(apr, freq, amount, balance), 0), balance * d)
}

/// Interest first, the rest to principal; each part rounded to the minor unit.
pub open spec fn split_terms_spec(apr: int, freq: PaymentFrequency, amount: int, balance: int) -> PaymentSplit {
    let d = period_divisor(freq);
    let interest = scaled_interest(apr, freq, amount, balance);
    let principal = scaled_principal(apr, freq, amount, balance);
    PaymentSplit {
        interest_portion_minor: saturate_i64(round_div(interest, d)) as i64,
        principal_portion_minor: saturate_i64(round_div(principal, d)) as i64,
        balance_after_minor: saturate_i64(round_div(max_int(balance * d - principal, 0), d)) as i64,
    }
}

/// The split of a payment on a loan: only its rate and payment frequency matter.
pub open spec fn split_spec(loan: LoanCalcInput, amount: int, balance: int) -> PaymentSplit {
    split_terms_spec(loan.apr_or_zero(), loan.payment_frequency, amount, balance)
}

/// Split an arbitrary payment amount for a loan with the given rate and frequency.
pub fn split_with_terms(
    apr_basis_points: Option<i32>,
    frequency: PaymentFrequency,
    amount_minor: i64,
    current_balance_minor: i64,
) -> (r: PaymentSplit)
    ensures
        r == split_terms_spec(
            match apr_basis_points {
                Some(a) => a as int,
                None => 0,
            },
            frequency,
            amount_minor as int,
            current_balance_minor as int,
        ),
        r.balance_after_minor >= 0,
{
    let apr: i32 = match apr_basis_points {
        Some(a) => a,
        None => 0,
    };
    let d: i128 = match frequency {
        PaymentFrequency::Monthly => 120_000,
        PaymentFrequency::Yearly => 10_000,
    };
    let balance = current_balance_minor as i128;
    let amount = amount_minor as i128;
    proof {
        assert(-0x1_0000_0000_0000_0000_0000_0000 <= balance * apr <= 0x1_0000_0000_0000_0000_0000_0000)
            by (nonlinear_arith)
            requires
                -0x8000_0000_0000_0000 <= balance <= 0x7fff_ffff_ffff_ffff,
                -0x8000_0000 <= apr <= 0x7fff_ffff,
        ;
        assert(-0x1_0000_0000_0000_0000_0000 <= balance * d <= 0x1_0000_0000_0000_0000_0000)
            by (nonlinear_arith)
            requires
                -0x8000_0000_0000_0000 <= balance <= 0x7fff_ffff_ffff_ffff,
                1 <= d <= 120_000,
        ;
        assert(-0x1_0000_0000_0000_0000_0000 <= amount * d <= 0x1_0000_0000_0000_0000_0000)
            by (nonlinear_arith)
            requires
                -0x8000_0000_0000_0000 <= amount <= 0x7fff_ffff_ffff_ffff,
                1 <= d <= 120_000,
        ;
    }
    let owed = balance * (apr as i128);
    let paid = amount * d;
    let interest = if owed < paid {
        owed
    } else {
        paid
    };
    let rest = paid - interest;
    let rest_pos = if rest > 0 {
        rest
    } else {
        0
    };
    let balance_scaled = balance * d;
    let principal = if rest_pos < balance_scaled {
        rest_pos
    } else {
        balance_scaled
    };
    let left = balance_scaled - principal;
    let left_pos = if left > 0 {
        left
    } else {
        0
    };
    proof {
        crate::money::lemma_round_div_bound(left_pos as int, d as int);
    }
    PaymentSplit {
        interest_portion_minor: saturate_to_i64(round_div_i128(interest, d)),
        principal_portion_minor: saturate_to_i64(round_div_i128(principal, d)),
        balance_after_minor: saturate_to_i64(round_div_i128(left_pos, d)),
    }
}

/// Split an arbitrary payment amount: interest first, remainder to principal.
pub fn split_payment(loan: &LoanCalcInput, amount_minor: i64, current_balance_minor: i64) -> (r:
    PaymentSplit)
    ensures
        r == split_spec(*loan, amount_minor as int, current_balance_minor as int),
        r.balance_after_minor >= 0,
{
    split_with_terms(loan.apr_basis_points, loan.payment_frequency, amount_minor, current_balance_minor)
}

/// Split a scheduled regular installment: interest on current balance + fixed Tilgung.
pub fn split_regular_payment(loan: &LoanCalcInput, current_balance_minor: i64) -> (r: PaymentSplit)
    requires
        installment_fits(*loan, current_balance_minor as int),
    ensures
        r == split_spec(
            *loan,
            total_spec(*loan, current_balance_minor as int),
            current_balance_minor as int,
        ),
{
    let amount = total_for_balance(loan, current_balance_minor);
    split_payment(loan, amount, current_balance_minor)
}

/// The booking of an extra payment (Sonderzahlung) made now: it carries no interest, all
/// of it counts as principal, and the balance falls by it, never below zero.
pub fn extra_payment_split(current_balance_minor: i64, amount_minor: i64) -> (r: PaymentSplit)
    ensures
        r.interest_portion_minor == 0,
        r.principal_portion_minor == amount_minor,
        r.balance_after_minor == saturate_i64(max_int(current_balance_minor - amount_minor, 0)),
{
    let left = current_balance_minor as i128 - amount_minor as i128;
    let left_pos = if left > 0 {
        left
    } else {
        0
    };
    PaymentSplit {
        interest_portion_minor: 0,
        principal_portion_minor: amount_minor,
        balance_after_minor: saturate_to_i64(left_pos),
    }
}

/// With nothing owed and a non-negative payment, nothing is split off.
pub proof fn lemma_split_of_zero_balance(loan: LoanCalcInput, amount: int)
    requires
        amount >= 0,
    ensures
        split_spec(loan, amount, 0) == (PaymentSplit {
            interest_portion_minor: 0,
            principal_portion_minor: 0,
            balance_after_minor: 0,
        }),
{
    let d = period_divisor(loan.payment_frequency);
    assert(0 * loan.apr_or_zero() == 0);
    assert(amount * d >= 0) by (nonlinear_arith)
        requires
            amount >= 0,
            d > 0,
    ;
    assert(0 * d == 0);
    crate::money::lemma_round_div_exact(0, d);
}

/// For a non-negative balance, payment and rate: the interest part never exceeds the
/// payment and the principal part never exceeds the balance.
pub proof fn lemma_split_parts_bounded(loan: LoanCalcInput, amount: int, balance: int)
    requires
        fits_i64(amount),
        fits_i64(balance),
        amount >= 0,
        balance >= 0,
        loan.apr_or_zero() >= 0,
    ensures
        0 <= split_spec(loan, amount, balance).interest_portion_minor <= amount,
        0 <= split_spec(loan, amount, balance).principal_portion_minor <= balance,
        0 <= split_spec(loan, amount, balance).balance_after_minor <= balance,
{
    let d = period_divisor(loan.payment_frequency);
    let apr = loan.apr_or_zero();
    assert(balance * apr >= 0 && amount * d >= 0 && balance * d >= 0) by (nonlinear_arith)
        requires
            amount >= 0,
            balance >= 0,
            apr >= 0,
            d > 0,
    ;
    let i = scaled_interest(apr, loan.payment_frequency, amount, balance);
    let p = scaled_principal(apr, loan.payment_frequency, amount, balance);
    let left = max_int(balance * d - p, 0);
    crate::money::lemma_round_div_monotone(i, amount * d, d);
    crate::money::lemma_round_div_monotone(0, i, d);
    crate::money::lemma_round_div_monotone(p, balance * d, d);
    crate::money::lemma_round_div_monotone(0, p, d);
    crate::money::lemma_round_div_monotone(left, balance * d, d);
    crate::money::lemma_round_div_monotone(0, left, d);
    crate::money::lemma_round_div_exact(amount, d);
    crate::money::lemma_round_div_exact(balance, d);
    crate::money::lemma_round_div_exact(0, d);
    assert(amount * d == d * amount) by (nonlinear_arith);
    assert(balance * d == d * balance) by (nonlinear_arith);
}

/// A payment that covers the balance plus the period's interest clears the loan: the
/// whole balance goes to principal and nothing is left.
pub proof fn lemma_split_settles_balance(loan: LoanCalcInput, amount: int, balance: int)
    requires
        fits_i64(balance),
        balance >= 0,
        loan.apr_or_zero() >= 0,
        amount * period_divisor(loan.payment_frequency) >= balance * loan.apr_or_zero() + balance
            * period_divisor(loan.payment_frequency),
    ensures
        split_spec(loan, amount, balance).principal_portion_minor == balance,
        split_spec(loan, amount, balance).balance_after_minor == 0,
        split_spec(loan, amount, balance).interest_portion_minor == saturate_i64(
            round_div(balance * loan.apr_or_zero(), period_divisor(loan.payment_frequency)),
        ),
{
    let d = period_divisor(loan.payment_frequency);
    assert(balance * d >= 0) by (nonlinear_arith)
        requires
            balance >= 0,
            d > 0,
    ;
    assert(scaled_interest(loan.apr_or_zero(), loan.payment_frequency, amount, balance) == balance * loan.apr_or_zero());
    assert(scaled_principal(loan.apr_or_zero(), loan.payment_frequency, amount, balance) == balance * d);
    crate::money::lemma_round_div_exact(balance, d);
    crate::money::lemma_round_div_exact(0, d);
    assert(0 * d == 0);
}

/// Rounding a non-negative `x = d * q + e`, with the offset `e` in `[-d/2, d/2)`, gives `q`.
proof fn lemma_round_quotient(x: int, d: int, q: int, e: int)
    requires
        d > 0,
        x >= 0,
        x == d * q + e,
        0 <= 2 * e + d < 2 * d,
    ensures
        round_div(x, d) == q,
{
    let m = 2 * d;
    assert(2 * x + d == q * m + (2 * e + d)) by (nonlinear_arith)
        requires
            x == d * q + e,
            m == 2 * d,
    ;
    vstd::arithmetic::div_mod::lemma_fundamental_div_mod_converse_div(2 * x + d, m, q, 2 * e + d);
}

/// When a payment covers the period's interest and no more than clears the balance, its
/// interest and principal parts add up to the payment exactly and the balance falls by the
/// principal part, unless the period's interest falls on exactly half a minor unit (both
/// parts are then rounded up).
pub proof fn lemma_split_parts_add_up(loan: LoanCalcInput, amount: int, balance: int)
    requires
        fits_i64(amount),
        fits_i64(balance),
        amount >= 0,
        balance >= 0,
        loan.apr_or_zero() >= 0,
        amount * period_divisor(loan.payment_frequency) >= balance * loan.apr_or_zero(),
        amount * period_divisor(loan.payment_frequency) - balance * loan.apr_or_zero() <= balance
            * period_divisor(loan.payment_frequency),
        2 * ((balance * loan.apr_or_zero()) % period_divisor(loan.payment_frequency)) != period_divisor(
            loan.payment_frequency,
        ),
    ensures
        split_spec(loan, amount, balance).interest_portion_minor + split_spec(
            loan,
            amount,
            balance,
        ).principal_portion_minor == amount,
        split_spec(loan, amount, balance).balance_after_minor == balance - split_spec(
            loan,
            amount,
            balance,
        ).principal_portion_minor,
{
    let d = period_divisor(loan.payment_frequency);
    let apr = loan.apr_or_zero();
    let n = balance * apr;
    assert(n >= 0) by (nonlinear_arith)
        requires
            n == balance * apr,
            balance >= 0,
            apr >= 0,
    ;
    let q = n / d;
    let r = n % d;
    vstd::arithmetic::div_mod::lemma_fundamental_div_mod(n, d);
    assert(n == d * q + r);
    assert(0 <= r < d);
    assert(scaled_interest(apr, loan.payment_frequency, amount, balance) == n);
    assert(scaled_principal(apr, loan.payment_frequency, amount, balance) == amount * d - n);
    let p = amount * d - n;
    let a_q = amount - q;
    assert(p == d * a_q - r) by (nonlinear_arith)
        requires
            p == amount * d - n,
            n == d * q + r,
            a_q == amount - q,
    ;
    let rest = balance * d - p;
    let b_q = balance - a_q;
    assert(rest == d * b_q + r) by (nonlinear_arith)
        requires
            rest == balance * d - p,
            p == d * a_q - r,
            b_q == balance - a_q,
    ;
    if 2 * r < d {
        lemma_round_quotient(n, d, q, r);
        lemma_round_quotient(p, d, a_q, -r);
        lemma_round_quotient(rest, d, b_q, r);
    } else {
        assert(rest == d * (b_q + 1) + (r - d)) by (nonlinear_arith)
            requires
                rest == d * b_q + r,
        ;
        lemma_round_quotient(rest, d, b_q + 1, r - d);
        lemma_round_quotient(n, d, q + 1, r - d);
        assert(p == d * (a_q - 1) + (d - r)) by (nonlinear_arith)
            requires
                p == d * a_q - r,
        ;
        lemma_round_quotient(p, d, a_q - 1, d - r);
    }
    // both parts lie within the payment, so no clamping happens
    assert(d * q <= n);
    assert(d * q <= amount * d);
    assert(q <= amount) by (nonlinear_arith)
        requires
            d * q <= amount * d,
            d > 0,
    ;
    assert(d * a_q - r <= balance * d);
    assert(a_q <= balance + 1) by (nonlinear_arith)
        requires
            d * a_q - r <= balance * d,
            r < d,
            d > 0,
    ;
    if 2 * r >= d {
        assert(q < amount) by (nonlinear_arith)
            requires
                d * q + r <= amount * d,
                r > 0,
                d > 0,
        ;
    } else {
        assert(r == 0 || a_q <= balance) by (nonlinear_arith)
            requires
                d * a_q - r <= balance * d,
                0 <= r < d,
                d > 0,
        ;
        assert(a_q <= balance) by (nonlinear_arith)
            requires
                d * a_q - r <= balance * d,
                0 <= r,
                2 * r < d,
                d > 0,
        ;
    }
}

} // verus!
