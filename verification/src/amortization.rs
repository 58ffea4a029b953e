//! One period of a loan: interest on the balance, scheduled principal (Tilgung), and
//! the installment that combines them.

use vstd::prelude::*;
use crate::money::{
    fits_i64, max_int, min_of, round_div, round_div_i128, saturate_i64, saturate_to_i64,
};
use crate::types::{LoanCalcInput, PaymentFrequency, PaymentType};

verus! {

/// The periodic rate is `apr / 10_000 / periods_per_year`; in minor units the interest on
/// a balance is `balance * apr / period_divisor`.
pub open spec fn period_divisor(f: PaymentFrequency) -> int {
    match f {
        PaymentFrequency::Monthly => 120_000,
        PaymentFrequency::Yearly => 10_000,
    }
}

/// Interest for one period on `balance`, rounded to the minor unit and clamped to `i64`.
pub open spec fn interest_spec(balance: int, apr: int, f: PaymentFrequency) -> int {
    saturate_i64(round_div(balance * apr, period_divisor(f)))
}

/// Principal (Tilgung) for one period when the loan's balance is `balance`.
pub open spec fn principal_spec(loan: LoanCalcInput, balance: int) -> int {
    match loan.payment_type {
        PaymentType::TilgungEuro => max_int(
            match loan.tilgung_euro_minor {
                Some(e) => e as int,
                None => 0,
            },
            0,
        ),
        PaymentType::TilgungPercent => {
            let pct = max_int(
                match loan.tilgung_percent_basis_points {
                    Some(p) => p as int,
                    None => 0,
                },
                0,
            );
            let base = match loan.original_principal_minor {
                Some(p) => p as int,
                None => balance,
            };
            let annual = saturate_i64(round_div(base * pct, 10_000));
            match loan.payment_frequency {
                PaymentFrequency::Monthly => round_div(annual, 12),
                PaymentFrequency::Yearly => annual,
            }
        },
    }
}

/// The sums an installment is built from stay inside `i64`.
pub open spec fn installment_fits(loan: LoanCalcInput, balance: int) -> bool {
    let interest = interest_spec(balance, loan.apr_or_zero(), loan.payment_frequency);
    &&& fits_i64(interest + principal_spec(loan, balance))
    &&& fits_i64(balance + interest)
}

/// Installment = interest + Tilgung, capped at what clears the balance, never negative.
pub open spec fn total_spec(loan: LoanCalcInput, balance: int) -> int {
    let interest = interest_spec(balance, loan.apr_or_zero(), loan.payment_frequency);
    max_int(min_of(interest + principal_spec(loan, balance), balance + interest), 0)
}

/// Product bound for an `i64` amount times an `i32` rate.
proof fn lemma_product_bound(a: int, b: int)
    requires
        fits_i64(a),
        i32::MIN <= b <= i32::MAX,
    ensures
        -0x1_0000_0000_0000_0000_0000_0000 <= a * b <= 0x1_0000_0000_0000_0000_0000_0000,
{
    assert(-0x1_0000_0000_0000_0000_0000_0000 <= a * b <= 0x1_0000_0000_0000_0000_0000_0000)
        by (nonlinear_arith)
        requires
            -0x8000_0000_0000_0000 <= a <= 0x7fff_ffff_ffff_ffff,
            -0x8000_0000 <= b <= 0x7fff_ffff,
    ;
}

/// Interest portion for one period on the current balance.
pub fn periodic_interest_minor(
    balance_minor: i64,
    apr_basis_points: i32,
    frequency: PaymentFrequency,
) -> (r: i64)
    ensures
        r == interest_spec(balance_minor as int, apr_basis_points as int, frequency),
{
    proof {
        lemma_product_bound(balance_minor as int, apr_basis_points as int);
    }
    let product = balance_minor as i128 * apr_basis_points as i128;
    let divisor: i128 = match frequency {
        PaymentFrequency::Monthly => 120_000,
        PaymentFrequency::Yearly => 10_000,
    };
    saturate_to_i64(round_div_i128(product, divisor))
}

/// Principal for one period computed as if the loan's balance were `balance_minor`.
fn principal_for_balance(loan: &LoanCalcInput, balance_minor: i64) -> (r: i64)
    ensures
        r == principal_spec(*loan, balance_minor as int),
{
    match loan.payment_type {
        PaymentType::TilgungEuro => {
            let e = match loan.tilgung_euro_minor {
                Some(e) => e,
                None => 0,
            };
            if e > 0 {
                e
            } else {
                0
            }
        },
        PaymentType::TilgungPercent => {
            let p = match loan.tilgung_percent_basis_points {
                Some(p) => p,
                None => 0,
            };
            let pct: i32 = if p > 0 {
                p
            } else {
                0
            };
            let base = match loan.original_principal_minor {
                Some(b) => b,
                None => balance_minor,
            };
            proof {
                lemma_product_bound(base as int, pct as int);
            }
            let annual = saturate_to_i64(round_div_i128(base as i128 * pct as i128, 10_000));
            match loan.payment_frequency {
                PaymentFrequency::Monthly => {
                    proof {
                        crate::money::lemma_round_div_bound(annual as int, 12);
                    }
                    round_div_i128(annual as i128, 12) as i64
                },
                PaymentFrequency::Yearly => annual,
            }
        },
    }
}

/// Principal (Tilgung) for one period, not including interest.
pub fn periodic_principal_minor(loan: &LoanCalcInput) -> (r: i64)
    ensures
        r == principal_spec(*loan, loan.remaining_balance_minor as int),
{
    principal_for_balance(loan, loan.remaining_balance_minor)
}

/// Whether the installment for a balance of `balance_minor` can be computed in `i64`.
pub fn installment_fits_at(loan: &LoanCalcInput, balance_minor: i64) -> (r: bool)
    ensures
        r == installment_fits(*loan, balance_minor as int),
{
    let apr = match loan.apr_basis_points {
        Some(a) => a,
        None => 0,
    };
    let interest = periodic_interest_minor(balance_minor, apr, loan.payment_frequency) as i128;
    let principal = principal_for_balance(loan, balance_minor) as i128;
    let total = interest + principal;
    let cap = balance_minor as i128 + interest;
    i64::MIN as i128 <= total && total <= i64::MAX as i128 && i64::MIN as i128 <= cap && cap
        <= i64::MAX as i128
}

/// Installment for one period computed as if the loan's balance were `balance_minor`.
pub(crate) fn total_for_balance(loan: &LoanCalcInput, balance_minor: i64) -> (r: i64)
    requires
        installment_fits(*loan, balance_minor as int),
    ensures
        r == total_spec(*loan, balance_minor as int),
        r >= 0,
{
    let apr = match loan.apr_basis_points {
        Some(a) => a,
        None => 0,
    };
    let interest = periodic_interest_minor(balance_minor, apr, loan.payment_frequency);
    let principal = principal_for_balance(loan, balance_minor);
    let total = interest + principal;
    let max_pay = balance_minor + interest;
    let capped = if total < max_pay {
        total
    } else {
        max_pay
    };
    if capped > 0 {
        capped
    } else {
        0
    }
}

/// Total installment = interest on remaining balance + Tilgung (principal), capped at the
/// remaining balance plus interest and never negative.
pub fn periodic_total_minor(loan: &LoanCalcInput) -> (r: i64)
    requires
        installment_fits(*loan, loan.remaining_balance_minor as int),
    ensures
        r == total_spec(*loan, loan.remaining_balance_minor as int),
        r >= 0,
{
    total_for_balance(loan, loan.remaining_balance_minor)
}

/// An installment is never negative and never more than the balance plus the period's
/// interest; while the Tilgung is non-negative and fits in the balance, it is exactly
/// interest plus Tilgung.
pub proof fn lemma_installment_capped(loan: LoanCalcInput, balance: int)
    ensures
        ({
            let interest = interest_spec(balance, loan.apr_or_zero(), loan.payment_frequency);
            let principal = principal_spec(loan, balance);
            let total = total_spec(loan, balance);
            &&& total >= 0
            &&& balance + interest >= 0 ==> total <= balance + interest
            &&& (0 <= principal <= balance && interest + principal >= 0) ==> total == interest + principal
        }),
{
}

/// For balances and Tilgung of at most a billion currency units either way (any rate), the
/// installment can be computed in `i64`, so `periodic_total_minor` gives interest plus
/// Tilgung, capped at what clears the balance and never negative.
pub proof fn lemma_installment_fits_for_bounded_loans(loan: LoanCalcInput, balance: int)
    requires
        -100_000_000_000 <= balance <= 100_000_000_000,
        -100_000_000_000 <= principal_spec(loan, balance) <= 100_000_000_000,
        i32::MIN <= loan.apr_or_zero() <= i32::MAX,
    ensures
        installment_fits(loan, balance),
        total_spec(loan, balance) == max_int(
            min_of(
                interest_spec(balance, loan.apr_or_zero(), loan.payment_frequency) + principal_spec(loan, balance),
                balance + interest_spec(balance, loan.apr_or_zero(), loan.payment_frequency),
            ),
            0,
        ),
{
    let apr = loan.apr_or_zero();
    let d = period_divisor(loan.payment_frequency);
    let m: int = 30_000_000_000_000_000;
    let n = balance * apr;
    assert(-m * d <= n <= m * d) by (nonlinear_arith)
        requires
            -100_000_000_000 <= balance <= 100_000_000_000,
            -0x8000_0000 <= apr <= 0x7fff_ffff,
            d >= 10_000,
            n == balance * apr,
            m == 30_000_000_000_000_000,
    ;
    crate::money::lemma_round_div_monotone(n, m * d, d);
    crate::money::lemma_round_div_monotone(-m * d, n, d);
    crate::money::lemma_round_div_exact(m, d);
    crate::money::lemma_round_div_exact(-m, d);
    assert((-m) * d == -m * d) by (nonlinear_arith);
}

/// The interest of one period is the balance times the loan's rate for that period,
/// rounded to the nearest minor unit: the whole yearly rate (apr / 10_000) for a yearly
/// loan, a twelfth of it (apr / 120_000) for a monthly loan.
pub proof fn lemma_periodic_interest_is_the_period_rate(balance: int, apr: int, f: PaymentFrequency)
    requires
        fits_i64(balance * apr),
    ensures
        f == PaymentFrequency::Yearly ==> -10_000 <= 2 * (interest_spec(balance, apr, f) * 10_000 - balance
            * apr) <= 10_000,
        f == PaymentFrequency::Monthly ==> -120_000 <= 2 * (interest_spec(balance, apr, f) * 120_000
            - balance * apr) <= 120_000,
{
    let d = period_divisor(f);
    crate::money::lemma_round_div_bound(balance * apr, d);
    crate::money::lemma_round_div_close(balance * apr, d);
}

/// The Tilgung of a loan: the fixed amount (never negative) for Tilgung €; for percent
/// Tilgung, the yearly percentage of the original principal (of the balance when none is
/// known), rounded to the minor unit, paid whole per period on a yearly loan and as a
/// rounded twelfth per period on a monthly loan.
pub proof fn lemma_tilgung_is_the_agreed_share(loan: LoanCalcInput, balance: int)
    ensures
        loan.payment_type == PaymentType::TilgungEuro ==> principal_spec(loan, balance) == max_int(
            match loan.tilgung_euro_minor {
                Some(e) => e as int,
                None => 0,
            },
            0,
        ),
        ({
            let pct = max_int(
                match loan.tilgung_percent_basis_points {
                    Some(p) => p as int,
                    None => 0,
                },
                0,
            );
            let base = match loan.original_principal_minor {
                Some(p) => p as int,
                None => balance,
            };
            let yearly = saturate_i64(round_div(base * pct, 10_000));
            &&& (loan.payment_type == PaymentType::TilgungPercent && fits_i64(base * pct)) ==> -10_000 <= 2
                * (yearly * 10_000 - base * pct) <= 10_000
            &&& (loan.payment_type == PaymentType::TilgungPercent && loan.payment_frequency
                == PaymentFrequency::Yearly) ==> principal_spec(loan, balance) == yearly
            &&& (loan.payment_type == PaymentType::TilgungPercent && loan.payment_frequency
                == PaymentFrequency::Monthly) ==> -12 <= 2 * (principal_spec(loan, balance) * 12 - yearly) <= 12
        }),
{
    let pct = max_int(
        match loan.tilgung_percent_basis_points {
            Some(p) => p as int,
            None => 0,
        },
        0,
    );
    let base = match loan.original_principal_minor {
        Some(p) => p as int,
        None => balance,
    };
    let yearly = saturate_i64(round_div(base * pct, 10_000));
    crate::money::lemma_round_div_close(yearly, 12);
    if fits_i64(base * pct) {
        crate::money::lemma_round_div_bound(base * pct, 10_000);
        crate::money::lemma_round_div_close(base * pct, 10_000);
    }
}

} // verus!
