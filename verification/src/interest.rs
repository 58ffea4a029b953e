//! Interest paid so far and an estimate of the interest still to come.

use vstd::prelude::*;
use vstd::string::*;
use crate::amortization::{installment_fits, period_divisor, periodic_principal_minor, principal_spec};
use crate::calendar::{date_less, date_lt, Date, MAX_YEAR};
use crate::due_payments::{advance_due, advance_due_spec, lemma_advance, lemma_advance_wf};
use crate::money::{fits_i64, min_of, round_div, round_div_i128, saturate_i64, saturate_to_i64};
use crate::projection::{payoff_date_spec, project_payoff, projectable, MAX_PERIODS};
use crate::types::{LoanCalcInput, PaymentFrequency, PaymentRecord};

verus! {

#[derive(Clone, Debug)]
pub struct InterestSummary {
    pub interest_paid_minor: i64,
    pub interest_remaining_minor: i64,
    pub computable: bool,
    pub message: Option<String>,
}

/// Interest recorded on the first `n` payments.
pub open spec fn interest_paid_prefix(payments: Seq<PaymentRecord>, n: int) -> int
    decreases n,
{
    if n <= 0 {
        0
    } else {
        interest_paid_prefix(payments, n - 1) + payments[n - 1].interest_portion_minor
    }
}

/// Every running total of recorded interest fits in `i64`.
pub open spec fn interest_paid_fits(loan: LoanCalcInput) -> bool {
    forall|n: int|
        0 <= n <= loan.payments@.len() ==> fits_i64(#[trigger] interest_paid_prefix(loan.payments@, n))
}

/// Interest of the remaining periods from `date` on, in `1 / period_divisor` minor units:
/// the balance falls by the scheduled principal each period (extra payments are not
/// considered), and the estimate stops after the projected payoff date.
pub open spec fn remaining_interest_scaled(
    loan: LoanCalcInput,
    principal: int,
    balance: int,
    date: Date,
    payoff: Option<Date>,
    fuel: nat,
) -> int
    decreases fuel,
{
    if fuel == 0 || balance <= 0 {
        0
    } else {
        let next_balance = balance - min_of(principal, balance);
        let next_date = advance_due_spec(date, loan.payment_frequency);
        let stop = match payoff {
            Some(p) => date_lt(p, next_date),
            None => false,
        };
        balance * loan.apr_or_zero() + if stop {
            0
        } else {
            remaining_interest_scaled(loan, principal, next_balance, next_date, payoff, (fuel - 1) as nat)
        }
    }
}

pub open spec fn remaining_interest_spec(loan: LoanCalcInput, as_of: Date) -> int {
    saturate_i64(
        round_div(
            remaining_interest_scaled(
                loan,
                principal_spec(loan, loan.remaining_balance_minor as int),
                loan.remaining_balance_minor as int,
                as_of,
                payoff_date_spec(loan, as_of),
                MAX_PERIODS as nat,
            ),
            period_divisor(loan.payment_frequency),
        ),
    )
}

spec fn growth_bound(k: int) -> int {
    (k + 1) * 0x8000_0000_0000_0000
}

fn estimate_remaining_interest(loan: &LoanCalcInput, as_of: Date) -> (r: i64)
    requires
        installment_fits(*loan, loan.remaining_balance_minor as int),
        loan.remaining_balance_minor > 0 ==> projectable(*loan, as_of),
    ensures
        r == remaining_interest_spec(*loan, as_of),
{
    let projection = project_payoff(loan, as_of);
    let payoff = projection.projected_payoff_date;
    let apr: i128 = match loan.apr_basis_points {
        Some(a) => a as i128,
        None => 0,
    };
    let d: i128 = match loan.payment_frequency {
        PaymentFrequency::Monthly => 120_000,
        PaymentFrequency::Yearly => 10_000,
    };
    let freq = loan.payment_frequency;
    let principal = periodic_principal_minor(loan) as i128;
    let ghost p = principal as int;
    let ghost full = remaining_interest_scaled(
        *loan,
        p,
        loan.remaining_balance_minor as int,
        as_of,
        payoff,
        MAX_PERIODS as nat,
    );
    let mut balance: i128 = loan.remaining_balance_minor as i128;
    let mut total: i128 = 0;
    let mut date = as_of;
    let mut k: u32 = 0;
    while k < MAX_PERIODS
        invariant_except_break
            total + remaining_interest_scaled(*loan, p, balance as int, date, payoff, (MAX_PERIODS - k) as nat)
                == full,
        invariant
            0 <= k <= MAX_PERIODS,
            loan.remaining_balance_minor > 0 ==> projectable(*loan, as_of),
            loan.remaining_balance_minor > 0 ==> (payoff matches Some(pd) ==> pd.wf()),
            p == principal_spec(*loan, loan.remaining_balance_minor as int),
            p == principal as int,
            fits_i64(p),
            apr == loan.apr_or_zero(),
            i32::MIN <= apr <= i32::MAX,
            freq == loan.payment_frequency,
            d == period_divisor(freq),
            full == remaining_interest_scaled(
                *loan,
                p,
                loan.remaining_balance_minor as int,
                as_of,
                payoff,
                MAX_PERIODS as nat,
            ),
            k > 0 ==> loan.remaining_balance_minor > 0,
            k == 0 ==> balance == loan.remaining_balance_minor && date == as_of,
            -growth_bound(k as int) <= balance <= growth_bound(k as int),
            -(k as int) * 0x4000_0000_0000_0000_0000_0000_0000 <= total <= (k as int)
                * 0x4000_0000_0000_0000_0000_0000_0000,
            loan.remaining_balance_minor > 0 ==> date.wf(),
            loan.remaining_balance_minor > 0 && freq == PaymentFrequency::Monthly
                ==> date.month_index() == as_of.month_index() + k,
        ensures
            total == full,
        decreases MAX_PERIODS - k,
    {
        if balance <= 0 {
            break;
        }
        proof {
            assert(-0x4000_0000_0000_0000_0000_0000_0000 <= balance * apr
                <= 0x4000_0000_0000_0000_0000_0000_0000) by (nonlinear_arith)
                requires
                    -growth_bound(MAX_PERIODS as int) <= balance <= growth_bound(MAX_PERIODS as int),
                    -0x8000_0000 <= apr <= 0x7fff_ffff,
            ;
        }
        total = total + balance * apr;
        let scheduled = if principal < balance {
            principal
        } else {
            balance
        };
        balance = balance - scheduled;
        proof {
            if freq == PaymentFrequency::Monthly {
                assert(date.year < MAX_YEAR);
                lemma_advance(date, freq);
            } else {
                lemma_advance_wf(date, freq);
            }
        }
        date = advance_due(date, freq);
        k = k + 1;
        let stop = match payoff {
            Some(pd) => date_less(pd, date),
            None => false,
        };
        if stop {
            break;
        }
    }
    proof {
        assert(-0x100_0000_0000_0000_0000_0000_0000_0000 <= total <= 0x100_0000_0000_0000_0000_0000_0000_0000);
    }
    saturate_to_i64(round_div_i128(total, d))
}

pub open spec fn interest_summary_matches(s: InterestSummary, loan: LoanCalcInput, as_of: Date) -> bool {
    &&& s.interest_paid_minor == interest_paid_prefix(loan.payments@, loan.payments@.len() as int)
    &&& s.computable == (loan.apr_basis_points is Some)
    &&& s.interest_remaining_minor == if loan.apr_basis_points is Some {
        remaining_interest_spec(loan, as_of)
    } else {
        0
    }
    &&& match s.message {
        Some(m) => loan.apr_basis_points is None && m@ == "missing_apr"@,
        None => loan.apr_basis_points is Some,
    }
}

pub fn compute_interest_summary(loan: &LoanCalcInput, as_of: Date) -> (s: InterestSummary)
    requires
        interest_paid_fits(*loan),
        loan.apr_basis_points is Some ==> installment_fits(*loan, loan.remaining_balance_minor as int),
        loan.apr_basis_points is Some && loan.remaining_balance_minor > 0 ==> projectable(*loan, as_of),
    ensures
        interest_summary_matches(s, *loan, as_of),
{
    let payments = &loan.payments;
    let mut paid: i64 = 0;
    let mut i: usize = 0;
    while i < payments.len()
        invariant
            0 <= i <= payments@.len(),
            payments == &loan.payments,
            interest_paid_fits(*loan),
            paid == interest_paid_prefix(payments@, i as int),
        decreases payments.len() - i,
    {
        proof {
            assert(fits_i64(interest_paid_prefix(payments@, i + 1)));
        }
        paid = paid + payments[i].interest_portion_minor;
        i = i + 1;
    }
    if loan.apr_basis_points.is_none() {
        return InterestSummary {
            interest_paid_minor: paid,
            interest_remaining_minor: 0,
            computable: false,
            message: Some(String::from_str("missing_apr")),
        };
    }
    let remaining = estimate_remaining_interest(loan, as_of);
    InterestSummary {
        interest_paid_minor: paid,
        interest_remaining_minor: remaining,
        computable: true,
        message: None,
    }
}

proof fn lemma_scaled_interest_sign(
    loan: LoanCalcInput,
    principal: int,
    balance: int,
    date: Date,
    payoff: Option<Date>,
    fuel: nat,
)
    requires
        loan.apr_or_zero() >= 0,
    ensures
        remaining_interest_scaled(loan, principal, balance, date, payoff, fuel) >= 0,
        loan.apr_or_zero() == 0 ==> remaining_interest_scaled(loan, principal, balance, date, payoff, fuel)
            == 0,
    decreases fuel,
{
    if fuel > 0 && balance > 0 {
        let apr = loan.apr_or_zero();
        assert(balance * apr >= 0) by (nonlinear_arith)
            requires
                balance > 0,
                apr >= 0,
        ;
        assert(apr == 0 ==> balance * apr == 0) by (nonlinear_arith);
        lemma_scaled_interest_sign(
            loan,
            principal,
            balance - min_of(principal, balance),
            advance_due_spec(date, loan.payment_frequency),
            payoff,
            (fuel - 1) as nat,
        );
    }
}

/// With a non-negative rate the estimate of the interest still to come is never negative,
/// and at a zero rate it is zero.
pub proof fn lemma_remaining_interest_nonnegative(loan: LoanCalcInput, as_of: Date)
    requires
        loan.apr_or_zero() >= 0,
    ensures
        remaining_interest_spec(loan, as_of) >= 0,
        loan.apr_or_zero() == 0 ==> remaining_interest_spec(loan, as_of) == 0,
{
    let total = remaining_interest_scaled(
        loan,
        principal_spec(loan, loan.remaining_balance_minor as int),
        loan.remaining_balance_minor as int,
        as_of,
        payoff_date_spec(loan, as_of),
        MAX_PERIODS as nat,
    );
    lemma_scaled_interest_sign(
        loan,
        principal_spec(loan, loan.remaining_balance_minor as int),
        loan.remaining_balance_minor as int,
        as_of,
        payoff_date_spec(loan, as_of),
        MAX_PERIODS as nat,
    );
    let d = period_divisor(loan.payment_frequency);
    assert(d > 0);
    assert((2 * total + d) / (2 * d) >= 0) by (nonlinear_arith)
        requires
            total >= 0,
            d > 0,
    ;
    assert(total == 0 ==> (2 * total + d) / (2 * d) == 0) by (nonlinear_arith)
        requires
            d > 0,
    ;
}

/// Whether every running total of recorded interest fits in `i64`.
pub fn interest_paid_fits_check(loan: &LoanCalcInput) -> (r: bool)
    ensures
        r == interest_paid_fits(*loan),
{
    let payments = &loan.payments;
    let mut acc: i128 = 0;
    let mut i: usize = 0;
    while i < payments.len()
        invariant
            0 <= i <= payments@.len(),
            payments == &loan.payments,
            acc == interest_paid_prefix(payments@, i as int),
            forall|n: int| 0 <= n <= i ==> fits_i64(#[trigger] interest_paid_prefix(payments@, n)),
        decreases payments.len() - i,
    {
        acc = acc + payments[i].interest_portion_minor as i128;
        if acc < i64::MIN as i128 || acc > i64::MAX as i128 {
            proof {
                assert(!fits_i64(interest_paid_prefix(payments@, i + 1)));
            }
            return false;
        }
        i = i + 1;
    }
    true
}

/// The balances the remaining periods are charged interest on, from `balance` at `date`:
/// each period the balance falls by the Tilgung (never below zero), and the periods stop
/// once nothing is owed, after the projected payoff date, or after `fuel` periods.
pub open spec fn charged_balances(
    loan: LoanCalcInput,
    principal: int,
    balance: int,
    date: Date,
    payoff: Option<Date>,
    fuel: nat,
) -> Seq<int>
    decreases fuel,
{
    if fuel == 0 || balance <= 0 {
        Seq::empty()
    } else {
        let next_date = advance_due_spec(date, loan.payment_frequency);
        let stop = match payoff {
            Some(p) => date_lt(p, next_date),
            None => false,
        };
        seq![balance] + if stop {
            Seq::<int>::empty()
        } else {
            charged_balances(
                loan,
                principal,
                balance - min_of(principal, balance),
                next_date,
                payoff,
                (fuel - 1) as nat,
            )
        }
    }
}

/// Sum of a sequence of integers.
pub open spec fn seq_total(s: Seq<int>) -> int
    decreases s.len(),
{
    if s.len() == 0 {
        0
    } else {
        s[0] + seq_total(s.drop_first())
    }
}

proof fn lemma_seq_total_cons(b: int, rest: Seq<int>)
    ensures
        seq_total(seq![b] + rest) == b + seq_total(rest),
{
    assert((seq![b] + rest).drop_first() =~= rest);
}

/// The scaled estimate is the rate times the sum of the charged balances.
proof fn lemma_scaled_is_rate_times_balances(
    loan: LoanCalcInput,
    principal: int,
    balance: int,
    date: Date,
    payoff: Option<Date>,
    fuel: nat,
)
    ensures
        remaining_interest_scaled(loan, principal, balance, date, payoff, fuel) == loan.apr_or_zero()
            * seq_total(charged_balances(loan, principal, balance, date, payoff, fuel)),
    decreases fuel,
{
    let apr = loan.apr_or_zero();
    if fuel == 0 || balance <= 0 {
        assert(charged_balances(loan, principal, balance, date, payoff, fuel) =~= Seq::<int>::empty());
        assert(apr * 0 == 0);
    } else {
        let next_date = advance_due_spec(date, loan.payment_frequency);
        let nb = balance - min_of(principal, balance);
        let stop = match payoff {
            Some(p) => date_lt(p, next_date),
            None => false,
        };
        let rest = if stop {
            Seq::<int>::empty()
        } else {
            charged_balances(loan, principal, nb, next_date, payoff, (fuel - 1) as nat)
        };
        lemma_seq_total_cons(balance, rest);
        if stop {
            assert(seq_total(rest) == 0);
            assert(apr * (balance + 0) == balance * apr) by (nonlinear_arith);
        } else {
            lemma_scaled_is_rate_times_balances(loan, principal, nb, next_date, payoff, (fuel - 1) as nat);
            let t = seq_total(rest);
            assert(apr * (balance + t) == balance * apr + apr * t) by (nonlinear_arith);
        }
    }
}

/// The charged balances start at `balance`, stay above zero, fall by the Tilgung each
/// period and are at most `fuel` many.
proof fn lemma_charged_balances_shape(
    loan: LoanCalcInput,
    principal: int,
    balance: int,
    date: Date,
    payoff: Option<Date>,
    fuel: nat,
)
    ensures
        ({
            let bs = charged_balances(loan, principal, balance, date, payoff, fuel);
            &&& bs.len() <= fuel
            &&& (fuel > 0 && balance > 0) ==> bs.len() >= 1 && bs[0] == balance
            &&& forall|k: int| 0 <= k < bs.len() ==> #[trigger] bs[k] > 0
            &&& forall|k: int|
                0 <= k < bs.len() - 1 ==> #[trigger] bs[k + 1] == bs[k] - min_of(principal, bs[k])
        }),
    decreases fuel,
{
    let bs = charged_balances(loan, principal, balance, date, payoff, fuel);
    if fuel > 0 && balance > 0 {
        let next_date = advance_due_spec(date, loan.payment_frequency);
        let nb = balance - min_of(principal, balance);
        let stop = match payoff {
            Some(p) => date_lt(p, next_date),
            None => false,
        };
        if !stop {
            let rest = charged_balances(loan, principal, nb, next_date, payoff, (fuel - 1) as nat);
            lemma_charged_balances_shape(loan, principal, nb, next_date, payoff, (fuel - 1) as nat);
            assert(bs == seq![balance] + rest);
            assert forall|k: int| 0 <= k < bs.len() implies #[trigger] bs[k] > 0 by {
                if k > 0 {
                    assert(bs[k] == rest[k - 1]);
                }
            }
            assert forall|k: int| 0 <= k < bs.len() - 1 implies #[trigger] bs[k + 1] == bs[k] - min_of(
                principal,
                bs[k],
            ) by {
                assert(bs[k + 1] == rest[k]);
                if k > 0 {
                    assert(bs[k] == rest[k - 1]);
                    assert(rest[(k - 1) + 1] == rest[k - 1] - min_of(principal, rest[k - 1]));
                } else {
                    assert(rest.len() > 0);
                    assert((fuel - 1) as nat > 0 && nb > 0);
                    assert(rest[0] == nb);
                }
            }
        } else {
            assert(bs =~= seq![balance]);
        }
    }
}

/// The interest still to come that an interest summary reports charges every remaining
/// period the loan's full rate for its payment frequency: the whole yearly rate per period
/// for a yearly loan, a twelfth of it for a monthly loan. The periods are charged on the
/// remaining balance, then on that balance less the Tilgung, and so on while something is
/// owed, through the projected payoff date and for at most `MAX_PERIODS` periods; the
/// estimate is the sum of balance × apr / 10_000 (yearly) or balance × apr / 120_000
/// (monthly) over those periods, rounded once to the nearest minor unit.
pub proof fn lemma_remaining_interest_charges_the_periodic_rate(
    s: InterestSummary,
    loan: LoanCalcInput,
    as_of: Date,
)
    requires
        interest_summary_matches(s, loan, as_of),
        loan.apr_basis_points is Some,
    ensures
        ({
            let tilgung = principal_spec(loan, loan.remaining_balance_minor as int);
            let bs = charged_balances(
                loan,
                tilgung,
                loan.remaining_balance_minor as int,
                as_of,
                payoff_date_spec(loan, as_of),
                MAX_PERIODS as nat,
            );
            let total = loan.apr_or_zero() * seq_total(bs);
            &&& bs.len() <= MAX_PERIODS
            &&& loan.remaining_balance_minor > 0 ==> bs.len() >= 1 && bs[0] == loan.remaining_balance_minor
            &&& loan.remaining_balance_minor <= 0 ==> bs.len() == 0 && s.interest_remaining_minor == 0
            &&& forall|k: int| 0 <= k < bs.len() ==> #[trigger] bs[k] > 0
            &&& forall|k: int| 0 <= k < bs.len() - 1 ==> #[trigger] bs[k + 1] == bs[k] - min_of(tilgung, bs[k])
            &&& (fits_i64(total) && loan.payment_frequency == PaymentFrequency::Yearly) ==> -10_000 <= 2
                * (s.interest_remaining_minor * 10_000 - total) <= 10_000
            &&& (fits_i64(total) && loan.payment_frequency == PaymentFrequency::Monthly) ==> -120_000 <= 2
                * (s.interest_remaining_minor * 120_000 - total) <= 120_000
        }),
{
    let rem = loan.remaining_balance_minor as int;
    let tilgung = principal_spec(loan, rem);
    let payoff = payoff_date_spec(loan, as_of);
    let bs = charged_balances(loan, tilgung, rem, as_of, payoff, MAX_PERIODS as nat);
    let total = loan.apr_or_zero() * seq_total(bs);
    lemma_charged_balances_shape(loan, tilgung, rem, as_of, payoff, MAX_PERIODS as nat);
    lemma_scaled_is_rate_times_balances(loan, tilgung, rem, as_of, payoff, MAX_PERIODS as nat);
    let d = period_divisor(loan.payment_frequency);
    if rem <= 0 {
        assert(bs =~= Seq::<int>::empty());
        assert(total == 0) by {
            assert(seq_total(bs) == 0);
            assert(loan.apr_or_zero() * 0 == 0);
        }
        crate::money::lemma_round_div_exact(0, d);
        assert(0 * d == 0);
    }
    if fits_i64(total) {
        crate::money::lemma_round_div_bound(total, d);
        crate::money::lemma_round_div_close(total, d);
    }
}

/// Recording one more payment raises the interest paid that an interest summary reports by
/// exactly that payment's interest portion; with no payments recorded none is paid.
pub proof fn lemma_interest_paid_grows_by_each_payment(
    s1: InterestSummary,
    a: LoanCalcInput,
    s2: InterestSummary,
    b: LoanCalcInput,
    p: PaymentRecord,
    as_of: Date,
)
    requires
        interest_summary_matches(s1, a, as_of),
        interest_summary_matches(s2, b, as_of),
        b.payments@ == a.payments@.push(p),
    ensures
        s2.interest_paid_minor == s1.interest_paid_minor + p.interest_portion_minor,
        a.payments@.len() == 0 ==> s1.interest_paid_minor == 0,
{
    let n = a.payments@.len() as int;
    assert(b.payments@[n] == p);
    assert forall|i: int| 0 <= i < n implies a.payments@[i] == b.payments@[i] by {}
    lemma_interest_paid_prefix_same(a.payments@, b.payments@, n);
    assert(b.payments@.len() == n + 1);
    assert(interest_paid_prefix(b.payments@, n + 1) == interest_paid_prefix(b.payments@, n)
        + b.payments@[n].interest_portion_minor);
}

proof fn lemma_interest_paid_prefix_same(x: Seq<PaymentRecord>, y: Seq<PaymentRecord>, k: int)
    requires
        0 <= k <= x.len(),
        k <= y.len(),
        forall|i: int| 0 <= i < k ==> x[i] == y[i],
    ensures
        interest_paid_prefix(x, k) == interest_paid_prefix(y, k),
    decreases k,
{
    if k > 0 {
        lemma_interest_paid_prefix_same(x, y, k - 1);
    }
}

} // verus!
