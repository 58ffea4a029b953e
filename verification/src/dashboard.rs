//! Household dashboard: per-loan summaries, household totals and the payoff timeline.

use vstd::prelude::*;
use vstd::string::*;
use crate::amortization::{installment_fits, installment_fits_at, periodic_total_minor, total_spec};
use crate::calendar::{date_less, date_lt, date_text, date_to_string, Date};
use crate::money::{amount_text, fits_i64, minor_to_decimal};
use crate::payoff_timeline::{
    build_payoff_timeline, timeline_computable, timeline_computable_check, timeline_spec_matches, PayoffTimeline,
};
use crate::projection::{
    monthly_equivalent_payment, monthly_equivalent_spec, payoff_date_spec, project_payoff,
    projectable, projectable_check,
};
use crate::text::str_equal;
use crate::types::{frequency_text, LoanCalcInput, LoanStatus, PaymentFrequency, PaymentRecord};

verus! {

#[derive(Clone, Debug)]
pub struct MoneyDto {
    pub amount_minor: i64,
    pub currency: String,
}

/// Summary of one active loan. Progress is carried as the amount paid down and the
/// amount it is measured against (original principal, else the current balance).
#[derive(Clone, Debug)]
pub struct LoanSummary {
    pub id: String,
    pub label: String,
    pub remaining_balance: MoneyDto,
    /// Original loan amount at origination (None if not recorded).
    pub original_principal: Option<MoneyDto>,
    pub periodic_payment: MoneyDto,
    pub payment_frequency: String,
    pub last_payment_date: Option<String>,
    pub projected_payoff_date: Option<String>,
    pub progress_paid_down_minor: i64,
    pub progress_base_minor: i64,
}

#[derive(Clone, Debug)]
pub struct HouseholdSummary {
    pub total_balance: MoneyDto,
    pub total_monthly_obligation: MoneyDto,
}

#[derive(Clone, Debug)]
pub struct DashboardResponse {
    pub household: HouseholdSummary,
    pub loans: Vec<LoanSummary>,
    pub payoff_timeline: PayoffTimeline,
}

pub open spec fn money_matches(m: MoneyDto, amount: int, currency: Seq<char>) -> bool {
    m.amount_minor == amount && m.currency@ == currency
}

pub fn money(amount_minor: i64, currency: &str) -> (m: MoneyDto)
    ensures
        money_matches(m, amount_minor as int, currency@),
{
    MoneyDto { amount_minor, currency: String::from_str(currency) }
}

pub open spec fn is_regular(p: PaymentRecord) -> bool {
    p.event_type@ == "regular"@
}

/// Latest date of a regular payment among the first `n` records.
pub open spec fn last_regular_payment(payments: Seq<PaymentRecord>, n: int) -> Option<Date>
    decreases n,
{
    if n <= 0 {
        None
    } else {
        let prev = last_regular_payment(payments, n - 1);
        let p = payments[n - 1];
        if !is_regular(p) {
            prev
        } else {
            match prev {
                Some(d) => if date_lt(p.paid_at, d) {
                    Some(d)
                } else {
                    Some(p.paid_at)
                },
                None => Some(p.paid_at),
            }
        }
    }
}

/// The amount progress is measured against: original principal, else the balance.
pub open spec fn progress_base(loan: LoanCalcInput) -> int {
    match loan.original_principal_minor {
        Some(p) => p as int,
        None => loan.remaining_balance_minor as int,
    }
}

pub open spec fn is_listed(l: LoanCalcInput) -> bool {
    l.status == LoanStatus::Active
}

pub open spec fn listed_loans(s: Seq<LoanCalcInput>) -> Seq<LoanCalcInput>
    decreases s.len(),
{
    if s.len() == 0 {
        Seq::empty()
    } else if is_listed(s.last()) {
        listed_loans(s.drop_last()).push(s.last())
    } else {
        listed_loans(s.drop_last())
    }
}

pub open spec fn balance_total(s: Seq<LoanCalcInput>) -> int
    decreases s.len(),
{
    if s.len() == 0 {
        0
    } else {
        balance_total(s.drop_last()) + if is_listed(s.last()) {
            s.last().remaining_balance_minor as int
        } else {
            0
        }
    }
}

pub open spec fn monthly_obligation(l: LoanCalcInput) -> int {
    monthly_equivalent_spec(total_spec(l, l.remaining_balance_minor as int), l.payment_frequency)
}

pub open spec fn monthly_total(s: Seq<LoanCalcInput>) -> int
    decreases s.len(),
{
    if s.len() == 0 {
        0
    } else {
        monthly_total(s.drop_last()) + if is_listed(s.last()) {
            monthly_obligation(s.last())
        } else {
            0
        }
    }
}

/// What one listed loan needs for its summary.
pub open spec fn summarizable(l: LoanCalcInput, as_of: Date) -> bool {
    &&& installment_fits(l, l.remaining_balance_minor as int)
    &&& l.remaining_balance_minor > 0 ==> projectable(l, as_of)
    &&& forall|i: int| 0 <= i < l.payments@.len() ==> (#[trigger] l.payments@[i]).paid_at.wf()
    &&& fits_i64(progress_base(l) - l.remaining_balance_minor)
}

pub open spec fn dashboard_computable(loans: Seq<LoanCalcInput>, as_of: Date) -> bool {
    &&& timeline_computable(loans, as_of)
    &&& forall|i: int| 0 <= i < loans.len() && is_listed(#[trigger] loans[i]) ==> summarizable(loans[i], as_of)
    &&& forall|n: int|
        0 <= n <= loans.len() ==> fits_i64(#[trigger] balance_total(loans.take(n))) && fits_i64(
            monthly_total(loans.take(n)),
        )
}

pub open spec fn summary_matches(s: LoanSummary, l: LoanCalcInput, currency: Seq<char>, as_of: Date) -> bool {
    &&& s.id@ == l.id@
    &&& s.label@ == l.label@
    &&& money_matches(s.remaining_balance, l.remaining_balance_minor as int, currency)
    &&& match (s.original_principal, l.original_principal_minor) {
        (Some(m), Some(p)) => money_matches(m, p as int, currency),
        (None, None) => true,
        _ => false,
    }
    &&& money_matches(s.periodic_payment, total_spec(l, l.remaining_balance_minor as int), currency)
    &&& s.payment_frequency@ == frequency_text(l.payment_frequency)
    &&& match (s.last_payment_date, last_regular_payment(l.payments@, l.payments@.len() as int)) {
        (Some(t), Some(d)) => t@ == date_text(d),
        (None, None) => true,
        _ => false,
    }
    &&& match (s.projected_payoff_date, payoff_date_spec(l, as_of)) {
        (Some(t), Some(d)) => t@ == date_text(d),
        (None, None) => true,
        _ => false,
    }
    &&& s.progress_base_minor == progress_base(l)
    &&& s.progress_paid_down_minor == progress_base(l) - l.remaining_balance_minor
}

pub open spec fn dashboard_matches(d: DashboardResponse, loans: Seq<LoanCalcInput>, currency: Seq<char>, as_of: Date) -> bool {
    let listed = listed_loans(loans);
    &&& money_matches(d.household.total_balance, balance_total(loans), currency)
    &&& money_matches(d.household.total_monthly_obligation, monthly_total(loans), currency)
    &&& d.loans@.len() == listed.len()
    &&& forall|k: int| 0 <= k < listed.len() ==> summary_matches(#[trigger] d.loans@[k], listed[k], currency, as_of)
    &&& timeline_spec_matches(d.payoff_timeline, loans, as_of)
}

pub(crate) fn last_regular_payment_date(payments: &Vec<PaymentRecord>) -> (r: Option<Date>)
    requires
        forall|i: int| 0 <= i < payments@.len() ==> (#[trigger] payments@[i]).paid_at.wf(),
    ensures
        r == last_regular_payment(payments@, payments@.len() as int),
        r matches Some(d) ==> d.wf(),
{
    let mut last: Option<Date> = None;
    let mut i: usize = 0;
    while i < payments.len()
        invariant
            0 <= i <= payments@.len(),
            forall|j: int| 0 <= j < payments@.len() ==> (#[trigger] payments@[j]).paid_at.wf(),
            last == last_regular_payment(payments@, i as int),
            last matches Some(d) ==> d.wf(),
        decreases payments.len() - i,
    {
        let p = &payments[i];
        if str_equal(p.event_type.as_str(), "regular") {
            last = match last {
                Some(d) => if date_less(p.paid_at, d) {
                    Some(d)
                } else {
                    Some(p.paid_at)
                },
                None => Some(p.paid_at),
            };
        }
        i = i + 1;
    }
    last
}

fn frequency_string(f: PaymentFrequency) -> (s: String)
    ensures
        s@ == frequency_text(f),
{
    match f {
        PaymentFrequency::Monthly => String::from_str("monthly"),
        PaymentFrequency::Yearly => String::from_str("yearly"),
    }
}

fn summarize(loan: &LoanCalcInput, currency: &str, as_of: Date) -> (s: LoanSummary)
    requires
        summarizable(*loan, as_of),
        as_of.wf(),
    ensures
        summary_matches(s, *loan, currency@, as_of),
{
    let projection = project_payoff(loan, as_of);
    let last_payment = last_regular_payment_date(&loan.payments);
    let base = match loan.original_principal_minor {
        Some(p) => p,
        None => loan.remaining_balance_minor,
    };
    LoanSummary {
        id: loan.id.clone(),
        label: loan.label.clone(),
        remaining_balance: money(loan.remaining_balance_minor, currency),
        original_principal: match loan.original_principal_minor {
            Some(p) => Some(money(p, currency)),
            None => None,
        },
        periodic_payment: money(projection.periodic_payment_minor, currency),
        payment_frequency: frequency_string(loan.payment_frequency),
        last_payment_date: match last_payment {
            Some(d) => Some(date_to_string(d)),
            None => None,
        },
        projected_payoff_date: match projection.projected_payoff_date {
            Some(d) => Some(date_to_string(d)),
            None => None,
        },
        progress_paid_down_minor: base - loan.remaining_balance_minor,
        progress_base_minor: base,
    }
}

pub fn build_dashboard(loans: &[LoanCalcInput], currency: &str, as_of: Date) -> (d: DashboardResponse)
    requires
        dashboard_computable(loans@, as_of),
    ensures
        dashboard_matches(d, loans@, currency@, as_of),
{
    let mut total_balance: i64 = 0;
    let mut total_monthly: i64 = 0;
    let mut summaries: Vec<LoanSummary> = Vec::new();
    let mut i: usize = 0;
    while i < loans.len()
        invariant
            0 <= i <= loans@.len(),
            dashboard_computable(loans@, as_of),
            total_balance == balance_total(loans@.take(i as int)),
            total_monthly == monthly_total(loans@.take(i as int)),
            summaries@.len() == listed_loans(loans@.take(i as int)).len(),
            forall|k: int|
                0 <= k < summaries@.len() ==> summary_matches(
                    #[trigger] summaries@[k],
                    listed_loans(loans@.take(i as int))[k],
                    currency@,
                    as_of,
                ),
        decreases loans.len() - i,
    {
        let loan = &loans[i];
        proof {
            assert(loans@.take(i + 1).drop_last() =~= loans@.take(i as int));
            assert(loans@.take(i + 1).last() == loans@[i as int]);
            assert(fits_i64(balance_total(loans@.take(i + 1))));
        }
        if loan.status != LoanStatus::Active {
            i = i + 1;
            continue;
        }
        let summary = summarize(loan, currency, as_of);
        let monthly = monthly_equivalent_payment(summary.periodic_payment.amount_minor, loan.payment_frequency);
        total_balance = total_balance + loan.remaining_balance_minor;
        total_monthly = total_monthly + monthly;
        let ghost old_summaries = summaries@;
        summaries.push(summary);
        proof {
            let prev = listed_loans(loans@.take(i as int));
            assert(listed_loans(loans@.take(i + 1)) == prev.push(*loan));
            assert forall|k: int| 0 <= k < summaries@.len() implies summary_matches(
                #[trigger] summaries@[k],
                listed_loans(loans@.take(i + 1))[k],
                currency@,
                as_of,
            ) by {
                if k < old_summaries.len() {
                    assert(summaries@[k] == old_summaries[k]);
                }
            }
        }
        i = i + 1;
    }
    proof {
        assert(loans@.take(loans@.len() as int) =~= loans@);
    }
    DashboardResponse {
        household: HouseholdSummary {
            total_balance: money(total_balance, currency),
            total_monthly_obligation: money(total_monthly, currency),
        },
        loans: summaries,
        payoff_timeline: build_payoff_timeline(loans, as_of),
    }
}

/// Display text of a minor amount in major units with two decimals.
pub fn format_display_amount(amount_minor: i64) -> (s: String)
    ensures
        s@ == amount_text(amount_minor as int),
{
    minor_to_decimal(amount_minor)
}

/// Sum of the remaining balances of the given loans.
pub open spec fn balances_of(s: Seq<LoanCalcInput>) -> int
    decreases s.len(),
{
    if s.len() == 0 {
        0
    } else {
        balances_of(s.drop_last()) + s.last().remaining_balance_minor as int
    }
}

/// Sum of the monthly-equivalent installments of the given loans.
pub open spec fn obligations_of(s: Seq<LoanCalcInput>) -> int
    decreases s.len(),
{
    if s.len() == 0 {
        0
    } else {
        obligations_of(s.drop_last()) + monthly_obligation(s.last())
    }
}

/// The household totals are the sums over exactly the loans the dashboard lists (the
/// active ones, in order): their balances and their monthly-equivalent installments.
pub proof fn lemma_household_totals(loans: Seq<LoanCalcInput>)
    ensures
        balance_total(loans) == balances_of(listed_loans(loans)),
        monthly_total(loans) == obligations_of(listed_loans(loans)),
        forall|k: int| 0 <= k < listed_loans(loans).len() ==> is_listed(#[trigger] listed_loans(loans)[k]),
    decreases loans.len(),
{
    if loans.len() > 0 {
        let d = loans.drop_last();
        lemma_household_totals(d);
        let prev = listed_loans(d);
        if is_listed(loans.last()) {
            let cur = listed_loans(loans);
            assert(cur == prev.push(loans.last()));
            assert(cur.drop_last() =~= prev);
            assert forall|k: int| 0 <= k < cur.len() implies is_listed(#[trigger] cur[k]) by {
                if k < prev.len() {
                    assert(cur[k] == prev[k]);
                }
            }
        }
    }
}

/// Whether a listed loan can be summarized.
pub fn summarizable_check(l: &LoanCalcInput, as_of: Date) -> (r: bool)
    ensures
        r == summarizable(*l, as_of),
{
    if !installment_fits_at(l, l.remaining_balance_minor) {
        return false;
    }
    if l.remaining_balance_minor > 0 && !projectable_check(l, as_of) {
        return false;
    }
    if !crate::autopay::paid_dates_real(&l.payments) {
        return false;
    }
    let base: i128 = match l.original_principal_minor {
        Some(p) => p as i128,
        None => l.remaining_balance_minor as i128,
    };
    let diff = base - l.remaining_balance_minor as i128;
    i64::MIN as i128 <= diff && diff <= i64::MAX as i128
}

/// Whether the dashboard can be built for `loans` from `as_of`.
pub fn dashboard_computable_check(loans: &[LoanCalcInput], as_of: Date) -> (r: bool)
    ensures
        r == dashboard_computable(loans@, as_of),
{
    if !timeline_computable_check(loans, as_of) {
        return false;
    }
    let mut total_balance: i128 = 0;
    let mut total_monthly: i128 = 0;
    let mut i: usize = 0;
    proof {
        assert(loans@.take(0) =~= Seq::<LoanCalcInput>::empty());
    }
    while i < loans.len()
        invariant
            0 <= i <= loans@.len(),
            total_balance == balance_total(loans@.take(i as int)),
            total_monthly == monthly_total(loans@.take(i as int)),
            forall|k: int| 0 <= k < i && is_listed(#[trigger] loans@[k]) ==> summarizable(loans@[k], as_of),
            forall|n: int|
                0 <= n <= i ==> fits_i64(#[trigger] balance_total(loans@.take(n))) && fits_i64(
                    monthly_total(loans@.take(n)),
                ),
        decreases loans.len() - i,
    {
        let loan = &loans[i];
        proof {
            assert(loans@.take(i + 1).drop_last() =~= loans@.take(i as int));
            assert(loans@.take(i + 1).last() == loans@[i as int]);
        }
        if let LoanStatus::Active = loan.status {
            if !summarizable_check(loan, as_of) {
                return false;
            }
            let periodic = periodic_total_minor(loan);
            let monthly = monthly_equivalent_payment(periodic, loan.payment_frequency);
            total_balance = total_balance + loan.remaining_balance_minor as i128;
            total_monthly = total_monthly + monthly as i128;
            if total_balance < i64::MIN as i128 || total_balance > i64::MAX as i128
                || total_monthly < i64::MIN as i128 || total_monthly > i64::MAX as i128 {
                proof {
                    assert(!(fits_i64(balance_total(loans@.take(i + 1))) && fits_i64(
                        monthly_total(loans@.take(i + 1)),
                    )));
                }
                return false;
            }
        }
        proof {
            assert(fits_i64(balance_total(loans@.take(i + 1))) && fits_i64(monthly_total(loans@.take(i + 1))));
            assert forall|n: int|
                0 <= n <= i + 1 implies fits_i64(#[trigger] balance_total(loans@.take(n))) && fits_i64(
                    monthly_total(loans@.take(n)),
                ) by {
                if n <= i {
                    assert(fits_i64(balance_total(loans@.take(n))));
                }
            }
        }
        i = i + 1;
    }
    proof {
        assert(loans@.take(loans@.len() as int) =~= loans@);
        assert forall|n: int|
            0 <= n <= loans@.len() implies fits_i64(#[trigger] balance_total(loans@.take(n))) && fits_i64(
                monthly_total(loans@.take(n)),
            ) by {}
    }
    true
}

/// The loans a dashboard lists are exactly the active ones, in input order.
pub proof fn lemma_listed_are_the_active_loans(loans: Seq<LoanCalcInput>)
    ensures
        listed_loans(loans) == loans.filter(|l: LoanCalcInput| is_listed(l)),
    decreases loans.len(),
{
    reveal(Seq::filter);
    if loans.len() > 0 {
        lemma_listed_are_the_active_loans(loans.drop_last());
    }
}

/// A dashboard lists one summary per active loan, in input order and under the loan's id;
/// its household figures are the sums of the remaining balances and of the monthly
/// installments over exactly those loans, all in the given currency.
pub proof fn lemma_dashboard_lists_active_loans(
    d: DashboardResponse,
    loans: Seq<LoanCalcInput>,
    currency: Seq<char>,
    as_of: Date,
)
    requires
        dashboard_matches(d, loans, currency, as_of),
    ensures
        ({
            let active = loans.filter(|l: LoanCalcInput| is_listed(l));
            &&& d.loans@.len() == active.len()
            &&& forall|k: int|
                0 <= k < active.len() ==> (#[trigger] d.loans@[k]).id@ == active[k].id@ && active[k].status
                    == LoanStatus::Active && d.loans@[k].remaining_balance.amount_minor
                    == active[k].remaining_balance_minor
            &&& d.household.total_balance.amount_minor == balances_of(active)
            &&& d.household.total_monthly_obligation.amount_minor == obligations_of(active)
            &&& d.household.total_balance.currency@ == currency
            &&& d.household.total_monthly_obligation.currency@ == currency
        }),
{
    lemma_listed_are_the_active_loans(loans);
    lemma_household_totals(loans);
    let active = loans.filter(|l: LoanCalcInput| is_listed(l));
    assert forall|k: int| 0 <= k < active.len() implies (#[trigger] d.loans@[k]).id@ == active[k].id@
        && active[k].status == LoanStatus::Active && d.loans@[k].remaining_balance.amount_minor
        == active[k].remaining_balance_minor by {
        assert(summary_matches(d.loans@[k], active[k], currency, as_of));
        assert(is_listed(listed_loans(loans)[k]));
    }
}

/// The last payment date a summary shows is the date of a recorded regular payment, no
/// regular payment lies after it, and there is none exactly when no regular payment is
/// recorded.
pub proof fn lemma_last_regular_payment_is_the_latest(payments: Seq<PaymentRecord>, n: int)
    requires
        0 <= n <= payments.len(),
    ensures
        last_regular_payment(payments, n) is None <==> forall|k: int| 0 <= k < n ==> !is_regular(#[trigger] payments[k]),
        last_regular_payment(payments, n) matches Some(d) ==> exists|k: int|
            0 <= k < n && is_regular(#[trigger] payments[k]) && payments[k].paid_at == d,
        last_regular_payment(payments, n) matches Some(d) ==> forall|k: int|
            0 <= k < n && is_regular(#[trigger] payments[k]) ==> !date_lt(d, payments[k].paid_at),
    decreases n,
{
    if n > 0 {
        lemma_last_regular_payment_is_the_latest(payments, n - 1);
        let p = payments[n - 1];
        if is_regular(p) {
            assert(is_regular(payments[n - 1]));
        }
        if let Some(d) = last_regular_payment(payments, n) {
            if last_regular_payment(payments, n - 1) is Some && d != p.paid_at {
                let k = choose|k: int| 0 <= k < n - 1 && is_regular(#[trigger] payments[k]) && payments[k].paid_at == d;
                assert(is_regular(payments[k]));
            } else {
                assert(is_regular(payments[n - 1]) || last_regular_payment(payments, n - 1) is Some);
            }
        }
    }
}

} // verus!
