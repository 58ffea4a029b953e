//! Regular installments that have fallen due: the due dates since the last recorded regular
//! payment, and the installment each of them takes from the balance it meets.

use vstd::prelude::*;
use crate::amortization::{installment_fits, installment_fits_at, total_for_balance, total_spec};
use crate::calendar::{is_valid_date, Date, MAX_YEAR};
use crate::dashboard::{is_regular, last_regular_payment, last_regular_payment_date};
use crate::calendar::{date_le, date_lt};
use crate::due_payments::{advance_due_spec, can_advance, due_chain, dues_through, step_budget, due_dates_spec, due_regular_payment_dates, lemma_due_dates_schedule, resume_date};
use crate::money::fits_i64;
use crate::payment_split::{lemma_split_parts_bounded, split_payment, split_spec, PaymentSplit};
use crate::types::{LoanCalcInput, LoanStatus, PaymentFrequency, PaymentRecord};

verus! {

/// One regular installment to record: its due date, its amount and how it splits.
#[derive(Clone, Copy, Debug, PartialEq, Eq, Structural)]
pub struct AppliedInstallment {
    pub paid_at: Date,
    pub amount_minor: i64,
    pub split: PaymentSplit,
}

/// Whether an installment is taken from `balance`: something is owed and the installment
/// is not zero.
pub open spec fn installment_due(loan: LoanCalcInput, balance: int) -> bool {
    balance > 0 && total_spec(loan, balance) > 0
}

/// The balance an installment leaves behind.
pub open spec fn balance_after_installment(loan: LoanCalcInput, balance: int) -> int {
    split_spec(loan, total_spec(loan, balance), balance).balance_after_minor as int
}

/// The installments taken on `dates` in order, starting from `balance`; the run ends at the
/// first date on which nothing is owed or the installment is zero.
pub open spec fn installment_plan(loan: LoanCalcInput, dates: Seq<Date>, balance: int) -> Seq<
    AppliedInstallment,
>
    decreases dates.len(),
{
    if dates.len() == 0 || !installment_due(loan, balance) {
        Seq::empty()
    } else {
        let amount = total_spec(loan, balance);
        seq![AppliedInstallment { paid_at: dates[0], amount_minor: amount as i64, split: split_spec(loan, amount, balance) }]
            + installment_plan(loan, dates.drop_first(), balance_after_installment(loan, balance))
    }
}

/// The balance left after the installments of `installment_plan`.
pub open spec fn plan_balance(loan: LoanCalcInput, dates: Seq<Date>, balance: int) -> int
    decreases dates.len(),
{
    if dates.len() == 0 || !installment_due(loan, balance) {
        balance
    } else {
        plan_balance(loan, dates.drop_first(), balance_after_installment(loan, balance))
    }
}

/// Every installment of the run can be computed in `i64`.
pub open spec fn plan_fits(loan: LoanCalcInput, dates: Seq<Date>, balance: int) -> bool
    decreases dates.len(),
{
    if dates.len() == 0 || balance <= 0 {
        true
    } else {
        &&& installment_fits(loan, balance)
        &&& (total_spec(loan, balance) <= 0 || plan_fits(
            loan,
            dates.drop_first(),
            balance_after_installment(loan, balance),
        ))
    }
}

pub open spec fn last_regular_of(loan: LoanCalcInput) -> Option<Date> {
    last_regular_payment(loan.payments@, loan.payments@.len() as int)
}

/// The due dates of regular installments through `as_of` that follow the last recorded
/// regular payment (from the first payment date when none is recorded).
pub open spec fn due_installment_dates(loan: LoanCalcInput, as_of: Date) -> Seq<Date> {
    due_dates_spec(loan.first_payment_date, loan.payment_frequency, last_regular_of(loan), as_of)
}

/// The dates the run works from are real calendar days from which the schedule can step.
pub open spec fn schedule_dates_ok(loan: LoanCalcInput, as_of: Date) -> bool {
    &&& loan.first_payment_date.wf()
    &&& as_of.wf()
    &&& as_of.year < MAX_YEAR
    &&& forall|i: int| 0 <= i < loan.payments@.len() ==> (#[trigger] loan.payments@[i]).paid_at.wf()
    &&& last_regular_of(loan) matches Some(l) ==> can_advance(l, loan.payment_frequency)
}

pub(crate) fn paid_dates_real(payments: &Vec<PaymentRecord>) -> (r: bool)
    ensures
        r == forall|i: int| 0 <= i < payments@.len() ==> (#[trigger] payments@[i]).paid_at.wf(),
{
    let mut i: usize = 0;
    while i < payments.len()
        invariant
            0 <= i <= payments@.len(),
            forall|j: int| 0 <= j < i ==> (#[trigger] payments@[j]).paid_at.wf(),
        decreases payments.len() - i,
    {
        if !is_valid_date(payments[i].paid_at) {
            return false;
        }
        i = i + 1;
    }
    true
}

fn can_step_from(d: Date, freq: PaymentFrequency) -> (r: bool)
    ensures
        r == can_advance(d, freq),
{
    if !is_valid_date(d) {
        return false;
    }
    match freq {
        PaymentFrequency::Monthly => !(d.year == MAX_YEAR && d.month == 12),
        PaymentFrequency::Yearly => true,
    }
}

/// The regular installments of an active loan that fell due through `as_of` and are not
/// recorded yet, each split against the balance the previous ones left, and the balance
/// after them. An archived loan owes none. `None` when a date the run starts from is not a
/// real calendar day, the schedule cannot step on from the last recorded regular payment,
/// or an installment of the run cannot be computed in `i64`.
pub fn due_regular_installments(loan: &LoanCalcInput, as_of: Date) -> (r: Option<
    (Vec<AppliedInstallment>, i64),
>)
    ensures
        loan.status == LoanStatus::Archived ==> (r matches Some(p) && p.0@.len() == 0 && p.1
            == loan.remaining_balance_minor),
        loan.status == LoanStatus::Active ==> (r is Some <==> (schedule_dates_ok(*loan, as_of)
            && plan_fits(*loan, due_installment_dates(*loan, as_of), loan.remaining_balance_minor as int))),
        loan.status == LoanStatus::Active ==> (r matches Some(p) ==> {
            &&& p.0@ == installment_plan(*loan, due_installment_dates(*loan, as_of), loan.remaining_balance_minor as int)
            &&& p.1 == plan_balance(*loan, due_installment_dates(*loan, as_of), loan.remaining_balance_minor as int)
        }),
{
    if let LoanStatus::Archived = loan.status {
        return Some((Vec::new(), loan.remaining_balance_minor));
    }
    if !is_valid_date(loan.first_payment_date) || !is_valid_date(as_of) || as_of.year >= MAX_YEAR {
        return None;
    }
    if !paid_dates_real(&loan.payments) {
        return None;
    }
    let last = last_regular_payment_date(&loan.payments);
    if let Some(l) = last {
        if !can_step_from(l, loan.payment_frequency) {
            return None;
        }
    }
    let dates = due_regular_payment_dates(loan.first_payment_date, loan.payment_frequency, last, as_of);
    let ghost all = dates@;
    let ghost start = loan.remaining_balance_minor as int;
    let mut out: Vec<AppliedInstallment> = Vec::new();
    let mut balance = loan.remaining_balance_minor;
    let mut i: usize = 0;
    proof {
        assert(all.skip(0) =~= all);
        assert(Seq::<AppliedInstallment>::empty() + installment_plan(*loan, all, start) =~= installment_plan(*loan, all, start));
    }
    while i < dates.len()
        invariant
            0 <= i <= dates@.len(),
            all == dates@,
            all == due_installment_dates(*loan, as_of),
            schedule_dates_ok(*loan, as_of),
            start == loan.remaining_balance_minor as int,
            loan.status == LoanStatus::Active,
            out@ + installment_plan(*loan, all.skip(i as int), balance as int) == installment_plan(*loan, all, start),
            plan_balance(*loan, all.skip(i as int), balance as int) == plan_balance(*loan, all, start),
            plan_fits(*loan, all.skip(i as int), balance as int) == plan_fits(*loan, all, start),
        decreases dates.len() - i,
    {
        let ghost rest = all.skip(i as int);
        proof {
            assert(rest.len() > 0);
            assert(rest[0] == all[i as int]);
            assert(rest.drop_first() =~= all.skip(i as int + 1));
        }
        if balance <= 0 {
            proof {
                assert(out@ + Seq::<AppliedInstallment>::empty() =~= out@);
            }
            return Some((out, balance));
        }
        if !installment_fits_at(loan, balance) {
            return None;
        }
        let amount = total_for_balance(loan, balance);
        if amount == 0 {
            proof {
                assert(out@ + Seq::<AppliedInstallment>::empty() =~= out@);
            }
            return Some((out, balance));
        }
        let split = split_payment(loan, amount, balance);
        let item = AppliedInstallment { paid_at: dates[i], amount_minor: amount, split };
        proof {
            assert(installment_plan(*loan, rest, balance as int) == seq![item] + installment_plan(
                *loan,
                all.skip(i as int + 1),
                split.balance_after_minor as int,
            ));
            assert(out@.push(item) + installment_plan(*loan, all.skip(i as int + 1), split.balance_after_minor as int)
                =~= out@ + (seq![item] + installment_plan(*loan, all.skip(i as int + 1), split.balance_after_minor as int)));
        }
        out.push(item);
        balance = split.balance_after_minor;
        i = i + 1;
    }
    proof {
        assert(all.skip(i as int) =~= Seq::<Date>::empty());
        assert(out@ + Seq::<AppliedInstallment>::empty() =~= out@);
    }
    Some((out, balance))
}

/// Each installment of a run is taken on the next due date, in order, so a run holds no
/// more installments than there are due dates.
pub proof fn lemma_plan_follows_dates(loan: LoanCalcInput, dates: Seq<Date>, balance: int)
    ensures
        installment_plan(loan, dates, balance).len() <= dates.len(),
        forall|k: int|
            0 <= k < installment_plan(loan, dates, balance).len() ==> (#[trigger] installment_plan(
                loan,
                dates,
                balance,
            )[k]).paid_at == dates[k],
    decreases dates.len(),
{
    if dates.len() > 0 && installment_due(loan, balance) {
        let next = balance_after_installment(loan, balance);
        lemma_plan_follows_dates(loan, dates.drop_first(), next);
        let tail = installment_plan(loan, dates.drop_first(), next);
        let amount = total_spec(loan, balance);
        let head = AppliedInstallment { paid_at: dates[0], amount_minor: amount as i64, split: split_spec(loan, amount, balance) };
        assert forall|k: int| 0 <= k < installment_plan(loan, dates, balance).len() implies (
        #[trigger] installment_plan(loan, dates, balance)[k]).paid_at == dates[k] by {
            if k > 0 {
                assert(installment_plan(loan, dates, balance)[k] == tail[k - 1]);
                assert(dates.drop_first()[k - 1] == dates[k]);
            }
        }
    }
}

/// With a rate that is not negative, applying due installments never raises the balance
/// and never takes it below zero.
pub proof fn lemma_plan_balance_bounded(loan: LoanCalcInput, dates: Seq<Date>, balance: int)
    requires
        fits_i64(balance),
        balance >= 0,
        loan.apr_or_zero() >= 0,
        plan_fits(loan, dates, balance),
    ensures
        0 <= plan_balance(loan, dates, balance) <= balance,
    decreases dates.len(),
{
    if dates.len() > 0 && installment_due(loan, balance) {
        let amount = total_spec(loan, balance);
        crate::amortization::lemma_installment_capped(loan, balance);
        lemma_split_parts_bounded(loan, amount, balance);
        let next = balance_after_installment(loan, balance);
        lemma_plan_balance_bounded(loan, dates.drop_first(), next);
    }
}

/// The installments of a run fall on consecutive dates of the loan's schedule, in
/// increasing order, each after the last recorded regular payment and none after `as_of`.
pub proof fn lemma_installments_fall_between(loan: LoanCalcInput, as_of: Date)
    requires
        schedule_dates_ok(loan, as_of),
    ensures
        ({
            let plan = installment_plan(loan, due_installment_dates(loan, as_of), loan.remaining_balance_minor as int);
            let start = resume_date(loan.first_payment_date, loan.payment_frequency, last_regular_of(loan));
            &&& forall|k: int|
                0 <= k < plan.len() ==> (#[trigger] plan[k]).paid_at == due_chain(start, loan.payment_frequency, k as nat)
                    && plan[k].paid_at.wf() && date_le(plan[k].paid_at, as_of)
            &&& forall|i: int, j: int| 0 <= i < j < plan.len() ==> date_lt((#[trigger] plan[i]).paid_at, (#[trigger] plan[j]).paid_at)
            &&& last_regular_of(loan) matches Some(l) ==> forall|k: int|
                0 <= k < plan.len() ==> date_lt(l, (#[trigger] plan[k]).paid_at)
        }),
{
    let dates = due_installment_dates(loan, as_of);
    lemma_due_dates_schedule(loan.first_payment_date, loan.payment_frequency, last_regular_of(loan), as_of);
    lemma_plan_follows_dates(loan, dates, loan.remaining_balance_minor as int);
    let plan = installment_plan(loan, dates, loan.remaining_balance_minor as int);
    assert forall|i: int, j: int| 0 <= i < j < plan.len() implies date_lt((#[trigger] plan[i]).paid_at, (#[trigger] plan[j]).paid_at) by {
        assert(plan[i].paid_at == dates[i]);
        assert(plan[j].paid_at == dates[j]);
    }
}

/// A run that ends before its last due date ends because nothing more is due.
proof fn lemma_short_run_ends_undue(loan: LoanCalcInput, dates: Seq<Date>, balance: int)
    requires
        installment_plan(loan, dates, balance).len() < dates.len(),
    ensures
        !installment_due(loan, plan_balance(loan, dates, balance)),
    decreases dates.len(),
{
    if installment_due(loan, balance) {
        lemma_short_run_ends_undue(loan, dates.drop_first(), balance_after_installment(loan, balance));
    }
}

/// The latest regular payment among the first `n` records depends on those records only.
proof fn lemma_last_regular_prefix(a: Seq<PaymentRecord>, b: Seq<PaymentRecord>, n: int)
    requires
        0 <= n <= a.len(),
    ensures
        last_regular_payment(a + b, n) == last_regular_payment(a, n),
    decreases n,
{
    if n > 0 {
        lemma_last_regular_prefix(a, b, n - 1);
        assert((a + b)[n - 1] == a[n - 1]);
    }
}

/// Appending regular payments on increasing dates, all after the latest regular payment
/// recorded so far, makes the last appended date the latest regular payment.
proof fn lemma_last_regular_after_append(a: Seq<PaymentRecord>, recs: Seq<PaymentRecord>, m: int)
    requires
        1 <= m <= recs.len(),
        forall|k: int| 0 <= k < recs.len() ==> is_regular(#[trigger] recs[k]),
        forall|i: int, j: int| 0 <= i < j < recs.len() ==> date_lt((#[trigger] recs[i]).paid_at, (#[trigger] recs[j]).paid_at),
        last_regular_payment(a, a.len() as int) matches Some(l) ==> date_lt(l, recs[0].paid_at),
    ensures
        last_regular_payment(a + recs, a.len() + m) == Some(recs[m - 1].paid_at),
    decreases m,
{
    let s = a + recs;
    let n = a.len() + m;
    assert(s[n - 1] == recs[m - 1]);
    if m > 1 {
        lemma_last_regular_after_append(a, recs, m - 1);
        assert(date_lt(recs[m - 2].paid_at, recs[m - 1].paid_at));
    } else {
        lemma_last_regular_prefix(a, recs, a.len() as int);
    }
}

/// Applying the due installments once leaves nothing due: for the loan as it stands after
/// the run (the balance the run leaves, and one regular payment recorded per installment on
/// its date), a second run on the same day finds no installment.
pub proof fn lemma_second_run_finds_nothing(
    loan: LoanCalcInput,
    after: LoanCalcInput,
    records: Seq<PaymentRecord>,
    as_of: Date,
)
    requires
        schedule_dates_ok(loan, as_of),
        after.first_payment_date == loan.first_payment_date,
        after.payment_frequency == loan.payment_frequency,
        after.payment_type == loan.payment_type,
        after.apr_basis_points == loan.apr_basis_points,
        after.tilgung_euro_minor == loan.tilgung_euro_minor,
        after.tilgung_percent_basis_points == loan.tilgung_percent_basis_points,
        after.original_principal_minor == loan.original_principal_minor,
        after.remaining_balance_minor == plan_balance(
            loan,
            due_installment_dates(loan, as_of),
            loan.remaining_balance_minor as int,
        ),
        records.len() == installment_plan(loan, due_installment_dates(loan, as_of), loan.remaining_balance_minor as int).len(),
        forall|k: int|
            0 <= k < records.len() ==> is_regular(#[trigger] records[k]) && records[k].paid_at == installment_plan(
                loan,
                due_installment_dates(loan, as_of),
                loan.remaining_balance_minor as int,
            )[k].paid_at,
        after.payments@ == loan.payments@ + records,
    ensures
        installment_plan(after, due_installment_dates(after, as_of), after.remaining_balance_minor as int).len() == 0,
{
    let dates = due_installment_dates(loan, as_of);
    let b0 = loan.remaining_balance_minor as int;
    let plan = installment_plan(loan, dates, b0);
    let b1 = after.remaining_balance_minor as int;
    lemma_plan_follows_dates(loan, dates, b0);
    lemma_installments_fall_between(loan, as_of);
    let start = resume_date(loan.first_payment_date, loan.payment_frequency, last_regular_of(loan));
    lemma_due_dates_schedule(loan.first_payment_date, loan.payment_frequency, last_regular_of(loan), as_of);
    assert(total_spec(after, b1) == total_spec(loan, b1));
    if plan.len() < dates.len() {
        lemma_short_run_ends_undue(loan, dates, b0);
        assert(!installment_due(after, b1));
    } else if dates.len() == 0 {
        assert(records =~= Seq::<PaymentRecord>::empty());
        assert(after.payments@ =~= loan.payments@);
        assert(due_installment_dates(after, as_of) == dates);
    } else {
        let n = dates.len();
        assert forall|i: int, j: int| 0 <= i < j < records.len() implies date_lt(
            (#[trigger] records[i]).paid_at,
            (#[trigger] records[j]).paid_at,
        ) by {
            assert(plan[i].paid_at == records[i].paid_at);
            assert(plan[j].paid_at == records[j].paid_at);
        }
        assert(records[0].paid_at == plan[0].paid_at);
        lemma_last_regular_after_append(loan.payments@, records, records.len() as int);
        assert(last_regular_of(after) == Some(dates[n - 1]));
        assert(dates[n - 1] == due_chain(start, loan.payment_frequency, (n - 1) as nat));
        let next = advance_due_spec(dates[n - 1], loan.payment_frequency);
        assert(next == due_chain(start, loan.payment_frequency, n as nat));
        assert(!date_le(next, as_of));
        assert(due_installment_dates(after, as_of) == dues_through(next, loan.payment_frequency, as_of, step_budget(next, as_of)));
        assert(due_installment_dates(after, as_of).len() == 0);
    }
}

} // verus!
