//! Forward simulation of a loan from a reference date: payoff date, balance schedule,
//! amortization table (Tilgungsplan), and remaining-interest schedule.

use vstd::prelude::*;
use crate::amortization::{
    installment_fits, interest_spec, periodic_interest_minor, periodic_principal_minor,
    periodic_total_minor, principal_spec, total_spec,
};
use crate::calendar::{date_le, date_lt, date_to_string, date_text, is_valid_date, Date, MAX_YEAR};
use crate::due_payments::{
    advance_due, advance_due_spec, can_advance, due_chain, first_due_after, first_due_after_spec,
    lemma_advance, lemma_advance_past_bound, lemma_advance_wf, lemma_chain_nondecreasing,
    lemma_chain_shift, lemma_first_due_after_is_first, months_per_period,
    payment_due_anchor, step_budget,
};
use crate::extras::{
    extras_fit, extras_fit_check, extras_for_date, lemma_recurring_sum_bounded, lemma_scheduled_sum_bounded,
    pending_scheduled_extras, recurring_sum, scheduled_sum,
};
use crate::money::{fits_i64, max_int, min_of, round_div, saturate_i64, saturate_to_i64};
use crate::types::{LoanCalcInput, PaymentFrequency, ScheduledExtra};

verus! {

/// Upper bound on simulated payment periods.
pub const MAX_PERIODS: u32 = 600;

/// One simulated payment period: its due date and the balance before and after it.
pub struct SimStep {
    pub date: Date,
    pub before: int,
    pub after: int,
}

/// Balance after one period: scheduled principal (never more than the balance) and the
/// extra payments due that day come off.
pub open spec fn step_after(loan: LoanCalcInput, principal: int, balance: int, date: Date) -> int {
    balance - min_of(principal, balance) - recurring_sum(loan.recurring_extras@, date)
        - scheduled_sum(loan.scheduled_extras@, date)
}

/// Periods from `date` on until the balance is gone (at most `fuel` of them).
pub open spec fn sim_steps(
    loan: LoanCalcInput,
    principal: int,
    balance: int,
    date: Date,
    fuel: nat,
) -> Seq<SimStep>
    decreases fuel,
{
    if fuel == 0 {
        Seq::empty()
    } else {
        let after = step_after(loan, principal, balance, date);
        let step = SimStep { date, before: balance, after };
        if after <= 0 {
            seq![step]
        } else {
            seq![step] + sim_steps(
                loan,
                principal,
                after,
                advance_due_spec(date, loan.payment_frequency),
                (fuel - 1) as nat,
            )
        }
    }
}

/// First projected due date: the first installment strictly after `as_of`.
pub open spec fn projection_start(loan: LoanCalcInput, as_of: Date) -> Date {
    first_due_after_spec(loan.first_payment_date, loan.payment_frequency, as_of)
}

/// The projected periods of a loan from `as_of` until payoff (at most `MAX_PERIODS`).
pub open spec fn projected_steps(loan: LoanCalcInput, as_of: Date) -> Seq<SimStep> {
    sim_steps(
        loan,
        principal_spec(loan, loan.remaining_balance_minor as int),
        loan.remaining_balance_minor as int,
        projection_start(loan, as_of),
        MAX_PERIODS as nat,
    )
}

/// Dates the projection can run on: real dates early enough that 600 monthly steps do
/// not run past the last representable month, and extra-payment sums that fit in `i64`.
pub open spec fn projectable(loan: LoanCalcInput, as_of: Date) -> bool {
    &&& as_of.wf()
    &&& loan.first_payment_date.wf()
    &&& as_of.year + 52 <= MAX_YEAR
    &&& loan.first_payment_date.year + 52 <= MAX_YEAR
    &&& extras_fit(loan)
}

/// A simulated period as the executable code holds it.
struct Step {
    date: Date,
    before: i128,
    after: i128,
}

impl Step {
    spec fn model(self) -> SimStep {
        SimStep { date: self.date, before: self.before as int, after: self.after as int }
    }
}

spec fn steps_model(s: Seq<Step>) -> Seq<SimStep> {
    s.map_values(|st: Step| st.model())
}

spec fn balance_bound(k: int) -> int {
    (k + 1) * 0x2_0000_0000_0000_0000
}

/// Runs the period-by-period projection.
fn simulate(loan: &LoanCalcInput, as_of: Date) -> (steps: Vec<Step>)
    requires
        loan.remaining_balance_minor > 0,
        projectable(*loan, as_of),
    ensures
        steps_model(steps@) == projected_steps(*loan, as_of),
        1 <= steps@.len() <= MAX_PERIODS,
        forall|i: int|
            0 <= i < steps@.len() ==> #[trigger] steps@[i].before > 0 && steps@[i].date.wf()
                && -balance_bound(MAX_PERIODS as int) <= steps@[i].before <= balance_bound(
                MAX_PERIODS as int,
            ) && -balance_bound(MAX_PERIODS as int) <= steps@[i].after <= balance_bound(
                MAX_PERIODS as int,
            ),
{
    let freq = loan.payment_frequency;
    let principal = periodic_principal_minor(loan) as i128;
    let anchor = payment_due_anchor(Some(loan.first_payment_date), loan.loan_start_date);
    let start = first_due_after(anchor, freq, as_of);
    proof {
        lemma_advance_past_bound(
            loan.first_payment_date,
            freq,
            as_of,
            step_budget(loan.first_payment_date, as_of),
        );
    }
    let ghost full = projected_steps(*loan, as_of);
    let ghost p = principal as int;
    let mut date = start;
    let mut balance: i128 = loan.remaining_balance_minor as i128;
    let mut steps: Vec<Step> = Vec::new();
    let mut k: u32 = 0;
    while k < MAX_PERIODS
        invariant_except_break
            steps@.len() == k,
            steps_model(steps@) + sim_steps(*loan, p, balance as int, date, (MAX_PERIODS - k) as nat)
                == full,
        invariant
            projectable(*loan, as_of),
            freq == loan.payment_frequency,
            p == principal_spec(*loan, loan.remaining_balance_minor as int),
            p == principal as int,
            fits_i64(p),
            full == projected_steps(*loan, as_of),
            0 <= k <= MAX_PERIODS,
            balance > 0,
            -balance_bound(k as int) <= balance <= balance_bound(k as int),
            date.wf(),
            freq == PaymentFrequency::Monthly ==> date.month_index() == start.month_index() + k,
            start.month_index() <= if loan.first_payment_date.month_index() > as_of.month_index()
                + months_per_period(freq) {
                loan.first_payment_date.month_index()
            } else {
                as_of.month_index() + months_per_period(freq)
            },
            forall|i: int|
                0 <= i < steps@.len() ==> #[trigger] steps@[i].before > 0 && steps@[i].date.wf()
                    && -balance_bound(MAX_PERIODS as int) <= steps@[i].before <= balance_bound(
                    MAX_PERIODS as int,
                ) && -balance_bound(MAX_PERIODS as int) <= steps@[i].after <= balance_bound(
                    MAX_PERIODS as int,
                ),
        ensures
            steps_model(steps@) == full,
            1 <= steps@.len() <= MAX_PERIODS,
            forall|i: int|
                0 <= i < steps@.len() ==> #[trigger] steps@[i].before > 0 && steps@[i].date.wf()
                    && -balance_bound(MAX_PERIODS as int) <= steps@[i].before <= balance_bound(
                    MAX_PERIODS as int,
                ) && -balance_bound(MAX_PERIODS as int) <= steps@[i].after <= balance_bound(
                    MAX_PERIODS as int,
                ),
        decreases MAX_PERIODS - k,
    {
        let scheduled = if principal < balance {
            principal
        } else {
            balance
        };
        let recurring = extras_for_date(loan, date);
        let pending = pending_scheduled_extras(loan, date);
        proof {
            lemma_recurring_sum_bounded(loan.recurring_extras@, date);
            lemma_scheduled_sum_bounded(loan.scheduled_extras@, date);
        }
        let after = balance - scheduled - recurring as i128 - pending as i128;
        let ghost old_steps = steps@;
        let ghost rest = sim_steps(*loan, p, balance as int, date, (MAX_PERIODS - k - 1) as nat);
        let step = Step { date, before: balance, after };
        steps.push(step);
        proof {
            assert(steps_model(steps@) =~= steps_model(old_steps) + seq![step.model()]);
        }
        if after <= 0 {
            proof {
                assert(steps_model(steps@) =~= full);
            }
            break;
        }
        proof {
            if freq == PaymentFrequency::Monthly {
                assert(date.year < MAX_YEAR);
                lemma_advance(date, freq);
            } else {
                lemma_advance_wf(date, freq);
            }
            assert(steps_model(steps@) + sim_steps(
                *loan,
                p,
                after as int,
                advance_due_spec(date, freq),
                (MAX_PERIODS - k - 1) as nat,
            ) =~= steps_model(old_steps) + sim_steps(
                *loan,
                p,
                balance as int,
                date,
                (MAX_PERIODS - k) as nat,
            ));
        }
        balance = after;
        date = advance_due(date, freq);
        k = k + 1;
    }
    proof {
        if k == MAX_PERIODS {
            assert(steps_model(steps@) =~= full);
        }
    }
    steps
}

#[derive(Clone, Copy, Debug, PartialEq, Eq, Structural)]
pub struct ProjectionResult {
    pub projected_payoff_date: Option<Date>,
    pub periodic_payment_minor: i64,
}

/// Payoff date: `as_of` for a settled loan, else the due date of the period that clears
/// the balance, if that happens within `MAX_PERIODS` periods.
pub open spec fn payoff_date_spec(loan: LoanCalcInput, as_of: Date) -> Option<Date> {
    if loan.remaining_balance_minor <= 0 {
        Some(as_of)
    } else {
        let s = projected_steps(loan, as_of);
        if s.len() > 0 && s.last().after <= 0 {
            Some(s.last().date)
        } else {
            None
        }
    }
}

/// Forward-simulate from the first unpaid due date after `as_of` until balance <= 0.
/// Uses date-only scheduling; callers apply due payments through `as_of` first.
pub fn project_payoff(loan: &LoanCalcInput, as_of: Date) -> (r: ProjectionResult)
    requires
        installment_fits(*loan, loan.remaining_balance_minor as int),
        loan.remaining_balance_minor > 0 ==> projectable(*loan, as_of),
    ensures
        r.projected_payoff_date == payoff_date_spec(*loan, as_of),
        r.periodic_payment_minor == total_spec(*loan, loan.remaining_balance_minor as int),
        loan.remaining_balance_minor > 0 ==> (r.projected_payoff_date matches Some(d) ==> d.wf()),
{
    if loan.remaining_balance_minor <= 0 {
        return ProjectionResult {
            projected_payoff_date: Some(as_of),
            periodic_payment_minor: periodic_total_minor(loan),
        };
    }
    let display_payment = periodic_total_minor(loan);
    let steps = simulate(loan, as_of);
    let last = &steps[steps.len() - 1];
    proof {
        assert(steps_model(steps@).last() == last.model());
        assert(last.before > 0);
    }
    let payoff = if last.after <= 0 {
        Some(last.date)
    } else {
        None
    };
    ProjectionResult { projected_payoff_date: payoff, periodic_payment_minor: display_payment }
}

/// Balance after a period as a non-negative minor amount.
pub open spec fn step_balance_minor(st: SimStep) -> int {
    saturate_i64(max_int(st.after, 0))
}

pub open spec fn balance_points_spec(loan: LoanCalcInput, as_of: Date) -> Seq<(Date, i64)> {
    let first = (as_of, loan.remaining_balance_minor);
    if loan.remaining_balance_minor <= 0 {
        seq![first]
    } else {
        seq![first] + projected_steps(loan, as_of).map_values(
            |st: SimStep| (st.date, step_balance_minor(st) as i64),
        )
    }
}

fn clamp_balance(after: i128) -> (r: i64)
    ensures
        r == saturate_i64(max_int(after as int, 0)),
        r >= 0,
{
    let nonneg = if after > 0 {
        after
    } else {
        0
    };
    saturate_to_i64(nonneg)
}

/// Balance after each projected payment date from `as_of` until payoff.
pub fn project_balance_schedule(loan: &LoanCalcInput, as_of: Date) -> (points: Vec<(Date, i64)>)
    requires
        loan.remaining_balance_minor > 0 ==> projectable(*loan, as_of),
    ensures
        points@ == balance_points_spec(*loan, as_of),
{
    let mut points: Vec<(Date, i64)> = Vec::new();
    points.push((as_of, loan.remaining_balance_minor));
    if loan.remaining_balance_minor <= 0 {
        return points;
    }
    let steps = simulate(loan, as_of);
    let ghost model = steps_model(steps@);
    let mut i: usize = 0;
    while i < steps.len()
        invariant
            0 <= i <= steps@.len(),
            model == steps_model(steps@),
            points@ == seq![(as_of, loan.remaining_balance_minor)] + model.take(i as int).map_values(
                |st: SimStep| (st.date, step_balance_minor(st) as i64),
            ),
        decreases steps.len() - i,
    {
        let st = &steps[i];
        let b = clamp_balance(st.after);
        proof {
            assert(model[i as int] == st.model());
        }
        points.push((st.date, b));
        proof {
            assert(model.take(i + 1) =~= model.take(i as int).push(model[i as int]));
            assert(points@ =~= seq![(as_of, loan.remaining_balance_minor)] + model.take(
                i + 1,
            ).map_values(|st: SimStep| (st.date, step_balance_minor(st) as i64)));
        }
        i = i + 1;
    }
    proof {
        assert(model.take(i as int) =~= model);
    }
    points
}

/// Interest charged in a projected period, on the balance before it.
pub open spec fn step_interest(loan: LoanCalcInput, st: SimStep) -> int {
    interest_spec(saturate_i64(st.before), loan.apr_or_zero(), loan.payment_frequency)
}

/// Scheduled principal (Tilgung) of a projected period, never more than the balance.
pub open spec fn step_scheduled(loan: LoanCalcInput, st: SimStep) -> int {
    min_of(principal_spec(loan, loan.remaining_balance_minor as int), st.before)
}

/// Cash paid in a projected period: interest plus scheduled principal.
pub open spec fn step_payment(loan: LoanCalcInput, st: SimStep) -> int {
    step_interest(loan, st) + step_scheduled(loan, st)
}

/// The per-period payments of the projection stay inside `i64`.
pub open spec fn amortization_fits(loan: LoanCalcInput, as_of: Date) -> bool {
    loan.remaining_balance_minor > 0 ==> forall|i: int|
        0 <= i < projected_steps(loan, as_of).len() ==> fits_i64(
            #[trigger] step_payment(loan, projected_steps(loan, as_of)[i]),
        )
}

/// One row of an amortization table, with its due date as a date.
#[derive(Clone, Copy, Debug, PartialEq, Eq, Structural)]
pub struct DatedRow {
    pub date: Date,
    pub payment_minor: i64,
    pub interest_minor: i64,
    pub principal_minor: i64,
    pub balance_minor: i64,
}

pub open spec fn dated_row_spec(loan: LoanCalcInput, st: SimStep) -> DatedRow {
    DatedRow {
        date: st.date,
        payment_minor: step_payment(loan, st) as i64,
        interest_minor: step_interest(loan, st) as i64,
        principal_minor: (saturate_i64(st.before) - step_balance_minor(st)) as i64,
        balance_minor: step_balance_minor(st) as i64,
    }
}

pub open spec fn dated_rows_spec(loan: LoanCalcInput, as_of: Date) -> Seq<DatedRow> {
    if loan.remaining_balance_minor <= 0 {
        Seq::empty()
    } else {
        projected_steps(loan, as_of).map_values(|st: SimStep| dated_row_spec(loan, st))
    }
}

/// The amortization table with dates kept as dates.
pub fn amortization_rows(loan: &LoanCalcInput, as_of: Date) -> (rows: Vec<DatedRow>)
    requires
        loan.remaining_balance_minor > 0 ==> projectable(*loan, as_of),
        amortization_fits(*loan, as_of),
    ensures
        rows@ == dated_rows_spec(*loan, as_of),
        forall|j: int| 0 <= j < rows@.len() ==> (#[trigger] rows@[j]).date.wf(),
{
    let mut rows: Vec<DatedRow> = Vec::new();
    if loan.remaining_balance_minor <= 0 {
        return rows;
    }
    let apr: i32 = match loan.apr_basis_points {
        Some(a) => a,
        None => 0,
    };
    let principal_per_period = periodic_principal_minor(loan) as i128;
    let steps = simulate(loan, as_of);
    let ghost model = steps_model(steps@);
    let mut i: usize = 0;
    while i < steps.len()
        invariant
            0 <= i <= steps@.len(),
            model == steps_model(steps@),
            model == projected_steps(*loan, as_of),
            loan.remaining_balance_minor > 0,
            amortization_fits(*loan, as_of),
            apr as int == loan.apr_or_zero(),
            principal_per_period == principal_spec(*loan, loan.remaining_balance_minor as int),
            forall|j: int|
                0 <= j < steps@.len() ==> #[trigger] steps@[j].before > 0 && -balance_bound(
                    MAX_PERIODS as int,
                ) <= steps@[j].before <= balance_bound(MAX_PERIODS as int) && -balance_bound(
                    MAX_PERIODS as int,
                ) <= steps@[j].after <= balance_bound(MAX_PERIODS as int),
            rows@ == model.take(i as int).map_values(|st: SimStep| dated_row_spec(*loan, st)),
        decreases steps.len() - i,
    {
        let st = &steps[i];
        proof {
            assert(model[i as int] == st.model());
            assert(fits_i64(step_payment(*loan, model[i as int])));
        }
        let before_minor = saturate_to_i64(st.before);
        let interest = periodic_interest_minor(before_minor, apr, loan.payment_frequency);
        let scheduled: i64 = if principal_per_period < st.before {
            principal_per_period as i64
        } else {
            st.before as i64
        };
        let balance_after = clamp_balance(st.after);
        let row = DatedRow {
            date: st.date,
            payment_minor: interest + scheduled,
            interest_minor: interest,
            principal_minor: before_minor - balance_after,
            balance_minor: balance_after,
        };
        rows.push(row);
        proof {
            assert(model.take(i + 1) =~= model.take(i as int).push(model[i as int]));
            assert(rows@ =~= model.take(i + 1).map_values(
                |st: SimStep| dated_row_spec(*loan, st),
            ));
        }
        i = i + 1;
    }
    proof {
        assert(model.take(i as int) =~= model);
        assert forall|j: int| 0 <= j < rows@.len() implies (#[trigger] rows@[j]).date.wf() by {
            assert(model[j] == steps@[j].model());
        }
    }
    rows
}

/// One row of an amortization (Tilgungsplan) table.
#[derive(Clone, Debug)]
pub struct AmortizationRow {
    /// ISO date of this payment.
    pub date: String,
    /// Total cash paid this period (interest + scheduled Tilgung). Does not include Sonderzahlungen.
    pub payment_minor: i64,
    /// Interest portion.
    pub interest_minor: i64,
    /// Principal (Tilgung) portion applied to balance this period, including any extra payments.
    pub principal_minor: i64,
    /// Remaining balance after this payment.
    pub balance_minor: i64,
}

/// A table row as text-dated output.
pub open spec fn row_matches(row: AmortizationRow, dated: DatedRow) -> bool {
    &&& row.date@ == date_text(dated.date)
    &&& row.payment_minor == dated.payment_minor
    &&& row.interest_minor == dated.interest_minor
    &&& row.principal_minor == dated.principal_minor
    &&& row.balance_minor == dated.balance_minor
}

fn render_row(row: DatedRow) -> (r: AmortizationRow)
    requires
        row.date.wf(),
    ensures
        row_matches(r, row),
{
    AmortizationRow {
        date: date_to_string(row.date),
        payment_minor: row.payment_minor,
        interest_minor: row.interest_minor,
        principal_minor: row.principal_minor,
        balance_minor: row.balance_minor,
    }
}

/// Full amortization schedule from `as_of` forward, starting at the loan's current
/// `remaining_balance_minor`. Extra payments (Sonderzahlungen) reduce the balance at their
/// respective dates and are reflected in `principal_minor` for that row.
pub fn compute_amortization_schedule(loan: &LoanCalcInput, as_of: Date) -> (rows: Vec<
    AmortizationRow,
>)
    requires
        loan.remaining_balance_minor > 0 ==> projectable(*loan, as_of),
        amortization_fits(*loan, as_of),
    ensures
        rows@.len() == dated_rows_spec(*loan, as_of).len(),
        forall|i: int|
            0 <= i < rows@.len() ==> row_matches(
                #[trigger] rows@[i],
                dated_rows_spec(*loan, as_of)[i],
            ),
{
    let dated = amortization_rows(loan, as_of);
    let mut rows: Vec<AmortizationRow> = Vec::new();
    let mut i: usize = 0;
    while i < dated.len()
        invariant
            0 <= i <= dated@.len(),
            dated@ == dated_rows_spec(*loan, as_of),
            forall|j: int| 0 <= j < dated@.len() ==> (#[trigger] dated@[j]).date.wf(),
            rows@.len() == i,
            forall|j: int| 0 <= j < i ==> row_matches(#[trigger] rows@[j], dated@[j]),
        decreases dated.len() - i,
    {
        rows.push(render_row(dated[i]));
        i = i + 1;
    }
    rows
}

/// Interest of the projected periods from index `i` to payoff.
pub open spec fn interest_suffix(loan: LoanCalcInput, steps: Seq<SimStep>, i: int) -> int
    decreases steps.len() - i,
{
    if i < 0 || i >= steps.len() {
        0
    } else {
        step_interest(loan, steps[i]) + interest_suffix(loan, steps, i + 1)
    }
}

/// The running totals of future interest stay inside `i64`.
pub open spec fn interest_schedule_fits(loan: LoanCalcInput, as_of: Date) -> bool {
    loan.remaining_balance_minor > 0 ==> forall|i: int|
        0 <= i <= projected_steps(loan, as_of).len() ==> fits_i64(
            #[trigger] interest_suffix(loan, projected_steps(loan, as_of), i),
        )
}

pub open spec fn balance_interest_points_spec(loan: LoanCalcInput, as_of: Date) -> Seq<
    (Date, i64, i64),
> {
    if loan.remaining_balance_minor <= 0 {
        seq![(as_of, 0i64, 0i64)]
    } else {
        let s = projected_steps(loan, as_of);
        seq![(as_of, loan.remaining_balance_minor, interest_suffix(loan, s, 0) as i64)] + Seq::new(
            s.len(),
            |i: int| (s[i].date, step_balance_minor(s[i]) as i64, interest_suffix(loan, s, i + 1) as i64),
        )
    }
}

/// Balance and remaining future interest after each projected payment date from `as_of`.
///
/// Returns `(date, remaining_principal_minor, remaining_interest_minor)` entries; the
/// remaining interest at each point is the total interest of all later periods.
pub fn project_balance_and_interest_schedule(loan: &LoanCalcInput, as_of: Date) -> (points: Vec<
    (Date, i64, i64),
>)
    requires
        loan.remaining_balance_minor > 0 ==> projectable(*loan, as_of),
        interest_schedule_fits(*loan, as_of),
    ensures
        points@ == balance_interest_points_spec(*loan, as_of),
        forall|i: int| 0 <= i < points@.len() ==> (#[trigger] points@[i]).0.wf() || i == 0,
{
    let mut points: Vec<(Date, i64, i64)> = Vec::new();
    if loan.remaining_balance_minor <= 0 {
        points.push((as_of, 0, 0));
        return points;
    }
    let apr: i32 = match loan.apr_basis_points {
        Some(a) => a,
        None => 0,
    };
    let steps = simulate(loan, as_of);
    let ghost model = steps_model(steps@);
    let n = steps.len();
    proof {
        assert forall|q: int| 0 <= q < n implies (#[trigger] steps@[q]).date.wf() by {
            assert(steps@[q].before > 0);
        }
    }
    // interest of each period
    let mut interests: Vec<i64> = Vec::new();
    let mut i: usize = 0;
    while i < n
        invariant
            n == steps@.len(),
            n <= MAX_PERIODS,
            forall|q: int| 0 <= q < n ==> (#[trigger] steps@[q]).date.wf(),
            0 <= i <= n,
            model == steps_model(steps@),
            apr as int == loan.apr_or_zero(),
            interests@.len() == i,
            forall|j: int| 0 <= j < i ==> interests@[j] == step_interest(*loan, #[trigger] model[j]),
        decreases n - i,
    {
        proof {
            assert(model[i as int] == steps@[i as int].model());
        }
        let before_minor = saturate_to_i64(steps[i].before);
        interests.push(periodic_interest_minor(before_minor, apr, loan.payment_frequency));
        i = i + 1;
    }
    // suffix sums: suffix[j] = interest of periods j..n
    let mut suffix: Vec<i64> = Vec::new();
    let mut j: usize = 0;
    while j <= n
        invariant
            n == steps@.len(),
            n <= MAX_PERIODS,
            forall|q: int| 0 <= q < n ==> (#[trigger] steps@[q]).date.wf(),
            0 <= j <= n + 1,
            suffix@.len() == j,
            forall|k: int| 0 <= k < j ==> suffix@[k] == 0,
        decreases n + 1 - j,
    {
        suffix.push(0);
        j = j + 1;
    }
    let mut k: usize = n;
    proof {
        assert(interest_suffix(*loan, model, n as int) == 0);
    }
    while k > 0
        invariant
            n == steps@.len(),
            n <= MAX_PERIODS,
            forall|q: int| 0 <= q < n ==> (#[trigger] steps@[q]).date.wf(),
            model == steps_model(steps@),
            model == projected_steps(*loan, as_of),
            loan.remaining_balance_minor > 0,
            interest_schedule_fits(*loan, as_of),
            0 <= k <= n,
            suffix@.len() == n + 1,
            interests@.len() == n,
            forall|q: int| 0 <= q < n ==> interests@[q] == step_interest(*loan, #[trigger] model[q]),
            forall|q: int| k <= q <= n ==> #[trigger] suffix@[q] == interest_suffix(*loan, model, q),
        decreases k,
    {
        proof {
            assert(fits_i64(interest_suffix(*loan, model, k - 1)));
            assert(interest_suffix(*loan, model, k - 1) == step_interest(*loan, model[k - 1])
                + interest_suffix(*loan, model, k as int));
        }
        let value = suffix[k] + interests[k - 1];
        suffix.set(k - 1, value);
        k = k - 1;
    }
    points.push((as_of, loan.remaining_balance_minor, suffix[0]));
    let mut i: usize = 0;
    while i < n
        invariant
            n == steps@.len(),
            0 <= i <= n,
            model == steps_model(steps@),
            model == projected_steps(*loan, as_of),
            loan.remaining_balance_minor > 0,
            suffix@.len() == n + 1,
            forall|q: int| 0 <= q <= n ==> #[trigger] suffix@[q] == interest_suffix(*loan, model, q),
            points@ == seq![(as_of, loan.remaining_balance_minor, interest_suffix(*loan, model, 0) as i64)]
                + Seq::new(
                i as nat,
                |q: int|
                    (
                        model[q].date,
                        step_balance_minor(model[q]) as i64,
                        interest_suffix(*loan, model, q + 1) as i64,
                    ),
            ),
            forall|q: int| 0 < q < points@.len() ==> (#[trigger] points@[q]).0.wf(),
            forall|q: int| 0 <= q < n ==> (#[trigger] steps@[q]).date.wf(),
        decreases n - i,
    {
        proof {
            assert(model[i as int] == steps@[i as int].model());
        }
        let b = clamp_balance(steps[i].after);
        points.push((steps[i].date, b, suffix[i + 1]));
        proof {
            assert(points@ =~= seq![
                (as_of, loan.remaining_balance_minor, interest_suffix(*loan, model, 0) as i64),
            ] + Seq::new(
                (i + 1) as nat,
                |q: int|
                    (
                        model[q].date,
                        step_balance_minor(model[q]) as i64,
                        interest_suffix(*loan, model, q + 1) as i64,
                    ),
            ));
        }
        i = i + 1;
    }
    proof {
        assert(points@ =~= balance_interest_points_spec(*loan, as_of));
    }
    points
}

/// A periodic amount expressed per month: yearly amounts are spread over twelve months.
pub open spec fn monthly_equivalent_spec(periodic: int, frequency: PaymentFrequency) -> int {
    match frequency {
        PaymentFrequency::Monthly => periodic,
        PaymentFrequency::Yearly => round_div(periodic, 12),
    }
}

/// Monthly-normalized obligation for dashboard totals.
pub fn monthly_equivalent_payment(periodic_minor: i64, frequency: PaymentFrequency) -> (r: i64)
    ensures
        r == monthly_equivalent_spec(periodic_minor as int, frequency),
{
    match frequency {
        PaymentFrequency::Monthly => periodic_minor,
        PaymentFrequency::Yearly => {
            proof {
                crate::money::lemma_round_div_bound(periodic_minor as int, 12);
            }
            crate::money::round_div_i128(periodic_minor as i128, 12) as i64
        },
    }
}

/// The extra payments a loan makes on `date`: enabled recurring ones falling on that day
/// plus pending one-off ones due that day.
pub open spec fn extras_on(loan: LoanCalcInput, date: Date) -> int {
    recurring_sum(loan.recurring_extras@, date) + scheduled_sum(loan.scheduled_extras@, date)
}

/// Loans that agree on everything the projection reads apart from their extra payments.
pub open spec fn same_terms(a: LoanCalcInput, b: LoanCalcInput) -> bool {
    &&& a.remaining_balance_minor == b.remaining_balance_minor
    &&& a.original_principal_minor == b.original_principal_minor
    &&& a.payment_frequency == b.payment_frequency
    &&& a.payment_type == b.payment_type
    &&& a.tilgung_euro_minor == b.tilgung_euro_minor
    &&& a.tilgung_percent_basis_points == b.tilgung_percent_basis_points
    &&& a.apr_basis_points == b.apr_basis_points
    &&& a.loan_start_date == b.loan_start_date
    &&& a.first_payment_date == b.first_payment_date
}

/// The simulated periods fall on consecutive dates of the schedule from the first one.
proof fn lemma_sim_dates(loan: LoanCalcInput, principal: int, balance: int, date: Date, fuel: nat)
    ensures
        forall|i: int|
            0 <= i < sim_steps(loan, principal, balance, date, fuel).len() ==> (#[trigger] sim_steps(
                loan,
                principal,
                balance,
                date,
                fuel,
            )[i]).date == due_chain(date, loan.payment_frequency, i as nat),
    decreases fuel,
{
    let s = sim_steps(loan, principal, balance, date, fuel);
    if fuel > 0 {
        let after = step_after(loan, principal, balance, date);
        if after > 0 {
            let next = advance_due_spec(date, loan.payment_frequency);
            let rest = sim_steps(loan, principal, after, next, (fuel - 1) as nat);
            lemma_sim_dates(loan, principal, after, next, (fuel - 1) as nat);
            assert forall|i: int| 0 <= i < s.len() implies (#[trigger] s[i]).date == due_chain(
                date,
                loan.payment_frequency,
                i as nat,
            ) by {
                if i > 0 {
                    assert(s[i] == rest[i - 1]);
                    lemma_chain_shift(date, loan.payment_frequency, (i - 1) as nat);
                }
            }
        }
    }
}

/// With no smaller extra payments on any day and no larger starting balance, a simulation
/// runs no more periods, and clears the balance whenever the other one does.
proof fn lemma_sim_monotone(
    a: LoanCalcInput,
    b: LoanCalcInput,
    principal: int,
    balance_a: int,
    balance_b: int,
    date: Date,
    fuel: nat,
)
    requires
        a.payment_frequency == b.payment_frequency,
        balance_b <= balance_a,
        forall|d: Date| #[trigger] extras_on(b, d) >= extras_on(a, d),
    ensures
        ({
            let sa = sim_steps(a, principal, balance_a, date, fuel);
            let sb = sim_steps(b, principal, balance_b, date, fuel);
            &&& sb.len() <= sa.len()
            &&& (sa.len() > 0 && sa.last().after <= 0) ==> (sb.len() > 0 && sb.last().after <= 0)
        }),
    decreases fuel,
{
    if fuel > 0 {
        let after_a = step_after(a, principal, balance_a, date);
        let after_b = step_after(b, principal, balance_b, date);
        assert(extras_on(b, date) >= extras_on(a, date));
        assert(after_b <= after_a);
        if after_b > 0 {
            let next = advance_due_spec(date, a.payment_frequency);
            lemma_sim_monotone(a, b, principal, after_a, after_b, next, (fuel - 1) as nat);
            let sa = sim_steps(a, principal, balance_a, date, fuel);
            let sb = sim_steps(b, principal, balance_b, date, fuel);
            let ra = sim_steps(a, principal, after_a, next, (fuel - 1) as nat);
            let rb = sim_steps(b, principal, after_b, next, (fuel - 1) as nat);
            assert(sa.len() == 1 + ra.len());
            assert(sb.len() == 1 + rb.len());
            if ra.len() > 0 {
                assert(sa.last() == ra.last());
            }
            if rb.len() > 0 {
                assert(sb.last() == rb.last());
            }
        }
    }
}

/// Extra payments never delay payoff: a loan that pays at least as much extra on every day
/// as another with the same terms is paid off whenever the other is, and no later.
pub proof fn lemma_extra_payments_never_delay_payoff(a: LoanCalcInput, b: LoanCalcInput, as_of: Date)
    requires
        same_terms(a, b),
        forall|d: Date| #[trigger] extras_on(b, d) >= extras_on(a, d),
        as_of.wf(),
        a.first_payment_date.wf(),
        as_of.year < MAX_YEAR,
    ensures
        payoff_date_spec(a, as_of) matches Some(da) ==> (payoff_date_spec(b, as_of) matches Some(db)
            && date_le(db, da)),
{
    if a.remaining_balance_minor > 0 {
        let balance = a.remaining_balance_minor as int;
        let p = principal_spec(a, balance);
        assert(principal_spec(b, balance) == p);
        let start = projection_start(a, as_of);
        assert(projection_start(b, as_of) == start);
        lemma_advance_past_bound(
            a.first_payment_date,
            a.payment_frequency,
            as_of,
            step_budget(a.first_payment_date, as_of),
        );
        lemma_sim_monotone(a, b, p, balance, balance, start, MAX_PERIODS as nat);
        lemma_sim_dates(a, p, balance, start, MAX_PERIODS as nat);
        lemma_sim_dates(b, p, balance, start, MAX_PERIODS as nat);
        let sa = projected_steps(a, as_of);
        let sb = projected_steps(b, as_of);
        if sa.len() > 0 && sa.last().after <= 0 {
            assert(sa.last() == sa[sa.len() - 1]);
            assert(sb.last() == sb[sb.len() - 1]);
            lemma_chain_nondecreasing(
                start,
                a.payment_frequency,
                (sb.len() - 1) as nat,
                (sa.len() - 1) as nat,
            );
        }
    }
}

/// A simulation that ends with a balance still left ran out of periods: it holds `fuel`
/// of them, each leaving a balance.
proof fn lemma_sim_unfinished(loan: LoanCalcInput, principal: int, balance: int, date: Date, fuel: nat)
    requires
        sim_steps(loan, principal, balance, date, fuel).len() > 0,
        sim_steps(loan, principal, balance, date, fuel).last().after > 0,
    ensures
        sim_steps(loan, principal, balance, date, fuel).len() == fuel,
        forall|k: int|
            0 <= k < sim_steps(loan, principal, balance, date, fuel).len() ==> (#[trigger] sim_steps(
                loan,
                principal,
                balance,
                date,
                fuel,
            )[k]).after > 0,
    decreases fuel,
{
    let s = sim_steps(loan, principal, balance, date, fuel);
    let after = step_after(loan, principal, balance, date);
    if after > 0 {
        let next = advance_due_spec(date, loan.payment_frequency);
        let rest = sim_steps(loan, principal, after, next, (fuel - 1) as nat);
        assert(s == seq![SimStep { date, before: balance, after }] + rest);
        if rest.len() > 0 {
            assert(rest.last() == s.last());
            lemma_sim_unfinished(loan, principal, after, next, (fuel - 1) as nat);
            assert forall|k: int| 0 <= k < s.len() implies (#[trigger] s[k]).after > 0 by {
                if k > 0 {
                    assert(s[k] == rest[k - 1]);
                }
            }
        } else {
            assert(fuel - 1 == 0);
        }
    } else {
        assert(s.last().after == after);
    }
}

/// A loan with a balance left is paid off, if at all, on a later date of its installment
/// schedule (the schedule that starts at its first payment date), after `as_of`; when no
/// payoff date is found, all `MAX_PERIODS` projected periods leave a balance.
pub proof fn lemma_payoff_after_as_of(loan: LoanCalcInput, as_of: Date)
    requires
        loan.remaining_balance_minor > 0,
        as_of.wf(),
        loan.first_payment_date.wf(),
        as_of.year < MAX_YEAR,
    ensures
        payoff_date_spec(loan, as_of) matches Some(d) ==> date_lt(as_of, d),
        payoff_date_spec(loan, as_of) matches Some(d) ==> exists|n: nat|
            d == #[trigger] due_chain(loan.first_payment_date, loan.payment_frequency, n),
        payoff_date_spec(loan, as_of) is None ==> {
            &&& projected_steps(loan, as_of).len() == MAX_PERIODS
            &&& forall|k: int|
                0 <= k < projected_steps(loan, as_of).len() ==> (#[trigger] projected_steps(loan, as_of)[k]).after > 0
        },
{
    let balance = loan.remaining_balance_minor as int;
    let p = principal_spec(loan, balance);
    let start = projection_start(loan, as_of);
    let n0 = lemma_first_due_after_is_first(loan.first_payment_date, loan.payment_frequency, as_of);
    lemma_advance_past_bound(
        loan.first_payment_date,
        loan.payment_frequency,
        as_of,
        step_budget(loan.first_payment_date, as_of),
    );
    lemma_sim_dates(loan, p, balance, start, MAX_PERIODS as nat);
    lemma_sim_shape(loan, p, balance, start, MAX_PERIODS as nat);
    let s = projected_steps(loan, as_of);
    if s.len() > 0 && s.last().after <= 0 {
        assert(s.last() == s[s.len() - 1]);
        lemma_chain_nondecreasing(start, loan.payment_frequency, 0, (s.len() - 1) as nat);
        let k = (s.len() - 1) as nat;
        crate::due_payments::lemma_chain_compose(loan.first_payment_date, loan.payment_frequency, n0, k);
        assert(s.last().date == due_chain(loan.first_payment_date, loan.payment_frequency, n0 + k));
    } else {
        lemma_sim_unfinished(loan, p, balance, start, MAX_PERIODS as nat);
    }
}

/// Scheduling one more non-negative extra payment never delays payoff, and leaves the
/// periodic installment unchanged.
pub proof fn lemma_added_extra_never_delays_payoff(
    a: LoanCalcInput,
    b: LoanCalcInput,
    extra: ScheduledExtra,
    as_of: Date,
)
    requires
        same_terms(a, b),
        b.recurring_extras@ == a.recurring_extras@,
        b.scheduled_extras@ == a.scheduled_extras@.push(extra),
        extra.amount_minor >= 0,
        as_of.wf(),
        a.first_payment_date.wf(),
        as_of.year < MAX_YEAR,
    ensures
        payoff_date_spec(a, as_of) matches Some(da) ==> (payoff_date_spec(b, as_of) matches Some(db)
            && date_le(db, da)),
        total_spec(b, b.remaining_balance_minor as int) == total_spec(a, a.remaining_balance_minor as int),
{
    assert(a.apr_or_zero() == b.apr_or_zero());
    assert(principal_spec(a, a.remaining_balance_minor as int) == principal_spec(b, b.remaining_balance_minor as int));
    assert forall|d: Date| #[trigger] extras_on(b, d) >= extras_on(a, d) by {
        assert(b.scheduled_extras@.drop_last() =~= a.scheduled_extras@);
    }
    lemma_extra_payments_never_delay_payoff(a, b, as_of);
}

/// The shape of a simulation: at most `fuel` periods, at least one when there is fuel, the
/// first starting from the given balance, each ending where its step puts it, and each
/// later one starting where the one before ended (with a balance still left).
proof fn lemma_sim_shape(loan: LoanCalcInput, principal: int, balance: int, date: Date, fuel: nat)
    ensures
        ({
            let s = sim_steps(loan, principal, balance, date, fuel);
            &&& s.len() <= fuel
            &&& fuel > 0 ==> s.len() > 0 && s[0].before == balance
            &&& forall|k: int|
                0 <= k < s.len() ==> (#[trigger] s[k]).after == step_after(
                    loan,
                    principal,
                    s[k].before,
                    s[k].date,
                )
            &&& forall|k: int| 1 <= k < s.len() ==> (#[trigger] s[k]).before == s[k - 1].after && s[k - 1].after > 0
        }),
    decreases fuel,
{
    let s = sim_steps(loan, principal, balance, date, fuel);
    if fuel > 0 {
        let after = step_after(loan, principal, balance, date);
        if after > 0 {
            let next = advance_due_spec(date, loan.payment_frequency);
            let rest = sim_steps(loan, principal, after, next, (fuel - 1) as nat);
            lemma_sim_shape(loan, principal, after, next, (fuel - 1) as nat);
            assert forall|k: int| 1 <= k < s.len() implies (#[trigger] s[k]).before == s[k - 1].after && s[k
                - 1].after > 0 by {
                assert(s[k] == rest[k - 1]);
                if k > 1 {
                    assert(s[k - 1] == rest[k - 2]);
                }
            }
            assert forall|k: int| 0 <= k < s.len() implies (#[trigger] s[k]).after == step_after(
                loan,
                principal,
                s[k].before,
                s[k].date,
            ) by {
                if k > 0 {
                    assert(s[k] == rest[k - 1]);
                }
            }
        }
    }
}

/// Adjacent values that never increase never increase between any two positions.
proof fn lemma_pairwise_nonincreasing(f: spec_fn(int) -> int, n: int, i: int, j: int)
    requires
        forall|k: int| 1 <= k < n ==> #[trigger] f(k) <= f(k - 1),
        0 <= i <= j < n,
    ensures
        f(j) <= f(i),
    decreases j - i,
{
    if i < j {
        lemma_pairwise_nonincreasing(f, n, i, j - 1);
        assert(f(j) <= f(j - 1));
    }
}

/// With a non-negative installment principal and no negative extra payment on any day,
/// the projected balance never increases from one point of the schedule to a later one,
/// and the last point is zero when the projection pays the loan off.
pub proof fn lemma_balance_schedule_never_increases(loan: LoanCalcInput, as_of: Date)
    requires
        principal_spec(loan, loan.remaining_balance_minor as int) >= 0,
        forall|d: Date| #[trigger] extras_on(loan, d) >= 0,
    ensures
        ({
            let pts = balance_points_spec(loan, as_of);
            &&& forall|i: int, j: int|
                0 <= i <= j < pts.len() ==> (#[trigger] pts[j]).1 <= (#[trigger] pts[i]).1
            &&& (loan.remaining_balance_minor > 0 && payoff_date_spec(loan, as_of) is Some) ==> pts.last().1 == 0
        }),
{
    let pts = balance_points_spec(loan, as_of);
    if loan.remaining_balance_minor > 0 {
        let balance = loan.remaining_balance_minor as int;
        let p = principal_spec(loan, balance);
        let start = projection_start(loan, as_of);
        let s = projected_steps(loan, as_of);
        lemma_sim_shape(loan, p, balance, start, MAX_PERIODS as nat);
        assert forall|k: int| 0 <= k < s.len() implies (#[trigger] s[k]).after <= s[k].before && s[k].before > 0 by {
            assert(extras_on(loan, s[k].date) >= 0);
            if k > 0 {
                assert(s[k].before == s[k - 1].after);
            }
        }
        assert forall|k: int| 1 <= k < pts.len() implies #[trigger] pts[k].1 <= pts[k - 1].1 by {
            assert(pts[k] == (s[k - 1].date, step_balance_minor(s[k - 1]) as i64));
            if k > 1 {
                assert(pts[k - 1] == (s[k - 2].date, step_balance_minor(s[k - 2]) as i64));
                assert(s[k - 1].before == s[k - 2].after);
                assert(s[k - 1].after <= s[k - 1].before);
            } else {
                assert(s[0].after <= s[0].before);
            }
        }
        let f = |k: int| pts[k].1 as int;
        assert forall|i: int, j: int| 0 <= i <= j < pts.len() implies (#[trigger] pts[j]).1 <= (
        #[trigger] pts[i]).1 by {
            assert forall|k: int| 1 <= k < pts.len() implies #[trigger] f(k) <= f(k - 1) by {
                assert(pts[k].1 <= pts[k - 1].1);
            }
            lemma_pairwise_nonincreasing(f, pts.len() as int, i, j);
        }
        if payoff_date_spec(loan, as_of) is Some {
            assert(pts.last() == pts[s.len() as int]);
            assert(s.last() == s[s.len() - 1]);
        }
    }
}

/// With a non-negative interest rate, the interest still to come never increases from one
/// point of the schedule to a later one, and none is left at the last point.
pub proof fn lemma_remaining_interest_never_increases(loan: LoanCalcInput, as_of: Date)
    requires
        loan.apr_or_zero() >= 0,
        interest_schedule_fits(loan, as_of),
    ensures
        ({
            let pts = balance_interest_points_spec(loan, as_of);
            &&& forall|i: int, j: int|
                0 <= i <= j < pts.len() ==> (#[trigger] pts[j]).2 <= (#[trigger] pts[i]).2
            &&& pts.last().2 == 0
            &&& loan.apr_or_zero() == 0 ==> pts[0].2 == 0
        }),
{
    let pts = balance_interest_points_spec(loan, as_of);
    if loan.remaining_balance_minor > 0 {
        let balance = loan.remaining_balance_minor as int;
        let p = principal_spec(loan, balance);
        let start = projection_start(loan, as_of);
        let s = projected_steps(loan, as_of);
        lemma_sim_shape(loan, p, balance, start, MAX_PERIODS as nat);
        assert forall|k: int| 0 <= k < s.len() implies #[trigger] step_interest(loan, s[k]) >= 0 by {
            if k > 0 {
                assert(s[k].before == s[k - 1].after);
            }
            let b = saturate_i64(s[k].before);
            let apr = loan.apr_or_zero();
            assert(b > 0);
            assert(b * apr >= 0) by (nonlinear_arith)
                requires
                    b > 0,
                    apr >= 0,
            ;
        }
        assert forall|k: int| 0 <= k <= s.len() implies #[trigger] pts[k].2 == interest_suffix(loan, s, k) by {
            assert(fits_i64(interest_suffix(loan, s, k)));
        }
        assert forall|k: int| 1 <= k < pts.len() implies #[trigger] pts[k].2 <= pts[k - 1].2 by {
            assert(pts[k].2 == interest_suffix(loan, s, k));
            assert(pts[k - 1].2 == interest_suffix(loan, s, k - 1));
            assert(step_interest(loan, s[k - 1]) >= 0);
        }
        let f = |k: int| pts[k].2 as int;
        assert forall|i: int, j: int| 0 <= i <= j < pts.len() implies (#[trigger] pts[j]).2 <= (
        #[trigger] pts[i]).2 by {
            assert forall|k: int| 1 <= k < pts.len() implies #[trigger] f(k) <= f(k - 1) by {
                assert(pts[k].2 <= pts[k - 1].2);
            }
            lemma_pairwise_nonincreasing(f, pts.len() as int, i, j);
        }
        assert(pts.last() == pts[s.len() as int]);
        assert(pts[s.len() as int].2 == interest_suffix(loan, s, s.len() as int));
        if loan.apr_or_zero() == 0 {
            assert forall|k: int| 0 <= k < s.len() implies #[trigger] step_interest(loan, s[k]) == 0 by {
                let b = saturate_i64(s[k].before);
                assert(b * 0 == 0);
            }
            lemma_interest_suffix_zero(loan, s, 0);
        }
    }
}

proof fn lemma_interest_suffix_zero(loan: LoanCalcInput, steps: Seq<SimStep>, i: int)
    requires
        0 <= i,
        forall|k: int| 0 <= k < steps.len() ==> #[trigger] step_interest(loan, steps[k]) == 0,
    ensures
        interest_suffix(loan, steps, i) == 0,
    decreases steps.len() - i,
{
    if i < steps.len() {
        lemma_interest_suffix_zero(loan, steps, i + 1);
    }
}

/// The projected periods of a loan fall on real dates after `as_of`.
pub proof fn lemma_projected_dates_wf(loan: LoanCalcInput, as_of: Date)
    requires
        as_of.wf(),
        loan.first_payment_date.wf(),
        as_of.year < MAX_YEAR,
    ensures
        forall|i: int|
            0 <= i < projected_steps(loan, as_of).len() ==> (#[trigger] projected_steps(loan, as_of)[i]).date.wf()
                && date_lt(as_of, projected_steps(loan, as_of)[i].date),
{
    lemma_first_due_after_is_first(loan.first_payment_date, loan.payment_frequency, as_of);
    let balance = loan.remaining_balance_minor as int;
    let p = principal_spec(loan, balance);
    let start = projection_start(loan, as_of);
    lemma_advance_past_bound(
        loan.first_payment_date,
        loan.payment_frequency,
        as_of,
        step_budget(loan.first_payment_date, as_of),
    );
    lemma_sim_dates(loan, p, balance, start, MAX_PERIODS as nat);
    let s = projected_steps(loan, as_of);
    assert(date_lt(as_of, start));
    assert forall|i: int| 0 <= i < s.len() implies (#[trigger] s[i]).date.wf() && date_lt(as_of, s[i].date) by {
        lemma_chain_nondecreasing(start, loan.payment_frequency, 0, i as nat);
    }
}

/// Principal of the first `n` rows of a table.
pub open spec fn principal_sum(rows: Seq<DatedRow>, n: int) -> int
    decreases n,
{
    if n <= 0 {
        0
    } else {
        principal_sum(rows, n - 1) + rows[n - 1].principal_minor
    }
}

/// Each row of the amortization table takes off as principal exactly the drop in balance it
/// brings (extra payments included), so the principal of the first rows adds up to the
/// loan's remaining balance less the balance after the last of them.
pub proof fn lemma_amortization_principal_telescopes(loan: LoanCalcInput, as_of: Date)
    requires
        loan.remaining_balance_minor > 0,
    ensures
        ({
            let rows = dated_rows_spec(loan, as_of);
            &&& rows.len() > 0
            &&& rows[0].principal_minor == loan.remaining_balance_minor - rows[0].balance_minor
            &&& forall|k: int|
                1 <= k < rows.len() ==> (#[trigger] rows[k]).principal_minor == rows[k - 1].balance_minor
                    - rows[k].balance_minor
            &&& forall|n: int|
                1 <= n <= rows.len() ==> #[trigger] principal_sum(rows, n) == loan.remaining_balance_minor
                    - rows[n - 1].balance_minor
        }),
{
    let rows = dated_rows_spec(loan, as_of);
    let balance = loan.remaining_balance_minor as int;
    let p = principal_spec(loan, balance);
    let start = projection_start(loan, as_of);
    let s = projected_steps(loan, as_of);
    lemma_sim_shape(loan, p, balance, start, MAX_PERIODS as nat);
    assert forall|k: int| 0 <= k < s.len() implies (#[trigger] s[k]).before > 0 by {
        if k > 0 {
            assert(s[k].before == s[k - 1].after);
        }
    }
    assert(rows[0] == dated_row_spec(loan, s[0]));
    assert forall|k: int| 1 <= k < rows.len() implies (#[trigger] rows[k]).principal_minor
        == rows[k - 1].balance_minor - rows[k].balance_minor by {
        assert(rows[k] == dated_row_spec(loan, s[k]));
        assert(rows[k - 1] == dated_row_spec(loan, s[k - 1]));
        assert(s[k].before == s[k - 1].after);
    }
    assert forall|n: int| 1 <= n <= rows.len() implies #[trigger] principal_sum(rows, n)
        == loan.remaining_balance_minor - rows[n - 1].balance_minor by {
        lemma_principal_sum_prefix(loan, rows, n);
    }
}

proof fn lemma_principal_sum_prefix(loan: LoanCalcInput, rows: Seq<DatedRow>, n: int)
    requires
        1 <= n <= rows.len(),
        rows[0].principal_minor == loan.remaining_balance_minor - rows[0].balance_minor,
        forall|k: int|
            1 <= k < rows.len() ==> (#[trigger] rows[k]).principal_minor == rows[k - 1].balance_minor
                - rows[k].balance_minor,
    ensures
        principal_sum(rows, n) == loan.remaining_balance_minor - rows[n - 1].balance_minor,
    decreases n,
{
    if n > 1 {
        lemma_principal_sum_prefix(loan, rows, n - 1);
        assert(rows[n - 1].principal_minor == rows[n - 2].balance_minor - rows[n - 1].balance_minor);
    } else {
        assert(principal_sum(rows, 0) == 0);
    }
}

/// The balance a row of the amortization table starts from: the loan's remaining balance
/// for the first row, the balance the row before left for every later one.
pub open spec fn row_balance_before(loan: LoanCalcInput, rows: Seq<DatedRow>, k: int) -> int {
    if k == 0 {
        loan.remaining_balance_minor as int
    } else {
        rows[k - 1].balance_minor as int
    }
}

/// The amortization table has one row per projected period: none for a settled loan, at
/// most `MAX_PERIODS`. Each row charges the period's interest on the balance it starts
/// from and pays that interest plus the Tilgung (never more than that balance); no balance
/// is negative, every balance but the last is above zero, and the last is zero exactly when
/// the projection pays the loan off.
pub proof fn lemma_amortization_rows_shape(loan: LoanCalcInput, as_of: Date)
    ensures
        ({
            let rows = dated_rows_spec(loan, as_of);
            &&& (rows.len() == 0 <==> loan.remaining_balance_minor <= 0)
            &&& rows.len() <= MAX_PERIODS
            &&& forall|k: int|
                0 <= k < rows.len() ==> (#[trigger] rows[k]).interest_minor == interest_spec(
                    row_balance_before(loan, rows, k),
                    loan.apr_or_zero(),
                    loan.payment_frequency,
                )
            &&& amortization_fits(loan, as_of) ==> forall|k: int|
                0 <= k < rows.len() ==> (#[trigger] rows[k]).payment_minor == rows[k].interest_minor
                    + min_of(
                    principal_spec(loan, loan.remaining_balance_minor as int),
                    row_balance_before(loan, rows, k),
                )
            &&& forall|k: int| 0 <= k < rows.len() ==> (#[trigger] rows[k]).balance_minor >= 0
            &&& forall|k: int| 0 <= k < rows.len() - 1 ==> (#[trigger] rows[k]).balance_minor > 0
            &&& rows.len() > 0 ==> (rows.last().balance_minor == 0 <==> payoff_date_spec(loan, as_of) is Some)
        }),
{
    let rows = dated_rows_spec(loan, as_of);
    if loan.remaining_balance_minor > 0 {
        let balance = loan.remaining_balance_minor as int;
        let p = principal_spec(loan, balance);
        let start = projection_start(loan, as_of);
        let s = projected_steps(loan, as_of);
        lemma_sim_shape(loan, p, balance, start, MAX_PERIODS as nat);
        assert forall|k: int| 0 <= k < s.len() implies (#[trigger] s[k]).before > 0 && saturate_i64(
            s[k].before,
        ) == row_balance_before(loan, rows, k) by {
            if k > 0 {
                assert(s[k].before == s[k - 1].after);
                assert(rows[k - 1] == dated_row_spec(loan, s[k - 1]));
            }
        }
        assert forall|k: int| 0 <= k < rows.len() implies (#[trigger] rows[k]).interest_minor
            == interest_spec(row_balance_before(loan, rows, k), loan.apr_or_zero(), loan.payment_frequency) by {
            assert(rows[k] == dated_row_spec(loan, s[k]));
            assert(saturate_i64(s[k].before) == row_balance_before(loan, rows, k));
        }
        if amortization_fits(loan, as_of) {
            assert forall|k: int| 0 <= k < rows.len() implies (#[trigger] rows[k]).payment_minor
                == rows[k].interest_minor + min_of(
                principal_spec(loan, loan.remaining_balance_minor as int),
                row_balance_before(loan, rows, k),
            ) by {
                assert(rows[k] == dated_row_spec(loan, s[k]));
                assert(fits_i64(step_payment(loan, s[k])));
                assert(saturate_i64(s[k].before) == row_balance_before(loan, rows, k));
                if k > 0 {
                    assert(s[k].before == s[k - 1].after);
                    assert(rows[k - 1] == dated_row_spec(loan, s[k - 1]));
                    assert(s[k - 1].after <= i64::MAX || saturate_i64(s[k].before) == i64::MAX);
                }
            }
        }
        assert forall|k: int| 0 <= k < rows.len() implies (#[trigger] rows[k]).balance_minor >= 0 by {
            assert(rows[k] == dated_row_spec(loan, s[k]));
        }
        assert forall|k: int| 0 <= k < rows.len() - 1 implies (#[trigger] rows[k]).balance_minor > 0 by {
            assert(rows[k] == dated_row_spec(loan, s[k]));
            assert(s[k + 1].before == s[k].after);
        }
        assert(rows.last() == dated_row_spec(loan, s[s.len() - 1]));
        assert(s.last() == s[s.len() - 1]);
    }
}

/// The balance-and-interest schedule starts at `as_of` with the loan's remaining balance
/// (a settled loan has the single point `(as_of, 0, 0)`); from each point to the next the
/// interest still to come falls by exactly the period's interest on the point's balance,
/// none is left at the last point, and the dates move forward from `as_of` along the
/// installment schedule: never backwards, and strictly forward on a monthly schedule or on
/// a yearly one that starts more than 600 years before the last representable year.
pub proof fn lemma_interest_schedule_steps(loan: LoanCalcInput, as_of: Date)
    requires
        loan.remaining_balance_minor > 0 ==> projectable(loan, as_of),
        interest_schedule_fits(loan, as_of),
    ensures
        ({
            let pts = balance_interest_points_spec(loan, as_of);
            &&& loan.remaining_balance_minor <= 0 ==> pts == seq![(as_of, 0i64, 0i64)]
            &&& pts.len() >= 1
            &&& pts[0].0 == as_of
            &&& loan.remaining_balance_minor > 0 ==> pts[0].1 == loan.remaining_balance_minor
            &&& pts.last().2 == 0
            &&& forall|i: int|
                0 <= i < pts.len() - 1 ==> (#[trigger] pts[i]).2 - pts[i + 1].2 == interest_spec(
                    pts[i].1 as int,
                    loan.apr_or_zero(),
                    loan.payment_frequency,
                )
            &&& pts.len() > 1 ==> date_lt(as_of, pts[1].0)
            &&& forall|i: int| 1 <= i < pts.len() - 1 ==> date_le((#[trigger] pts[i]).0, pts[i + 1].0)
            &&& (loan.payment_frequency == PaymentFrequency::Monthly || (as_of.year + 602 <= MAX_YEAR
                && loan.first_payment_date.year + 602 <= MAX_YEAR)) ==> forall|i: int|
                0 <= i < pts.len() - 1 ==> date_lt((#[trigger] pts[i]).0, pts[i + 1].0)
        }),
{
    let pts = balance_interest_points_spec(loan, as_of);
    if loan.remaining_balance_minor > 0 {
        let balance = loan.remaining_balance_minor as int;
        let p = principal_spec(loan, balance);
        let start = projection_start(loan, as_of);
        let s = projected_steps(loan, as_of);
        lemma_sim_shape(loan, p, balance, start, MAX_PERIODS as nat);
        lemma_projected_dates_wf(loan, as_of);
        lemma_sim_dates(loan, p, balance, start, MAX_PERIODS as nat);
        lemma_advance_past_bound(
            loan.first_payment_date,
            loan.payment_frequency,
            as_of,
            step_budget(loan.first_payment_date, as_of),
        );
        assert forall|k: int| 0 <= k <= s.len() implies #[trigger] pts[k].2 == interest_suffix(loan, s, k) by {
            assert(fits_i64(interest_suffix(loan, s, k)));
        }
        assert forall|i: int| 0 <= i < pts.len() - 1 implies (#[trigger] pts[i]).2 - pts[i + 1].2
            == interest_spec(pts[i].1 as int, loan.apr_or_zero(), loan.payment_frequency) by {
            assert(pts[i].2 == interest_suffix(loan, s, i));
            assert(pts[i + 1].2 == interest_suffix(loan, s, i + 1));
            if i > 0 {
                assert(s[i].before == s[i - 1].after);
                assert(s[i - 1].after > 0);
            } else {
                assert(s[0].before == balance);
            }
        }
        assert forall|i: int| 1 <= i < pts.len() - 1 implies date_le((#[trigger] pts[i]).0, pts[i + 1].0) by {
            lemma_chain_nondecreasing(start, loan.payment_frequency, (i - 1) as nat, i as nat);
        }
        if loan.payment_frequency == PaymentFrequency::Monthly || (as_of.year + 602 <= MAX_YEAR
            && loan.first_payment_date.year + 602 <= MAX_YEAR) {
            assert forall|i: int| 0 <= i < pts.len() - 1 implies date_lt((#[trigger] pts[i]).0, pts[i + 1].0) by {
                if i > 0 {
                    assert(s.len() <= MAX_PERIODS);
                    crate::due_payments::lemma_chain_strict(start, loan.payment_frequency, (i - 1) as nat);
                }
            }
        }
        assert(pts.last() == pts[s.len() as int]);
        assert(pts[s.len() as int].2 == interest_suffix(loan, s, s.len() as int));
    }
}

/// Whether the projection can run for `loan` from `as_of`.
pub fn projectable_check(loan: &LoanCalcInput, as_of: Date) -> (r: bool)
    ensures
        r == projectable(*loan, as_of),
{
    is_valid_date(as_of) && is_valid_date(loan.first_payment_date) && as_of.year as i64 + 52
        <= MAX_YEAR as i64 && loan.first_payment_date.year as i64 + 52 <= MAX_YEAR as i64
        && extras_fit_check(loan)
}

/// Whether every payment of the projected amortization table fits in `i64`.
pub fn amortization_fits_check(loan: &LoanCalcInput, as_of: Date) -> (r: bool)
    requires
        loan.remaining_balance_minor > 0 ==> projectable(*loan, as_of),
    ensures
        r == amortization_fits(*loan, as_of),
{
    if loan.remaining_balance_minor <= 0 {
        return true;
    }
    let apr: i32 = match loan.apr_basis_points {
        Some(a) => a,
        None => 0,
    };
    let principal = periodic_principal_minor(loan) as i128;
    let steps = simulate(loan, as_of);
    let ghost model = steps_model(steps@);
    let mut i: usize = 0;
    while i < steps.len()
        invariant
            0 <= i <= steps@.len(),
            model == steps_model(steps@),
            model == projected_steps(*loan, as_of),
            loan.remaining_balance_minor > 0,
            apr as int == loan.apr_or_zero(),
            principal == principal_spec(*loan, loan.remaining_balance_minor as int),
            forall|j: int|
                0 <= j < steps@.len() ==> #[trigger] steps@[j].before > 0 && -balance_bound(
                    MAX_PERIODS as int,
                ) <= steps@[j].before <= balance_bound(MAX_PERIODS as int),
            forall|j: int| 0 <= j < i ==> fits_i64(#[trigger] step_payment(*loan, projected_steps(*loan, as_of)[j])),
        decreases steps.len() - i,
    {
        let st = &steps[i];
        proof {
            assert(model[i as int] == st.model());
        }
        let interest = periodic_interest_minor(saturate_to_i64(st.before), apr, loan.payment_frequency) as i128;
        let scheduled = if principal < st.before {
            principal
        } else {
            st.before
        };
        let pay = interest + scheduled;
        if pay < i64::MIN as i128 || pay > i64::MAX as i128 {
            proof {
                assert(!fits_i64(step_payment(*loan, projected_steps(*loan, as_of)[i as int])));
            }
            return false;
        }
        i = i + 1;
    }
    true
}

/// Whether every running total of future interest in the projection fits in `i64`.
pub fn interest_schedule_fits_check(loan: &LoanCalcInput, as_of: Date) -> (r: bool)
    requires
        loan.remaining_balance_minor > 0 ==> projectable(*loan, as_of),
    ensures
        r == interest_schedule_fits(*loan, as_of),
{
    if loan.remaining_balance_minor <= 0 {
        return true;
    }
    let apr: i32 = match loan.apr_basis_points {
        Some(a) => a,
        None => 0,
    };
    let steps = simulate(loan, as_of);
    let ghost model = steps_model(steps@);
    let mut i: usize = steps.len();
    let mut acc: i128 = 0;
    proof {
        assert(model.len() == steps@.len());
        assert(interest_suffix(*loan, model, model.len() as int) == 0);
    }
    while i > 0
        invariant
            0 <= i <= steps@.len(),
            model == steps_model(steps@),
            model == projected_steps(*loan, as_of),
            model.len() == steps@.len(),
            loan.remaining_balance_minor > 0,
            apr as int == loan.apr_or_zero(),
            acc == interest_suffix(*loan, model, i as int),
            fits_i64(acc as int),
            forall|k: int|
                i <= k <= model.len() ==> fits_i64(#[trigger] interest_suffix(*loan, model, k)),
        decreases i,
    {
        i = i - 1;
        let st = &steps[i];
        proof {
            assert(model[i as int] == st.model());
        }
        let interest = periodic_interest_minor(saturate_to_i64(st.before), apr, loan.payment_frequency) as i128;
        acc = interest + acc;
        if acc < i64::MIN as i128 || acc > i64::MAX as i128 {
            proof {
                assert(!fits_i64(interest_suffix(*loan, model, i as int)));
            }
            return false;
        }
    }
    true
}

/// The monthly equivalent of an installment is the installment itself for a monthly loan
/// and a twelfth of it, rounded to the nearest minor unit, for a yearly loan.
pub proof fn lemma_monthly_equivalent_is_a_twelfth(periodic: int, f: PaymentFrequency)
    ensures
        f == PaymentFrequency::Monthly ==> monthly_equivalent_spec(periodic, f) == periodic,
        f == PaymentFrequency::Yearly ==> -12 <= 2 * (monthly_equivalent_spec(periodic, f) * 12 - periodic) <= 12,
{
    crate::money::lemma_round_div_close(periodic, 12);
}

} // verus!
