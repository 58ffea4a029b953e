//! Installment due dates: the anchor of a schedule, the step from one due date to the
//! next, and the dates due up to a cutoff. All scheduling is date-only.

use vstd::prelude::*;
use crate::calendar::{
    add_months_spec, checked_add_months, date_le, date_leq, date_lt, days_in_month, from_ymd_opt, lemma_ord_key_lexicographic,
    min_int, pred_opt, valid_ymd, Date, MAX_YEAR, MIN_YEAR,
};
use crate::types::PaymentFrequency;

verus! {

pub open spec fn months_per_period(f: PaymentFrequency) -> nat {
    match f {
        PaymentFrequency::Monthly => 1,
        PaymentFrequency::Yearly => 12,
    }
}

/// Dates from which one installment step does not fail: a monthly step from December of
/// the last representable year has no following month.
pub open spec fn can_advance(date: Date, freq: PaymentFrequency) -> bool {
    &&& date.wf()
    &&& !(freq == PaymentFrequency::Monthly && date.year == MAX_YEAR && date.month == 12)
}

pub open spec fn end_of_month_spec(year: i32, month: u32) -> Date {
    Date { year, month, day: days_in_month(year as int, month as int) as u32 }
}

/// One installment step: one or twelve months later, clamped to the month's last day.
/// A yearly step that would leave the representable range stays put.
pub open spec fn advance_due_spec(date: Date, freq: PaymentFrequency) -> Date {
    match freq {
        PaymentFrequency::Monthly => match add_months_spec(date, 1) {
            Some(d) => d,
            None => end_of_month_spec(date.year, date.month),
        },
        PaymentFrequency::Yearly => match add_months_spec(date, 12) {
            Some(d) => d,
            None => date,
        },
    }
}

/// The `n`-th due date of the schedule that starts at `start`.
pub open spec fn due_chain(start: Date, freq: PaymentFrequency, n: nat) -> Date
    decreases n,
{
    if n == 0 {
        start
    } else {
        advance_due_spec(due_chain(start, freq, (n - 1) as nat), freq)
    }
}

/// Steps that certainly suffice to move from `from` past `to`.
pub open spec fn step_budget(from: Date, to: Date) -> nat {
    if to.month_index() >= from.month_index() {
        (to.month_index() - from.month_index() + 1) as nat
    } else {
        0
    }
}

/// Step from `due` until the date lies after `as_of` (at most `fuel` steps).
pub open spec fn advance_past(due: Date, freq: PaymentFrequency, as_of: Date, fuel: nat) -> Date
    decreases fuel,
{
    if fuel == 0 || !date_le(due, as_of) {
        due
    } else {
        advance_past(advance_due_spec(due, freq), freq, as_of, (fuel - 1) as nat)
    }
}

pub open spec fn first_due_after_spec(anchor: Date, freq: PaymentFrequency, as_of: Date) -> Date {
    advance_past(anchor, freq, as_of, step_budget(anchor, as_of))
}

/// Due dates from `due` on that are not after `through` (at most `fuel` of them).
pub open spec fn dues_through(due: Date, freq: PaymentFrequency, through: Date, fuel: nat) -> Seq<Date>
    decreases fuel,
{
    if fuel == 0 || !date_le(due, through) {
        Seq::empty()
    } else {
        seq![due] + dues_through(advance_due_spec(due, freq), freq, through, (fuel - 1) as nat)
    }
}

pub open spec fn resume_date(first_due: Date, freq: PaymentFrequency, last_regular: Option<Date>) -> Date {
    match last_regular {
        Some(last) => advance_due_spec(last, freq),
        None => first_due,
    }
}

pub open spec fn due_dates_spec(
    first_due: Date,
    freq: PaymentFrequency,
    last_regular: Option<Date>,
    through: Date,
) -> Seq<Date> {
    let start = resume_date(first_due, freq, last_regular);
    dues_through(start, freq, through, step_budget(start, through))
}

/// A step from a date where it cannot fail moves forward by exactly one period, keeps the
/// day unless the target month is shorter, and lands on a real date.
pub proof fn lemma_advance(date: Date, freq: PaymentFrequency)
    requires
        can_advance(date, freq),
        freq == PaymentFrequency::Yearly ==> date.year < MAX_YEAR,
    ensures
        ({
            let next = advance_due_spec(date, freq);
            &&& next.wf()
            &&& next.month_index() == date.month_index() + months_per_period(freq)
            &&& next.day as int == min_int(
                date.day as int,
                days_in_month(next.year as int, next.month as int),
            )
            &&& date_lt(date, next)
        }),
{
    let n = months_per_period(freq);
    let total = date.month_index() + n;
    assert(total / 12 <= MAX_YEAR && total / 12 >= MIN_YEAR);
    assert((total / 12) * 12 + total % 12 == total);
    let next = advance_due_spec(date, freq);
    lemma_ord_key_lexicographic(date, next);
}

/// A date on or before `bound` lies in a year no later than the bound's.
pub proof fn lemma_le_year(a: Date, b: Date)
    requires
        a.wf(),
        b.wf(),
        date_le(a, b),
    ensures
        a.year <= b.year,
        a.month_index() <= b.month_index(),
{
    lemma_ord_key_lexicographic(a, b);
}

/// Any step from a date where it cannot fail lands on a real date.
pub proof fn lemma_advance_wf(date: Date, freq: PaymentFrequency)
    requires
        can_advance(date, freq),
    ensures
        advance_due_spec(date, freq).wf(),
{
    let total = date.month_index() + months_per_period(freq);
    assert(total / 12 >= MIN_YEAR);
    assert((total / 12) * 12 + total % 12 == total);
}

/// Stepping past `as_of` ends on a real date no later than one period after `as_of`,
/// unless the start itself already lay beyond that.
pub proof fn lemma_advance_past_bound(due: Date, freq: PaymentFrequency, as_of: Date, fuel: nat)
    requires
        due.wf(),
        as_of.wf(),
        as_of.year < MAX_YEAR,
    ensures
        advance_past(due, freq, as_of, fuel).wf(),
        advance_past(due, freq, as_of, fuel).month_index() <= if due.month_index()
            > as_of.month_index() + months_per_period(freq) {
            due.month_index()
        } else {
            as_of.month_index() + months_per_period(freq)
        },
        advance_past(due, freq, as_of, fuel).month_index() >= due.month_index(),
    decreases fuel,
{
    if fuel == 0 || !date_le(due, as_of) {
    } else {
        lemma_le_year(due, as_of);
        lemma_advance(due, freq);
        lemma_advance_past_bound(advance_due_spec(due, freq), freq, as_of, (fuel - 1) as nat);
    }
}

/// Anchor for installment due dates: explicit first payment date, else loan start.
pub fn payment_due_anchor(first_payment: Option<Date>, loan_start: Date) -> (r: Date)
    ensures
        r == (match first_payment {
            Some(d) => d,
            None => loan_start,
        }),
{
    match first_payment {
        Some(d) => d,
        None => loan_start,
    }
}

/// Last day of the given month: the first day of the next month, minus one day.
fn end_of_month(year: i32, month: u32) -> (r: Date)
    requires
        valid_ymd(year as int, month as int, 1),
        !(year == MAX_YEAR && month == 12),
    ensures
        r == end_of_month_spec(year, month),
{
    let (y, m) = if month == 12 {
        (year + 1, 1u32)
    } else {
        (year, month + 1)
    };
    let first = from_ymd_opt(y, m, 1).unwrap();
    pred_opt(first).unwrap()
}

/// The next installment due date after `date`.
pub fn advance_due(date: Date, frequency: PaymentFrequency) -> (r: Date)
    requires
        can_advance(date, frequency),
    ensures
        r == advance_due_spec(date, frequency),
        r.wf(),
{
    let ghost total: int = date.month_index() + months_per_period(frequency) as int;
    assert(total / 12 >= MIN_YEAR);
    assert((total / 12) * 12 + total % 12 == total);
    match frequency {
        PaymentFrequency::Monthly => match checked_add_months(date, 1) {
            Some(d) => d,
            None => end_of_month(date.year, date.month),
        },
        PaymentFrequency::Yearly => match checked_add_months(date, 12) {
            Some(d) => d,
            None => date,
        },
    }
}

/// Calendar due dates for regular installments from the payment anchor through `through`.
/// Skips dates on or before `last_regular` (already recorded).
pub fn due_regular_payment_dates(
    first_due: Date,
    frequency: PaymentFrequency,
    last_regular: Option<Date>,
    through: Date,
) -> (dates: Vec<Date>)
    requires
        first_due.wf(),
        through.wf(),
        through.year < MAX_YEAR,
        last_regular matches Some(l) ==> can_advance(l, frequency),
    ensures
        dates@ == due_dates_spec(first_due, frequency, last_regular, through),
{
    let mut dates: Vec<Date> = Vec::new();
    let mut due = match last_regular {
        Some(last) => advance_due(last, frequency),
        None => first_due,
    };
    let ghost start = due;
    let ghost budget = step_budget(start, through);
    let ghost mut k: nat = 0;
    while date_leq(due, through)
        invariant
            due.wf(),
            through.wf(),
            through.year < MAX_YEAR,
            due.month_index() >= start.month_index() + k,
            budget == step_budget(start, through),
            dates@ + dues_through(due, frequency, through, (budget - k) as nat)
                == dues_through(start, frequency, through, budget),
        decreases through.month_index() + 12 - due.month_index(),
    {
        proof {
            lemma_le_year(due, through);
            lemma_advance(due, frequency);
            assert(budget - k > 0);
            assert(dues_through(due, frequency, through, (budget - k) as nat) == seq![due]
                + dues_through(
                advance_due_spec(due, frequency),
                frequency,
                through,
                (budget - k - 1) as nat,
            ));
            assert(dates@.push(due) =~= dates@ + seq![due]);
        }
        dates.push(due);
        due = advance_due(due, frequency);
        proof {
            k = k + 1;
            assert(dates@ + dues_through(due, frequency, through, (budget - k) as nat) =~= (dates@
                .drop_last() + seq![dates@.last()]) + dues_through(
                due,
                frequency,
                through,
                (budget - k) as nat,
            ));
        }
    }
    proof {
        assert(dues_through(due, frequency, through, (budget - k) as nat) == Seq::<Date>::empty());
        assert(dates@ + Seq::<Date>::empty() =~= dates@);
    }
    dates
}

/// First installment due date strictly after `as_of` on the schedule from `anchor`.
pub fn first_due_after(anchor: Date, frequency: PaymentFrequency, as_of: Date) -> (r: Date)
    requires
        anchor.wf(),
        as_of.wf(),
        as_of.year < MAX_YEAR,
    ensures
        r == first_due_after_spec(anchor, frequency, as_of),
        r.wf(),
{
    let mut due = anchor;
    let ghost budget = step_budget(anchor, as_of);
    let ghost mut k: nat = 0;
    while date_leq(due, as_of)
        invariant
            due.wf(),
            as_of.wf(),
            as_of.year < MAX_YEAR,
            due.month_index() >= anchor.month_index() + k,
            budget == step_budget(anchor, as_of),
            advance_past(due, frequency, as_of, (budget - k) as nat) == first_due_after_spec(
                anchor,
                frequency,
                as_of,
            ),
        decreases as_of.month_index() + 12 - due.month_index(),
    {
        proof {
            lemma_le_year(due, as_of);
            lemma_advance(due, frequency);
            assert(budget - k > 0);
        }
        due = advance_due(due, frequency);
        proof {
            k = k + 1;
        }
    }
    due
}

/// The schedule from `start` shifted by one step is the schedule from the step after `start`.
pub proof fn lemma_chain_shift(start: Date, freq: PaymentFrequency, n: nat)
    ensures
        due_chain(start, freq, n + 1) == due_chain(advance_due_spec(start, freq), freq, n),
    decreases n,
{
    let next = advance_due_spec(start, freq);
    assert(due_chain(start, freq, n + 1) == advance_due_spec(due_chain(start, freq, n), freq));
    if n > 0 {
        lemma_chain_shift(start, freq, (n - 1) as nat);
        assert(due_chain(next, freq, n) == advance_due_spec(due_chain(next, freq, (n - 1) as nat), freq));
    }
}

/// The dates collected from `due` up to `through` are the schedule from `due`, in
/// increasing order, all real dates within `[due, through]`; with enough steps the next
/// date of the schedule lies after `through`.
proof fn lemma_dues_through(due: Date, freq: PaymentFrequency, through: Date, fuel: nat)
    requires
        due.wf(),
        through.wf(),
        through.year < MAX_YEAR,
    ensures
        ({
            let s = dues_through(due, freq, through, fuel);
            &&& forall|i: int| 0 <= i < s.len() ==> #[trigger] s[i] == due_chain(due, freq, i as nat)
            &&& forall|i: int|
                0 <= i < s.len() ==> date_le(due, #[trigger] s[i]) && date_le(s[i], through) && s[i].wf()
            &&& forall|i: int, j: int| 0 <= i < j < s.len() ==> date_lt(#[trigger] s[i], #[trigger] s[j])
            &&& fuel >= step_budget(due, through) ==> !date_le(due_chain(due, freq, s.len()), through)
        }),
    decreases fuel,
{
    let s = dues_through(due, freq, through, fuel);
    if fuel == 0 || !date_le(due, through) {
        if date_le(due, through) {
            lemma_le_year(due, through);
        }
    } else {
        lemma_le_year(due, through);
        lemma_advance(due, freq);
        let next = advance_due_spec(due, freq);
        let rest = dues_through(next, freq, through, (fuel - 1) as nat);
        lemma_dues_through(next, freq, through, (fuel - 1) as nat);
        assert(s == seq![due] + rest);
        assert forall|i: int| 0 <= i < s.len() implies #[trigger] s[i] == due_chain(due, freq, i as nat) by {
            if i > 0 {
                lemma_chain_shift(due, freq, (i - 1) as nat);
                assert(s[i] == rest[i - 1]);
            }
        }
        assert forall|i: int| 0 <= i < s.len() implies date_le(due, #[trigger] s[i]) && date_le(s[i], through)
            && s[i].wf() by {
            if i > 0 {
                assert(s[i] == rest[i - 1]);
            }
        }
        assert forall|i: int, j: int| 0 <= i < j < s.len() implies date_lt(#[trigger] s[i], #[trigger] s[j]) by {
            assert(s[j] == rest[j - 1]);
            if i > 0 {
                assert(s[i] == rest[i - 1]);
            }
        }
        lemma_chain_shift(due, freq, rest.len());
    }
}

/// The dates due are exactly the schedule from where it resumes (the step after the last
/// recorded installment, else the first due date) up to and including `through`: each is
/// a real date no later than `through` and later than the one before, the next date of
/// the schedule lies after `through`, and none lies on or before the last recorded
/// installment.
pub proof fn lemma_due_dates_schedule(
    first_due: Date,
    freq: PaymentFrequency,
    last_regular: Option<Date>,
    through: Date,
)
    requires
        first_due.wf(),
        through.wf(),
        through.year < MAX_YEAR,
        last_regular matches Some(l) ==> can_advance(l, freq),
    ensures
        ({
            let ds = due_dates_spec(first_due, freq, last_regular, through);
            let start = resume_date(first_due, freq, last_regular);
            &&& forall|i: int| 0 <= i < ds.len() ==> #[trigger] ds[i] == due_chain(start, freq, i as nat)
            &&& forall|i: int| 0 <= i < ds.len() ==> (#[trigger] ds[i]).wf() && date_le(ds[i], through)
            &&& forall|i: int, j: int| 0 <= i < j < ds.len() ==> date_lt(#[trigger] ds[i], #[trigger] ds[j])
            &&& !date_le(due_chain(start, freq, ds.len()), through)
            &&& last_regular matches Some(l) ==> forall|i: int|
                0 <= i < ds.len() ==> date_lt(l, #[trigger] ds[i])
        }),
{
    let start = resume_date(first_due, freq, last_regular);
    if let Some(l) = last_regular {
        lemma_advance_wf(l, freq);
        if l.year < MAX_YEAR {
            lemma_advance(l, freq);
        } else {
            let total = l.month_index() + months_per_period(freq);
            assert(total / 12 >= MAX_YEAR);
            assert(start.year >= MAX_YEAR);
            lemma_ord_key_lexicographic(through, start);
        }
    }
    lemma_dues_through(start, freq, through, step_budget(start, through));
}

/// Stepping past `as_of` from `due` lands on the first date of the schedule from `due`
/// that lies after `as_of`; the returned count is its position on the schedule.
proof fn lemma_advance_past_first(due: Date, freq: PaymentFrequency, as_of: Date, fuel: nat) -> (n: nat)
    requires
        due.wf(),
        as_of.wf(),
        as_of.year < MAX_YEAR,
        fuel >= step_budget(due, as_of),
    ensures
        advance_past(due, freq, as_of, fuel) == due_chain(due, freq, n),
        forall|m: nat| m < n ==> date_le(#[trigger] due_chain(due, freq, m), as_of),
        date_lt(as_of, advance_past(due, freq, as_of, fuel)),
    decreases fuel,
{
    if fuel == 0 || !date_le(due, as_of) {
        if date_le(due, as_of) {
            lemma_le_year(due, as_of);
        }
        0
    } else {
        lemma_le_year(due, as_of);
        lemma_advance(due, freq);
        let next = advance_due_spec(due, freq);
        let k = lemma_advance_past_first(next, freq, as_of, (fuel - 1) as nat);
        lemma_chain_shift(due, freq, k);
        assert forall|m: nat| m < k + 1 implies date_le(#[trigger] due_chain(due, freq, m), as_of) by {
            if m > 0 {
                lemma_chain_shift(due, freq, (m - 1) as nat);
            }
        }
        k + 1
    }
}

/// The first due date after `as_of` lies on the schedule from `anchor`, after `as_of`, and
/// every earlier date of that schedule lies on or before `as_of`. The returned count is
/// its position on the schedule.
pub proof fn lemma_first_due_after_is_first(anchor: Date, freq: PaymentFrequency, as_of: Date) -> (n: nat)
    requires
        anchor.wf(),
        as_of.wf(),
        as_of.year < MAX_YEAR,
    ensures
        first_due_after_spec(anchor, freq, as_of) == due_chain(anchor, freq, n),
        date_lt(as_of, first_due_after_spec(anchor, freq, as_of)),
        forall|m: nat| m < n ==> date_le(#[trigger] due_chain(anchor, freq, m), as_of),
{
    lemma_advance_past_first(anchor, freq, as_of, step_budget(anchor, as_of))
}

/// A step along a schedule lands on a real date and never moves backwards (a step that
/// would leave the representable range stays in the same month).
pub proof fn lemma_advance_nondecreasing(date: Date, freq: PaymentFrequency)
    requires
        date.wf(),
    ensures
        advance_due_spec(date, freq).wf(),
        date_le(date, advance_due_spec(date, freq)),
{
    let next = advance_due_spec(date, freq);
    let total = date.month_index() + months_per_period(freq);
    assert((total / 12) * 12 + total % 12 == total);
    assert(next.wf());
    lemma_ord_key_lexicographic(date, next);
}

/// Later dates of a schedule from a real date are real dates and never earlier.
pub proof fn lemma_chain_nondecreasing(start: Date, freq: PaymentFrequency, i: nat, j: nat)
    requires
        start.wf(),
        i <= j,
    ensures
        due_chain(start, freq, j).wf(),
        date_le(due_chain(start, freq, i), due_chain(start, freq, j)),
    decreases j,
{
    if j > 0 {
        let prev = (j - 1) as nat;
        if i < j {
            lemma_chain_nondecreasing(start, freq, i, prev);
        } else {
            lemma_chain_nondecreasing(start, freq, prev, prev);
        }
        lemma_advance_nondecreasing(due_chain(start, freq, prev), freq);
    }
}

/// Going `m` steps along a schedule and then `k` more is going `m + k` steps.
pub proof fn lemma_chain_compose(start: Date, freq: PaymentFrequency, m: nat, k: nat)
    ensures
        due_chain(due_chain(start, freq, m), freq, k) == due_chain(start, freq, m + k),
    decreases k,
{
    if k > 0 {
        lemma_chain_compose(start, freq, m, (k - 1) as nat);
        assert(due_chain(start, freq, m + k) == advance_due_spec(due_chain(start, freq, (m + k - 1) as nat), freq));
    }
}

/// Far enough from the end of the representable range, the `k`-th date of a schedule lies
/// exactly `k` periods after its start, on a real date, and the next one lies after it.
pub proof fn lemma_chain_strict(start: Date, freq: PaymentFrequency, k: nat)
    requires
        start.wf(),
        freq == PaymentFrequency::Monthly ==> start.month_index() + k + 1 < MAX_YEAR * 12,
        freq == PaymentFrequency::Yearly ==> start.month_index() + 12 * k + 12 < MAX_YEAR * 12,
    ensures
        due_chain(start, freq, k).wf(),
        freq == PaymentFrequency::Monthly ==> due_chain(start, freq, k).month_index() == start.month_index() + k,
        freq == PaymentFrequency::Yearly ==> due_chain(start, freq, k).month_index() == start.month_index() + 12 * k,
        date_lt(due_chain(start, freq, k), due_chain(start, freq, k + 1)),
    decreases k,
{
    if k > 0 {
        lemma_chain_strict(start, freq, (k - 1) as nat);
    }
    let d = due_chain(start, freq, k);
    assert(d.year < MAX_YEAR);
    lemma_advance(d, freq);
}

} // verus!
