//! Month-by-month payoff timeline across all active loans, for stacked charts.

use vstd::prelude::*;
use crate::calendar::{date_le, date_leq, date_less, date_lt, date_text, date_to_string, from_ymd_opt, is_valid_date, Date, MAX_YEAR};
use crate::amortization::principal_spec;
use crate::projection::{
    interest_schedule_fits_check, projectable_check, balance_interest_points_spec, balance_points_spec, extras_on, interest_schedule_fits,
    lemma_balance_schedule_never_increases, lemma_projected_dates_wf,
    lemma_remaining_interest_never_increases, project_balance_and_interest_schedule, projectable,
    projected_steps,
};
use crate::types::{LoanCalcInput, LoanStatus};

verus! {

/// Upper bound on the number of months shown.
pub const MAX_MONTHS: u32 = 360;

#[derive(Clone, Debug)]
pub struct PayoffTimelineSeries {
    pub id: String,
    pub label: String,
    pub balances_minor: Vec<i64>,
    /// Total future interest still to be paid at each timeline point.
    pub interest_remaining_minor: Vec<i64>,
}

#[derive(Clone, Debug)]
pub struct PayoffTimeline {
    pub dates: Vec<String>,
    pub series: Vec<PayoffTimelineSeries>,
    pub as_of_index: usize,
}

pub open spec fn is_charted(l: LoanCalcInput) -> bool {
    l.status == LoanStatus::Active && l.remaining_balance_minor > 0
}

/// Active loans that still owe something, in input order.
pub open spec fn charted_loans(s: Seq<LoanCalcInput>) -> Seq<LoanCalcInput>
    decreases s.len(),
{
    if s.len() == 0 {
        Seq::empty()
    } else if is_charted(s.last()) {
        charted_loans(s.drop_last()).push(s.last())
    } else {
        charted_loans(s.drop_last())
    }
}

/// The projections the timeline needs can run on every charted loan.
pub open spec fn timeline_computable(loans: Seq<LoanCalcInput>, as_of: Date) -> bool {
    &&& as_of.wf()
    &&& as_of.year + 52 <= MAX_YEAR
    &&& forall|i: int|
        0 <= i < loans.len() && is_charted(#[trigger] loans[i]) ==> projectable(loans[i], as_of)
            && interest_schedule_fits(loans[i], as_of)
}

pub open spec fn schedule_of(l: LoanCalcInput, as_of: Date) -> Seq<(Date, i64, i64)> {
    balance_interest_points_spec(l, as_of)
}

/// The latest date among `as_of` and the final points of the loans' schedules.
pub open spec fn timeline_end(active: Seq<LoanCalcInput>, as_of: Date) -> Date
    decreases active.len(),
{
    if active.len() == 0 {
        as_of
    } else {
        let e = timeline_end(active.drop_last(), as_of);
        let d = schedule_of(active.last(), as_of).last().0;
        if date_lt(e, d) {
            d
        } else {
            e
        }
    }
}

/// First day of the month with the given month index.
pub open spec fn month_start(mi: int) -> Date {
    Date { year: (mi / 12) as i32, month: (mi % 12 + 1) as u32, day: 1 }
}

pub open spec fn month_count(from: Date, to: Date) -> nat {
    let c = if to.month_index() >= from.month_index() {
        to.month_index() - from.month_index() + 1
    } else {
        1
    };
    if c > MAX_MONTHS {
        MAX_MONTHS as nat
    } else {
        c as nat
    }
}

/// First days of the months from `from`'s month through `to`'s month (at most 360).
pub open spec fn month_starts_spec(from: Date, to: Date) -> Seq<Date> {
    Seq::new(month_count(from, to), |i: int| month_start(from.month_index() + i))
}

/// Index of the first date not before `as_of`, searching from `i`; 0 when there is none.
pub open spec fn first_not_before(dates: Seq<Date>, as_of: Date, i: int) -> int
    decreases dates.len() - i,
{
    if i < 0 || i >= dates.len() {
        0
    } else if date_le(as_of, dates[i]) {
        i
    } else {
        first_not_before(dates, as_of, i + 1)
    }
}

/// Balance and remaining interest at the latest of the first `n` schedule points on or
/// before `date`; zero when there is none.
pub open spec fn point_at(date: Date, schedule: Seq<(Date, i64, i64)>, n: int) -> (i64, i64)
    decreases n,
{
    if n <= 0 {
        (0i64, 0i64)
    } else if date_le(schedule[n - 1].0, date) {
        (schedule[n - 1].1, schedule[n - 1].2)
    } else {
        point_at(date, schedule, n - 1)
    }
}

pub proof fn lemma_month_start_wf(mi: int)
    requires
        crate::calendar::MIN_YEAR * 12 <= mi,
        mi < (MAX_YEAR + 1) * 12,
    ensures
        month_start(mi).wf(),
        month_start(mi).month_index() == mi,
{
    assert((mi / 12) * 12 + mi % 12 == mi);
}

/// First days of the months from `from` through `to`, at most 360 of them.
fn month_starts(from: Date, to: Date) -> (dates: Vec<Date>)
    requires
        from.wf(),
        to.wf(),
        from.year + 31 <= MAX_YEAR,
    ensures
        dates@ == month_starts_spec(from, to),
        forall|i: int| 0 <= i < dates@.len() ==> (#[trigger] dates@[i]).wf(),
{
    let mut dates: Vec<Date> = Vec::new();
    let mut y = from.year;
    let mut m = from.month;
    let end_y = to.year;
    let end_m = to.month;
    let mut k: u32 = 0;
    while k < MAX_MONTHS
        invariant_except_break
            dates@.len() == k,
            y * 12 + m - 1 == from.month_index() + k,
            1 <= m <= 12,
            k == 0 || to.month_index() >= from.month_index() + k,
        invariant
            from.wf(),
            to.wf(),
            from.year + 31 <= MAX_YEAR,
            end_y == to.year,
            end_m == to.month,
            0 <= k <= MAX_MONTHS,
            dates@.len() <= MAX_MONTHS,
            forall|i: int| 0 <= i < dates@.len() ==> #[trigger] dates@[i] == month_start(from.month_index() + i),
            forall|i: int| 0 <= i < dates@.len() ==> (#[trigger] dates@[i]).wf(),
        ensures
            dates@.len() == month_count(from, to),
            forall|i: int| 0 <= i < dates@.len() ==> #[trigger] dates@[i] == month_start(from.month_index() + i),
            forall|i: int| 0 <= i < dates@.len() ==> (#[trigger] dates@[i]).wf(),
        decreases MAX_MONTHS - k,
    {
        proof {
            lemma_month_start_wf(from.month_index() + k);
            assert(month_start(from.month_index() + k) == Date { year: y, month: m, day: 1 });
        }
        match from_ymd_opt(y, m, 1) {
            Some(d) => dates.push(d),
            None => {},
        }
        if y > end_y || (y == end_y && m >= end_m) {
            break;
        }
        if m == 12 {
            y = y + 1;
            m = 1;
        } else {
            m = m + 1;
        }
        k = k + 1;
    }
    proof {
        assert(dates@ =~= month_starts_spec(from, to));
    }
    dates
}

/// Returns (principal_remaining, interest_remaining) at the latest schedule point <= date.
fn balance_and_interest_at(date: Date, schedule: &Vec<(Date, i64, i64)>) -> (r: (i64, i64))
    requires
        date.wf(),
        forall|i: int| 0 <= i < schedule@.len() ==> (#[trigger] schedule@[i]).0.wf(),
    ensures
        r == point_at(date, schedule@, schedule@.len() as int),
{
    let mut n = schedule.len();
    while n > 0
        invariant
            0 <= n <= schedule@.len(),
            date.wf(),
            forall|i: int| 0 <= i < schedule@.len() ==> (#[trigger] schedule@[i]).0.wf(),
            point_at(date, schedule@, schedule@.len() as int) == point_at(date, schedule@, n as int),
        decreases n,
    {
        let (d, b, interest) = schedule[n - 1];
        if date_leq(d, date) {
            return (b, interest);
        }
        n = n - 1;
    }
    (0, 0)
}

pub open spec fn series_spec_matches(
    s: PayoffTimelineSeries,
    loan: LoanCalcInput,
    dates: Seq<Date>,
    as_of: Date,
) -> bool {
    &&& s.id@ == loan.id@
    &&& s.label@ == loan.label@
    &&& s.balances_minor@.len() == dates.len()
    &&& s.interest_remaining_minor@.len() == dates.len()
    &&& forall|i: int|
        0 <= i < dates.len() ==> {
            let p = point_at(dates[i], schedule_of(loan, as_of), schedule_of(loan, as_of).len() as int);
            &&& #[trigger] s.balances_minor@[i] == p.0
            &&& s.interest_remaining_minor@[i] == p.1
        }
}

/// The month axis of the timeline.
pub open spec fn timeline_dates(loans: Seq<LoanCalcInput>, as_of: Date) -> Seq<Date> {
    let active = charted_loans(loans);
    if active.len() == 0 {
        seq![as_of]
    } else {
        month_starts_spec(as_of, timeline_end(active, as_of))
    }
}

pub open spec fn timeline_spec_matches(t: PayoffTimeline, loans: Seq<LoanCalcInput>, as_of: Date) -> bool {
    let active = charted_loans(loans);
    let dates = timeline_dates(loans, as_of);
    &&& t.dates@.len() == dates.len()
    &&& forall|i: int| 0 <= i < dates.len() ==> (#[trigger] t.dates@[i])@ == date_text(dates[i])
    &&& t.series@.len() == active.len()
    &&& forall|k: int|
        0 <= k < active.len() ==> series_spec_matches(#[trigger] t.series@[k], active[k], dates, as_of)
    &&& t.as_of_index == if active.len() == 0 {
        0
    } else {
        first_not_before(dates, as_of, 0)
    }
}

pub fn build_payoff_timeline(loans: &[LoanCalcInput], as_of: Date) -> (t: PayoffTimeline)
    requires
        timeline_computable(loans@, as_of),
    ensures
        timeline_spec_matches(t, loans@, as_of),
{
    // charted loans and their schedules
    let mut active: Vec<&LoanCalcInput> = Vec::new();
    let mut schedules: Vec<Vec<(Date, i64, i64)>> = Vec::new();
    let mut end = as_of;
    let mut i: usize = 0;
    while i < loans.len()
        invariant
            0 <= i <= loans@.len(),
            timeline_computable(loans@, as_of),
            active@.len() == schedules@.len(),
            active@.map_values(|l: &LoanCalcInput| *l) == charted_loans(loans@.take(i as int)),
            forall|k: int|
                0 <= k < schedules@.len() ==> (#[trigger] schedules@[k])@ == schedule_of(*active@[k], as_of),
            forall|k: int, q: int|
                0 <= k < schedules@.len() && 0 <= q < schedules@[k]@.len() ==> (#[trigger] schedules@[k]@[q]).0.wf(),
            end == timeline_end(charted_loans(loans@.take(i as int)), as_of),
            end.wf(),
        decreases loans.len() - i,
    {
        let loan = &loans[i];
        proof {
            assert(loans@.take(i + 1).drop_last() =~= loans@.take(i as int));
            assert(loans@.take(i + 1).last() == loans@[i as int]);
        }
        proof {
            if is_charted(*loan) {
                assert(charted_loans(loans@.take(i + 1)) == charted_loans(loans@.take(i as int)).push(
                    *loan,
                ));
            } else {
                assert(charted_loans(loans@.take(i + 1)) == charted_loans(loans@.take(i as int)));
            }
        }
        if loan.status == LoanStatus::Active && loan.remaining_balance_minor > 0 {
            let schedule = project_balance_and_interest_schedule(loan, as_of);
            let last = schedule[schedule.len() - 1].0;
            proof {
                assert(schedule@.len() >= 2);
            }
            proof {
                let c = charted_loans(loans@.take(i as int));
                assert(c.push(*loan).drop_last() =~= c);
                assert(c.push(*loan).last() == *loan);
                assert(schedule@.last().0 == last);
            }
            if date_less(end, last) {
                end = last;
            }
            let ghost old_active = active@;
            active.push(loan);
            schedules.push(schedule);
            proof {
                assert(active@.map_values(|l: &LoanCalcInput| *l) =~= old_active.map_values(
                    |l: &LoanCalcInput| *l,
                ).push(*loan));
            }
        }
        i = i + 1;
    }
    proof {
        assert(loans@.take(loans@.len() as int) =~= loans@);
    }
    let ghost charted = charted_loans(loans@);
    if active.len() == 0 {
        let mut dates: Vec<String> = Vec::new();
        dates.push(date_to_string(as_of));
        return PayoffTimeline { dates, series: Vec::new(), as_of_index: 0 };
    }
    let months = month_starts(as_of, end);
    let ghost axis = timeline_dates(loans@, as_of);
    proof {
        assert(months@ == axis);
    }
    // index of the first month start not before `as_of`
    let mut as_of_index: usize = 0;
    let mut q: usize = 0;
    while q < months.len()
        invariant_except_break
            as_of_index == 0,
            first_not_before(months@, as_of, 0) == first_not_before(months@, as_of, q as int),
        invariant
            0 <= q <= months@.len(),
            as_of.wf(),
            forall|i: int| 0 <= i < months@.len() ==> (#[trigger] months@[i]).wf(),
        ensures
            as_of_index == first_not_before(months@, as_of, 0),
        decreases months.len() - q,
    {
        if date_leq(as_of, months[q]) {
            as_of_index = q;
            break;
        }
        q = q + 1;
    }
    // one series per charted loan
    let mut series: Vec<PayoffTimelineSeries> = Vec::new();
    let mut k: usize = 0;
    while k < active.len()
        invariant
            0 <= k <= active@.len(),
            active@.len() == schedules@.len(),
            active@.map_values(|l: &LoanCalcInput| *l) == charted,
            forall|j: int|
                0 <= j < schedules@.len() ==> (#[trigger] schedules@[j])@ == schedule_of(*active@[j], as_of),
            forall|j: int, r: int|
                0 <= j < schedules@.len() && 0 <= r < schedules@[j]@.len() ==> (#[trigger] schedules@[j]@[r]).0.wf(),
            forall|i: int| 0 <= i < months@.len() ==> (#[trigger] months@[i]).wf(),
            series@.len() == k,
            forall|j: int| 0 <= j < k ==> series_spec_matches(#[trigger] series@[j], charted[j], months@, as_of),
        decreases active.len() - k,
    {
        let schedule = &schedules[k];
        let mut balances: Vec<i64> = Vec::new();
        let mut interests: Vec<i64> = Vec::new();
        let mut i: usize = 0;
        proof {
            assert(charted[k as int] == *active@[k as int]);
        }
        while i < months.len()
            invariant
                0 <= i <= months@.len(),
                schedule@ == schedule_of(charted[k as int], as_of),
                forall|r: int| 0 <= r < schedule@.len() ==> (#[trigger] schedule@[r]).0.wf(),
                forall|r: int| 0 <= r < months@.len() ==> (#[trigger] months@[r]).wf(),
                balances@.len() == i,
                interests@.len() == i,
                forall|r: int|
                    0 <= r < i ==> {
                        let p = point_at(months@[r], schedule@, schedule@.len() as int);
                        &&& #[trigger] balances@[r] == p.0
                        &&& interests@[r] == p.1
                    },
            decreases months.len() - i,
        {
            let (b, interest) = balance_and_interest_at(months[i], schedule);
            balances.push(b);
            interests.push(interest);
            i = i + 1;
        }
        let loan = active[k];
        let item = PayoffTimelineSeries {
            id: loan.id.clone(),
            label: loan.label.clone(),
            balances_minor: balances,
            interest_remaining_minor: interests,
        };
        proof {
            assert(series_spec_matches(item, charted[k as int], months@, as_of));
        }
        let ghost old_series = series@;
        series.push(item);
        proof {
            assert forall|j: int| 0 <= j < k + 1 implies series_spec_matches(
                #[trigger] series@[j],
                charted[j],
                months@,
                as_of,
            ) by {
                if j < k {
                    assert(series@[j] == old_series[j]);
                }
            }
        }
        k = k + 1;
    }
    // month axis as text
    let mut dates: Vec<String> = Vec::new();
    let mut i: usize = 0;
    while i < months.len()
        invariant
            0 <= i <= months@.len(),
            forall|r: int| 0 <= r < months@.len() ==> (#[trigger] months@[r]).wf(),
            dates@.len() == i,
            forall|r: int| 0 <= r < i ==> (#[trigger] dates@[r])@ == date_text(months@[r]),
        decreases months.len() - i,
    {
        dates.push(date_to_string(months[i]));
        i = i + 1;
    }
    let t = PayoffTimeline { dates, series, as_of_index };
    proof {
        assert(charted.len() == active@.len());
        assert(charted.len() > 0);
        assert(timeline_dates(loans@, as_of) == months@);
    }
    t
}

/// Index of the latest of the first `n` schedule points on or before `date`; -1 when
/// there is none.
pub open spec fn last_point_le(date: Date, schedule: Seq<(Date, i64, i64)>, n: int) -> int
    decreases n,
{
    if n <= 0 {
        -1
    } else if date_le(schedule[n - 1].0, date) {
        n - 1
    } else {
        last_point_le(date, schedule, n - 1)
    }
}

proof fn lemma_point_at_index(date: Date, schedule: Seq<(Date, i64, i64)>, n: int)
    requires
        0 <= n <= schedule.len(),
    ensures
        ({
            let j = last_point_le(date, schedule, n);
            &&& -1 <= j < n
            &&& j >= 0 ==> point_at(date, schedule, n) == (schedule[j].1, schedule[j].2) && date_le(
                schedule[j].0,
                date,
            )
            &&& j < 0 ==> point_at(date, schedule, n) == (0i64, 0i64)
            &&& forall|k: int| j < k < n && 0 <= k ==> !date_le(#[trigger] schedule[k].0, date)
        }),
    decreases n,
{
    if n > 0 {
        lemma_point_at_index(date, schedule, n - 1);
        let j = last_point_le(date, schedule, n);
        let j0 = last_point_le(date, schedule, n - 1);
        if !date_le(schedule[n - 1].0, date) {
            assert(j == j0);
            assert forall|k: int| j < k < n && 0 <= k implies !date_le(#[trigger] schedule[k].0, date) by {
                if k < n - 1 {
                    assert(j0 < k < n - 1);
                }
            }
        }
    }
}

proof fn lemma_last_point_monotone(d1: Date, d2: Date, schedule: Seq<(Date, i64, i64)>, n: int)
    requires
        date_le(d1, d2),
        0 <= n <= schedule.len(),
    ensures
        last_point_le(d1, schedule, n) <= last_point_le(d2, schedule, n),
    decreases n,
{
    if n > 0 {
        lemma_point_at_index(d1, schedule, n);
        if !date_le(schedule[n - 1].0, d2) {
            lemma_last_point_monotone(d1, d2, schedule, n - 1);
        }
    }
}

/// For a loan with a balance, a non-negative installment principal, no negative extra
/// payment and a non-negative rate, the balance and the remaining interest the timeline
/// shows never increase from one date on or after `as_of` to a later one.
pub proof fn lemma_timeline_never_increases(loan: LoanCalcInput, as_of: Date, d1: Date, d2: Date)
    requires
        loan.remaining_balance_minor > 0,
        principal_spec(loan, loan.remaining_balance_minor as int) >= 0,
        forall|d: Date| #[trigger] extras_on(loan, d) >= 0,
        loan.apr_or_zero() >= 0,
        interest_schedule_fits(loan, as_of),
        date_le(as_of, d1),
        date_le(d1, d2),
    ensures
        ({
            let sched = schedule_of(loan, as_of);
            &&& point_at(d2, sched, sched.len() as int).0 <= point_at(d1, sched, sched.len() as int).0
            &&& point_at(d2, sched, sched.len() as int).1 <= point_at(d1, sched, sched.len() as int).1
        }),
{
    let sched = schedule_of(loan, as_of);
    let n = sched.len() as int;
    let bp = balance_points_spec(loan, as_of);
    lemma_point_at_index(d1, sched, n);
    lemma_point_at_index(d2, sched, n);
    lemma_last_point_monotone(d1, d2, sched, n);
    let j1 = last_point_le(d1, sched, n);
    let j2 = last_point_le(d2, sched, n);
    assert(sched[0].0 == as_of);
    assert(j1 >= 0);
    lemma_balance_schedule_never_increases(loan, as_of);
    lemma_remaining_interest_never_increases(loan, as_of);
    assert(bp.len() == n);
    assert forall|k: int| 0 <= k < n implies #[trigger] sched[k].1 == bp[k].1 by {}
    assert(bp[j2].1 <= bp[j1].1);
    assert(sched[j2].2 <= sched[j1].2);
}

/// On `as_of` itself the timeline shows a loan's current balance and all of its future
/// interest.
pub proof fn lemma_timeline_at_as_of(loan: LoanCalcInput, as_of: Date)
    requires
        loan.remaining_balance_minor > 0,
        as_of.wf(),
        loan.first_payment_date.wf(),
        as_of.year < MAX_YEAR,
    ensures
        ({
            let sched = schedule_of(loan, as_of);
            point_at(as_of, sched, sched.len() as int) == (loan.remaining_balance_minor, sched[0].2)
        }),
{
    let sched = schedule_of(loan, as_of);
    let n = sched.len() as int;
    let s = projected_steps(loan, as_of);
    lemma_projected_dates_wf(loan, as_of);
    lemma_point_at_index(as_of, sched, n);
    let j = last_point_le(as_of, sched, n);
    assert(date_le(sched[0].0, as_of));
    if j > 0 {
        assert(sched[j].0 == s[j - 1].date);
        assert(date_lt(as_of, s[j - 1].date));
    }
    if j < 0 {
        assert(!date_le(sched[0].0, as_of));
    }
    assert(j == 0);
}

/// When some loan is charted, the timeline starts at the first of `as_of`'s month; when
/// `as_of` is itself the first of a month, the timeline starts there and `as_of` is its
/// first index.
pub proof fn lemma_timeline_starts_at_as_of_month(loans: Seq<LoanCalcInput>, as_of: Date)
    requires
        charted_loans(loans).len() > 0,
        as_of.wf(),
    ensures
        timeline_dates(loans, as_of).len() > 0,
        timeline_dates(loans, as_of)[0] == month_start(as_of.month_index()),
        as_of.day == 1 ==> timeline_dates(loans, as_of)[0] == as_of && first_not_before(
            timeline_dates(loans, as_of),
            as_of,
            0,
        ) == 0,
{
    let mi = as_of.month_index();
    assert((mi / 12) * 12 + mi % 12 == mi);
    assert(mi / 12 == as_of.year && mi % 12 + 1 == as_of.month);
}

/// Whether the payoff timeline can be computed for `loans` from `as_of`.
pub fn timeline_computable_check(loans: &[LoanCalcInput], as_of: Date) -> (r: bool)
    ensures
        r == timeline_computable(loans@, as_of),
{
    if !is_valid_date(as_of) || as_of.year as i64 + 52 > MAX_YEAR as i64 {
        return false;
    }
    let mut i: usize = 0;
    while i < loans.len()
        invariant
            0 <= i <= loans@.len(),
            as_of.wf(),
            as_of.year + 52 <= MAX_YEAR,
            forall|k: int|
                0 <= k < i && is_charted(#[trigger] loans@[k]) ==> projectable(loans@[k], as_of)
                    && interest_schedule_fits(loans@[k], as_of),
        decreases loans.len() - i,
    {
        let l = &loans[i];
        if let LoanStatus::Active = l.status {
            if l.remaining_balance_minor > 0 {
                if !projectable_check(l, as_of) || !interest_schedule_fits_check(l, as_of) {
                    proof {
                        assert(is_charted(loans@[i as int]));
                    }
                    return false;
                }
            }
        }
        i = i + 1;
    }
    true
}

} // verus!
