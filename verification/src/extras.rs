//! Extra payments (Sonderzahlungen) that fall on a given due date.

use vstd::prelude::*;
use crate::calendar::Date;
use crate::text::str_equal;
use crate::types::{LoanCalcInput, RecurringExtra, ScheduledExtra};

verus! {

pub open spec fn abs_int(x: int) -> int {
    if x >= 0 { x } else { -x }
}

/// A yearly extra payment applies on its month and day when enabled.
pub open spec fn recurring_applies(e: RecurringExtra, date: Date) -> bool {
    &&& e.enabled
    &&& e.month as int == date.month as int
    &&& e.day as int == date.day as int
}

/// Sum of the enabled yearly extras falling on `date`.
pub open spec fn recurring_sum(s: Seq<RecurringExtra>, date: Date) -> int
    decreases s.len(),
{
    if s.len() == 0 {
        0
    } else {
        recurring_sum(s.drop_last(), date) + if recurring_applies(s.last(), date) {
            s.last().amount_minor as int
        } else {
            0
        }
    }
}

pub open spec fn recurring_abs_total(s: Seq<RecurringExtra>) -> int
    decreases s.len(),
{
    if s.len() == 0 {
        0
    } else {
        recurring_abs_total(s.drop_last()) + abs_int(s.last().amount_minor as int)
    }
}

/// A scheduled extra applies on its due date while it is still pending.
pub open spec fn scheduled_applies(e: ScheduledExtra, date: Date) -> bool {
    &&& e.status@ == "pending"@
    &&& e.due_date == date
}

/// Sum of the pending scheduled extras due on `date`.
pub open spec fn scheduled_sum(s: Seq<ScheduledExtra>, date: Date) -> int
    decreases s.len(),
{
    if s.len() == 0 {
        0
    } else {
        scheduled_sum(s.drop_last(), date) + if scheduled_applies(s.last(), date) {
            s.last().amount_minor as int
        } else {
            0
        }
    }
}

pub open spec fn scheduled_abs_total(s: Seq<ScheduledExtra>) -> int
    decreases s.len(),
{
    if s.len() == 0 {
        0
    } else {
        scheduled_abs_total(s.drop_last()) + abs_int(s.last().amount_minor as int)
    }
}

/// The extra-payment sums of a loan stay inside `i64`, also when both kinds are added
/// together.
pub open spec fn extras_fit(loan: LoanCalcInput) -> bool {
    recurring_abs_total(loan.recurring_extras@) + scheduled_abs_total(loan.scheduled_extras@)
        <= i64::MAX
}

pub proof fn lemma_recurring_sum_bounded(s: Seq<RecurringExtra>, date: Date)
    ensures
        abs_int(recurring_sum(s, date)) <= recurring_abs_total(s),
        recurring_abs_total(s) >= 0,
    decreases s.len(),
{
    if s.len() > 0 {
        lemma_recurring_sum_bounded(s.drop_last(), date);
    }
}

pub proof fn lemma_scheduled_sum_bounded(s: Seq<ScheduledExtra>, date: Date)
    ensures
        abs_int(scheduled_sum(s, date)) <= scheduled_abs_total(s),
        scheduled_abs_total(s) >= 0,
    decreases s.len(),
{
    if s.len() > 0 {
        lemma_scheduled_sum_bounded(s.drop_last(), date);
    }
}

pub proof fn lemma_recurring_abs_prefix(s: Seq<RecurringExtra>, i: int)
    requires
        0 <= i <= s.len(),
    ensures
        recurring_abs_total(s.take(i)) <= recurring_abs_total(s),
    decreases s.len() - i,
{
    if i < s.len() {
        lemma_recurring_abs_prefix(s, i + 1);
        assert(s.take(i + 1).drop_last() =~= s.take(i));
    }
    if i == s.len() {
        assert(s.take(i) =~= s);
    }
}

pub proof fn lemma_scheduled_abs_prefix(s: Seq<ScheduledExtra>, i: int)
    requires
        0 <= i <= s.len(),
    ensures
        scheduled_abs_total(s.take(i)) <= scheduled_abs_total(s),
    decreases s.len() - i,
{
    if i < s.len() {
        lemma_scheduled_abs_prefix(s, i + 1);
        assert(s.take(i + 1).drop_last() =~= s.take(i));
    }
    if i == s.len() {
        assert(s.take(i) =~= s);
    }
}

/// Sum of the enabled yearly extras whose month and day match `date`.
pub fn extras_for_date(loan: &LoanCalcInput, date: Date) -> (r: i64)
    requires
        extras_fit(*loan),
    ensures
        r == recurring_sum(loan.recurring_extras@, date),
{
    let extras = &loan.recurring_extras;
    let mut total: i64 = 0;
    let mut i: usize = 0;
    proof {
        lemma_scheduled_sum_bounded(loan.scheduled_extras@, date);
        assert(extras@.take(0) =~= Seq::<RecurringExtra>::empty());
    }
    while i < extras.len()
        invariant
            0 <= i <= extras.len(),
            extras == &loan.recurring_extras,
            extras_fit(*loan),
            scheduled_abs_total(loan.scheduled_extras@) >= 0,
            total == recurring_sum(extras@.take(i as int), date),
        decreases extras.len() - i,
    {
        let e = &extras[i];
        proof {
            assert(extras@.take(i + 1).drop_last() =~= extras@.take(i as int));
            lemma_recurring_sum_bounded(extras@.take(i + 1), date);
            lemma_recurring_abs_prefix(extras@, i + 1);
        }
        if e.enabled && e.month as u32 == date.month && e.day as u32 == date.day {
            total = total + e.amount_minor;
        }
        i = i + 1;
    }
    proof {
        assert(extras@.take(i as int) =~= extras@);
    }
    total
}

/// Sum of the pending scheduled extras due on `date`.
pub fn pending_scheduled_extras(loan: &LoanCalcInput, date: Date) -> (r: i64)
    requires
        extras_fit(*loan),
    ensures
        r == scheduled_sum(loan.scheduled_extras@, date),
{
    let extras = &loan.scheduled_extras;
    let mut total: i64 = 0;
    let mut i: usize = 0;
    proof {
        lemma_recurring_sum_bounded(loan.recurring_extras@, date);
        assert(extras@.take(0) =~= Seq::<ScheduledExtra>::empty());
    }
    while i < extras.len()
        invariant
            0 <= i <= extras.len(),
            extras == &loan.scheduled_extras,
            extras_fit(*loan),
            recurring_abs_total(loan.recurring_extras@) >= 0,
            total == scheduled_sum(extras@.take(i as int), date),
        decreases extras.len() - i,
    {
        let e = &extras[i];
        proof {
            assert(extras@.take(i + 1).drop_last() =~= extras@.take(i as int));
            lemma_scheduled_sum_bounded(extras@.take(i + 1), date);
            lemma_scheduled_abs_prefix(extras@, i + 1);
        }
        if str_equal(e.status.as_str(), "pending") && e.due_date == date {
            total = total + e.amount_minor;
        }
        i = i + 1;
    }
    proof {
        assert(extras@.take(i as int) =~= extras@);
    }
    total
}

/// Whether the extra-payment sums of a loan stay inside `i64`.
pub fn extras_fit_check(loan: &LoanCalcInput) -> (r: bool)
    ensures
        r == extras_fit(*loan),
{
    let rec = &loan.recurring_extras;
    let sch = &loan.scheduled_extras;
    let mut total: i128 = 0;
    let mut i: usize = 0;
    proof {
        assert(rec@.take(0) =~= Seq::<RecurringExtra>::empty());
        lemma_scheduled_sum_bounded(sch@, Date { year: 0, month: 1, day: 1 });
        lemma_recurring_sum_bounded(rec@, Date { year: 0, month: 1, day: 1 });
    }
    while i < rec.len()
        invariant
            0 <= i <= rec@.len(),
            rec == &loan.recurring_extras,
            scheduled_abs_total(loan.scheduled_extras@) >= 0,
            total == recurring_abs_total(rec@.take(i as int)),
            0 <= total <= i64::MAX,
        decreases rec.len() - i,
    {
        let a = rec[i].amount_minor as i128;
        let abs = if a >= 0 {
            a
        } else {
            -a
        };
        proof {
            assert(rec@.take(i + 1).drop_last() =~= rec@.take(i as int));
        }
        total = total + abs;
        if total > i64::MAX as i128 {
            proof {
                lemma_recurring_abs_prefix(rec@, i + 1);
            }
            return false;
        }
        i = i + 1;
    }
    proof {
        assert(rec@.take(i as int) =~= rec@);
        assert(sch@.take(0) =~= Seq::<ScheduledExtra>::empty());
    }
    let base = total;
    let mut j: usize = 0;
    while j < sch.len()
        invariant
            0 <= j <= sch@.len(),
            sch == &loan.scheduled_extras,
            base == recurring_abs_total(loan.recurring_extras@),
            total == base + scheduled_abs_total(sch@.take(j as int)),
            0 <= total <= i64::MAX,
        decreases sch.len() - j,
    {
        let a = sch[j].amount_minor as i128;
        let abs = if a >= 0 {
            a
        } else {
            -a
        };
        proof {
            assert(sch@.take(j + 1).drop_last() =~= sch@.take(j as int));
        }
        total = total + abs;
        if total > i64::MAX as i128 {
            proof {
                lemma_scheduled_abs_prefix(sch@, j + 1);
            }
            return false;
        }
        j = j + 1;
    }
    proof {
        assert(sch@.take(j as int) =~= sch@);
    }
    true
}

} // verus!
