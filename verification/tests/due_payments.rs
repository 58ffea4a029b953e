use dept_tracker::calendar::Date;
use dept_tracker::due_payments::{
    advance_due, due_regular_payment_dates, first_due_after, payment_due_anchor,
};
use dept_tracker::types::PaymentFrequency;

fn date(year: i32, month: u32, day: u32) -> Date {
    Date { year, month, day }
}

#[test]
fn generates_monthly_dates_from_first_due() {
    let first = date(2024, 1, 15);
    let through = date(2024, 3, 15);
    let dates = due_regular_payment_dates(first, PaymentFrequency::Monthly, None, through);
    assert_eq!(dates.len(), 3);
    assert_eq!(dates[0], first);
    assert_eq!(dates[1], date(2024, 2, 15));
    assert_eq!(dates[2], date(2024, 3, 15));
}

#[test]
fn resumes_after_last_regular() {
    let first = date(2024, 1, 1);
    let last = date(2024, 2, 1);
    let through = date(2024, 4, 1);
    let dates = due_regular_payment_dates(first, PaymentFrequency::Monthly, Some(last), through);
    assert_eq!(dates[0], date(2024, 3, 1));
    assert_eq!(dates[1], date(2024, 4, 1));
}

#[test]
fn first_due_after_skips_paid_period() {
    let anchor = date(2024, 1, 1);
    let as_of = date(2024, 3, 15);
    assert_eq!(first_due_after(anchor, PaymentFrequency::Monthly, as_of), date(2024, 4, 1));
}

#[test]
fn no_dues_before_first_payment_date() {
    let loan_start = date(2024, 1, 1);
    let first_payment = date(2024, 2, 1);
    let anchor = payment_due_anchor(Some(first_payment), loan_start);
    let through = date(2024, 1, 31);
    let dates = due_regular_payment_dates(anchor, PaymentFrequency::Monthly, None, through);
    assert!(dates.is_empty());
}

#[test]
fn anchor_falls_back_to_loan_start() {
    let start = date(2024, 6, 1);
    assert_eq!(payment_due_anchor(None, start), start);
}

#[test]
fn yearly_schedule_from_anchor() {
    let first = date(2024, 3, 1);
    let through = date(2026, 3, 1);
    let dates = due_regular_payment_dates(first, PaymentFrequency::Yearly, None, through);
    assert_eq!(dates.len(), 3);
    assert_eq!(dates[2], date(2026, 3, 1));
}

#[test]
fn monthly_step_clamps_to_month_end() {
    assert_eq!(advance_due(date(2024, 1, 31), PaymentFrequency::Monthly), date(2024, 2, 29));
    assert_eq!(advance_due(date(2023, 1, 31), PaymentFrequency::Monthly), date(2023, 2, 28));
    assert_eq!(advance_due(date(2024, 12, 15), PaymentFrequency::Monthly), date(2025, 1, 15));
}

#[test]
fn yearly_step_from_leap_day_lands_on_february_28() {
    assert_eq!(advance_due(date(2024, 2, 29), PaymentFrequency::Yearly), date(2025, 2, 28));
    assert_eq!(advance_due(date(2024, 3, 1), PaymentFrequency::Yearly), date(2025, 3, 1));
}

#[test]
fn due_dates_are_increasing_and_after_last_recorded() {
    let last = date(2024, 1, 31);
    let through = date(2024, 12, 31);
    let dates = due_regular_payment_dates(date(2023, 11, 30), PaymentFrequency::Monthly, Some(last), through);
    assert_eq!(dates[0], date(2024, 2, 29));
    for w in dates.windows(2) {
        assert!(w[0] < w[1]);
    }
    for d in &dates {
        assert!(*d > last && *d <= through);
    }
    // the schedule continues from the clamped day
    assert_eq!(dates[1], date(2024, 3, 29));
    assert_eq!(*dates.last().unwrap(), date(2024, 12, 29));
}

#[test]
fn first_due_after_is_strictly_after_as_of() {
    let anchor = date(2024, 1, 15);
    assert_eq!(first_due_after(anchor, PaymentFrequency::Monthly, date(2024, 3, 15)), date(2024, 4, 15));
    assert_eq!(first_due_after(anchor, PaymentFrequency::Monthly, date(2023, 12, 1)), anchor);
    assert_eq!(first_due_after(anchor, PaymentFrequency::Yearly, date(2025, 1, 15)), date(2026, 1, 15));
}

#[test]
fn due_dates_through_before_start_are_empty() {
    let dates = due_regular_payment_dates(date(2024, 5, 1), PaymentFrequency::Yearly, None, date(2024, 4, 30));
    assert!(dates.is_empty());
}
