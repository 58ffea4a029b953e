use dept_tracker::calendar::Date;
use dept_tracker::payoff_timeline::build_payoff_timeline;
use dept_tracker::types::{LoanCalcInput, LoanStatus, PaymentFrequency, PaymentType};

fn date(year: i32, month: u32, day: u32) -> Date {
    Date { year, month, day }
}

fn sample_loan() -> LoanCalcInput {
    LoanCalcInput {
        id: "a".into(),
        label: "Mortgage".into(),
        status: LoanStatus::Active,
        remaining_balance_minor: 100_000_00,
        original_principal_minor: Some(120_000_00),
        payment_frequency: PaymentFrequency::Monthly,
        payment_type: PaymentType::TilgungEuro,
        tilgung_euro_minor: Some(1_000_00),
        tilgung_percent_basis_points: None,
        apr_basis_points: Some(300),
        loan_start_date: date(2024, 1, 1),
        first_payment_date: date(2024, 2, 1),
        recurring_extras: vec![],
        scheduled_extras: vec![],
        payments: vec![],
    }
}

#[test]
fn timeline_decreases_and_reaches_zero() {
    let as_of = date(2025, 5, 1);
    let timeline = build_payoff_timeline(&[sample_loan()], as_of);
    assert!(!timeline.dates.is_empty());
    assert_eq!(timeline.series.len(), 1);
    let balances = &timeline.series[0].balances_minor;
    assert_eq!(balances[0], 100_000_00);
    assert!(*balances.last().unwrap() <= 0 || balances.windows(2).any(|w| w[1] <= w[0]));
}

#[test]
fn stacked_timeline_sums_multiple_loans() {
    let as_of = date(2025, 5, 1);
    let mut second = sample_loan();
    second.id = "b".into();
    second.label = "Car".into();
    second.remaining_balance_minor = 20_000_00;
    let timeline = build_payoff_timeline(&[sample_loan(), second], as_of);
    assert_eq!(timeline.series.len(), 2);
    let total_start: i64 = timeline.series.iter().map(|s| s.balances_minor[0]).sum();
    assert_eq!(total_start, 120_000_00);
}

#[test]
fn interest_remaining_is_positive_and_decreases() {
    let as_of = date(2025, 5, 1);
    let timeline = build_payoff_timeline(&[sample_loan()], as_of);
    let interest = &timeline.series[0].interest_remaining_minor;
    // At start, total future interest must be > 0 (APR = 3% on 100k)
    assert!(interest[0] > 0, "expected positive interest at start");
    // Interest remaining must decrease over time (generally)
    assert!(interest[0] >= *interest.last().unwrap());
    // Last entry must be 0 (no interest owed after payoff)
    assert_eq!(*interest.last().unwrap(), 0);
}

#[test]
fn zero_apr_has_zero_interest() {
    let as_of = date(2025, 5, 1);
    let mut loan = sample_loan();
    loan.apr_basis_points = Some(0);
    let timeline = build_payoff_timeline(&[loan], as_of);
    let interest = &timeline.series[0].interest_remaining_minor;
    assert_eq!(interest[0], 0);
}

#[test]
fn timeline_months_run_from_as_of_to_payoff() {
    let as_of = date(2025, 5, 1);
    let timeline = build_payoff_timeline(&[sample_loan()], as_of);
    assert_eq!(timeline.dates[0], "2025-05-01");
    assert_eq!(timeline.dates[1], "2025-06-01");
    assert_eq!(timeline.dates.last().unwrap(), "2033-09-01");
    assert_eq!(timeline.as_of_index, 0);
    let balances = &timeline.series[0].balances_minor;
    assert_eq!(balances[1], 99_000_00);
    for w in balances.windows(2) {
        assert!(w[1] <= w[0]);
    }
    assert_eq!(*balances.last().unwrap(), 0);
    assert_eq!(timeline.series[0].id, "a");
    assert_eq!(timeline.series[0].label, "Mortgage");
}

#[test]
fn mid_month_as_of_shows_nothing_before_it() {
    let as_of = date(2025, 5, 15);
    let timeline = build_payoff_timeline(&[sample_loan()], as_of);
    assert_eq!(timeline.dates[0], "2025-05-01");
    assert_eq!(timeline.as_of_index, 1);
    assert_eq!(timeline.series[0].balances_minor[0], 0);
    assert_eq!(timeline.series[0].balances_minor[1], 99_000_00);
}

#[test]
fn archived_and_settled_loans_are_not_charted() {
    let as_of = date(2025, 5, 1);
    let mut archived = sample_loan();
    archived.status = LoanStatus::Archived;
    let mut settled = sample_loan();
    settled.remaining_balance_minor = 0;
    let timeline = build_payoff_timeline(&[archived, settled], as_of);
    assert!(timeline.series.is_empty());
    assert_eq!(timeline.dates, vec!["2025-05-01".to_string()]);
    assert_eq!(timeline.as_of_index, 0);
}
