use dept_tracker::amortization::periodic_interest_minor;
use dept_tracker::calendar::Date;
use dept_tracker::combined::build_combined_schedule;
use dept_tracker::projection::{compute_amortization_schedule, project_balance_and_interest_schedule};
use dept_tracker::types::{LoanCalcInput, LoanStatus, PaymentFrequency, PaymentType, ScheduledExtra};

fn date(year: i32, month: u32, day: u32) -> Date {
    Date { year, month, day }
}

fn loan(balance: i64, tilgung: i64, apr: i32, frequency: PaymentFrequency) -> LoanCalcInput {
    LoanCalcInput {
        id: "1".into(),
        label: "Test".into(),
        status: LoanStatus::Active,
        remaining_balance_minor: balance,
        original_principal_minor: Some(balance),
        payment_frequency: frequency,
        payment_type: PaymentType::TilgungEuro,
        tilgung_euro_minor: Some(tilgung),
        tilgung_percent_basis_points: None,
        apr_basis_points: Some(apr),
        loan_start_date: date(2024, 1, 1),
        first_payment_date: date(2024, 2, 1),
        recurring_extras: vec![],
        scheduled_extras: vec![ScheduledExtra { amount_minor: 2_000_00, due_date: date(2025, 6, 1), status: "pending".into() }],
        payments: vec![],
    }
}

#[test]
fn amortization_rows_charge_interest_on_the_balance_before() {
    let l = loan(10_000_00, 300_00, 450, PaymentFrequency::Monthly);
    let rows = compute_amortization_schedule(&l, date(2025, 1, 15));
    assert!(!rows.is_empty() && rows.len() <= 600);
    let mut before = l.remaining_balance_minor;
    for (k, r) in rows.iter().enumerate() {
        assert_eq!(r.interest_minor, periodic_interest_minor(before, 450, PaymentFrequency::Monthly));
        assert_eq!(r.principal_minor, before - r.balance_minor);
        assert_eq!(r.payment_minor, r.interest_minor + 300_00.min(before));
        assert!(r.balance_minor >= 0);
        if k + 1 < rows.len() {
            assert!(r.balance_minor > 0);
        }
        before = r.balance_minor;
    }
    assert_eq!(rows.last().unwrap().balance_minor, 0);
    assert!(compute_amortization_schedule(&loan(0, 300_00, 450, PaymentFrequency::Monthly), date(2025, 1, 15)).is_empty());
}

#[test]
fn remaining_interest_falls_by_each_period_interest() {
    let l = loan(10_000_00, 300_00, 450, PaymentFrequency::Monthly);
    let pts = project_balance_and_interest_schedule(&l, date(2025, 1, 15));
    assert_eq!(pts[0].0, date(2025, 1, 15));
    assert_eq!(pts[0].1, 10_000_00);
    assert_eq!(pts.last().unwrap().2, 0);
    assert_eq!(pts[1].0, date(2025, 2, 1));
    for w in pts.windows(2) {
        assert_eq!(w[0].2 - w[1].2, periodic_interest_minor(w[0].1, 450, PaymentFrequency::Monthly));
        assert!(w[0].0 < w[1].0);
    }
    assert_eq!(project_balance_and_interest_schedule(&loan(0, 1, 1, PaymentFrequency::Monthly), date(2025, 1, 15)), vec![(date(2025, 1, 15), 0, 0)]);
}

#[test]
fn combined_balance_is_owed_less_running_principal() {
    let loans = vec![
        loan(10_000_00, 300_00, 450, PaymentFrequency::Monthly),
        loan(5_000_00, 1_200_00, 300, PaymentFrequency::Yearly),
        loan(0, 100_00, 300, PaymentFrequency::Monthly),
    ];
    let rows = build_combined_schedule(&loans, date(2025, 1, 15));
    let owed = 15_000_00i64;
    let mut paid = 0i64;
    for r in &rows {
        paid += r.principal_minor;
        assert_eq!(r.balance_minor, (owed - paid).max(0));
        assert!(r.date.ends_with("-01"));
    }
    assert_eq!(rows.last().unwrap().balance_minor, 0);
    let settled = vec![loan(0, 100_00, 300, PaymentFrequency::Monthly)];
    assert!(build_combined_schedule(&settled, date(2025, 1, 15)).is_empty());
}
