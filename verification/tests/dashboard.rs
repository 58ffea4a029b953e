use dept_tracker::calendar::Date;
use dept_tracker::combined::build_combined_schedule;
use dept_tracker::dashboard::{build_dashboard, format_display_amount, money};
use dept_tracker::types::{LoanCalcInput, LoanStatus, PaymentFrequency, PaymentRecord, PaymentType};

fn date(year: i32, month: u32, day: u32) -> Date {
    Date { year, month, day }
}

fn loan(id: &str, balance: i64, tilgung: i64, frequency: PaymentFrequency) -> LoanCalcInput {
    LoanCalcInput {
        id: id.into(),
        label: format!("Loan {id}"),
        status: LoanStatus::Active,
        remaining_balance_minor: balance,
        original_principal_minor: Some(balance * 2),
        payment_frequency: frequency,
        payment_type: PaymentType::TilgungEuro,
        tilgung_euro_minor: Some(tilgung),
        tilgung_percent_basis_points: None,
        apr_basis_points: Some(0),
        loan_start_date: date(2024, 1, 1),
        first_payment_date: date(2024, 1, 1),
        recurring_extras: vec![],
        scheduled_extras: vec![],
        payments: vec![],
    }
}

fn payment(paid_at: Date, event_type: &str) -> PaymentRecord {
    PaymentRecord {
        paid_at,
        amount_minor: 100_00,
        interest_portion_minor: 0,
        principal_portion_minor: 100_00,
        event_type: event_type.into(),
    }
}

#[test]
fn household_totals_sum_the_active_loans() {
    let mut archived = loan("c", 50_000_00, 1_000_00, PaymentFrequency::Monthly);
    archived.status = LoanStatus::Archived;
    let loans = vec![
        loan("a", 10_000_00, 500_00, PaymentFrequency::Monthly),
        loan("b", 20_000_00, 1_200_00, PaymentFrequency::Yearly),
        archived,
    ];
    let d = build_dashboard(&loans, "EUR", date(2025, 5, 1));
    assert_eq!(d.household.total_balance.amount_minor, 30_000_00);
    assert_eq!(d.household.total_balance.currency, "EUR");
    // 500.00 a month plus 1 200.00 a year (100.00 a month)
    assert_eq!(d.household.total_monthly_obligation.amount_minor, 600_00);
    assert_eq!(d.loans.len(), 2);
    assert_eq!(d.loans[0].id, "a");
    assert_eq!(d.loans[1].payment_frequency, "yearly");
    assert_eq!(d.loans[1].periodic_payment.amount_minor, 1_200_00);
    assert_eq!(d.payoff_timeline.series.len(), 2);
}

#[test]
fn loan_summary_fields() {
    let mut l = loan("a", 1_000_00, 500_00, PaymentFrequency::Monthly);
    l.payments = vec![
        payment(date(2024, 3, 1), "regular"),
        payment(date(2024, 5, 1), "regular"),
        payment(date(2024, 6, 1), "sonderzahlung"),
        payment(date(2024, 4, 1), "regular"),
    ];
    let d = build_dashboard(&[l], "EUR", date(2025, 5, 1));
    let s = &d.loans[0];
    assert_eq!(s.last_payment_date.as_deref(), Some("2024-05-01"));
    assert_eq!(s.projected_payoff_date.as_deref(), Some("2025-07-01"));
    assert_eq!(s.original_principal.as_ref().unwrap().amount_minor, 2_000_00);
    assert_eq!(s.progress_base_minor, 2_000_00);
    assert_eq!(s.progress_paid_down_minor, 1_000_00);
}

#[test]
fn empty_dashboard() {
    let d = build_dashboard(&[], "CHF", date(2025, 5, 1));
    assert_eq!(d.household.total_balance.amount_minor, 0);
    assert_eq!(d.household.total_monthly_obligation.amount_minor, 0);
    assert!(d.loans.is_empty());
    assert_eq!(d.payoff_timeline.dates, vec!["2025-05-01".to_string()]);
}

#[test]
fn money_and_amount_text() {
    let m = money(-1_205, "EUR");
    assert_eq!(m.amount_minor, -1_205);
    assert_eq!(m.currency, "EUR");
    assert_eq!(format_display_amount(123_456), "1234.56");
    assert_eq!(format_display_amount(-1_205), "-12.05");
    assert_eq!(format_display_amount(7), "0.07");
    assert_eq!(format_display_amount(0), "0.00");
    assert_eq!(format_display_amount(i64::MIN), "-92233720368547758.08");
}

#[test]
fn combined_schedule_groups_by_month() {
    let a = loan("a", 1_000_00, 500_00, PaymentFrequency::Monthly);
    let mut b = loan("b", 300_00, 100_00, PaymentFrequency::Monthly);
    b.first_payment_date = date(2024, 1, 15);
    let mut settled = loan("c", 0, 100_00, PaymentFrequency::Monthly);
    settled.first_payment_date = date(2024, 1, 20);
    let rows = build_combined_schedule(&[a, b, settled], date(2025, 5, 1));
    let dates: Vec<&str> = rows.iter().map(|r| r.date.as_str()).collect();
    assert_eq!(dates, vec!["2025-05-01", "2025-06-01", "2025-07-01"]);
    // May: loan b only; June and July: both loans
    assert_eq!(rows[0].principal_minor, 100_00);
    assert_eq!(rows[0].balance_minor, 1_200_00);
    assert_eq!(rows[1].principal_minor, 600_00);
    assert_eq!(rows[1].balance_minor, 600_00);
    assert_eq!(rows[2].principal_minor, 600_00);
    assert_eq!(rows[2].balance_minor, 0);
    assert_eq!(rows[2].payment_minor, 600_00);
    assert_eq!(rows[2].interest_minor, 0);
}

#[test]
fn combined_schedule_of_settled_loans_is_empty() {
    let rows = build_combined_schedule(&[loan("a", 0, 100_00, PaymentFrequency::Monthly)], date(2025, 5, 1));
    assert!(rows.is_empty());
}
