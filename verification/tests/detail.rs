use dept_tracker::calendar::Date;
use dept_tracker::detail::loan_detail_view;
use dept_tracker::store::LoanRow;
use dept_tracker::types::{LoanCalcInput, LoanStatus, PaymentFrequency, PaymentRecord, PaymentType};

fn date(year: i32, month: u32, day: u32) -> Date {
    Date { year, month, day }
}

fn calc() -> LoanCalcInput {
    LoanCalcInput {
        id: "loan-1".into(),
        label: "Car".into(),
        status: LoanStatus::Active,
        remaining_balance_minor: 3_000_00,
        original_principal_minor: Some(5_000_00),
        payment_frequency: PaymentFrequency::Monthly,
        payment_type: PaymentType::TilgungEuro,
        tilgung_euro_minor: Some(1_000_00),
        tilgung_percent_basis_points: None,
        apr_basis_points: Some(1200),
        loan_start_date: date(2024, 1, 1),
        first_payment_date: date(2024, 2, 1),
        recurring_extras: vec![],
        scheduled_extras: vec![],
        payments: vec![
            PaymentRecord {
                paid_at: date(2025, 4, 1),
                amount_minor: 1_030_00,
                interest_portion_minor: 30_00,
                principal_portion_minor: 1_000_00,
                event_type: "regular".into(),
            },
            PaymentRecord {
                paid_at: date(2025, 4, 20),
                amount_minor: 500_00,
                interest_portion_minor: 0,
                principal_portion_minor: 500_00,
                event_type: "sonderzahlung".into(),
            },
        ],
    }
}

fn row() -> LoanRow {
    LoanRow {
        id: "loan-1".into(),
        label: "Car".into(),
        status: "active".into(),
        setup_mode: "quick".into(),
        original_principal_minor: Some(5_000_00),
        remaining_balance_minor: 3_000_00,
        payment_frequency: "monthly".into(),
        payment_type: "tilgung_euro".into(),
        fixed_payment_minor: Some(1_000_00),
        tilgung_percent_basis_points: None,
        apr_basis_points: Some(1200),
        loan_start_date: Some("2024-01-01".into()),
        first_payment_date: Some("2024-02-01".into()),
        created_at: "2024-01-01T00:00:00+00:00".into(),
        updated_at: "2024-01-01T00:00:00+00:00".into(),
        archived_at: None,
        notes: None,
    }
}

#[test]
fn detail_view_combines_projection_interest_and_progress() {
    let d = loan_detail_view(&calc(), &row(), "EUR", date(2025, 5, 1));
    assert_eq!(d.id, "loan-1");
    assert_eq!(d.remaining_balance.amount_minor, 3_000_00);
    assert_eq!(d.periodic_payment.amount_minor, 1_030_00);
    assert_eq!(d.payment_frequency, "monthly");
    assert_eq!(d.last_payment_date.as_deref(), Some("2025-04-01"));
    assert_eq!(d.projected_payoff_date.as_deref(), Some("2025-08-01"));
    assert_eq!(d.interest_paid_to_date.amount_minor, 30_00);
    assert_eq!(d.interest_remaining_estimate.amount_minor, 60_00);
    assert_eq!(d.interest_message, None);
    assert_eq!(d.progress, Some((2_000_00, 5_000_00)));
    assert_eq!(d.loan_start_date.as_deref(), Some("2024-01-01"));
}

#[test]
fn detail_view_without_rate_or_activity() {
    let mut c = calc();
    c.apr_basis_points = None;
    c.status = LoanStatus::Archived;
    c.payments.clear();
    let d = loan_detail_view(&c, &row(), "EUR", date(2025, 5, 1));
    assert_eq!(d.interest_message.as_deref(), Some("missing_apr"));
    assert_eq!(d.interest_remaining_estimate.amount_minor, 0);
    assert_eq!(d.last_payment_date, None);
    assert_eq!(d.progress, None);
    assert_eq!(d.apr_basis_points, None);
}
