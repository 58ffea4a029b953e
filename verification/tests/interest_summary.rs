use dept_tracker::calendar::Date;
use dept_tracker::interest::compute_interest_summary;
use dept_tracker::types::{LoanCalcInput, LoanStatus, PaymentFrequency, PaymentRecord, PaymentType};

fn sample_loan() -> LoanCalcInput {
    LoanCalcInput {
        id: "1".into(),
        label: "Test".into(),
        status: LoanStatus::Active,
        remaining_balance_minor: 50_000_00,
        original_principal_minor: Some(100_000_00),
        payment_frequency: PaymentFrequency::Monthly,
        payment_type: PaymentType::TilgungPercent,
        tilgung_euro_minor: None,
        tilgung_percent_basis_points: Some(200),
        apr_basis_points: Some(400),
        loan_start_date: Date { year: 2024, month: 1, day: 1 },
        first_payment_date: Date { year: 2024, month: 2, day: 1 },
        recurring_extras: vec![],
        scheduled_extras: vec![],
        payments: vec![],
    }
}

#[test]
fn interest_summary_computable_with_apr_and_tilgung() {
    let loan = sample_loan();
    let summary = compute_interest_summary(&loan, Date { year: 2025, month: 1, day: 1 });
    assert!(summary.computable);
    assert!(summary.interest_remaining_minor >= 0);
}

#[test]
fn interest_summary_not_computable_without_apr() {
    let mut loan = sample_loan();
    loan.apr_basis_points = None;
    let summary = compute_interest_summary(&loan, Date { year: 2025, month: 1, day: 1 });
    assert!(!summary.computable);
}

fn payment(interest: i64) -> PaymentRecord {
    PaymentRecord {
        paid_at: Date { year: 2024, month: 3, day: 1 },
        amount_minor: 1_000_00,
        interest_portion_minor: interest,
        principal_portion_minor: 1_000_00 - interest,
        event_type: "regular".into(),
    }
}

#[test]
fn interest_paid_sums_recorded_payments() {
    let mut loan = sample_loan();
    loan.payments = vec![payment(150_00), payment(148_50), payment(0)];
    let summary = compute_interest_summary(&loan, Date { year: 2025, month: 1, day: 1 });
    assert_eq!(summary.interest_paid_minor, 298_50);
    assert_eq!(summary.message, None);
    loan.apr_basis_points = None;
    let summary = compute_interest_summary(&loan, Date { year: 2025, month: 1, day: 1 });
    assert_eq!(summary.interest_paid_minor, 298_50);
    assert_eq!(summary.interest_remaining_minor, 0);
    assert_eq!(summary.message.as_deref(), Some("missing_apr"));
}

#[test]
fn remaining_interest_of_a_short_loan() {
    let mut loan = sample_loan();
    loan.payment_type = PaymentType::TilgungEuro;
    loan.tilgung_euro_minor = Some(1_000_00);
    loan.remaining_balance_minor = 3_000_00;
    loan.apr_basis_points = Some(1200);
    // 30.00 + 20.00 + 10.00 on balances 3 000, 2 000, 1 000
    let summary = compute_interest_summary(&loan, Date { year: 2025, month: 5, day: 1 });
    assert_eq!(summary.interest_remaining_minor, 60_00);
    loan.apr_basis_points = Some(0);
    let summary = compute_interest_summary(&loan, Date { year: 2025, month: 5, day: 1 });
    assert_eq!(summary.interest_remaining_minor, 0);
}
