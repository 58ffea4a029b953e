use dept_tracker::amortization::{periodic_interest_minor, periodic_principal_minor, periodic_total_minor};
use dept_tracker::calendar::Date;
use dept_tracker::types::{LoanCalcInput, LoanStatus, PaymentFrequency, PaymentType};

fn sample_loan() -> LoanCalcInput {
    LoanCalcInput {
        id: "1".into(),
        label: "Test".into(),
        status: LoanStatus::Active,
        remaining_balance_minor: 100_000_00,
        original_principal_minor: Some(100_000_00),
        payment_frequency: PaymentFrequency::Monthly,
        payment_type: PaymentType::TilgungPercent,
        tilgung_euro_minor: None,
        tilgung_percent_basis_points: Some(200),
        apr_basis_points: Some(400),
        loan_start_date: Date { year: 2024, month: 1, day: 1 },
        first_payment_date: Date { year: 2024, month: 2, day: 1 },
        recurring_extras: vec![],
        scheduled_extras: vec![],
        payments: vec![],
    }
}

#[test]
fn percent_tilgung_principal() {
    let loan = sample_loan();
    // 2% p.a. of 100k = 2000/year -> ~166.67/month
    let p = periodic_principal_minor(&loan);
    assert!(p >= 166_00 && p <= 167_00);
}

#[test]
fn euro_tilgung_principal() {
    let mut loan = sample_loan();
    loan.payment_type = PaymentType::TilgungEuro;
    loan.tilgung_euro_minor = Some(500_00);
    assert_eq!(periodic_principal_minor(&loan), 500_00);
}

#[test]
fn total_includes_interest_and_principal() {
    let loan = sample_loan();
    let total = periodic_total_minor(&loan);
    assert!(total > periodic_principal_minor(&loan));
}

#[test]
fn yearly_percent_tilgung_uses_full_annual_amount() {
    let mut loan = sample_loan();
    loan.payment_frequency = PaymentFrequency::Yearly;
    loan.tilgung_percent_basis_points = Some(200);
    assert_eq!(periodic_principal_minor(&loan), 2_000_00);
}

#[test]
fn yearly_euro_tilgung() {
    let mut loan = sample_loan();
    loan.payment_type = PaymentType::TilgungEuro;
    loan.tilgung_euro_minor = Some(1_200_00);
    loan.payment_frequency = PaymentFrequency::Yearly;
    assert_eq!(periodic_principal_minor(&loan), 1_200_00);
}

#[test]
fn last_payment_capped_at_balance_plus_interest() {
    let mut loan = sample_loan();
    loan.payment_type = PaymentType::TilgungEuro;
    loan.tilgung_euro_minor = Some(500_00);
    loan.remaining_balance_minor = 200_00;
    let total = periodic_total_minor(&loan);
    let interest = periodic_interest_minor(200_00, 400, PaymentFrequency::Monthly);
    assert_eq!(total, 200_00 + interest);
}

#[test]
fn interest_is_rounded_half_away_from_zero() {
    // 100 000.00 at 4 % a year: 333.333... a month
    assert_eq!(periodic_interest_minor(100_000_00, 400, PaymentFrequency::Monthly), 333_33);
    // 4 000.00 a year
    assert_eq!(periodic_interest_minor(100_000_00, 400, PaymentFrequency::Yearly), 4_000_00);
    // 150 minor at 1 % a year: 0.125 a month, rounds to 0; 1.5 a year rounds to 2
    assert_eq!(periodic_interest_minor(150, 100, PaymentFrequency::Monthly), 0);
    assert_eq!(periodic_interest_minor(150, 100, PaymentFrequency::Yearly), 2);
    // negative balances round symmetrically
    assert_eq!(periodic_interest_minor(-150, 100, PaymentFrequency::Yearly), -2);
    assert_eq!(periodic_interest_minor(0, 400, PaymentFrequency::Monthly), 0);
}

#[test]
fn missing_tilgung_counts_as_zero_principal() {
    let mut loan = sample_loan();
    loan.tilgung_percent_basis_points = None;
    assert_eq!(periodic_principal_minor(&loan), 0);
    loan.payment_type = PaymentType::TilgungEuro;
    loan.tilgung_euro_minor = Some(-5_00);
    assert_eq!(periodic_principal_minor(&loan), 0);
}

#[test]
fn percent_tilgung_without_original_uses_remaining_balance() {
    let mut loan = sample_loan();
    loan.original_principal_minor = None;
    loan.remaining_balance_minor = 60_000_00;
    // 2 % of 60 000.00 = 1 200.00 a year, 100.00 a month
    assert_eq!(periodic_principal_minor(&loan), 100_00);
}

#[test]
fn settled_loan_has_no_installment() {
    let mut loan = sample_loan();
    loan.remaining_balance_minor = 0;
    loan.payment_type = PaymentType::TilgungEuro;
    loan.tilgung_euro_minor = Some(500_00);
    assert_eq!(periodic_total_minor(&loan), 0);
}
