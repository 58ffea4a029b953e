use dept_tracker::calendar::Date;
use dept_tracker::payment_split::{extra_payment_split, split_payment, split_regular_payment, split_with_terms};
use dept_tracker::types::{LoanCalcInput, LoanStatus, PaymentFrequency, PaymentType};

fn euro_loan(balance: i64) -> LoanCalcInput {
    LoanCalcInput {
        id: "1".into(),
        label: "Test".into(),
        status: LoanStatus::Active,
        remaining_balance_minor: balance,
        original_principal_minor: Some(100_000_00),
        payment_frequency: PaymentFrequency::Monthly,
        payment_type: PaymentType::TilgungEuro,
        tilgung_euro_minor: Some(500_00),
        tilgung_percent_basis_points: None,
        apr_basis_points: Some(400),
        loan_start_date: Date { year: 2024, month: 1, day: 1 },
        first_payment_date: Date { year: 2024, month: 2, day: 1 },
        recurring_extras: vec![],
        scheduled_extras: vec![],
        payments: vec![],
    }
}

#[test]
fn regular_split_interest_plus_tilgung_euro() {
    let loan = euro_loan(100_000_00);
    let split = split_regular_payment(&loan, 100_000_00);
    assert_eq!(split.interest_portion_minor, 333_33);
    assert_eq!(split.principal_portion_minor, 500_00);
    assert_eq!(split.balance_after_minor, 99_500_00);
}

#[test]
fn last_payment_caps_principal_at_balance() {
    let loan = euro_loan(300_00);
    let split = split_regular_payment(&loan, 300_00);
    assert_eq!(split.principal_portion_minor, 300_00);
    assert_eq!(split.balance_after_minor, 0);
    assert!(split.interest_portion_minor > 0);
}

#[test]
fn percent_tilgung_uses_original_principal_base() {
    let loan = LoanCalcInput {
        payment_type: PaymentType::TilgungPercent,
        tilgung_euro_minor: None,
        tilgung_percent_basis_points: Some(200),
        remaining_balance_minor: 80_000_00,
        original_principal_minor: Some(100_000_00),
        ..euro_loan(80_000_00)
    };
    let split = split_regular_payment(&loan, 80_000_00);
    assert_eq!(split.principal_portion_minor, 166_67);
}

#[test]
fn zero_balance_yields_zero_split() {
    let loan = euro_loan(0);
    let split = split_regular_payment(&loan, 0);
    assert_eq!(split.interest_portion_minor, 0);
    assert_eq!(split.principal_portion_minor, 0);
    assert_eq!(split.balance_after_minor, 0);
}

#[test]
fn payment_below_interest_goes_to_interest_only() {
    let loan = euro_loan(100_000_00);
    let split = split_payment(&loan, 200_00, 100_000_00);
    assert_eq!(split.interest_portion_minor, 200_00);
    assert_eq!(split.principal_portion_minor, 0);
    assert_eq!(split.balance_after_minor, 100_000_00);
}

#[test]
fn overpayment_clears_the_balance() {
    let loan = euro_loan(1_000_00);
    let split = split_payment(&loan, 5_000_00, 1_000_00);
    assert_eq!(split.interest_portion_minor, 3_33);
    assert_eq!(split.principal_portion_minor, 1_000_00);
    assert_eq!(split.balance_after_minor, 0);
}

#[test]
fn missing_rate_splits_without_interest() {
    let split = split_with_terms(None, PaymentFrequency::Yearly, 700_00, 10_000_00);
    assert_eq!(split.interest_portion_minor, 0);
    assert_eq!(split.principal_portion_minor, 700_00);
    assert_eq!(split.balance_after_minor, 9_300_00);
}

#[test]
fn yearly_rate_applies_in_full() {
    let split = split_with_terms(Some(500), PaymentFrequency::Yearly, 2_000_00, 10_000_00);
    assert_eq!(split.interest_portion_minor, 500_00);
    assert_eq!(split.principal_portion_minor, 1_500_00);
    assert_eq!(split.balance_after_minor, 8_500_00);
}

#[test]
fn parts_add_up_to_the_payment() {
    let loan = euro_loan(100_000_00);
    let split = split_payment(&loan, 833_33, 100_000_00);
    assert_eq!(split.interest_portion_minor + split.principal_portion_minor, 833_33);
    assert_eq!(split.balance_after_minor, 100_000_00 - split.principal_portion_minor);
}

#[test]
fn half_unit_interest_rounds_both_parts_up() {
    // 0.50 minor units of interest: both parts round up and exceed the payment by one
    let split = split_with_terms(Some(100), PaymentFrequency::Yearly, 10, 50);
    assert_eq!(split.interest_portion_minor, 1);
    assert_eq!(split.principal_portion_minor, 10);
    assert_eq!(split.balance_after_minor, 41);
}

#[test]
fn extra_payment_goes_to_principal_in_full() {
    let s = extra_payment_split(50_000_00, 5_000_00);
    assert_eq!((s.interest_portion_minor, s.principal_portion_minor, s.balance_after_minor), (0, 5_000_00, 45_000_00));
    let over = extra_payment_split(1_000_00, 5_000_00);
    assert_eq!((over.principal_portion_minor, over.balance_after_minor), (5_000_00, 0));
    let odd = extra_payment_split(i64::MIN, -5);
    assert_eq!(odd.balance_after_minor, 0);
    let big = extra_payment_split(i64::MAX, -5);
    assert_eq!(big.balance_after_minor, i64::MAX);
}
