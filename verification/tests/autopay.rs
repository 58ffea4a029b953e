use dept_tracker::autopay::due_regular_installments;
use dept_tracker::calendar::Date;
use dept_tracker::types::{LoanCalcInput, LoanStatus, PaymentFrequency, PaymentRecord, PaymentType};

fn date(year: i32, month: u32, day: u32) -> Date {
    Date { year, month, day }
}

fn euro_loan(balance: i64) -> LoanCalcInput {
    LoanCalcInput {
        id: "1".into(),
        label: "Test".into(),
        status: LoanStatus::Active,
        remaining_balance_minor: balance,
        original_principal_minor: Some(100_000_00),
        payment_frequency: PaymentFrequency::Monthly,
        payment_type: PaymentType::TilgungEuro,
        tilgung_euro_minor: Some(500_00),
        tilgung_percent_basis_points: None,
        apr_basis_points: Some(400),
        loan_start_date: date(2024, 1, 1),
        first_payment_date: date(2024, 2, 1),
        recurring_extras: vec![],
        scheduled_extras: vec![],
        payments: vec![],
    }
}

#[test]
fn installments_due_since_the_first_payment_date() {
    let (due, balance) = due_regular_installments(&euro_loan(100_000_00), date(2024, 4, 15)).unwrap();
    let dates: Vec<Date> = due.iter().map(|i| i.paid_at).collect();
    assert_eq!(dates, vec![date(2024, 2, 1), date(2024, 3, 1), date(2024, 4, 1)]);
    let amounts: Vec<i64> = due.iter().map(|i| i.amount_minor).collect();
    assert_eq!(amounts, vec![833_33, 831_67, 830_00]);
    assert_eq!(due[0].split.interest_portion_minor, 333_33);
    assert_eq!(due[0].split.principal_portion_minor, 500_00);
    assert_eq!(due[0].split.balance_after_minor, 99_500_00);
    assert_eq!(due[1].split.balance_after_minor, 99_000_00);
    assert_eq!(balance, 98_500_00);
    assert_eq!(due[2].split.balance_after_minor, balance);
}

#[test]
fn installments_resume_after_the_last_recorded_regular_payment() {
    let mut loan = euro_loan(99_000_00);
    loan.payments = vec![
        PaymentRecord { paid_at: date(2024, 2, 1), amount_minor: 833_33, interest_portion_minor: 333_33, principal_portion_minor: 500_00, event_type: "regular".into() },
        PaymentRecord { paid_at: date(2024, 3, 1), amount_minor: 831_67, interest_portion_minor: 331_67, principal_portion_minor: 500_00, event_type: "regular".into() },
        PaymentRecord { paid_at: date(2024, 3, 20), amount_minor: 1_000_00, interest_portion_minor: 0, principal_portion_minor: 1_000_00, event_type: "sonderzahlung".into() },
    ];
    let (due, balance) = due_regular_installments(&loan, date(2024, 4, 15)).unwrap();
    assert_eq!(due.len(), 1);
    assert_eq!(due[0].paid_at, date(2024, 4, 1));
    assert_eq!(due[0].amount_minor, 830_00);
    assert_eq!(balance, 98_500_00);
}

#[test]
fn installments_stop_when_the_loan_is_paid_off() {
    let (due, balance) = due_regular_installments(&euro_loan(600_00), date(2024, 6, 1)).unwrap();
    assert_eq!(due.len(), 2);
    assert_eq!(due[0].amount_minor, 502_00);
    assert_eq!(due[1].amount_minor, 100_33);
    assert_eq!(due[1].split.balance_after_minor, 0);
    assert_eq!(balance, 0);
}

#[test]
fn nothing_is_due_before_the_first_payment_date_or_on_archived_loans() {
    let (due, balance) = due_regular_installments(&euro_loan(100_000_00), date(2024, 1, 31)).unwrap();
    assert!(due.is_empty());
    assert_eq!(balance, 100_000_00);
    let mut archived = euro_loan(100_000_00);
    archived.status = LoanStatus::Archived;
    let (due, balance) = due_regular_installments(&archived, date(2024, 6, 1)).unwrap();
    assert!(due.is_empty());
    assert_eq!(balance, 100_000_00);
}

#[test]
fn impossible_dates_are_refused() {
    assert!(due_regular_installments(&euro_loan(100_000_00), date(2024, 2, 30)).is_none());
    let mut loan = euro_loan(100_000_00);
    loan.first_payment_date = date(2024, 13, 1);
    assert!(due_regular_installments(&loan, date(2024, 6, 1)).is_none());
}

#[test]
fn a_second_run_on_the_same_day_finds_nothing() {
    let loan = euro_loan(100_000_00);
    let as_of = date(2024, 6, 10);
    let (due, balance) = due_regular_installments(&loan, as_of).unwrap();
    assert_eq!(due.len(), 5);
    let mut after = loan.clone();
    after.remaining_balance_minor = balance;
    for i in &due {
        after.payments.push(PaymentRecord {
            paid_at: i.paid_at,
            amount_minor: i.amount_minor,
            interest_portion_minor: i.split.interest_portion_minor,
            principal_portion_minor: i.split.principal_portion_minor,
            event_type: "regular".into(),
        });
    }
    let (again, same) = due_regular_installments(&after, as_of).unwrap();
    assert!(again.is_empty());
    assert_eq!(same, balance);
    let (next_month, _) = due_regular_installments(&after, date(2024, 7, 1)).unwrap();
    assert_eq!(next_month.len(), 1);
    assert_eq!(next_month[0].paid_at, date(2024, 7, 1));
}
