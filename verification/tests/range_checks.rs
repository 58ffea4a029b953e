use dept_tracker::amortization::installment_fits_at;
use dept_tracker::calendar::{is_valid_date, Date};
use dept_tracker::combined::combined_computable_check;
use dept_tracker::dashboard::{dashboard_computable_check, summarizable_check};
use dept_tracker::extras::extras_fit_check;
use dept_tracker::interest::interest_paid_fits_check;
use dept_tracker::payoff_timeline::timeline_computable_check;
use dept_tracker::projection::{amortization_fits_check, interest_schedule_fits_check, projectable_check};
use dept_tracker::types::{
    LoanCalcInput, LoanStatus, PaymentFrequency, PaymentRecord, PaymentType, RecurringExtra,
};

fn date(year: i32, month: u32, day: u32) -> Date {
    Date { year, month, day }
}

fn loan(balance: i64, apr: i32) -> LoanCalcInput {
    LoanCalcInput {
        id: "1".into(),
        label: "Test".into(),
        status: LoanStatus::Active,
        remaining_balance_minor: balance,
        original_principal_minor: Some(100_000_00),
        payment_frequency: PaymentFrequency::Monthly,
        payment_type: PaymentType::TilgungEuro,
        tilgung_euro_minor: Some(500_00),
        tilgung_percent_basis_points: None,
        apr_basis_points: Some(apr),
        loan_start_date: date(2024, 1, 1),
        first_payment_date: date(2024, 2, 1),
        recurring_extras: vec![],
        scheduled_extras: vec![],
        payments: vec![],
    }
}

#[test]
fn ordinary_loans_pass_every_check() {
    let as_of = date(2025, 1, 15);
    let l = loan(100_000_00, 400);
    assert!(is_valid_date(as_of));
    assert!(installment_fits_at(&l, l.remaining_balance_minor));
    assert!(extras_fit_check(&l));
    assert!(projectable_check(&l, as_of));
    assert!(amortization_fits_check(&l, as_of));
    assert!(interest_schedule_fits_check(&l, as_of));
    assert!(interest_paid_fits_check(&l));
    assert!(summarizable_check(&l, as_of));
    let loans = vec![l.clone(), loan(50_000_00, 250)];
    assert!(timeline_computable_check(&loans, as_of));
    assert!(dashboard_computable_check(&loans, as_of));
    assert!(combined_computable_check(&loans, as_of));
}

#[test]
fn out_of_range_figures_are_caught() {
    let as_of = date(2025, 1, 15);
    let huge = loan(i64::MAX, i32::MAX);
    assert!(!installment_fits_at(&huge, huge.remaining_balance_minor));
    assert!(projectable_check(&huge, as_of));
    assert!(!amortization_fits_check(&huge, as_of));
    assert!(!summarizable_check(&huge, as_of));
    assert!(!dashboard_computable_check(&[huge.clone()], as_of));
    assert!(!combined_computable_check(&[huge], as_of));

    let mut extras = loan(100_000_00, 400);
    extras.recurring_extras = vec![
        RecurringExtra { amount_minor: i64::MAX, month: 6, day: 1, enabled: true },
        RecurringExtra { amount_minor: 1, month: 7, day: 1, enabled: false },
    ];
    assert!(!extras_fit_check(&extras));
    assert!(!projectable_check(&extras, as_of));

    let mut paid = loan(100_000_00, 400);
    let p = PaymentRecord { paid_at: date(2024, 2, 1), amount_minor: 1, interest_portion_minor: i64::MAX, principal_portion_minor: 0, event_type: "regular".into() };
    paid.payments = vec![p.clone(), p];
    assert!(!interest_paid_fits_check(&paid));

    assert!(!is_valid_date(date(2025, 2, 29)));
    assert!(!projectable_check(&loan(1, 1), date(2025, 2, 29)));
    assert!(!timeline_computable_check(&[], date(262_100, 1, 1)));
}

#[test]
fn settled_loans_need_no_projection() {
    let as_of = date(2025, 1, 15);
    let mut settled = loan(0, 400);
    settled.first_payment_date = date(2024, 2, 30);
    assert!(amortization_fits_check(&settled, as_of));
    assert!(interest_schedule_fits_check(&settled, as_of));
    assert!(combined_computable_check(&[settled], as_of));
}
