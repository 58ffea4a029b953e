use dept_tracker::calendar::Date;
use dept_tracker::projection::{
    monthly_equivalent_payment, project_balance_and_interest_schedule, project_balance_schedule,
    project_payoff,
};
use dept_tracker::types::{
    LoanCalcInput, LoanStatus, PaymentFrequency, PaymentType, RecurringExtra, ScheduledExtra,
};

fn date(year: i32, month: u32, day: u32) -> Date {
    Date { year, month, day }
}

fn sample_loan() -> LoanCalcInput {
    LoanCalcInput {
        id: "1".into(),
        label: "Test".into(),
        status: LoanStatus::Active,
        remaining_balance_minor: 100_000_00,
        original_principal_minor: Some(120_000_00),
        payment_frequency: PaymentFrequency::Monthly,
        payment_type: PaymentType::TilgungEuro,
        tilgung_euro_minor: Some(1_000_00),
        tilgung_percent_basis_points: None,
        apr_basis_points: Some(300),
        loan_start_date: date(2024, 1, 1),
        first_payment_date: date(2024, 2, 1),
        recurring_extras: vec![],
        scheduled_extras: vec![],
        payments: vec![],
    }
}

#[test]
fn projection_computes_periodic_payment() {
    let loan = sample_loan();
    let result = project_payoff(&loan, date(2025, 5, 1));
    assert!(result.periodic_payment_minor > 1_000_00);
}

#[test]
fn zero_balance_payoff_is_as_of() {
    let mut loan = sample_loan();
    loan.remaining_balance_minor = 0;
    let as_of = date(2025, 5, 1);
    let result = project_payoff(&loan, as_of);
    assert_eq!(result.projected_payoff_date, Some(as_of));
}

#[test]
fn sonderzahlung_speeds_up_payoff() {
    let base = sample_loan();
    let mut with_extra = sample_loan();
    with_extra.scheduled_extras.push(ScheduledExtra {
        amount_minor: 50_000_00,
        due_date: date(2025, 8, 1),
        status: "pending".into(),
    });
    let as_of = date(2025, 5, 1);
    let p_base = project_payoff(&base, as_of);
    let p_extra = project_payoff(&with_extra, as_of);
    if let (Some(earlier), Some(later)) = (p_extra.projected_payoff_date, p_base.projected_payoff_date) {
        assert!(earlier <= later);
    }
}

#[test]
fn recurring_extra_included_in_projection() {
    let mut loan = sample_loan();
    loan.recurring_extras.push(RecurringExtra {
        amount_minor: 5_000_00,
        month: 12,
        day: 1,
        enabled: true,
    });
    let result = project_payoff(&loan, date(2025, 5, 1));
    assert!(result.periodic_payment_minor > 0);
    assert!(result.projected_payoff_date.is_some());
}

#[test]
fn payoff_date_counts_whole_installments() {
    // 100 000.00 at 1 000.00 a month: the 100th installment after 2025-05-01 clears it.
    let result = project_payoff(&sample_loan(), date(2025, 5, 1));
    assert_eq!(result.projected_payoff_date, Some(date(2033, 9, 1)));
    // 100 000.00 * 3 % / 12 = 250.00 interest plus 1 000.00 Tilgung
    assert_eq!(result.periodic_payment_minor, 1_250_00);
}

#[test]
fn extra_payment_moves_payoff_earlier() {
    let mut with_extra = sample_loan();
    with_extra.scheduled_extras.push(ScheduledExtra {
        amount_minor: 50_000_00,
        due_date: date(2025, 8, 1),
        status: "pending".into(),
    });
    let without = project_payoff(&sample_loan(), date(2025, 5, 1)).projected_payoff_date.unwrap();
    let with = project_payoff(&with_extra, date(2025, 5, 1)).projected_payoff_date.unwrap();
    assert!(with < without);
    assert!(with > date(2025, 5, 1));
}

#[test]
fn cancelled_extra_is_ignored() {
    let mut loan = sample_loan();
    loan.scheduled_extras.push(ScheduledExtra {
        amount_minor: 50_000_00,
        due_date: date(2025, 8, 1),
        status: "cancelled".into(),
    });
    assert_eq!(
        project_payoff(&loan, date(2025, 5, 1)).projected_payoff_date,
        project_payoff(&sample_loan(), date(2025, 5, 1)).projected_payoff_date
    );
}

#[test]
fn loan_without_tilgung_is_not_paid_off_within_the_horizon() {
    let mut loan = sample_loan();
    loan.tilgung_euro_minor = Some(0);
    assert_eq!(project_payoff(&loan, date(2025, 5, 1)).projected_payoff_date, None);
}

#[test]
fn balance_schedule_starts_at_as_of_and_never_increases() {
    let as_of = date(2025, 5, 1);
    let points = project_balance_schedule(&sample_loan(), as_of);
    assert_eq!(points[0], (as_of, 100_000_00));
    assert_eq!(points[1], (date(2025, 6, 1), 99_000_00));
    for w in points.windows(2) {
        assert!(w[1].1 <= w[0].1);
    }
    assert_eq!(points.last().unwrap().1, 0);
    assert_eq!(points.len(), 101);
}

#[test]
fn balance_schedule_of_settled_loan_is_one_point() {
    let mut loan = sample_loan();
    loan.remaining_balance_minor = 0;
    let as_of = date(2025, 5, 1);
    assert_eq!(project_balance_schedule(&loan, as_of), vec![(as_of, 0)]);
}

#[test]
fn remaining_interest_is_a_suffix_sum() {
    let mut loan = sample_loan();
    loan.remaining_balance_minor = 3_000_00;
    loan.apr_basis_points = Some(1200);
    let as_of = date(2025, 5, 1);
    let points = project_balance_and_interest_schedule(&loan, as_of);
    // interest: 30.00, 20.00, 10.00 on balances 3 000, 2 000, 1 000
    assert_eq!(
        points,
        vec![
            (as_of, 3_000_00, 60_00),
            (date(2025, 6, 1), 2_000_00, 30_00),
            (date(2025, 7, 1), 1_000_00, 10_00),
            (date(2025, 8, 1), 0, 0),
        ]
    );
}

#[test]
fn monthly_equivalent_of_yearly_payment_is_a_twelfth() {
    assert_eq!(monthly_equivalent_payment(1_200_00, PaymentFrequency::Yearly), 100_00);
    assert_eq!(monthly_equivalent_payment(1_000, PaymentFrequency::Yearly), 83);
    assert_eq!(monthly_equivalent_payment(1_000, PaymentFrequency::Monthly), 1_000);
}
