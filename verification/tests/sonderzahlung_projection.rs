use dept_tracker::calendar::Date;
use dept_tracker::projection::project_payoff;
use dept_tracker::types::{
    LoanCalcInput, LoanStatus, PaymentFrequency, PaymentType, RecurringExtra, ScheduledExtra,
};

fn base_loan() -> LoanCalcInput {
    LoanCalcInput {
        id: "1".into(),
        label: "Test".into(),
        status: LoanStatus::Active,
        remaining_balance_minor: 500_000_00,
        original_principal_minor: Some(600_000_00),
        payment_frequency: PaymentFrequency::Monthly,
        payment_type: PaymentType::TilgungEuro,
        tilgung_euro_minor: Some(2_000_00),
        tilgung_percent_basis_points: None,
        apr_basis_points: Some(300),
        loan_start_date: Date { year: 2024, month: 1, day: 1 },
        first_payment_date: Date { year: 2024, month: 2, day: 1 },
        recurring_extras: vec![],
        scheduled_extras: vec![],
        payments: vec![],
    }
}

#[test]
fn extra_payment_speeds_up_payoff() {
    let without = base_loan();
    let mut with_extra = base_loan();
    with_extra.scheduled_extras.push(ScheduledExtra {
        amount_minor: 50_000_00,
        due_date: Date { year: 2025, month: 7, day: 1 },
        status: "pending".into(),
    });
    let as_of = Date { year: 2025, month: 5, day: 1 };
    let p_without = project_payoff(&without, as_of);
    let p_with = project_payoff(&with_extra, as_of);
    if let (Some(earlier), Some(later)) = (p_with.projected_payoff_date, p_without.projected_payoff_date) {
        assert!(earlier <= later);
    }
}

#[test]
fn recurring_yearly_extra_included() {
    let mut loan = base_loan();
    loan.recurring_extras.push(RecurringExtra {
        amount_minor: 5_000_00,
        month: 12,
        day: 1,
        enabled: true,
    });
    let result = project_payoff(&loan, Date { year: 2025, month: 5, day: 1 });
    assert!(result.periodic_payment_minor > 0);
}

#[test]
fn recurring_extra_shortens_the_schedule() {
    let mut loan = base_loan();
    loan.recurring_extras.push(RecurringExtra {
        amount_minor: 24_000_00,
        month: 12,
        day: 1,
        enabled: true,
    });
    let as_of = Date { year: 2025, month: 5, day: 1 };
    let with = project_payoff(&loan, as_of).projected_payoff_date.unwrap();
    let without = project_payoff(&base_loan(), as_of).projected_payoff_date.unwrap();
    assert!(with < without);
    // a disabled extra changes nothing
    loan.recurring_extras[0].enabled = false;
    assert_eq!(project_payoff(&loan, as_of).projected_payoff_date, Some(without));
}
