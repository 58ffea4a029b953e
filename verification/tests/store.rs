use dept_tracker::api::ApiErrorKind;
use dept_tracker::calendar::Date;
use dept_tracker::requests::{CreateLoanParams, UpdateLoanBody};
use dept_tracker::store::{
    backfill_splits, check_new_loan, loan_calc_from_row, merge_loan_update, prepare_loan_update,
    stored_schedule_dates, LoanRow, UpdateLoanParams,
};
use dept_tracker::types::{LoanStatus, PaymentFrequency, PaymentType};

fn date(year: i32, month: u32, day: u32) -> Date {
    Date { year, month, day }
}

fn row() -> LoanRow {
    LoanRow {
        id: "loan-1".into(),
        label: "Mortgage".into(),
        status: "active".into(),
        setup_mode: "quick".into(),
        original_principal_minor: Some(200_000_00),
        remaining_balance_minor: 150_000_00,
        payment_frequency: "monthly".into(),
        payment_type: "tilgung_euro".into(),
        fixed_payment_minor: Some(800_00),
        tilgung_percent_basis_points: None,
        apr_basis_points: Some(375),
        loan_start_date: Some("2020-03-01".into()),
        first_payment_date: Some("2020-04-01".into()),
        created_at: "2020-02-15T10:00:00+00:00".into(),
        updated_at: "2024-01-01T00:00:00+00:00".into(),
        archived_at: None,
        notes: Some("house".into()),
    }
}

fn empty_update() -> UpdateLoanBody {
    UpdateLoanBody {
        label: None,
        tilgung_euro_minor: None,
        tilgung_percent_basis_points: None,
        fixed_payment_minor: None,
        apr_basis_points: None,
        payment_frequency: None,
        payment_type: None,
        notes: None,
    }
}

fn params(setup_mode: &str) -> CreateLoanParams {
    CreateLoanParams {
        label: "Car".into(),
        setup_mode: setup_mode.into(),
        remaining_balance_minor: 10_000_00,
        original_principal_minor: None,
        payment_frequency: PaymentFrequency::Monthly,
        payment_type: PaymentType::TilgungEuro,
        tilgung_euro_minor: Some(500_00),
        tilgung_percent_basis_points: None,
        apr_basis_points: Some(1200),
        loan_start_date: None,
        first_payment_date: None,
        recurring: vec![],
        backfill: vec![(1_000_00, date(2024, 2, 1)), (1_000_00, date(2024, 3, 1))],
    }
}

#[test]
fn stored_row_becomes_calculation_input() {
    let recurring = vec![(500_00, 12u8, 1u8, 1i64), (100_00, 6u8, 15u8, 0i64)];
    let scheduled = vec![
        (1_000_00, "2025-07-01".to_string(), "pending".to_string()),
        (2_000_00, "garbage".to_string(), "pending".to_string()),
    ];
    let payments = vec![
        ("2024-01-01".to_string(), "regular".to_string(), 1_200_00, 400_00, 800_00),
        ("".to_string(), "regular".to_string(), 1, 1, 0),
    ];
    let c = loan_calc_from_row(&row(), &recurring, &scheduled, &payments, date(2025, 1, 1)).unwrap();
    assert_eq!(c.id, "loan-1");
    assert_eq!(c.status, LoanStatus::Active);
    assert_eq!(c.payment_frequency, PaymentFrequency::Monthly);
    assert_eq!(c.payment_type, PaymentType::TilgungEuro);
    assert_eq!(c.tilgung_euro_minor, Some(800_00));
    assert_eq!(c.loan_start_date, date(2020, 3, 1));
    assert_eq!(c.first_payment_date, date(2020, 4, 1));
    assert_eq!(c.recurring_extras.len(), 2);
    assert!(c.recurring_extras[0].enabled);
    assert!(!c.recurring_extras[1].enabled);
    assert_eq!(c.scheduled_extras.len(), 1);
    assert_eq!(c.scheduled_extras[0].due_date, date(2025, 7, 1));
    assert_eq!(c.payments.len(), 1);
    assert_eq!(c.payments[0].paid_at, date(2024, 1, 1));
    assert_eq!(c.payments[0].interest_portion_minor, 400_00);
}

#[test]
fn missing_dates_fall_back_to_creation_then_today() {
    let mut r = row();
    r.loan_start_date = None;
    r.first_payment_date = None;
    let c = loan_calc_from_row(&r, &vec![], &vec![], &vec![], date(2025, 1, 1)).unwrap();
    assert_eq!(c.loan_start_date, date(2020, 2, 15));
    assert_eq!(c.first_payment_date, date(2020, 2, 15));
    r.created_at = "yesterday, roughly".into();
    r.loan_start_date = Some("not a date".into());
    let c = loan_calc_from_row(&r, &vec![], &vec![], &vec![], date(2025, 1, 1)).unwrap();
    assert_eq!(c.loan_start_date, date(2025, 1, 1));
    assert_eq!(c.first_payment_date, date(2025, 1, 1));
}

#[test]
fn unknown_stored_words_take_defaults() {
    let mut r = row();
    r.status = "frozen".into();
    r.payment_frequency = "quarterly".into();
    r.payment_type = "mystery".into();
    let c = loan_calc_from_row(&r, &vec![], &vec![], &vec![], date(2025, 1, 1)).unwrap();
    assert_eq!(c.status, LoanStatus::Active);
    assert_eq!(c.payment_frequency, PaymentFrequency::Monthly);
    assert_eq!(c.payment_type, PaymentType::TilgungEuro);
    r.status = "archived".into();
    r.payment_frequency = "yearly".into();
    r.payment_type = "percent".into();
    let c = loan_calc_from_row(&r, &vec![], &vec![], &vec![], date(2025, 1, 1)).unwrap();
    assert_eq!(c.status, LoanStatus::Archived);
    assert_eq!(c.payment_frequency, PaymentFrequency::Yearly);
    assert_eq!(c.payment_type, PaymentType::TilgungPercent);
}

#[test]
fn uncuttable_creation_time_is_refused_only_when_needed() {
    let mut r = row();
    r.created_at = "short".into();
    assert!(loan_calc_from_row(&r, &vec![], &vec![], &vec![], date(2025, 1, 1)).is_some());
    r.loan_start_date = None;
    assert!(loan_calc_from_row(&r, &vec![], &vec![], &vec![], date(2025, 1, 1)).is_none());
    // ten bytes ending inside a two-byte character
    r.created_at = "2024-01-0é".into();
    assert!(loan_calc_from_row(&r, &vec![], &vec![], &vec![], date(2025, 1, 1)).is_none());
}

#[test]
fn update_keeps_stored_values_where_none_given() {
    let p = prepare_loan_update(empty_update(), &row()).unwrap();
    assert_eq!(p.tilgung_euro_minor, Some(800_00));
    assert_eq!(p.payment_type.as_deref(), Some("tilgung_euro"));
    let u = merge_loan_update(row(), p);
    assert_eq!(u.label, "Mortgage");
    assert_eq!(u.payment_frequency, "monthly");
    assert_eq!(u.fixed_payment_minor, Some(800_00));
    assert_eq!(u.apr_basis_points, Some(375));
    assert_eq!(u.notes.as_deref(), Some("house"));
}

#[test]
fn update_takes_given_values() {
    let mut body = empty_update();
    body.label = Some("Home".into());
    body.payment_type = Some("percent".into());
    body.tilgung_percent_basis_points = Some(150);
    body.apr_basis_points = Some(400);
    body.notes = Some("renewed".into());
    let p = prepare_loan_update(body, &row()).unwrap();
    assert_eq!(p.payment_type.as_deref(), Some("tilgung_percent"));
    let u = merge_loan_update(row(), p);
    assert_eq!(u.label, "Home");
    assert_eq!(u.payment_type, "tilgung_percent");
    assert_eq!(u.tilgung_percent_basis_points, Some(150));
    assert_eq!(u.apr_basis_points, Some(400));
    assert_eq!(u.notes.as_deref(), Some("renewed"));
}

#[test]
fn update_rejections() {
    let mut body = empty_update();
    body.payment_type = Some("nonsense".into());
    let e = prepare_loan_update(body, &row()).unwrap_err();
    assert_eq!(e.kind, ApiErrorKind::BadRequest);
    assert_eq!(e.message, "invalid payment_type; use tilgung_percent or tilgung_euro");

    let mut r = row();
    r.apr_basis_points = None;
    let e = prepare_loan_update(empty_update(), &r).unwrap_err();
    assert_eq!(e.message, "interest rate (APR) is required");

    let mut body = empty_update();
    body.tilgung_euro_minor = Some(0);
    let e = prepare_loan_update(body, &row()).unwrap_err();
    assert_eq!(e.message, "Tilgung (€) must be positive");

    let mut body = empty_update();
    body.payment_type = Some("tilgung_percent".into());
    let e = prepare_loan_update(body, &row()).unwrap_err();
    assert_eq!(e.message, "prozentuale Tilgung (%) is required");
}

#[test]
fn merge_without_any_change_keeps_the_row() {
    let params = UpdateLoanParams {
        label: None,
        tilgung_euro_minor: None,
        tilgung_percent_basis_points: None,
        apr_basis_points: None,
        payment_frequency: None,
        payment_type: None,
        notes: None,
    };
    let u = merge_loan_update(row(), params);
    assert_eq!(u.label, "Mortgage");
    assert_eq!(u.payment_type, "tilgung_euro");
    assert_eq!(u.notes.as_deref(), Some("house"));
}

#[test]
fn new_loan_terms_are_validated() {
    assert!(check_new_loan(&params("quick")).is_ok());
    let mut p = params("quick");
    p.label = "   ".into();
    assert_eq!(check_new_loan(&p), Err("loan label is required".to_string()));
    let mut p = params("quick");
    p.apr_basis_points = None;
    assert_eq!(check_new_loan(&p), Err("interest rate (APR) is required".to_string()));
}

#[test]
fn backfill_only_for_advanced_setup() {
    let (splits, balance) = backfill_splits(&params("quick"));
    assert!(splits.is_empty());
    assert_eq!(balance, 10_000_00);
    let (splits, balance) = backfill_splits(&params("advanced"));
    assert_eq!(splits.len(), 2);
    // 1 % a month on 10 000.00, then on 9 100.00
    assert_eq!(splits[0].interest_portion_minor, 100_00);
    assert_eq!(splits[0].principal_portion_minor, 900_00);
    assert_eq!(splits[0].balance_after_minor, 9_100_00);
    assert_eq!(splits[1].interest_portion_minor, 91_00);
    assert_eq!(splits[1].balance_after_minor, 8_191_00);
    assert_eq!(balance, 8_191_00);
}

#[test]
fn schedule_dates_default_to_today() {
    let today = date(2025, 3, 9);
    assert_eq!(stored_schedule_dates(&params("quick"), today), ("2025-03-09".to_string(), "2025-03-09".to_string()));
    let mut p = params("quick");
    p.loan_start_date = Some(date(2024, 1, 1));
    assert_eq!(stored_schedule_dates(&p, today), ("2024-01-01".to_string(), "2024-01-01".to_string()));
    p.first_payment_date = Some(date(2024, 2, 1));
    assert_eq!(stored_schedule_dates(&p, today), ("2024-01-01".to_string(), "2024-02-01".to_string()));
}
