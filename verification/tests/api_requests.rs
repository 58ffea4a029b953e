use dept_tracker::api::{
    check_new_account, cleared_session_cookie, is_public_path, parse_frequency, parse_payment_type,
    session_cookie, session_from_cookie_header, ApiError, ApiErrorKind, SESSION_COOKIE,
};
use dept_tracker::calendar::Date;
use dept_tracker::requests::{
    check_delete_confirmed, check_immediate_payment, check_login_allowed, create_loan_params,
    parse_request_date, BackfillInput, CreateLoanBody, DeleteQuery, ImmediateBody, ImmediateBooking,
    RecurringInput,
};
use dept_tracker::types::{PaymentFrequency, PaymentType};

fn date(year: i32, month: u32, day: u32) -> Date {
    Date { year, month, day }
}

fn assert_bad_request(e: ApiError, message: &str) {
    assert_eq!(e.kind, ApiErrorKind::BadRequest);
    assert_eq!(e.message, message);
}

fn create_body() -> CreateLoanBody {
    CreateLoanBody {
        label: "Mortgage".into(),
        setup_mode: "quick".into(),
        remaining_balance_minor: 20_000_000,
        original_principal_minor: None,
        payment_frequency: "monthly".into(),
        payment_type: "tilgung_euro".into(),
        tilgung_euro_minor: Some(120_000),
        tilgung_percent_basis_points: None,
        fixed_payment_minor: None,
        apr_basis_points: Some(375),
        loan_start_date: None,
        first_payment_date: None,
        recurring_sonderzahlungen: None,
        backfill_payments: None,
    }
}

#[test]
fn session_cookie_holds_token_for_thirty_days() {
    assert_eq!(SESSION_COOKIE, "dept_tracker_session");
    assert_eq!(
        session_cookie("abc"),
        "dept_tracker_session=abc; Path=/; HttpOnly; SameSite=Lax; Max-Age=2592000"
    );
    assert_eq!(
        cleared_session_cookie(),
        "dept_tracker_session=; Path=/; HttpOnly; SameSite=Lax; Max-Age=0"
    );
}

#[test]
fn session_token_is_read_from_cookie_header() {
    assert_eq!(
        session_from_cookie_header("theme=dark; dept_tracker_session=tok123; lang=de"),
        Some("tok123".to_string())
    );
    assert_eq!(session_from_cookie_header("dept_tracker_session=first;dept_tracker_session=second"), Some("first".to_string()));
    assert_eq!(session_from_cookie_header("  dept_tracker_session=padded  "), Some("padded".to_string()));
    assert_eq!(session_from_cookie_header("theme=dark"), None);
    assert_eq!(session_from_cookie_header(""), None);
    assert_eq!(session_from_cookie_header("xdept_tracker_session=no"), None);
    assert_eq!(session_from_cookie_header("dept_tracker_session="), Some(String::new()));
}

#[test]
fn frequency_and_payment_type_parse() {
    assert_eq!(parse_frequency("monthly").unwrap(), PaymentFrequency::Monthly);
    assert_eq!(parse_frequency("yearly").unwrap(), PaymentFrequency::Yearly);
    assert_bad_request(parse_frequency("weekly").unwrap_err(), "invalid payment_frequency");
    assert_eq!(parse_payment_type("tilgung_percent").unwrap(), PaymentType::TilgungPercent);
    assert_eq!(parse_payment_type("apr").unwrap(), PaymentType::TilgungPercent);
    assert_eq!(parse_payment_type("fixed").unwrap(), PaymentType::TilgungEuro);
    assert_bad_request(
        parse_payment_type("Euro").unwrap_err(),
        "invalid payment_type; use tilgung_percent or tilgung_euro",
    );
}

#[test]
fn public_paths() {
    assert!(is_public_path("/health"));
    assert!(is_public_path("/auth/login"));
    assert!(is_public_path("/auth/register"));
    assert!(is_public_path("/auth/status"));
    assert!(!is_public_path("/auth/logout"));
    assert!(!is_public_path("/api/v1/dashboard"));
}

#[test]
fn new_account_rules() {
    assert_eq!(check_new_account("  alice  ", "secret1"), Ok("alice".to_string()));
    assert_eq!(check_new_account(" a ", "secret1"), Err("username too short"));
    assert_eq!(check_new_account(&"x".repeat(65), "secret1"), Err("username too long"));
    assert_eq!(check_new_account(&"x".repeat(64), "secret1"), Ok("x".repeat(64)));
    assert_eq!(check_new_account("bob", "12345"), Err("password too short"));
    // lengths are counted in bytes
    assert_eq!(check_new_account("ä", "123456"), Ok("ä".to_string()));
}

#[test]
fn api_error_constructors() {
    let e = ApiError::unauthorized("invalid credentials");
    assert_eq!(e.kind, ApiErrorKind::Unauthorized);
    assert_eq!(e.message, "invalid credentials");
    assert_eq!(ApiError::not_found("loan not found").kind, ApiErrorKind::NotFound);
    assert_eq!(ApiError::internal("boom").kind, ApiErrorKind::Internal);
    assert_bad_request(ApiError::bad_request("x"), "x");
}

#[test]
fn create_params_from_body() {
    let p = create_loan_params(create_body()).unwrap();
    assert_eq!(p.payment_frequency, PaymentFrequency::Monthly);
    assert_eq!(p.payment_type, PaymentType::TilgungEuro);
    assert_eq!(p.tilgung_euro_minor, Some(120_000));
    assert_eq!(p.original_principal_minor, None);
    assert_eq!(p.loan_start_date, None);
    assert_eq!(p.first_payment_date, None);
    assert!(p.recurring.is_empty());
    assert!(p.backfill.is_empty());
}

#[test]
fn percent_tilgung_infers_original_principal() {
    let mut body = create_body();
    body.payment_type = "tilgung_percent".into();
    body.tilgung_euro_minor = None;
    body.tilgung_percent_basis_points = Some(200);
    body.remaining_balance_minor = 10_000_000;
    body.loan_start_date = Some("2024-05-01".into());
    let p = create_loan_params(body).unwrap();
    assert_eq!(p.original_principal_minor, Some(10_000_000));
    assert_eq!(p.loan_start_date, Some(date(2024, 5, 1)));
    assert_eq!(p.first_payment_date, Some(date(2024, 5, 1)));
}

#[test]
fn legacy_fixed_payment_and_lists_are_taken_over() {
    let mut body = create_body();
    body.tilgung_euro_minor = None;
    body.fixed_payment_minor = Some(99_00);
    body.first_payment_date = Some("2024-06-15".into());
    body.recurring_sonderzahlungen = Some(vec![RecurringInput { amount_minor: 500_00, month: 12, day: 24 }]);
    body.backfill_payments = Some(vec![
        BackfillInput { amount_minor: 100_00, paid_at: "2024-07-15".into() },
        BackfillInput { amount_minor: 200_00, paid_at: "not a date".into() },
        BackfillInput { amount_minor: 300_00, paid_at: "2024-08-15".into() },
    ]);
    let p = create_loan_params(body).unwrap();
    assert_eq!(p.tilgung_euro_minor, Some(99_00));
    assert_eq!(p.first_payment_date, Some(date(2024, 6, 15)));
    assert_eq!(p.recurring, vec![(500_00, 12, 24)]);
    assert_eq!(p.backfill, vec![(100_00, date(2024, 7, 15)), (300_00, date(2024, 8, 15))]);
}

#[test]
fn create_params_reject_unknown_frequency_and_type() {
    let mut body = create_body();
    body.payment_frequency = "daily".into();
    body.payment_type = "bogus".into();
    assert_bad_request(create_loan_params(body).unwrap_err(), "invalid payment_frequency");
    let mut body = create_body();
    body.payment_type = "bogus".into();
    assert_bad_request(
        create_loan_params(body).unwrap_err(),
        "invalid payment_type; use tilgung_percent or tilgung_euro",
    );
}

#[test]
fn request_dates() {
    assert_eq!(parse_request_date("2025-06-01", "invalid paid_at").unwrap(), date(2025, 6, 1));
    assert_bad_request(parse_request_date("2025-02-30", "invalid paid_at").unwrap_err(), "invalid paid_at");
    assert_bad_request(parse_request_date("", "invalid due_date").unwrap_err(), "invalid due_date");
}

#[test]
fn immediate_payment_checks() {
    let today = date(2025, 6, 10);
    let mut body = ImmediateBody {
        amount_minor: 2_000_00,
        paid_at: "2025-06-01".into(),
        confirm_overpayment: false,
        recalculate_from_past: false,
    };
    assert_bad_request(
        check_immediate_payment(&body, 1_000_00, date(2025, 6, 1), today).unwrap_err(),
        "payment exceeds balance; set confirm_overpayment=true",
    );
    body.confirm_overpayment = true;
    assert_eq!(check_immediate_payment(&body, 1_000_00, date(2025, 6, 1), today).unwrap(), ImmediateBooking::Current);
    body.recalculate_from_past = true;
    assert_eq!(check_immediate_payment(&body, 1_000_00, date(2025, 6, 1), today).unwrap(), ImmediateBooking::Backdated);
    assert_eq!(check_immediate_payment(&body, 1_000_00, today, today).unwrap(), ImmediateBooking::Backdated);
    assert_bad_request(
        check_immediate_payment(&body, 1_000_00, date(2025, 6, 11), today).unwrap_err(),
        "recalculate_from_past requires paid_at on or before today",
    );
}

#[test]
fn delete_and_login_guards() {
    assert!(check_delete_confirmed(&DeleteQuery { confirm: true }).is_ok());
    assert_bad_request(check_delete_confirmed(&DeleteQuery { confirm: false }).unwrap_err(), "confirm=true required");
    assert!(check_login_allowed(true).is_ok());
    assert_bad_request(check_login_allowed(false).unwrap_err(), "no account yet — create one on the setup screen");
}
