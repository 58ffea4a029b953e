//! Request bodies of the HTTP API and the checks made on them before storage is touched.

use vstd::prelude::*;
use vstd::string::*;
use crate::api::{is_error, parse_frequency, parse_frequency_spec, parse_payment_type, ApiError, ApiErrorKind};
use crate::calendar::{date_le, date_leq, iso_date_parse, parse_iso_date, Date};
use crate::types::{parse_payment_type_spec, payment_type_text, PaymentFrequency, PaymentType};

verus! {

#[derive(Clone, Debug)]
pub struct LoginBody {
    pub username: String,
    pub password: String,
}

#[derive(Clone, Debug)]
pub struct RegisterBody {
    pub username: String,
    pub password: String,
}

#[derive(Clone, Copy, Debug)]
pub struct DashboardQuery {
    pub include_archived: bool,
}

#[derive(Clone, Debug)]
pub struct RecurringInput {
    pub amount_minor: i64,
    pub month: u8,
    pub day: u8,
}

#[derive(Clone, Debug)]
pub struct BackfillInput {
    pub amount_minor: i64,
    pub paid_at: String,
}

#[derive(Clone, Debug)]
pub struct CreateLoanBody {
    pub label: String,
    pub setup_mode: String,
    pub remaining_balance_minor: i64,
    pub original_principal_minor: Option<i64>,
    pub payment_frequency: String,
    pub payment_type: String,
    pub tilgung_euro_minor: Option<i64>,
    pub tilgung_percent_basis_points: Option<i32>,
    /// Legacy alias for tilgung_euro_minor
    pub fixed_payment_minor: Option<i64>,
    pub apr_basis_points: Option<i32>,
    pub loan_start_date: Option<String>,
    pub first_payment_date: Option<String>,
    pub recurring_sonderzahlungen: Option<Vec<RecurringInput>>,
    pub backfill_payments: Option<Vec<BackfillInput>>,
}

#[derive(Clone, Debug)]
pub struct UpdateLoanBody {
    pub label: Option<String>,
    pub tilgung_euro_minor: Option<i64>,
    pub tilgung_percent_basis_points: Option<i32>,
    pub fixed_payment_minor: Option<i64>,
    pub apr_basis_points: Option<i32>,
    pub payment_frequency: Option<String>,
    pub payment_type: Option<String>,
    pub notes: Option<String>,
}

#[derive(Clone, Copy, Debug)]
pub struct DeleteQuery {
    pub confirm: bool,
}

#[derive(Clone, Debug)]
pub struct RecordPaymentBody {
    pub amount_minor: i64,
    pub paid_at: String,
    pub note: Option<String>,
}

#[derive(Clone, Debug)]
pub struct ImmediateBody {
    pub amount_minor: i64,
    pub paid_at: String,
    pub confirm_overpayment: bool,
    /// When true, treat `paid_at` as a past date and rebuild loan balances from that point.
    pub recalculate_from_past: bool,
}

#[derive(Clone, Debug)]
pub struct ScheduleBody {
    pub amount_minor: i64,
    pub due_date: String,
}

/// Terms of a loan to be created, as storage receives them.
#[derive(Clone, Debug)]
pub struct CreateLoanParams {
    pub label: String,
    pub setup_mode: String,
    pub remaining_balance_minor: i64,
    pub original_principal_minor: Option<i64>,
    pub payment_frequency: PaymentFrequency,
    pub payment_type: PaymentType,
    pub tilgung_euro_minor: Option<i64>,
    pub tilgung_percent_basis_points: Option<i32>,
    pub apr_basis_points: Option<i32>,
    pub loan_start_date: Option<Date>,
    pub first_payment_date: Option<Date>,
    pub recurring: Vec<(i64, u8, u8)>,
    pub backfill: Vec<(i64, Date)>,
}

pub open spec fn or_else_opt<T>(a: Option<T>, b: Option<T>) -> Option<T> {
    match a {
        Some(x) => Some(x),
        None => b,
    }
}

pub open spec fn parse_opt_date(s: Option<String>) -> Option<Date> {
    match s {
        Some(t) => iso_date_parse(t@),
        None => None,
    }
}

/// Backfill entries whose date parses, in request order.
pub open spec fn parsed_backfill(b: Seq<BackfillInput>) -> Seq<(i64, Date)>
    decreases b.len(),
{
    if b.len() == 0 {
        Seq::empty()
    } else {
        let prev = parsed_backfill(b.drop_last());
        match iso_date_parse(b.last().paid_at@) {
            Some(d) => prev.push((b.last().amount_minor, d)),
            None => prev,
        }
    }
}

pub open spec fn create_params_match(p: CreateLoanParams, body: CreateLoanBody) -> bool {
    let ptype = parse_payment_type_spec(body.payment_type@)->Ok_0;
    let start = parse_opt_date(body.loan_start_date);
    &&& p.label == body.label
    &&& p.setup_mode == body.setup_mode
    &&& p.remaining_balance_minor == body.remaining_balance_minor
    &&& p.payment_frequency == parse_frequency_spec(body.payment_frequency@)->0
    &&& p.payment_type == ptype
    &&& p.tilgung_euro_minor == or_else_opt(body.tilgung_euro_minor, body.fixed_payment_minor)
    &&& p.tilgung_percent_basis_points == body.tilgung_percent_basis_points
    &&& p.apr_basis_points == body.apr_basis_points
    &&& p.original_principal_minor == or_else_opt(
        body.original_principal_minor,
        if ptype == PaymentType::TilgungPercent {
            Some(body.remaining_balance_minor)
        } else {
            None
        },
    )
    &&& p.loan_start_date == start
    &&& p.first_payment_date == or_else_opt(parse_opt_date(body.first_payment_date), start)
    &&& p.recurring@ == match body.recurring_sonderzahlungen {
        Some(r) => r@.map_values(|x: RecurringInput| (x.amount_minor, x.month, x.day)),
        None => Seq::empty(),
    }
    &&& p.backfill@ == match body.backfill_payments {
        Some(b) => parsed_backfill(b@),
        None => Seq::empty(),
    }
}

fn parse_optional_date(s: &Option<String>) -> (r: Option<Date>)
    ensures
        r == parse_opt_date(*s),
        r matches Some(d) ==> d.wf(),
{
    match s {
        Some(t) => parse_iso_date(t.as_str()),
        None => None,
    }
}

/// Terms of a new loan from a create request: frequency and payment type parsed, the
/// legacy fixed-payment field accepted for Tilgung €, the original principal defaulting
/// to the balance for percent Tilgung, the first payment date defaulting to the start
/// date, and backfill entries with unreadable dates dropped.
pub fn create_loan_params(body: CreateLoanBody) -> (r: Result<CreateLoanParams, ApiError>)
    ensures
        parse_frequency_spec(body.payment_frequency@) is None ==> (r matches Err(e) && is_error(
            e,
            ApiErrorKind::BadRequest,
            "invalid payment_frequency"@,
        )),
        parse_frequency_spec(body.payment_frequency@) is Some && parse_payment_type_spec(
            body.payment_type@,
        ) is Err ==> (r matches Err(e) && is_error(
            e,
            ApiErrorKind::BadRequest,
            "invalid payment_type; use tilgung_percent or tilgung_euro"@,
        )),
        parse_frequency_spec(body.payment_frequency@) is Some && parse_payment_type_spec(
            body.payment_type@,
        ) is Ok ==> (r matches Ok(p) && create_params_match(p, body)),
{
    let freq = match parse_frequency(body.payment_frequency.as_str()) {
        Ok(f) => f,
        Err(e) => return Err(e),
    };
    let ptype = match parse_payment_type(body.payment_type.as_str()) {
        Ok(t) => t,
        Err(e) => return Err(e),
    };
    let tilgung_euro = match body.tilgung_euro_minor {
        Some(e) => Some(e),
        None => body.fixed_payment_minor,
    };
    let original = match body.original_principal_minor {
        Some(o) => Some(o),
        None => if ptype == PaymentType::TilgungPercent {
            Some(body.remaining_balance_minor)
        } else {
            None
        },
    };
    let start = parse_optional_date(&body.loan_start_date);
    let first_payment = match parse_optional_date(&body.first_payment_date) {
        Some(d) => Some(d),
        None => start,
    };
    let mut recurring: Vec<(i64, u8, u8)> = Vec::new();
    match &body.recurring_sonderzahlungen {
        Some(list) => {
            let mut i: usize = 0;
            while i < list.len()
                invariant
                    0 <= i <= list@.len(),
                    recurring@ == list@.take(i as int).map_values(
                        |x: RecurringInput| (x.amount_minor, x.month, x.day),
                    ),
                decreases list.len() - i,
            {
                let x = &list[i];
                recurring.push((x.amount_minor, x.month, x.day));
                proof {
                    assert(list@.take(i + 1) =~= list@.take(i as int).push(list@[i as int]));
                    assert(recurring@ =~= list@.take(i + 1).map_values(
                        |x: RecurringInput| (x.amount_minor, x.month, x.day),
                    ));
                }
                i = i + 1;
            }
            proof {
                assert(list@.take(i as int) =~= list@);
            }
        },
        None => {},
    }
    let mut backfill: Vec<(i64, Date)> = Vec::new();
    match &body.backfill_payments {
        Some(list) => {
            let mut i: usize = 0;
            while i < list.len()
                invariant
                    0 <= i <= list@.len(),
                    backfill@ == parsed_backfill(list@.take(i as int)),
                decreases list.len() - i,
            {
                let x = &list[i];
                proof {
                    assert(list@.take(i + 1).drop_last() =~= list@.take(i as int));
                    assert(list@.take(i + 1).last() == list@[i as int]);
                }
                match parse_iso_date(x.paid_at.as_str()) {
                    Some(d) => backfill.push((x.amount_minor, d)),
                    None => {},
                }
                i = i + 1;
            }
            proof {
                assert(list@.take(i as int) =~= list@);
            }
        },
        None => {},
    }
    Ok(
        CreateLoanParams {
            label: body.label,
            setup_mode: body.setup_mode,
            remaining_balance_minor: body.remaining_balance_minor,
            original_principal_minor: original,
            payment_frequency: freq,
            payment_type: ptype,
            tilgung_euro_minor: tilgung_euro,
            tilgung_percent_basis_points: body.tilgung_percent_basis_points,
            apr_basis_points: body.apr_basis_points,
            loan_start_date: start,
            first_payment_date: first_payment,
            recurring,
            backfill,
        },
    )
}

/// A date field of a request, or the bad-request answer `message` when it does not parse.
pub fn parse_request_date(s: &str, message: &str) -> (r: Result<Date, ApiError>)
    ensures
        match iso_date_parse(s@) {
            Some(d) => r == Ok::<Date, ApiError>(d),
            None => r matches Err(e) && is_error(e, ApiErrorKind::BadRequest, message@),
        },
        r matches Ok(d) ==> d.wf(),
{
    match parse_iso_date(s) {
        Some(d) => Ok(d),
        None => Err(ApiError::bad_request(message)),
    }
}

/// How an immediate extra payment is to be booked.
#[derive(Clone, Copy, Debug, PartialEq, Eq, Structural)]
pub enum ImmediateBooking {
    /// Record it on the balance as it stands.
    Current,
    /// Rebuild the balances from its (past) date on.
    Backdated,
}

/// The checks on an immediate extra payment (Sonderzahlung): more than the balance
/// needs confirmation, and recalculation from the past needs a date not after today.
pub fn check_immediate_payment(
    body: &ImmediateBody,
    remaining_balance_minor: i64,
    paid_at: Date,
    today: Date,
) -> (r: Result<ImmediateBooking, ApiError>)
    requires
        paid_at.wf(),
        today.wf(),
    ensures
        body.amount_minor > remaining_balance_minor && !body.confirm_overpayment ==> (r matches Err(
            e,
        ) && is_error(e, ApiErrorKind::BadRequest, "payment exceeds balance; set confirm_overpayment=true"@)),
        !(body.amount_minor > remaining_balance_minor && !body.confirm_overpayment) ==> {
            if body.recalculate_from_past {
                if date_le(paid_at, today) {
                    r == Ok::<ImmediateBooking, ApiError>(ImmediateBooking::Backdated)
                } else {
                    r matches Err(e) && is_error(
                        e,
                        ApiErrorKind::BadRequest,
                        "recalculate_from_past requires paid_at on or before today"@,
                    )
                }
            } else {
                r == Ok::<ImmediateBooking, ApiError>(ImmediateBooking::Current)
            }
        },
{
    if body.amount_minor > remaining_balance_minor && !body.confirm_overpayment {
        return Err(ApiError::bad_request("payment exceeds balance; set confirm_overpayment=true"));
    }
    if body.recalculate_from_past {
        if !date_leq(paid_at, today) {
            return Err(ApiError::bad_request("recalculate_from_past requires paid_at on or before today"));
        }
        Ok(ImmediateBooking::Backdated)
    } else {
        Ok(ImmediateBooking::Current)
    }
}

/// Deleting a loan needs explicit confirmation.
pub fn check_delete_confirmed(q: &DeleteQuery) -> (r: Result<(), ApiError>)
    ensures
        q.confirm ==> r is Ok,
        !q.confirm ==> (r matches Err(e) && is_error(e, ApiErrorKind::BadRequest, "confirm=true required"@)),
{
    if !q.confirm {
        return Err(ApiError::bad_request("confirm=true required"));
    }
    Ok(())
}

/// Signing in is only possible once an account exists.
pub fn check_login_allowed(auth_enabled: bool) -> (r: Result<(), ApiError>)
    ensures
        auth_enabled ==> r is Ok,
        !auth_enabled ==> (r matches Err(e) && is_error(
            e,
            ApiErrorKind::BadRequest,
            "no account yet — create one on the setup screen"@,
        )),
{
    if !auth_enabled {
        return Err(ApiError::bad_request("no account yet — create one on the setup screen"));
    }
    Ok(())
}

} // verus!
