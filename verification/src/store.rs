//! Decisions the storage layer makes around its queries: turning stored rows into
//! calculation inputs, merging loan updates, booking backfilled payments, and checking
//! credentials and sessions.

use vstd::prelude::*;
use vstd::string::*;
use crate::api::{is_error, parse_payment_type, ApiError, ApiErrorKind};
use crate::calendar::{date_text, date_to_string, iso_date_parse, parse_iso_date, Date};
use crate::payment_split::{split_terms_spec, split_with_terms, PaymentSplit};
use crate::requests::{or_else_opt, CreateLoanParams, UpdateLoanBody};
use crate::text::str_equal;
use crate::types::{
    parse_loan_status_spec, parse_payment_type_spec, payment_type_text, LoanCalcInput, LoanStatus,
    PaymentFrequency, PaymentRecord, PaymentType, RecurringExtra, ScheduledExtra,
};
use crate::validation::{validate_create_loan, validate_spec, validation_message, CreateLoanValidation};
use vstd::utf8::{decode_utf8, encode_utf8, is_char_boundary};

verus! {

/// A stored loan row.
#[derive(Clone, Debug)]
pub struct LoanRow {
    pub id: String,
    pub label: String,
    pub status: String,
    pub setup_mode: String,
    pub original_principal_minor: Option<i64>,
    pub remaining_balance_minor: i64,
    pub payment_frequency: String,
    pub payment_type: String,
    pub fixed_payment_minor: Option<i64>,
    pub tilgung_percent_basis_points: Option<i32>,
    pub apr_basis_points: Option<i32>,
    pub loan_start_date: Option<String>,
    pub first_payment_date: Option<String>,
    pub created_at: String,
    pub updated_at: String,
    pub archived_at: Option<String>,
    pub notes: Option<String>,
}

/// Changes requested for a stored loan.
#[derive(Clone, Debug)]
pub struct UpdateLoanParams {
    pub label: Option<String>,
    pub tilgung_euro_minor: Option<i64>,
    pub tilgung_percent_basis_points: Option<i32>,
    pub apr_basis_points: Option<i32>,
    pub payment_frequency: Option<String>,
    pub payment_type: Option<String>,
    pub notes: Option<String>,
}

/// The values an update writes back to a loan row.
#[derive(Clone, Debug)]
pub struct LoanUpdate {
    pub label: String,
    pub payment_frequency: String,
    pub payment_type: String,
    pub fixed_payment_minor: Option<i64>,
    pub tilgung_percent_basis_points: Option<i32>,
    pub apr_basis_points: Option<i32>,
    pub notes: Option<String>,
}

pub open spec fn update_params_match(p: UpdateLoanParams, body: UpdateLoanBody, row: LoanRow, t: PaymentType) -> bool {
    &&& p.label == body.label
    &&& p.tilgung_euro_minor == or_else_opt(
        or_else_opt(body.tilgung_euro_minor, body.fixed_payment_minor),
        row.fixed_payment_minor,
    )
    &&& p.tilgung_percent_basis_points == or_else_opt(
        body.tilgung_percent_basis_points,
        row.tilgung_percent_basis_points,
    )
    &&& p.apr_basis_points == body.apr_basis_points
    &&& p.payment_frequency == body.payment_frequency
    &&& p.payment_type matches Some(s) && s@ == payment_type_text(t)
    &&& p.notes == body.notes
}

/// The payment type an update ends with: the requested one, else the stored one.
pub open spec fn update_type_text(body: UpdateLoanBody, row: LoanRow) -> Seq<char> {
    match body.payment_type {
        Some(s) => s@,
        None => row.payment_type@,
    }
}

/// Checks an update request against the stored loan: the resulting payment type must be
/// known, an APR must remain, and the resulting repayment figure must be usable.
pub fn prepare_loan_update(body: UpdateLoanBody, row: &LoanRow) -> (r: Result<UpdateLoanParams, ApiError>)
    ensures
        match parse_payment_type_spec(update_type_text(body, *row)) {
            Err(_) => r matches Err(e) && is_error(
                e,
                ApiErrorKind::BadRequest,
                "invalid payment_type; use tilgung_percent or tilgung_euro"@,
            ),
            Ok(t) => {
                let euro = or_else_opt(
                    or_else_opt(body.tilgung_euro_minor, body.fixed_payment_minor),
                    row.fixed_payment_minor,
                );
                let pct = or_else_opt(body.tilgung_percent_basis_points, row.tilgung_percent_basis_points);
                if or_else_opt(body.apr_basis_points, row.apr_basis_points) is None {
                    r matches Err(e) && is_error(e, ApiErrorKind::BadRequest, "interest rate (APR) is required"@)
                } else if t == PaymentType::TilgungEuro && (match euro {
                    Some(v) => v <= 0,
                    None => true,
                }) {
                    r matches Err(e) && is_error(e, ApiErrorKind::BadRequest, "Tilgung (€) must be positive"@)
                } else if t == PaymentType::TilgungPercent && pct is None {
                    r matches Err(e) && is_error(
                        e,
                        ApiErrorKind::BadRequest,
                        "prozentuale Tilgung (%) is required"@,
                    )
                } else {
                    r matches Ok(p) && update_params_match(p, body, *row, t)
                }
            },
        },
{
    let ptype = match &body.payment_type {
        Some(s) => parse_payment_type(s.as_str()),
        None => parse_payment_type(row.payment_type.as_str()),
    };
    let ptype = match ptype {
        Ok(t) => t,
        Err(e) => return Err(e),
    };
    let merged_apr = match body.apr_basis_points {
        Some(a) => Some(a),
        None => row.apr_basis_points,
    };
    if merged_apr.is_none() {
        return Err(ApiError::bad_request("interest rate (APR) is required"));
    }
    let tilgung_euro = match body.tilgung_euro_minor {
        Some(e) => Some(e),
        None => match body.fixed_payment_minor {
            Some(f) => Some(f),
            None => row.fixed_payment_minor,
        },
    };
    let tilgung_pct = match body.tilgung_percent_basis_points {
        Some(p) => Some(p),
        None => row.tilgung_percent_basis_points,
    };
    match ptype {
        PaymentType::TilgungEuro => {
            let e = match tilgung_euro {
                Some(v) => v,
                None => 0,
            };
            if e <= 0 {
                return Err(ApiError::bad_request("Tilgung (€) must be positive"));
            }
        },
        PaymentType::TilgungPercent => {
            if tilgung_pct.is_none() {
                return Err(ApiError::bad_request("prozentuale Tilgung (%) is required"));
            }
        },
    }
    Ok(
        UpdateLoanParams {
            label: body.label,
            tilgung_euro_minor: tilgung_euro,
            tilgung_percent_basis_points: tilgung_pct,
            apr_basis_points: body.apr_basis_points,
            payment_frequency: body.payment_frequency,
            payment_type: Some(String::from_str(ptype.as_str())),
            notes: body.notes,
        },
    )
}

pub open spec fn string_or(a: Option<String>, b: String) -> String {
    match a {
        Some(x) => x,
        None => b,
    }
}

/// Requested values where given, stored values elsewhere.
pub open spec fn merge_matches(u: LoanUpdate, row: LoanRow, p: UpdateLoanParams) -> bool {
    &&& u.label == string_or(p.label, row.label)
    &&& u.payment_frequency == string_or(p.payment_frequency, row.payment_frequency)
    &&& u.payment_type == string_or(p.payment_type, row.payment_type)
    &&& u.fixed_payment_minor == or_else_opt(p.tilgung_euro_minor, row.fixed_payment_minor)
    &&& u.tilgung_percent_basis_points == or_else_opt(
        p.tilgung_percent_basis_points,
        row.tilgung_percent_basis_points,
    )
    &&& u.apr_basis_points == or_else_opt(p.apr_basis_points, row.apr_basis_points)
    &&& u.notes == or_else_opt(p.notes, row.notes)
}

/// The values a loan update writes: each field from the update when given, else as stored.
pub fn merge_loan_update(row: LoanRow, params: UpdateLoanParams) -> (u: LoanUpdate)
    ensures
        merge_matches(u, row, params),
{
    LoanUpdate {
        label: match params.label {
            Some(l) => l,
            None => row.label,
        },
        payment_frequency: match params.payment_frequency {
            Some(f) => f,
            None => row.payment_frequency,
        },
        payment_type: match params.payment_type {
            Some(t) => t,
            None => row.payment_type,
        },
        fixed_payment_minor: match params.tilgung_euro_minor {
            Some(e) => Some(e),
            None => row.fixed_payment_minor,
        },
        tilgung_percent_basis_points: match params.tilgung_percent_basis_points {
            Some(p) => Some(p),
            None => row.tilgung_percent_basis_points,
        },
        apr_basis_points: match params.apr_basis_points {
            Some(a) => Some(a),
            None => row.apr_basis_points,
        },
        notes: match params.notes {
            Some(n) => Some(n),
            None => row.notes,
        },
    }
}

/// The validation view of new loan terms.
pub open spec fn validation_of(p: CreateLoanParams) -> CreateLoanValidation {
    CreateLoanValidation {
        label: p.label,
        remaining_balance_minor: p.remaining_balance_minor,
        payment_frequency: p.payment_frequency,
        payment_type: p.payment_type,
        tilgung_euro_minor: p.tilgung_euro_minor,
        tilgung_percent_basis_points: p.tilgung_percent_basis_points,
        apr_basis_points: p.apr_basis_points,
    }
}

/// Validates new loan terms; a failure is reported by its message.
pub fn check_new_loan(params: &CreateLoanParams) -> (r: Result<(), String>)
    ensures
        match validate_spec(validation_of(*params)) {
            Ok(_) => r is Ok,
            Err(e) => r matches Err(m) && m@ == validation_message(e),
        },
{
    let input = CreateLoanValidation {
        label: params.label.clone(),
        remaining_balance_minor: params.remaining_balance_minor,
        payment_frequency: params.payment_frequency,
        payment_type: params.payment_type,
        tilgung_euro_minor: params.tilgung_euro_minor,
        tilgung_percent_basis_points: params.tilgung_percent_basis_points,
        apr_basis_points: params.apr_basis_points,
    };
    match validate_create_loan(&input) {
        Ok(()) => Ok(()),
        Err(e) => Err(String::from_str(e.message())),
    }
}

/// Balance after applying the first `n` backfilled payments in order, each split
/// interest first.
pub open spec fn backfill_balance(apr: int, freq: PaymentFrequency, start: int, b: Seq<(i64, Date)>, n: int) -> int
    decreases n,
{
    if n <= 0 {
        start
    } else {
        split_terms_spec(apr, freq, b[n - 1].0 as int, backfill_balance(apr, freq, start, b, n - 1)).balance_after_minor as int
    }
}

pub open spec fn apr_of(p: CreateLoanParams) -> int {
    match p.apr_basis_points {
        Some(a) => a as int,
        None => 0,
    }
}

pub open spec fn is_advanced(p: CreateLoanParams) -> bool {
    p.setup_mode@ == "advanced"@
}

/// The split of each backfilled payment of an advanced setup (each against the balance
/// the previous ones left) and the balance the loan ends with.
pub fn backfill_splits(params: &CreateLoanParams) -> (r: (Vec<PaymentSplit>, i64))
    ensures
        !is_advanced(*params) ==> r.0@.len() == 0 && r.1 == params.remaining_balance_minor,
        is_advanced(*params) ==> {
            &&& r.0@.len() == params.backfill@.len()
            &&& forall|i: int|
                0 <= i < params.backfill@.len() ==> #[trigger] r.0@[i] == split_terms_spec(
                    apr_of(*params),
                    params.payment_frequency,
                    params.backfill@[i].0 as int,
                    backfill_balance(
                        apr_of(*params),
                        params.payment_frequency,
                        params.remaining_balance_minor as int,
                        params.backfill@,
                        i,
                    ),
                )
            &&& r.1 == backfill_balance(
                apr_of(*params),
                params.payment_frequency,
                params.remaining_balance_minor as int,
                params.backfill@,
                params.backfill@.len() as int,
            )
        },
{
    let mut splits: Vec<PaymentSplit> = Vec::new();
    let mut balance = params.remaining_balance_minor;
    if !str_equal(params.setup_mode.as_str(), "advanced") {
        return (splits, balance);
    }
    let ghost apr = apr_of(*params);
    let mut i: usize = 0;
    while i < params.backfill.len()
        invariant
            0 <= i <= params.backfill@.len(),
            is_advanced(*params),
            apr == apr_of(*params),
            splits@.len() == i,
            balance == backfill_balance(
                apr,
                params.payment_frequency,
                params.remaining_balance_minor as int,
                params.backfill@,
                i as int,
            ),
            forall|k: int|
                0 <= k < i ==> #[trigger] splits@[k] == split_terms_spec(
                    apr,
                    params.payment_frequency,
                    params.backfill@[k].0 as int,
                    backfill_balance(
                        apr,
                        params.payment_frequency,
                        params.remaining_balance_minor as int,
                        params.backfill@,
                        k,
                    ),
                ),
        decreases params.backfill.len() - i,
    {
        let (amount, _paid_at) = params.backfill[i];
        let split = split_with_terms(params.apr_basis_points, params.payment_frequency, amount, balance);
        splits.push(split);
        balance = split.balance_after_minor;
        i = i + 1;
    }
    (splits, balance)
}

/// The stored start and first-payment dates of a new loan: the given start date, else
/// `today`; the first payment date, else the start date.
pub fn stored_schedule_dates(params: &CreateLoanParams, today: Date) -> (r: (String, String))
    requires
        today.wf(),
        params.loan_start_date matches Some(d) ==> d.wf(),
        params.first_payment_date matches Some(d) ==> d.wf(),
    ensures
        r.0@ == date_text(
            match params.loan_start_date {
                Some(d) => d,
                None => today,
            },
        ),
        r.1@ == date_text(
            match or_else_opt(params.first_payment_date, params.loan_start_date) {
                Some(d) => d,
                None => match params.loan_start_date {
                    Some(d) => d,
                    None => today,
                },
            },
        ),
{
    let start = match params.loan_start_date {
        Some(d) => date_to_string(d),
        None => date_to_string(today),
    };
    let first = match params.first_payment_date {
        Some(d) => date_to_string(d),
        None => match params.loan_start_date {
            Some(d) => date_to_string(d),
            None => start.clone(),
        },
    };
    (start, first)
}

/// An update request that gives no value leaves the stored loan as it is, except that its
/// payment type is written in its canonical spelling.
pub proof fn lemma_empty_update_keeps_loan(
    body: UpdateLoanBody,
    row: LoanRow,
    t: PaymentType,
    p: UpdateLoanParams,
    u: LoanUpdate,
)
    requires
        body.label is None,
        body.tilgung_euro_minor is None,
        body.tilgung_percent_basis_points is None,
        body.fixed_payment_minor is None,
        body.apr_basis_points is None,
        body.payment_frequency is None,
        body.payment_type is None,
        body.notes is None,
        parse_payment_type_spec(row.payment_type@) == Ok::<PaymentType, ()>(t),
        update_params_match(p, body, row, t),
        merge_matches(u, row, p),
    ensures
        u.label == row.label,
        u.payment_frequency == row.payment_frequency,
        u.payment_type@ == payment_type_text(t),
        u.fixed_payment_minor == row.fixed_payment_minor,
        u.tilgung_percent_basis_points == row.tilgung_percent_basis_points,
        u.apr_basis_points == row.apr_basis_points,
        u.notes == row.notes,
{
}

/// The characters whose UTF-8 encoding makes up the first ten bytes of `s`: the date part
/// of a stored timestamp.
pub open spec fn leading_ten_bytes(s: Seq<char>) -> Seq<char> {
    decode_utf8(encode_utf8(s).subrange(0, 10))
}

/// Whether the first ten bytes of the row's creation timestamp end on a character boundary,
/// so that they can be cut off.
pub open spec fn created_at_cuttable(row: LoanRow) -> bool {
    is_char_boundary(encode_utf8(row.created_at@), 10)
}

/// The date an optional stored text holds, if it parses.
pub open spec fn stored_date(s: Option<String>) -> Option<Date> {
    match s {
        Some(t) => iso_date_parse(t@),
        None => None,
    }
}

/// The start date of a stored loan: its stored start date, else the date part of its
/// creation timestamp, else `today`.
pub open spec fn row_start_date(row: LoanRow, today: Date) -> Date {
    match stored_date(row.loan_start_date) {
        Some(d) => d,
        None => match iso_date_parse(leading_ten_bytes(row.created_at@)) {
            Some(d) => d,
            None => today,
        },
    }
}

/// The first payment date of a stored loan: the stored one, else its start date.
pub open spec fn row_first_payment_date(row: LoanRow, today: Date) -> Date {
    match stored_date(row.first_payment_date) {
        Some(d) => d,
        None => row_start_date(row, today),
    }
}

pub open spec fn row_status(row: LoanRow) -> LoanStatus {
    match parse_loan_status_spec(row.status@) {
        Ok(s) => s,
        Err(_) => LoanStatus::Active,
    }
}

pub open spec fn row_frequency(row: LoanRow) -> PaymentFrequency {
    if row.payment_frequency@ == "yearly"@ {
        PaymentFrequency::Yearly
    } else {
        PaymentFrequency::Monthly
    }
}

pub open spec fn row_payment_type(row: LoanRow) -> PaymentType {
    match parse_payment_type_spec(row.payment_type@) {
        Ok(t) => t,
        Err(_) => PaymentType::TilgungEuro,
    }
}

/// Stored one-off extras (amount, due date text, status) whose due date parses, in order.
pub open spec fn kept_scheduled(rows: Seq<(i64, String, String)>) -> Seq<(i64, Date, Seq<char>)>
    decreases rows.len(),
{
    if rows.len() == 0 {
        Seq::empty()
    } else {
        let rest = kept_scheduled(rows.drop_last());
        let r = rows.last();
        match iso_date_parse(r.1@) {
            Some(d) => rest.push((r.0, d, r.2@)),
            None => rest,
        }
    }
}

/// Stored payments (date text, event type, amount, interest, principal) whose date parses,
/// in order.
pub open spec fn kept_payments(rows: Seq<(String, String, i64, i64, i64)>) -> Seq<
    (Date, Seq<char>, i64, i64, i64),
>
    decreases rows.len(),
{
    if rows.len() == 0 {
        Seq::empty()
    } else {
        let rest = kept_payments(rows.drop_last());
        let r = rows.last();
        match iso_date_parse(r.0@) {
            Some(d) => rest.push((d, r.1@, r.2, r.3, r.4)),
            None => rest,
        }
    }
}

pub open spec fn recurring_matches(out: Seq<RecurringExtra>, rows: Seq<(i64, u8, u8, i64)>) -> bool {
    &&& out.len() == rows.len()
    &&& forall|k: int|
        0 <= k < out.len() ==> {
            &&& (#[trigger] out[k]).amount_minor == rows[k].0
            &&& out[k].month == rows[k].1
            &&& out[k].day == rows[k].2
            &&& out[k].enabled == (rows[k].3 != 0)
        }
}

pub open spec fn scheduled_matches(out: Seq<ScheduledExtra>, kept: Seq<(i64, Date, Seq<char>)>) -> bool {
    &&& out.len() == kept.len()
    &&& forall|k: int|
        0 <= k < out.len() ==> {
            &&& (#[trigger] out[k]).amount_minor == kept[k].0
            &&& out[k].due_date == kept[k].1
            &&& out[k].status@ == kept[k].2
        }
}

pub open spec fn payments_match(out: Seq<PaymentRecord>, kept: Seq<(Date, Seq<char>, i64, i64, i64)>) -> bool {
    &&& out.len() == kept.len()
    &&& forall|k: int|
        0 <= k < out.len() ==> {
            &&& (#[trigger] out[k]).paid_at == kept[k].0
            &&& out[k].event_type@ == kept[k].1
            &&& out[k].amount_minor == kept[k].2
            &&& out[k].interest_portion_minor == kept[k].3
            &&& out[k].principal_portion_minor == kept[k].4
        }
}

/// The calculation input of a stored loan and its stored extras and payments.
pub open spec fn calc_from_row_matches(
    c: LoanCalcInput,
    row: LoanRow,
    recurring: Seq<(i64, u8, u8, i64)>,
    scheduled: Seq<(i64, String, String)>,
    payments: Seq<(String, String, i64, i64, i64)>,
    today: Date,
) -> bool {
    &&& c.id@ == row.id@
    &&& c.label@ == row.label@
    &&& c.status == row_status(row)
    &&& c.remaining_balance_minor == row.remaining_balance_minor
    &&& c.original_principal_minor == row.original_principal_minor
    &&& c.payment_frequency == row_frequency(row)
    &&& c.payment_type == row_payment_type(row)
    &&& c.tilgung_euro_minor == row.fixed_payment_minor
    &&& c.tilgung_percent_basis_points == row.tilgung_percent_basis_points
    &&& c.apr_basis_points == row.apr_basis_points
    &&& c.loan_start_date == row_start_date(row, today)
    &&& c.first_payment_date == row_first_payment_date(row, today)
    &&& recurring_matches(c.recurring_extras@, recurring)
    &&& scheduled_matches(c.scheduled_extras@, kept_scheduled(scheduled))
    &&& payments_match(c.payments@, kept_payments(payments))
}

fn parse_stored_date(s: &Option<String>) -> (r: Option<Date>)
    ensures
        r == stored_date(*s),
        r matches Some(d) ==> d.wf(),
{
    match s {
        Some(t) => parse_iso_date(t.as_str()),
        None => None,
    }
}

/// Builds the calculation input of a stored loan from its row, its recurring extras
/// (amount, month, day, enabled flag), its one-off extras (amount, due date, status) and
/// its payments (date, event type, amount, interest, principal). Entries whose date does
/// not parse are skipped. `None` when the loan has no usable stored start date and its
/// creation timestamp cannot be cut after ten bytes.
pub fn loan_calc_from_row(
    row: &LoanRow,
    recurring: &Vec<(i64, u8, u8, i64)>,
    scheduled: &Vec<(i64, String, String)>,
    payments: &Vec<(String, String, i64, i64, i64)>,
    today: Date,
) -> (r: Option<LoanCalcInput>)
    requires
        today.wf(),
    ensures
        r is None <==> (stored_date(row.loan_start_date) is None && !created_at_cuttable(*row)),
        r matches Some(c) ==> {
            &&& calc_from_row_matches(c, *row, recurring@, scheduled@, payments@, today)
            &&& c.loan_start_date.wf()
            &&& c.first_payment_date.wf()
            &&& forall|k: int| 0 <= k < c.scheduled_extras@.len() ==> (#[trigger] c.scheduled_extras@[k]).due_date.wf()
            &&& forall|k: int| 0 <= k < c.payments@.len() ==> (#[trigger] c.payments@[k]).paid_at.wf()
        },
{
    let start = match parse_stored_date(&row.loan_start_date) {
        Some(d) => d,
        None => {
            let created = row.created_at.as_str();
            if !created.is_char_boundary(10) {
                return None;
            }
            let (head, _rest) = created.split_at(10);
            proof {
                broadcast use vstd::utf8::group_utf8_lib;
                assert(head.spec_bytes() == encode_utf8(head@));
                assert(head@ == leading_ten_bytes(row.created_at@));
            }
            match parse_iso_date(head) {
                Some(d) => d,
                None => today,
            }
        },
    };
    let first_payment = match parse_stored_date(&row.first_payment_date) {
        Some(d) => d,
        None => start,
    };

    let mut rec: Vec<RecurringExtra> = Vec::new();
    let mut i: usize = 0;
    while i < recurring.len()
        invariant
            0 <= i <= recurring@.len(),
            recurring_matches(rec@, recurring@.subrange(0, i as int)),
        decreases recurring.len() - i,
    {
        let (amount_minor, month, day, enabled) = recurring[i];
        rec.push(RecurringExtra { amount_minor, month, day, enabled: enabled != 0 });
        i = i + 1;
    }
    assert(recurring@.subrange(0, recurring@.len() as int) =~= recurring@);

    let mut sched: Vec<ScheduledExtra> = Vec::new();
    let mut j: usize = 0;
    while j < scheduled.len()
        invariant
            0 <= j <= scheduled@.len(),
            scheduled_matches(sched@, kept_scheduled(scheduled@.subrange(0, j as int))),
            forall|k: int| 0 <= k < sched@.len() ==> (#[trigger] sched@[k]).due_date.wf(),
        decreases scheduled.len() - j,
    {
        let entry = &scheduled[j];
        proof {
            assert(scheduled@.subrange(0, j + 1).drop_last() =~= scheduled@.subrange(0, j as int));
        }
        match parse_iso_date(entry.1.as_str()) {
            Some(d) => {
                sched.push(ScheduledExtra { amount_minor: entry.0, due_date: d, status: entry.2.clone() });
            },
            None => {},
        }
        j = j + 1;
    }
    assert(scheduled@.subrange(0, scheduled@.len() as int) =~= scheduled@);

    let mut pays: Vec<PaymentRecord> = Vec::new();
    let mut k: usize = 0;
    while k < payments.len()
        invariant
            0 <= k <= payments@.len(),
            payments_match(pays@, kept_payments(payments@.subrange(0, k as int))),
            forall|m: int| 0 <= m < pays@.len() ==> (#[trigger] pays@[m]).paid_at.wf(),
        decreases payments.len() - k,
    {
        let entry = &payments[k];
        proof {
            assert(payments@.subrange(0, k + 1).drop_last() =~= payments@.subrange(0, k as int));
        }
        match parse_iso_date(entry.0.as_str()) {
            Some(d) => {
                pays.push(
                    PaymentRecord {
                        paid_at: d,
                        amount_minor: entry.2,
                        interest_portion_minor: entry.3,
                        principal_portion_minor: entry.4,
                        event_type: entry.1.clone(),
                    },
                );
            },
            None => {},
        }
        k = k + 1;
    }
    assert(payments@.subrange(0, payments@.len() as int) =~= payments@);

    let status = match LoanStatus::parse(row.status.as_str()) {
        Ok(s) => s,
        Err(_) => LoanStatus::Active,
    };
    let payment_frequency = if str_equal(row.payment_frequency.as_str(), "yearly") {
        PaymentFrequency::Yearly
    } else {
        PaymentFrequency::Monthly
    };
    let payment_type = match PaymentType::parse(row.payment_type.as_str()) {
        Ok(t) => t,
        Err(_) => PaymentType::TilgungEuro,
    };
    Some(
        LoanCalcInput {
            id: row.id.clone(),
            label: row.label.clone(),
            status,
            remaining_balance_minor: row.remaining_balance_minor,
            original_principal_minor: row.original_principal_minor,
            payment_frequency,
            payment_type,
            tilgung_euro_minor: row.fixed_payment_minor,
            tilgung_percent_basis_points: row.tilgung_percent_basis_points,
            apr_basis_points: row.apr_basis_points,
            loan_start_date: start,
            first_payment_date: first_payment,
            recurring_extras: rec,
            scheduled_extras: sched,
            payments: pays,
        },
    )
}

} // verus!
