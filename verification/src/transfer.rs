//! Backup export and import of loans: what an exported loan entry holds, and which rows an
//! imported entry turns into, with the defaults for missing values. Reading and writing
//! the JSON text itself is left to the caller.

use vstd::prelude::*;
use vstd::string::*;
use crate::requests::or_else_opt;
use crate::store::LoanRow;

verus! {

/// Calls `uuid::Uuid::new_v4` and renders it with `to_string`. Claimed (uuid's source):
/// the hyphenated form, 36 characters long. The value itself is random.
#[verifier::external_body]
fn fresh_id() -> (s: String)
    ensures
        s@.len() == 36,
{
    uuid::Uuid::new_v4().to_string()
}

/// A backup's format version must be the one this library writes.
pub fn check_schema_version(schema_version: i32) -> (r: Result<(), String>)
    ensures
        schema_version == 1 ==> r is Ok,
        schema_version != 1 ==> (r matches Err(e) && e@ == "unsupported schema_version"@),
{
    if schema_version != 1 {
        return Err(String::from_str("unsupported schema_version"));
    }
    Ok(())
}

/// The loan object of an imported entry, as far as its fields hold values of the expected
/// JSON kind (text or integer); a field that is missing or of another kind is `None`.
#[derive(Clone, Debug)]
pub struct ImportLoan {
    pub id: Option<String>,
    pub label: Option<String>,
    pub status: Option<String>,
    pub setup_mode: Option<String>,
    pub original_principal_minor: Option<i64>,
    pub remaining_balance_minor: Option<i64>,
    pub payment_frequency: Option<String>,
    pub payment_type: Option<String>,
    pub fixed_payment_minor: Option<i64>,
    pub tilgung_euro_minor: Option<i64>,
    pub tilgung_percent_basis_points: Option<i64>,
    pub apr_basis_points: Option<i64>,
    pub loan_start_date: Option<String>,
    pub first_payment_date: Option<String>,
    pub created_at: Option<String>,
    pub updated_at: Option<String>,
    pub archived_at: Option<String>,
    pub notes: Option<String>,
}

/// An imported recurring extra payment.
#[derive(Clone, Debug)]
pub struct ImportRecurring {
    pub id: Option<String>,
    pub amount_minor: Option<i64>,
    pub month: Option<i64>,
    pub day: Option<i64>,
    pub enabled: Option<bool>,
}

/// An imported one-off extra payment.
#[derive(Clone, Debug)]
pub struct ImportScheduled {
    pub id: Option<String>,
    pub amount_minor: Option<i64>,
    pub due_date: Option<String>,
    pub status: Option<String>,
}

/// An imported payment event.
#[derive(Clone, Debug)]
pub struct ImportPayment {
    pub id: Option<String>,
    pub event_type: Option<String>,
    pub amount_minor: Option<i64>,
    pub interest_portion_minor: Option<i64>,
    pub principal_portion_minor: Option<i64>,
    pub balance_after_minor: Option<i64>,
    pub paid_at: Option<String>,
}

/// One loan of a backup with its extras and payments (a list that is missing or not a
/// list counts as empty).
#[derive(Clone, Debug)]
pub struct ImportEntry {
    pub loan: Option<ImportLoan>,
    pub recurring: Vec<ImportRecurring>,
    pub scheduled: Vec<ImportScheduled>,
    pub payments: Vec<ImportPayment>,
}

/// A recurring extra row to store.
#[derive(Clone, Debug)]
pub struct RecurringRow {
    pub id: String,
    pub amount_minor: i64,
    pub month: i32,
    pub day: i32,
    pub enabled: i32,
}

/// A one-off extra row to store.
#[derive(Clone, Debug)]
pub struct ScheduledRow {
    pub id: String,
    pub amount_minor: i64,
    pub due_date: String,
    pub status: String,
}

/// A payment event row to store.
#[derive(Clone, Debug)]
pub struct PaymentRow {
    pub id: String,
    pub event_type: String,
    pub amount_minor: i64,
    pub interest_portion_minor: i64,
    pub principal_portion_minor: i64,
    pub balance_after_minor: i64,
    pub paid_at: String,
}

/// The rows an imported entry is stored as.
#[derive(Clone, Debug)]
pub struct ImportedLoan {
    pub loan: LoanRow,
    pub recurring: Vec<RecurringRow>,
    pub scheduled: Vec<ScheduledRow>,
    pub payments: Vec<PaymentRow>,
}

pub open spec fn opt_view(o: Option<String>) -> Option<Seq<char>> {
    match o {
        Some(s) => Some(s@),
        None => None,
    }
}

pub open spec fn text_or(o: Option<String>, default: Seq<char>) -> Seq<char> {
    match o {
        Some(s) => s@,
        None => default,
    }
}

pub open spec fn int_or(o: Option<i64>, default: i64) -> i64 {
    match o {
        Some(v) => v,
        None => default,
    }
}

/// A 64-bit integer cut down to 32 bits, as `as i32` does.
pub open spec fn narrow(o: Option<i64>) -> Option<i32> {
    match o {
        Some(v) => Some(v as i32),
        None => None,
    }
}

/// The first field an import requires and the entry lacks, if any.
pub open spec fn import_error(entry: ImportEntry) -> Option<Seq<char>> {
    match entry.loan {
        None => Some("missing loan object"@),
        Some(l) => if l.label is None {
            Some("missing label"@)
        } else if l.remaining_balance_minor is None {
            Some("missing remaining_balance_minor"@)
        } else if l.payment_frequency is None {
            Some("missing payment_frequency"@)
        } else if l.payment_type is None {
            Some("missing payment_type"@)
        } else {
            None
        },
    }
}

/// A given identifier is kept; a missing one is replaced by a fresh one.
pub open spec fn id_kept(id: String, given: Option<String>) -> bool {
    match given {
        Some(g) => id@ == g@,
        None => id@.len() == 36,
    }
}

pub open spec fn imported_loan_matches(r: LoanRow, l: ImportLoan, now: Seq<char>) -> bool {
    &&& id_kept(r.id, l.id)
    &&& r.label@ == text_or(l.label, ""@)
    &&& r.status@ == text_or(l.status, "active"@)
    &&& r.setup_mode@ == text_or(l.setup_mode, "quick"@)
    &&& r.original_principal_minor == l.original_principal_minor
    &&& r.remaining_balance_minor == int_or(l.remaining_balance_minor, 0)
    &&& r.payment_frequency@ == text_or(l.payment_frequency, ""@)
    &&& r.payment_type@ == text_or(l.payment_type, ""@)
    &&& r.fixed_payment_minor == or_else_opt(l.fixed_payment_minor, l.tilgung_euro_minor)
    &&& r.tilgung_percent_basis_points == narrow(l.tilgung_percent_basis_points)
    &&& r.apr_basis_points == narrow(l.apr_basis_points)
    &&& opt_view(r.loan_start_date) == opt_view(l.loan_start_date)
    &&& opt_view(r.first_payment_date) == or_else_opt(opt_view(l.first_payment_date), opt_view(l.loan_start_date))
    &&& r.created_at@ == text_or(l.created_at, now)
    &&& r.updated_at@ == text_or(l.updated_at, now)
    &&& opt_view(r.archived_at) == opt_view(l.archived_at)
    &&& opt_view(r.notes) == opt_view(l.notes)
}

pub open spec fn recurring_row_matches(r: RecurringRow, i: ImportRecurring) -> bool {
    &&& id_kept(r.id, i.id)
    &&& r.amount_minor == int_or(i.amount_minor, 0)
    &&& r.month == int_or(i.month, 1) as i32
    &&& r.day == int_or(i.day, 1) as i32
    &&& r.enabled == (if (match i.enabled {
        Some(b) => b,
        None => true,
    }) {
        1i32
    } else {
        0i32
    })
}

pub open spec fn scheduled_row_matches(r: ScheduledRow, i: ImportScheduled) -> bool {
    &&& id_kept(r.id, i.id)
    &&& r.amount_minor == int_or(i.amount_minor, 0)
    &&& r.due_date@ == text_or(i.due_date, ""@)
    &&& r.status@ == text_or(i.status, "pending"@)
}

pub open spec fn payment_row_matches(r: PaymentRow, i: ImportPayment) -> bool {
    &&& id_kept(r.id, i.id)
    &&& r.event_type@ == text_or(i.event_type, "regular"@)
    &&& r.amount_minor == int_or(i.amount_minor, 0)
    &&& r.interest_portion_minor == int_or(i.interest_portion_minor, 0)
    &&& r.principal_portion_minor == int_or(i.principal_portion_minor, 0)
    &&& r.balance_after_minor == int_or(i.balance_after_minor, 0)
    &&& r.paid_at@ == text_or(i.paid_at, ""@)
}

/// The rows an import stores for an entry, `now` standing for missing timestamps.
pub open spec fn imported_matches(out: ImportedLoan, entry: ImportEntry, now: Seq<char>) -> bool {
    &&& entry.loan matches Some(l) && imported_loan_matches(out.loan, l, now)
    &&& out.recurring@.len() == entry.recurring@.len()
    &&& forall|k: int|
        0 <= k < out.recurring@.len() ==> recurring_row_matches(#[trigger] out.recurring@[k], entry.recurring@[k])
    &&& out.scheduled@.len() == entry.scheduled@.len()
    &&& forall|k: int|
        0 <= k < out.scheduled@.len() ==> scheduled_row_matches(#[trigger] out.scheduled@[k], entry.scheduled@[k])
    &&& out.payments@.len() == entry.payments@.len()
    &&& forall|k: int|
        0 <= k < out.payments@.len() ==> payment_row_matches(#[trigger] out.payments@[k], entry.payments@[k])
}

fn id_or_fresh(given: &Option<String>) -> (id: String)
    ensures
        id_kept(id, *given),
{
    match given {
        Some(g) => g.clone(),
        None => fresh_id(),
    }
}

fn text_or_default(o: &Option<String>, default: &str) -> (s: String)
    ensures
        s@ == text_or(*o, default@),
{
    match o {
        Some(t) => t.clone(),
        None => String::from_str(default),
    }
}

fn clone_opt(o: &Option<String>) -> (r: Option<String>)
    ensures
        opt_view(r) == opt_view(*o),
{
    match o {
        Some(t) => Some(t.clone()),
        None => None,
    }
}

fn narrow_opt(o: Option<i64>) -> (r: Option<i32>)
    ensures
        r == narrow(o),
{
    match o {
        Some(v) => Some(v as i32),
        None => None,
    }
}

fn import_loan_row(l: &ImportLoan, now: &str) -> (r: LoanRow)
    requires
        l.label is Some,
        l.remaining_balance_minor is Some,
        l.payment_frequency is Some,
        l.payment_type is Some,
    ensures
        imported_loan_matches(r, *l, now@),
{
    let first_payment_date = match &l.first_payment_date {
        Some(f) => Some(f.clone()),
        None => clone_opt(&l.loan_start_date),
    };
    LoanRow {
        id: id_or_fresh(&l.id),
        label: text_or_default(&l.label, ""),
        status: text_or_default(&l.status, "active"),
        setup_mode: text_or_default(&l.setup_mode, "quick"),
        original_principal_minor: l.original_principal_minor,
        remaining_balance_minor: match l.remaining_balance_minor {
            Some(v) => v,
            None => 0,
        },
        payment_frequency: text_or_default(&l.payment_frequency, ""),
        payment_type: text_or_default(&l.payment_type, ""),
        fixed_payment_minor: match l.fixed_payment_minor {
            Some(v) => Some(v),
            None => l.tilgung_euro_minor,
        },
        tilgung_percent_basis_points: narrow_opt(l.tilgung_percent_basis_points),
        apr_basis_points: narrow_opt(l.apr_basis_points),
        loan_start_date: clone_opt(&l.loan_start_date),
        first_payment_date,
        created_at: text_or_default(&l.created_at, now),
        updated_at: text_or_default(&l.updated_at, now),
        archived_at: clone_opt(&l.archived_at),
        notes: clone_opt(&l.notes),
    }
}

/// The rows a backup entry is stored as: identifiers are kept where given and fresh ones
/// made elsewhere, missing values take their defaults, and `now` stands for missing
/// timestamps. The loan object, its label, remaining balance, frequency and payment type
/// are required, checked in that order.
pub fn import_loan_entry(entry: &ImportEntry, now: &str) -> (r: Result<ImportedLoan, String>)
    ensures
        match import_error(*entry) {
            Some(m) => r matches Err(e) && e@ == m,
            None => r matches Ok(out) && imported_matches(out, *entry, now@),
        },
{
    let l = match &entry.loan {
        Some(l) => l,
        None => return Err(String::from_str("missing loan object")),
    };
    if l.label.is_none() {
        return Err(String::from_str("missing label"));
    }
    if l.remaining_balance_minor.is_none() {
        return Err(String::from_str("missing remaining_balance_minor"));
    }
    if l.payment_frequency.is_none() {
        return Err(String::from_str("missing payment_frequency"));
    }
    if l.payment_type.is_none() {
        return Err(String::from_str("missing payment_type"));
    }
    let loan = import_loan_row(l, now);

    let mut recurring: Vec<RecurringRow> = Vec::new();
    let mut i: usize = 0;
    while i < entry.recurring.len()
        invariant
            0 <= i <= entry.recurring@.len(),
            recurring@.len() == i,
            forall|k: int| 0 <= k < i ==> recurring_row_matches(#[trigger] recurring@[k], entry.recurring@[k]),
        decreases entry.recurring.len() - i,
    {
        let src = &entry.recurring[i];
        let enabled = match src.enabled {
            Some(b) => b,
            None => true,
        };
        recurring.push(
            RecurringRow {
                id: id_or_fresh(&src.id),
                amount_minor: match src.amount_minor {
                    Some(v) => v,
                    None => 0,
                },
                month: match src.month {
                    Some(v) => v as i32,
                    None => 1,
                },
                day: match src.day {
                    Some(v) => v as i32,
                    None => 1,
                },
                enabled: if enabled {
                    1
                } else {
                    0
                },
            },
        );
        i = i + 1;
    }

    let mut scheduled: Vec<ScheduledRow> = Vec::new();
    let mut j: usize = 0;
    while j < entry.scheduled.len()
        invariant
            0 <= j <= entry.scheduled@.len(),
            scheduled@.len() == j,
            forall|k: int| 0 <= k < j ==> scheduled_row_matches(#[trigger] scheduled@[k], entry.scheduled@[k]),
        decreases entry.scheduled.len() - j,
    {
        let src = &entry.scheduled[j];
        scheduled.push(
            ScheduledRow {
                id: id_or_fresh(&src.id),
                amount_minor: match src.amount_minor {
                    Some(v) => v,
                    None => 0,
                },
                due_date: text_or_default(&src.due_date, ""),
                status: text_or_default(&src.status, "pending"),
            },
        );
        j = j + 1;
    }

    let mut payments: Vec<PaymentRow> = Vec::new();
    let mut p: usize = 0;
    while p < entry.payments.len()
        invariant
            0 <= p <= entry.payments@.len(),
            payments@.len() == p,
            forall|k: int| 0 <= k < p ==> payment_row_matches(#[trigger] payments@[k], entry.payments@[k]),
        decreases entry.payments.len() - p,
    {
        let src = &entry.payments[p];
        payments.push(
            PaymentRow {
                id: id_or_fresh(&src.id),
                event_type: text_or_default(&src.event_type, "regular"),
                amount_minor: match src.amount_minor {
                    Some(v) => v,
                    None => 0,
                },
                interest_portion_minor: match src.interest_portion_minor {
                    Some(v) => v,
                    None => 0,
                },
                principal_portion_minor: match src.principal_portion_minor {
                    Some(v) => v,
                    None => 0,
                },
                balance_after_minor: match src.balance_after_minor {
                    Some(v) => v,
                    None => 0,
                },
                paid_at: text_or_default(&src.paid_at, ""),
            },
        );
        p = p + 1;
    }
    Ok(ImportedLoan { loan, recurring, scheduled, payments })
}

/// The loan object of an exported entry.
#[derive(Clone, Debug)]
pub struct ExportedLoan {
    pub id: String,
    pub label: String,
    pub status: String,
    pub setup_mode: String,
    pub original_principal_minor: Option<i64>,
    pub remaining_balance_minor: i64,
    pub payment_frequency: String,
    pub payment_type: String,
    pub tilgung_euro_minor: Option<i64>,
    pub fixed_payment_minor: Option<i64>,
    pub tilgung_percent_basis_points: Option<i32>,
    pub apr_basis_points: Option<i32>,
    pub loan_start_date: Option<String>,
    pub first_payment_date: Option<String>,
    pub created_at: String,
    pub updated_at: String,
    pub archived_at: Option<String>,
    pub notes: Option<String>,
}

#[derive(Clone, Debug)]
pub struct ExportedRecurring {
    pub id: String,
    pub amount_minor: i64,
    pub month: i32,
    pub day: i32,
    pub enabled: bool,
}

#[derive(Clone, Debug)]
pub struct ExportedScheduled {
    pub id: String,
    pub amount_minor: i64,
    pub due_date: String,
    pub status: String,
}

#[derive(Clone, Debug)]
pub struct ExportedPayment {
    pub id: String,
    pub event_type: String,
    pub amount_minor: i64,
    pub interest_portion_minor: i64,
    pub principal_portion_minor: i64,
    pub balance_after_minor: i64,
    pub paid_at: String,
}

/// One loan of a backup with its extras and payments.
#[derive(Clone, Debug)]
pub struct LoanExport {
    pub loan: ExportedLoan,
    pub recurring: Vec<ExportedRecurring>,
    pub scheduled: Vec<ExportedScheduled>,
    pub payments: Vec<ExportedPayment>,
}

pub open spec fn exported_loan_matches(e: ExportedLoan, row: LoanRow) -> bool {
    &&& e.id@ == row.id@
    &&& e.label@ == row.label@
    &&& e.status@ == row.status@
    &&& e.setup_mode@ == row.setup_mode@
    &&& e.original_principal_minor == row.original_principal_minor
    &&& e.remaining_balance_minor == row.remaining_balance_minor
    &&& e.payment_frequency@ == row.payment_frequency@
    &&& e.payment_type@ == row.payment_type@
    &&& e.tilgung_euro_minor == row.fixed_payment_minor
    &&& e.fixed_payment_minor == row.fixed_payment_minor
    &&& e.tilgung_percent_basis_points == row.tilgung_percent_basis_points
    &&& e.apr_basis_points == row.apr_basis_points
    &&& opt_view(e.loan_start_date) == opt_view(row.loan_start_date)
    &&& opt_view(e.first_payment_date) == opt_view(row.first_payment_date)
    &&& e.created_at@ == row.created_at@
    &&& e.updated_at@ == row.updated_at@
    &&& opt_view(e.archived_at) == opt_view(row.archived_at)
    &&& opt_view(e.notes) == opt_view(row.notes)
}

/// What an export holds of a stored loan, its recurring extras (id, amount, month, day,
/// enabled flag), one-off extras (id, amount, due date, status) and payments (id, event
/// type, amount, interest, principal, balance after, date).
pub open spec fn export_matches(
    x: LoanExport,
    row: LoanRow,
    recurring: Seq<(String, i64, i32, i32, i32)>,
    scheduled: Seq<(String, i64, String, String)>,
    payments: Seq<(String, String, i64, i64, i64, i64, String)>,
) -> bool {
    &&& exported_loan_matches(x.loan, row)
    &&& x.recurring@.len() == recurring.len()
    &&& forall|k: int|
        0 <= k < recurring.len() ==> {
            let r = #[trigger] x.recurring@[k];
            &&& r.id@ == recurring[k].0@
            &&& r.amount_minor == recurring[k].1
            &&& r.month == recurring[k].2
            &&& r.day == recurring[k].3
            &&& r.enabled == (recurring[k].4 != 0)
        }
    &&& x.scheduled@.len() == scheduled.len()
    &&& forall|k: int|
        0 <= k < scheduled.len() ==> {
            let s = #[trigger] x.scheduled@[k];
            &&& s.id@ == scheduled[k].0@
            &&& s.amount_minor == scheduled[k].1
            &&& s.due_date@ == scheduled[k].2@
            &&& s.status@ == scheduled[k].3@
        }
    &&& x.payments@.len() == payments.len()
    &&& forall|k: int|
        0 <= k < payments.len() ==> {
            let p = #[trigger] x.payments@[k];
            &&& p.id@ == payments[k].0@
            &&& p.event_type@ == payments[k].1@
            &&& p.amount_minor == payments[k].2
            &&& p.interest_portion_minor == payments[k].3
            &&& p.principal_portion_minor == payments[k].4
            &&& p.balance_after_minor == payments[k].5
            &&& p.paid_at@ == payments[k].6@
        }
}

/// The backup entry of a stored loan. The fixed repayment is written under both its
/// current and its legacy name.
pub fn export_loan_entry(
    row: &LoanRow,
    recurring: &Vec<(String, i64, i32, i32, i32)>,
    scheduled: &Vec<(String, i64, String, String)>,
    payments: &Vec<(String, String, i64, i64, i64, i64, String)>,
) -> (x: LoanExport)
    ensures
        export_matches(x, *row, recurring@, scheduled@, payments@),
{
    let loan = ExportedLoan {
        id: row.id.clone(),
        label: row.label.clone(),
        status: row.status.clone(),
        setup_mode: row.setup_mode.clone(),
        original_principal_minor: row.original_principal_minor,
        remaining_balance_minor: row.remaining_balance_minor,
        payment_frequency: row.payment_frequency.clone(),
        payment_type: row.payment_type.clone(),
        tilgung_euro_minor: row.fixed_payment_minor,
        fixed_payment_minor: row.fixed_payment_minor,
        tilgung_percent_basis_points: row.tilgung_percent_basis_points,
        apr_basis_points: row.apr_basis_points,
        loan_start_date: clone_opt(&row.loan_start_date),
        first_payment_date: clone_opt(&row.first_payment_date),
        created_at: row.created_at.clone(),
        updated_at: row.updated_at.clone(),
        archived_at: clone_opt(&row.archived_at),
        notes: clone_opt(&row.notes),
    };
    let mut rec: Vec<ExportedRecurring> = Vec::new();
    let mut i: usize = 0;
    while i < recurring.len()
        invariant
            0 <= i <= recurring@.len(),
            rec@.len() == i,
            forall|k: int|
                0 <= k < i ==> {
                    let r = #[trigger] rec@[k];
                    &&& r.id@ == recurring@[k].0@
                    &&& r.amount_minor == recurring@[k].1
                    &&& r.month == recurring@[k].2
                    &&& r.day == recurring@[k].3
                    &&& r.enabled == (recurring@[k].4 != 0)
                },
        decreases recurring.len() - i,
    {
        let e = &recurring[i];
        rec.push(ExportedRecurring { id: e.0.clone(), amount_minor: e.1, month: e.2, day: e.3, enabled: e.4 != 0 });
        i = i + 1;
    }
    let mut sch: Vec<ExportedScheduled> = Vec::new();
    let mut j: usize = 0;
    while j < scheduled.len()
        invariant
            0 <= j <= scheduled@.len(),
            sch@.len() == j,
            forall|k: int|
                0 <= k < j ==> {
                    let s = #[trigger] sch@[k];
                    &&& s.id@ == scheduled@[k].0@
                    &&& s.amount_minor == scheduled@[k].1
                    &&& s.due_date@ == scheduled@[k].2@
                    &&& s.status@ == scheduled@[k].3@
                },
        decreases scheduled.len() - j,
    {
        let e = &scheduled[j];
        sch.push(ExportedScheduled { id: e.0.clone(), amount_minor: e.1, due_date: e.2.clone(), status: e.3.clone() });
        j = j + 1;
    }
    let mut pay: Vec<ExportedPayment> = Vec::new();
    let mut p: usize = 0;
    while p < payments.len()
        invariant
            0 <= p <= payments@.len(),
            pay@.len() == p,
            forall|k: int|
                0 <= k < p ==> {
                    let q = #[trigger] pay@[k];
                    &&& q.id@ == payments@[k].0@
                    &&& q.event_type@ == payments@[k].1@
                    &&& q.amount_minor == payments@[k].2
                    &&& q.interest_portion_minor == payments@[k].3
                    &&& q.principal_portion_minor == payments@[k].4
                    &&& q.balance_after_minor == payments@[k].5
                    &&& q.paid_at@ == payments@[k].6@
                },
        decreases payments.len() - p,
    {
        let e = &payments[p];
        pay.push(
            ExportedPayment {
                id: e.0.clone(),
                event_type: e.1.clone(),
                amount_minor: e.2,
                interest_portion_minor: e.3,
                principal_portion_minor: e.4,
                balance_after_minor: e.5,
                paid_at: e.6.clone(),
            },
        );
        p = p + 1;
    }
    LoanExport { loan, recurring: rec, scheduled: sch, payments: pay }
}

/// A 32-bit integer read back as a 64-bit one.
pub open spec fn widen(o: Option<i32>) -> Option<i64> {
    match o {
        Some(v) => Some(v as i64),
        None => None,
    }
}

/// What reading an exported loan object back finds in it: every exported value.
pub open spec fn exported_as_import(x: ExportedLoan) -> ImportLoan {
    ImportLoan {
        id: Some(x.id),
        label: Some(x.label),
        status: Some(x.status),
        setup_mode: Some(x.setup_mode),
        original_principal_minor: x.original_principal_minor,
        remaining_balance_minor: Some(x.remaining_balance_minor),
        payment_frequency: Some(x.payment_frequency),
        payment_type: Some(x.payment_type),
        fixed_payment_minor: x.fixed_payment_minor,
        tilgung_euro_minor: x.tilgung_euro_minor,
        tilgung_percent_basis_points: widen(x.tilgung_percent_basis_points),
        apr_basis_points: widen(x.apr_basis_points),
        loan_start_date: x.loan_start_date,
        first_payment_date: x.first_payment_date,
        created_at: Some(x.created_at),
        updated_at: Some(x.updated_at),
        archived_at: x.archived_at,
        notes: x.notes,
    }
}

pub open spec fn recurring_as_import(r: ExportedRecurring) -> ImportRecurring {
    ImportRecurring {
        id: Some(r.id),
        amount_minor: Some(r.amount_minor),
        month: Some(r.month as i64),
        day: Some(r.day as i64),
        enabled: Some(r.enabled),
    }
}

pub open spec fn scheduled_as_import(s: ExportedScheduled) -> ImportScheduled {
    ImportScheduled {
        id: Some(s.id),
        amount_minor: Some(s.amount_minor),
        due_date: Some(s.due_date),
        status: Some(s.status),
    }
}

pub open spec fn payment_as_import(p: ExportedPayment) -> ImportPayment {
    ImportPayment {
        id: Some(p.id),
        event_type: Some(p.event_type),
        amount_minor: Some(p.amount_minor),
        interest_portion_minor: Some(p.interest_portion_minor),
        principal_portion_minor: Some(p.principal_portion_minor),
        balance_after_minor: Some(p.balance_after_minor),
        paid_at: Some(p.paid_at),
    }
}

/// Restoring a backup brings a stored loan back unchanged: every field of the restored row
/// equals the stored one, and the import finds every value it requires. (A stored loan
/// with a start date always has a first payment date; an import that finds none takes the
/// start date in its place, so the law is stated for such rows.)
pub proof fn lemma_backup_restores_loan(row: LoanRow, x: ExportedLoan, restored: LoanRow, now: Seq<char>)
    requires
        row.loan_start_date is Some ==> row.first_payment_date is Some,
        exported_loan_matches(x, row),
        imported_loan_matches(restored, exported_as_import(x), now),
    ensures
        forall|e: ImportEntry| e.loan == Some(exported_as_import(x)) ==> #[trigger] import_error(e) is None,
        restored.id@ == row.id@,
        restored.label@ == row.label@,
        restored.status@ == row.status@,
        restored.setup_mode@ == row.setup_mode@,
        restored.original_principal_minor == row.original_principal_minor,
        restored.remaining_balance_minor == row.remaining_balance_minor,
        restored.payment_frequency@ == row.payment_frequency@,
        restored.payment_type@ == row.payment_type@,
        restored.fixed_payment_minor == row.fixed_payment_minor,
        restored.tilgung_percent_basis_points == row.tilgung_percent_basis_points,
        restored.apr_basis_points == row.apr_basis_points,
        opt_view(restored.loan_start_date) == opt_view(row.loan_start_date),
        opt_view(restored.first_payment_date) == opt_view(row.first_payment_date),
        restored.created_at@ == row.created_at@,
        restored.updated_at@ == row.updated_at@,
        opt_view(restored.archived_at) == opt_view(row.archived_at),
        opt_view(restored.notes) == opt_view(row.notes),
{
}

/// Restoring a backup brings each recurring extra back with its identifier, amount, month
/// and day; its enabled flag comes back as 1 or 0, so a flag stored as 1 or 0 comes back
/// unchanged.
pub proof fn lemma_backup_restores_recurring(stored: (String, i64, i32, i32, i32), x: ExportedRecurring, restored: RecurringRow)
    requires
        x.id@ == stored.0@,
        x.amount_minor == stored.1,
        x.month == stored.2,
        x.day == stored.3,
        x.enabled == (stored.4 != 0),
        recurring_row_matches(restored, recurring_as_import(x)),
    ensures
        restored.id@ == stored.0@,
        restored.amount_minor == stored.1,
        restored.month == stored.2,
        restored.day == stored.3,
        restored.enabled == (if stored.4 != 0 {
            1i32
        } else {
            0i32
        }),
        (stored.4 == 0 || stored.4 == 1) ==> restored.enabled == stored.4,
{
    assert(stored.2 as i64 as i32 == stored.2);
    assert(stored.3 as i64 as i32 == stored.3);
}

/// Restoring a backup brings each one-off extra and each payment back unchanged.
pub proof fn lemma_backup_restores_scheduled_and_payments(
    s: ExportedScheduled,
    s_restored: ScheduledRow,
    p: ExportedPayment,
    p_restored: PaymentRow,
)
    requires
        scheduled_row_matches(s_restored, scheduled_as_import(s)),
        payment_row_matches(p_restored, payment_as_import(p)),
    ensures
        s_restored.id@ == s.id@,
        s_restored.amount_minor == s.amount_minor,
        s_restored.due_date@ == s.due_date@,
        s_restored.status@ == s.status@,
        p_restored.id@ == p.id@,
        p_restored.event_type@ == p.event_type@,
        p_restored.amount_minor == p.amount_minor,
        p_restored.interest_portion_minor == p.interest_portion_minor,
        p_restored.principal_portion_minor == p.principal_portion_minor,
        p_restored.balance_after_minor == p.balance_after_minor,
        p_restored.paid_at@ == p.paid_at@,
{
}

} // verus!
