use dept_tracker::store::LoanRow;
use dept_tracker::transfer::{
    check_schema_version, export_loan_entry, import_loan_entry, ImportEntry, ImportLoan,
    ImportPayment, ImportRecurring, ImportScheduled,
};

fn row() -> LoanRow {
    LoanRow {
        id: "loan-1".into(),
        label: "Mortgage".into(),
        status: "active".into(),
        setup_mode: "advanced".into(),
        original_principal_minor: Some(200_000_00),
        remaining_balance_minor: 150_000_00,
        payment_frequency: "monthly".into(),
        payment_type: "tilgung_euro".into(),
        fixed_payment_minor: Some(800_00),
        tilgung_percent_basis_points: Some(250),
        apr_basis_points: Some(375),
        loan_start_date: Some("2020-03-01".into()),
        first_payment_date: None,
        created_at: "2020-02-15T10:00:00+00:00".into(),
        updated_at: "2024-01-01T00:00:00+00:00".into(),
        archived_at: None,
        notes: Some("house".into()),
    }
}

fn empty_loan() -> ImportLoan {
    ImportLoan {
        id: None,
        label: Some("L".into()),
        status: None,
        setup_mode: None,
        original_principal_minor: None,
        remaining_balance_minor: Some(1_000_00),
        payment_frequency: Some("monthly".into()),
        payment_type: Some("tilgung_euro".into()),
        fixed_payment_minor: None,
        tilgung_euro_minor: None,
        tilgung_percent_basis_points: None,
        apr_basis_points: None,
        loan_start_date: None,
        first_payment_date: None,
        created_at: None,
        updated_at: None,
        archived_at: None,
        notes: None,
    }
}

fn entry(loan: Option<ImportLoan>) -> ImportEntry {
    ImportEntry { loan, recurring: vec![], scheduled: vec![], payments: vec![] }
}

#[test]
fn only_schema_one_is_accepted() {
    assert!(check_schema_version(1).is_ok());
    assert_eq!(check_schema_version(2), Err("unsupported schema_version".to_string()));
    assert_eq!(check_schema_version(0), Err("unsupported schema_version".to_string()));
}

#[test]
fn import_requires_loan_fields_in_order() {
    assert_eq!(import_loan_entry(&entry(None), "now").unwrap_err(), "missing loan object");
    let mut l = empty_loan();
    l.label = None;
    l.payment_type = None;
    assert_eq!(import_loan_entry(&entry(Some(l)), "now").unwrap_err(), "missing label");
    let mut l = empty_loan();
    l.remaining_balance_minor = None;
    assert_eq!(import_loan_entry(&entry(Some(l)), "now").unwrap_err(), "missing remaining_balance_minor");
    let mut l = empty_loan();
    l.payment_frequency = None;
    assert_eq!(import_loan_entry(&entry(Some(l)), "now").unwrap_err(), "missing payment_frequency");
    let mut l = empty_loan();
    l.payment_type = None;
    assert_eq!(import_loan_entry(&entry(Some(l)), "now").unwrap_err(), "missing payment_type");
}

#[test]
fn import_fills_defaults() {
    let mut e = entry(Some(empty_loan()));
    e.recurring.push(ImportRecurring { id: None, amount_minor: None, month: None, day: None, enabled: None });
    e.scheduled.push(ImportScheduled { id: Some("s1".into()), amount_minor: None, due_date: None, status: None });
    e.payments.push(ImportPayment {
        id: None,
        event_type: None,
        amount_minor: None,
        interest_portion_minor: None,
        principal_portion_minor: None,
        balance_after_minor: None,
        paid_at: None,
    });
    let out = import_loan_entry(&e, "2025-01-01T00:00:00+00:00").unwrap();
    assert_eq!(out.loan.id.len(), 36);
    assert_eq!(out.loan.status, "active");
    assert_eq!(out.loan.setup_mode, "quick");
    assert_eq!(out.loan.created_at, "2025-01-01T00:00:00+00:00");
    assert_eq!(out.loan.updated_at, "2025-01-01T00:00:00+00:00");
    assert_eq!(out.recurring[0].id.len(), 36);
    assert_ne!(out.recurring[0].id, out.loan.id);
    assert_eq!((out.recurring[0].amount_minor, out.recurring[0].month, out.recurring[0].day, out.recurring[0].enabled), (0, 1, 1, 1));
    assert_eq!(out.scheduled[0].id, "s1");
    assert_eq!(out.scheduled[0].due_date, "");
    assert_eq!(out.scheduled[0].status, "pending");
    assert_eq!(out.payments[0].event_type, "regular");
    assert_eq!(out.payments[0].paid_at, "");
    assert_eq!(out.payments[0].amount_minor, 0);
}

#[test]
fn import_takes_legacy_fields_and_narrows_rates() {
    let mut l = empty_loan();
    l.tilgung_euro_minor = Some(300_00);
    l.apr_basis_points = Some(375);
    l.tilgung_percent_basis_points = Some(0x1_0000_0005);
    l.loan_start_date = Some("2021-01-01".into());
    let out = import_loan_entry(&entry(Some(l)), "now").unwrap();
    assert_eq!(out.loan.fixed_payment_minor, Some(300_00));
    assert_eq!(out.loan.apr_basis_points, Some(375));
    assert_eq!(out.loan.tilgung_percent_basis_points, Some(5));
    assert_eq!(out.loan.first_payment_date.as_deref(), Some("2021-01-01"));
}

#[test]
fn export_writes_every_stored_value() {
    let recurring = vec![("r1".to_string(), 500_00, 12, 24, 7)];
    let scheduled = vec![("s1".to_string(), 1_000_00, "2025-07-01".to_string(), "pending".to_string())];
    let payments = vec![("p1".to_string(), "regular".to_string(), 1_200_00, 400_00, 800_00, 149_200_00, "2024-01-01".to_string())];
    let x = export_loan_entry(&row(), &recurring, &scheduled, &payments);
    assert_eq!(x.loan.id, "loan-1");
    assert_eq!(x.loan.tilgung_euro_minor, Some(800_00));
    assert_eq!(x.loan.fixed_payment_minor, Some(800_00));
    assert_eq!(x.loan.created_at, "2020-02-15T10:00:00+00:00");
    assert_eq!(x.loan.updated_at, "2024-01-01T00:00:00+00:00");
    assert_eq!(x.loan.archived_at, None);
    assert_eq!(x.loan.notes.as_deref(), Some("house"));
    assert!(x.recurring[0].enabled);
    assert_eq!(x.recurring[0].day, 24);
    assert_eq!(x.scheduled[0].due_date, "2025-07-01");
    assert_eq!(x.payments[0].balance_after_minor, 149_200_00);
}

#[test]
fn backup_round_trip_restores_the_loan() {
    let mut original = row();
    original.first_payment_date = Some("2020-04-01".into());
    original.status = "archived".into();
    original.archived_at = Some("2024-06-01 12:00:00".into());
    let x = export_loan_entry(&original, &vec![("r1".to_string(), 500_00, 12, 24, 7)], &vec![], &vec![]);
    let l = x.loan;
    let back = ImportEntry {
        loan: Some(ImportLoan {
            id: Some(l.id),
            label: Some(l.label),
            status: Some(l.status),
            setup_mode: Some(l.setup_mode),
            original_principal_minor: l.original_principal_minor,
            remaining_balance_minor: Some(l.remaining_balance_minor),
            payment_frequency: Some(l.payment_frequency),
            payment_type: Some(l.payment_type),
            fixed_payment_minor: l.fixed_payment_minor,
            tilgung_euro_minor: l.tilgung_euro_minor,
            tilgung_percent_basis_points: l.tilgung_percent_basis_points.map(i64::from),
            apr_basis_points: l.apr_basis_points.map(i64::from),
            loan_start_date: l.loan_start_date,
            first_payment_date: l.first_payment_date,
            created_at: Some(l.created_at),
            updated_at: Some(l.updated_at),
            archived_at: l.archived_at,
            notes: l.notes,
        }),
        recurring: x
            .recurring
            .iter()
            .map(|r| ImportRecurring {
                id: Some(r.id.clone()),
                amount_minor: Some(r.amount_minor),
                month: Some(i64::from(r.month)),
                day: Some(i64::from(r.day)),
                enabled: Some(r.enabled),
            })
            .collect(),
        scheduled: vec![],
        payments: vec![],
    };
    let restored = import_loan_entry(&back, "restore-time").unwrap();
    let r = restored.loan;
    assert_eq!(r.id, original.id);
    assert_eq!(r.label, original.label);
    assert_eq!(r.status, original.status);
    assert_eq!(r.setup_mode, original.setup_mode);
    assert_eq!(r.original_principal_minor, original.original_principal_minor);
    assert_eq!(r.remaining_balance_minor, original.remaining_balance_minor);
    assert_eq!(r.payment_frequency, original.payment_frequency);
    assert_eq!(r.payment_type, original.payment_type);
    assert_eq!(r.fixed_payment_minor, original.fixed_payment_minor);
    assert_eq!(r.tilgung_percent_basis_points, original.tilgung_percent_basis_points);
    assert_eq!(r.apr_basis_points, original.apr_basis_points);
    assert_eq!(r.loan_start_date, original.loan_start_date);
    assert_eq!(r.first_payment_date, original.first_payment_date);
    assert_eq!(r.created_at, original.created_at);
    assert_eq!(r.updated_at, original.updated_at);
    assert_eq!(r.archived_at, original.archived_at);
    assert_eq!(r.notes, original.notes);
    assert_eq!(restored.recurring[0].id, "r1");
    assert_eq!(restored.recurring[0].enabled, 1);
    assert_eq!(restored.recurring[0].month, 12);
}
