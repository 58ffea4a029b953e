use dept_tracker::calendar::{date_leq, date_less, iso_date_text, Date};
use dept_tracker::extras::{extras_for_date, pending_scheduled_extras};
use dept_tracker::money::{minor_to_decimal, round_div_i128, saturate_to_i64};
use dept_tracker::text::{char_is_whitespace, decimal_string, is_blank, str_equal, trim};
use dept_tracker::types::{
    LoanCalcInput, LoanStatus, PaymentFrequency, PaymentType, RecurringExtra, ScheduledExtra,
};

fn date(year: i32, month: u32, day: u32) -> Date {
    Date { year, month, day }
}

#[test]
fn type_words_round_trip() {
    for t in [PaymentType::TilgungPercent, PaymentType::TilgungEuro] {
        assert_eq!(PaymentType::parse(t.as_str()), Ok(t));
        assert_eq!(t.as_str().parse::<PaymentType>(), Ok(t));
    }
    for s in [LoanStatus::Active, LoanStatus::Archived] {
        assert_eq!(LoanStatus::parse(s.as_str()), Ok(s));
        assert_eq!(s.as_str().parse::<LoanStatus>(), Ok(s));
    }
    assert_eq!(PaymentType::TilgungPercent.as_str(), "tilgung_percent");
    assert_eq!(PaymentType::TilgungEuro.as_str(), "tilgung_euro");
    assert_eq!(LoanStatus::Archived.as_str(), "archived");
    assert_eq!(PaymentType::parse("percent"), Ok(PaymentType::TilgungPercent));
    assert_eq!(PaymentType::parse("euro"), Ok(PaymentType::TilgungEuro));
    assert_eq!(PaymentType::parse("TILGUNG_EURO"), Err(()));
    assert_eq!(LoanStatus::parse("Active"), Err(()));
}

#[test]
fn calendar_order() {
    assert!(date_less(date(2024, 12, 31), date(2025, 1, 1)));
    assert!(date_less(date(2025, 1, 31), date(2025, 2, 1)));
    assert!(!date_less(date(2025, 2, 1), date(2025, 2, 1)));
    assert!(date_leq(date(2025, 2, 1), date(2025, 2, 1)));
    assert!(!date_leq(date(2025, 2, 2), date(2025, 2, 1)));
}

#[test]
fn text_helpers() {
    assert!(str_equal("abc", "abc"));
    assert!(!str_equal("abc", "abd"));
    assert!(!str_equal("abc", "ab"));
    assert_eq!(trim("  a b \t"), "a b");
    assert_eq!(trim("\u{00a0}x\u{2003}"), "x");
    assert!(is_blank(" \n\t"));
    assert!(is_blank(""));
    assert!(!is_blank(" . "));
    assert_eq!(decimal_string(0), "0");
    assert_eq!(decimal_string(2_592_000), "2592000");
    assert_eq!(decimal_string(u64::MAX), "18446744073709551615");
}

#[test]
fn money_helpers() {
    assert_eq!(minor_to_decimal(100), "1.00");
    assert_eq!(minor_to_decimal(-5), "-0.05");
    assert_eq!(round_div_i128(5, 2), 3);
    assert_eq!(round_div_i128(-5, 2), -3);
    assert_eq!(round_div_i128(4, 3), 1);
    assert_eq!(round_div_i128(-4, 3), -1);
    assert_eq!(saturate_to_i64(i128::MAX), i64::MAX);
    assert_eq!(saturate_to_i64(i128::MIN), i64::MIN);
    assert_eq!(saturate_to_i64(-7), -7);
}

fn loan_with_extras() -> LoanCalcInput {
    LoanCalcInput {
        id: "1".into(),
        label: "x".into(),
        status: LoanStatus::Active,
        remaining_balance_minor: 1_000_00,
        original_principal_minor: None,
        payment_frequency: PaymentFrequency::Monthly,
        payment_type: PaymentType::TilgungEuro,
        tilgung_euro_minor: Some(100_00),
        tilgung_percent_basis_points: None,
        apr_basis_points: None,
        loan_start_date: date(2024, 1, 1),
        first_payment_date: date(2024, 1, 1),
        recurring_extras: vec![
            RecurringExtra { amount_minor: 50_00, month: 12, day: 1, enabled: true },
            RecurringExtra { amount_minor: 25_00, month: 12, day: 1, enabled: true },
            RecurringExtra { amount_minor: 99_00, month: 12, day: 1, enabled: false },
            RecurringExtra { amount_minor: 10_00, month: 11, day: 1, enabled: true },
        ],
        scheduled_extras: vec![
            ScheduledExtra { amount_minor: 300_00, due_date: date(2025, 12, 1), status: "pending".into() },
            ScheduledExtra { amount_minor: 700_00, due_date: date(2025, 12, 1), status: "done".into() },
            ScheduledExtra { amount_minor: 5_00, due_date: date(2026, 12, 1), status: "pending".into() },
        ],
        payments: vec![],
    }
}

#[test]
fn extras_due_on_a_date() {
    let l = loan_with_extras();
    assert_eq!(extras_for_date(&l, date(2025, 12, 1)), 75_00);
    assert_eq!(extras_for_date(&l, date(2030, 12, 1)), 75_00);
    assert_eq!(extras_for_date(&l, date(2025, 12, 2)), 0);
    assert_eq!(pending_scheduled_extras(&l, date(2025, 12, 1)), 300_00);
    assert_eq!(pending_scheduled_extras(&l, date(2026, 12, 1)), 5_00);
    assert_eq!(pending_scheduled_extras(&l, date(2027, 12, 1)), 0);
}

#[test]
fn white_space_is_the_unicode_set() {
    for c in ['\t', '\n', '\u{0B}', '\u{0C}', '\r', ' ', '\u{85}', '\u{A0}', '\u{1680}', '\u{2000}', '\u{200A}', '\u{2028}', '\u{2029}', '\u{202F}', '\u{205F}', '\u{3000}'] {
        assert!(char_is_whitespace(c), "{:?}", c);
        assert_eq!(char_is_whitespace(c), c.is_whitespace());
    }
    for c in ['a', '.', '\u{08}', '\u{0E}', '\u{1F}', '\u{200B}', '\u{FEFF}', '\u{3001}'] {
        assert!(!char_is_whitespace(c), "{:?}", c);
        assert_eq!(char_is_whitespace(c), c.is_whitespace());
    }
    assert!(is_blank("\u{3000}\u{A0} "));
    assert!(!is_blank("Test"));
}

#[test]
fn white_space_agrees_with_std_on_every_char() {
    for u in 0u32..=0x10FFFF {
        if let Some(c) = char::from_u32(u) {
            assert_eq!(char_is_whitespace(c), c.is_whitespace(), "U+{:04X}", u);
        }
    }
}

#[test]
fn iso_date_text_formats_real_days_only() {
    assert_eq!(iso_date_text(date(2024, 2, 29)).as_deref(), Some("2024-02-29"));
    assert_eq!(iso_date_text(date(987, 1, 5)).as_deref(), Some("0987-01-05"));
    assert_eq!(iso_date_text(date(2023, 2, 29)), None);
    assert_eq!(iso_date_text(date(2023, 13, 1)), None);
}
