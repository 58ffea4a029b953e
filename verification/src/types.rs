//! Loan data the calculations work on, free of any storage concerns.

use vstd::prelude::*;
use vstd::string::*;
use crate::calendar::Date;
use crate::text::str_equal;

verus! {

#[derive(Clone, Copy, Debug, PartialEq, Eq, Structural)]
pub enum PaymentFrequency {
    Monthly,
    Yearly,
}

pub open spec fn frequency_text(f: PaymentFrequency) -> Seq<char> {
    match f {
        PaymentFrequency::Monthly => "monthly"@,
        PaymentFrequency::Yearly => "yearly"@,
    }
}

/// How principal (Tilgung) is determined each period.
#[derive(Clone, Copy, Debug, PartialEq, Eq, Structural)]
pub enum PaymentType {
    /// Annual % of original loan amount (Prozentuale Tilgung).
    TilgungPercent,
    /// Fixed principal per period in EUR (Tilgung €).
    TilgungEuro,
}

pub open spec fn payment_type_text(t: PaymentType) -> Seq<char> {
    match t {
        PaymentType::TilgungPercent => "tilgung_percent"@,
        PaymentType::TilgungEuro => "tilgung_euro"@,
    }
}

/// The spellings accepted for each payment type.
pub open spec fn parse_payment_type_spec(s: Seq<char>) -> Result<PaymentType, ()> {
    if s == "tilgung_percent"@ || s == "percent"@ || s == "apr"@ {
        Ok(PaymentType::TilgungPercent)
    } else if s == "tilgung_euro"@ || s == "euro"@ || s == "fixed"@ {
        Ok(PaymentType::TilgungEuro)
    } else {
        Err(())
    }
}

impl PaymentType {
    pub fn as_str(&self) -> (s: &'static str)
        ensures
            s@ == payment_type_text(*self),
    {
        match self {
            PaymentType::TilgungPercent => "tilgung_percent",
            PaymentType::TilgungEuro => "tilgung_euro",
        }
    }

    /// Reads a payment type from its storage or request spelling.
    pub fn parse(s: &str) -> (r: Result<PaymentType, ()>)
        ensures
            r == parse_payment_type_spec(s@),
    {
        if str_equal(s, "tilgung_percent") || str_equal(s, "percent") || str_equal(s, "apr") {
            Ok(PaymentType::TilgungPercent)
        } else if str_equal(s, "tilgung_euro") || str_equal(s, "euro") || str_equal(s, "fixed") {
            Ok(PaymentType::TilgungEuro)
        } else {
            Err(())
        }
    }
}

impl std::str::FromStr for PaymentType {
    type Err = ();

    fn from_str(s: &str) -> (r: Result<Self, Self::Err>)
        ensures
            r == parse_payment_type_spec(s@),
    {
        PaymentType::parse(s)
    }
}

#[derive(Clone, Copy, Debug, PartialEq, Eq, Structural)]
pub enum LoanStatus {
    Active,
    Archived,
}

pub open spec fn loan_status_text(s: LoanStatus) -> Seq<char> {
    match s {
        LoanStatus::Active => "active"@,
        LoanStatus::Archived => "archived"@,
    }
}

pub open spec fn parse_loan_status_spec(s: Seq<char>) -> Result<LoanStatus, ()> {
    if s == "active"@ {
        Ok(LoanStatus::Active)
    } else if s == "archived"@ {
        Ok(LoanStatus::Archived)
    } else {
        Err(())
    }
}

impl LoanStatus {
    pub fn as_str(&self) -> (s: &'static str)
        ensures
            s@ == loan_status_text(*self),
    {
        match self {
            LoanStatus::Active => "active",
            LoanStatus::Archived => "archived",
        }
    }

    pub fn parse(s: &str) -> (r: Result<LoanStatus, ()>)
        ensures
            r == parse_loan_status_spec(s@),
    {
        if str_equal(s, "active") {
            Ok(LoanStatus::Active)
        } else if str_equal(s, "archived") {
            Ok(LoanStatus::Archived)
        } else {
            Err(())
        }
    }
}

impl std::str::FromStr for LoanStatus {
    type Err = ();

    fn from_str(s: &str) -> (r: Result<Self, Self::Err>)
        ensures
            r == parse_loan_status_spec(s@),
    {
        LoanStatus::parse(s)
    }
}

/// Rendering a payment type and reading it back gives the same type.
pub proof fn lemma_payment_type_round_trip(t: PaymentType)
    ensures
        parse_payment_type_spec(payment_type_text(t)) == Ok::<PaymentType, ()>(t),
{
    broadcast use vstd::string::group_string_axioms;
    reveal_strlit("tilgung_percent");
    reveal_strlit("tilgung_euro");
    reveal_strlit("percent");
    reveal_strlit("apr");
    reveal_strlit("euro");
    reveal_strlit("fixed");
    assert("tilgung_euro"@.len() == 12);
    assert("tilgung_percent"@.len() == 15);
    assert("percent"@.len() == 7);
    assert("apr"@.len() == 3);
}

/// Rendering a loan status and reading it back gives the same status.
pub proof fn lemma_loan_status_round_trip(s: LoanStatus)
    ensures
        parse_loan_status_spec(loan_status_text(s)) == Ok::<LoanStatus, ()>(s),
{
    broadcast use vstd::string::group_string_axioms;
    reveal_strlit("active");
    reveal_strlit("archived");
    assert("archived"@.len() == 8);
    assert("active"@.len() == 6);
}

} // verus!

verus! {

#[derive(Clone, Debug)]
pub struct RecurringExtra {
    pub amount_minor: i64,
    pub month: u8,
    pub day: u8,
    pub enabled: bool,
}

#[derive(Clone, Debug)]
pub struct ScheduledExtra {
    pub amount_minor: i64,
    pub due_date: Date,
    pub status: String,
}

#[derive(Clone, Debug)]
pub struct PaymentRecord {
    pub paid_at: Date,
    pub amount_minor: i64,
    pub interest_portion_minor: i64,
    pub principal_portion_minor: i64,
    pub event_type: String,
}

/// Loan data needed for calculations (storage-agnostic).
#[derive(Clone, Debug)]
pub struct LoanCalcInput {
    pub id: String,
    pub label: String,
    pub status: LoanStatus,
    pub remaining_balance_minor: i64,
    pub original_principal_minor: Option<i64>,
    pub payment_frequency: PaymentFrequency,
    pub payment_type: PaymentType,
    /// Tilgung € per period (principal only).
    pub tilgung_euro_minor: Option<i64>,
    /// Annual tilgung % of original principal (basis points, e.g. 200 = 2.00%).
    pub tilgung_percent_basis_points: Option<i32>,
    /// APR for interest calculation (basis points).
    pub apr_basis_points: Option<i32>,
    /// Contract / disbursement start (date-only, no timezone).
    pub loan_start_date: Date,
    /// First regular installment due date; auto-payments anchor here, not created_at.
    pub first_payment_date: Date,
    pub recurring_extras: Vec<RecurringExtra>,
    pub scheduled_extras: Vec<ScheduledExtra>,
    pub payments: Vec<PaymentRecord>,
}

impl LoanCalcInput {
    /// The APR the calculations use: a missing rate counts as zero.
    pub open spec fn apr_or_zero(&self) -> int {
        match self.apr_basis_points {
            Some(a) => a as int,
            None => 0,
        }
    }
}

} // verus!
