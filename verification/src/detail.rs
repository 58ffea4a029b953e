//! The detail view of one loan: its stored terms next to the projection, the interest
//! figures and its progress.

use vstd::prelude::*;
use crate::amortization::total_spec;
use crate::calendar::{date_text, date_to_string, Date};
use crate::dashboard::{
    is_listed, last_regular_payment, last_regular_payment_date, money, money_matches, progress_base,
    summarizable, MoneyDto,
};
use crate::interest::{compute_interest_summary, interest_paid_fits, interest_paid_prefix, remaining_interest_spec};
use crate::projection::{payoff_date_spec, project_payoff};
use crate::store::LoanRow;
use crate::transfer::opt_view;
use crate::types::LoanCalcInput;

verus! {

/// What the detail page of a loan shows.
#[derive(Clone, Debug)]
pub struct LoanDetail {
    pub id: String,
    pub label: String,
    pub remaining_balance: MoneyDto,
    pub periodic_payment: MoneyDto,
    /// As stored.
    pub payment_frequency: String,
    pub last_payment_date: Option<String>,
    pub projected_payoff_date: Option<String>,
    /// As stored.
    pub payment_type: String,
    pub tilgung_euro_minor: Option<i64>,
    pub tilgung_percent_basis_points: Option<i32>,
    pub loan_start_date: Option<String>,
    pub first_payment_date: Option<String>,
    pub apr_basis_points: Option<i32>,
    pub interest_paid_to_date: MoneyDto,
    pub interest_remaining_estimate: MoneyDto,
    pub interest_message: Option<String>,
    /// Amount paid down and the amount it is measured against, for an active loan.
    pub progress: Option<(i64, i64)>,
}

pub open spec fn date_text_matches(t: Option<String>, d: Option<Date>) -> bool {
    match (t, d) {
        (Some(t), Some(d)) => t@ == date_text(d),
        (None, None) => true,
        _ => false,
    }
}

pub open spec fn detail_matches(d: LoanDetail, calc: LoanCalcInput, row: LoanRow, currency: Seq<char>, as_of: Date) -> bool {
    &&& d.id@ == calc.id@
    &&& d.label@ == calc.label@
    &&& money_matches(d.remaining_balance, calc.remaining_balance_minor as int, currency)
    &&& money_matches(d.periodic_payment, total_spec(calc, calc.remaining_balance_minor as int), currency)
    &&& d.payment_frequency@ == row.payment_frequency@
    &&& date_text_matches(d.last_payment_date, last_regular_payment(calc.payments@, calc.payments@.len() as int))
    &&& date_text_matches(d.projected_payoff_date, payoff_date_spec(calc, as_of))
    &&& d.payment_type@ == row.payment_type@
    &&& d.tilgung_euro_minor == row.fixed_payment_minor
    &&& d.tilgung_percent_basis_points == row.tilgung_percent_basis_points
    &&& opt_view(d.loan_start_date) == opt_view(row.loan_start_date)
    &&& opt_view(d.first_payment_date) == opt_view(row.first_payment_date)
    &&& d.apr_basis_points == calc.apr_basis_points
    &&& money_matches(
        d.interest_paid_to_date,
        interest_paid_prefix(calc.payments@, calc.payments@.len() as int),
        currency,
    )
    &&& money_matches(
        d.interest_remaining_estimate,
        if calc.apr_basis_points is Some {
            remaining_interest_spec(calc, as_of)
        } else {
            0
        },
        currency,
    )
    &&& match d.interest_message {
        Some(m) => calc.apr_basis_points is None && m@ == "missing_apr"@,
        None => calc.apr_basis_points is Some,
    }
    &&& d.progress == if is_listed(calc) {
        Some(((progress_base(calc) - calc.remaining_balance_minor) as i64, progress_base(calc) as i64))
    } else {
        None::<(i64, i64)>
    }
}

fn clone_opt_text(o: &Option<String>) -> (r: Option<String>)
    ensures
        opt_view(r) == opt_view(*o),
{
    match o {
        Some(t) => Some(t.clone()),
        None => None,
    }
}

/// The detail view of a loan from its calculation input and its stored row, as of `as_of`.
pub fn loan_detail_view(calc: &LoanCalcInput, row: &LoanRow, currency: &str, as_of: Date) -> (d: LoanDetail)
    requires
        summarizable(*calc, as_of),
        interest_paid_fits(*calc),
        as_of.wf(),
    ensures
        detail_matches(d, *calc, *row, currency@, as_of),
{
    let projection = project_payoff(calc, as_of);
    let interest = compute_interest_summary(calc, as_of);
    let last_payment = last_regular_payment_date(&calc.payments);
    let base = match calc.original_principal_minor {
        Some(p) => p,
        None => calc.remaining_balance_minor,
    };
    let progress = match calc.status {
        crate::types::LoanStatus::Active => Some((base - calc.remaining_balance_minor, base)),
        crate::types::LoanStatus::Archived => None,
    };
    LoanDetail {
        id: calc.id.clone(),
        label: calc.label.clone(),
        remaining_balance: money(calc.remaining_balance_minor, currency),
        periodic_payment: money(projection.periodic_payment_minor, currency),
        payment_frequency: row.payment_frequency.clone(),
        last_payment_date: match last_payment {
            Some(d) => Some(date_to_string(d)),
            None => None,
        },
        projected_payoff_date: match projection.projected_payoff_date {
            Some(d) => Some(date_to_string(d)),
            None => None,
        },
        payment_type: row.payment_type.clone(),
        tilgung_euro_minor: row.fixed_payment_minor,
        tilgung_percent_basis_points: row.tilgung_percent_basis_points,
        loan_start_date: clone_opt_text(&row.loan_start_date),
        first_payment_date: clone_opt_text(&row.first_payment_date),
        apr_basis_points: calc.apr_basis_points,
        interest_paid_to_date: money(interest.interest_paid_minor, currency),
        interest_remaining_estimate: money(interest.interest_remaining_minor, currency),
        interest_message: interest.message,
        progress,
    }
}

} // verus!
