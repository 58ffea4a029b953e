//! Validation of a new loan's terms.

use vstd::prelude::*;
use crate::text::{is_blank, is_blank_spec};
use crate::types::{PaymentFrequency, PaymentType};

verus! {

#[derive(Clone, Copy, Debug, PartialEq, Eq, Structural)]
pub enum ValidationError {
    MissingLabel,
    NonPositiveBalance,
    MissingApr,
    InvalidApr,
    MissingTilgungPercent,
    InvalidTilgungPercent,
    MissingTilgungEuro,
    InvalidTilgungEuro,
    InvalidPaymentType,
}

pub open spec fn validation_message(e: ValidationError) -> Seq<char> {
    match e {
        ValidationError::MissingLabel => "loan label is required"@,
        ValidationError::NonPositiveBalance => "remaining balance must be positive"@,
        ValidationError::MissingApr => "interest rate (APR) is required"@,
        ValidationError::InvalidApr => "APR cannot be negative"@,
        ValidationError::MissingTilgungPercent => "prozentuale Tilgung (%) is required"@,
        ValidationError::InvalidTilgungPercent => "Tilgung percent cannot be negative"@,
        ValidationError::MissingTilgungEuro => "Tilgung (€) per period is required"@,
        ValidationError::InvalidTilgungEuro => "Tilgung (€) must be positive"@,
        ValidationError::InvalidPaymentType => "invalid payment type"@,
    }
}

impl ValidationError {
    /// The human-readable message of this error.
    pub fn message(&self) -> (s: &'static str)
        ensures
            s@ == validation_message(*self),
    {
        match self {
            ValidationError::MissingLabel => "loan label is required",
            ValidationError::NonPositiveBalance => "remaining balance must be positive",
            ValidationError::MissingApr => "interest rate (APR) is required",
            ValidationError::InvalidApr => "APR cannot be negative",
            ValidationError::MissingTilgungPercent => "prozentuale Tilgung (%) is required",
            ValidationError::InvalidTilgungPercent => "Tilgung percent cannot be negative",
            ValidationError::MissingTilgungEuro => "Tilgung (€) per period is required",
            ValidationError::InvalidTilgungEuro => "Tilgung (€) must be positive",
            ValidationError::InvalidPaymentType => "invalid payment type",
        }
    }
}

#[derive(Clone, Debug)]
pub struct CreateLoanValidation {
    pub label: String,
    pub remaining_balance_minor: i64,
    pub payment_frequency: PaymentFrequency,
    pub payment_type: PaymentType,
    pub tilgung_euro_minor: Option<i64>,
    pub tilgung_percent_basis_points: Option<i32>,
    pub apr_basis_points: Option<i32>,
}

/// The first rule a new loan breaks, checked in a fixed order; `Ok` when it breaks none.
pub open spec fn validate_spec(input: CreateLoanValidation) -> Result<(), ValidationError> {
    if is_blank_spec(input.label@) {
        Err(ValidationError::MissingLabel)
    } else if input.remaining_balance_minor <= 0 {
        Err(ValidationError::NonPositiveBalance)
    } else if input.apr_basis_points is None {
        Err(ValidationError::MissingApr)
    } else if input.apr_basis_points->0 < 0 {
        Err(ValidationError::InvalidApr)
    } else {
        match input.payment_type {
            PaymentType::TilgungPercent => match input.tilgung_percent_basis_points {
                None => Err(ValidationError::MissingTilgungPercent),
                Some(p) => if p < 0 {
                    Err(ValidationError::InvalidTilgungPercent)
                } else {
                    Ok(())
                },
            },
            PaymentType::TilgungEuro => match input.tilgung_euro_minor {
                None => Err(ValidationError::MissingTilgungEuro),
                Some(e) => if e <= 0 {
                    Err(ValidationError::InvalidTilgungEuro)
                } else {
                    Ok(())
                },
            },
        }
    }
}

pub fn validate_create_loan(input: &CreateLoanValidation) -> (r: Result<(), ValidationError>)
    ensures
        r == validate_spec(*input),
{
    if is_blank(input.label.as_str()) {
        return Err(ValidationError::MissingLabel);
    }
    if input.remaining_balance_minor <= 0 {
        return Err(ValidationError::NonPositiveBalance);
    }
    match input.apr_basis_points {
        None => return Err(ValidationError::MissingApr),
        Some(a) => if a < 0 {
            return Err(ValidationError::InvalidApr);
        },
    }
    match input.payment_type {
        PaymentType::TilgungPercent => match input.tilgung_percent_basis_points {
            None => return Err(ValidationError::MissingTilgungPercent),
            Some(p) => if p < 0 {
                return Err(ValidationError::InvalidTilgungPercent);
            },
        },
        PaymentType::TilgungEuro => match input.tilgung_euro_minor {
            None => return Err(ValidationError::MissingTilgungEuro),
            Some(e) => if e <= 0 {
                return Err(ValidationError::InvalidTilgungEuro);
            },
        },
    }
    Ok(())
}

/// A loan passes validation exactly when it has a label, a positive balance, a
/// non-negative APR, and the repayment figure its payment type needs.
pub proof fn lemma_valid_loan_terms(input: CreateLoanValidation)
    ensures
        validate_spec(input) is Ok <==> {
            &&& !is_blank_spec(input.label@)
            &&& input.remaining_balance_minor > 0
            &&& input.apr_basis_points matches Some(a) && a >= 0
            &&& match input.payment_type {
                PaymentType::TilgungPercent => input.tilgung_percent_basis_points matches Some(p)
                    && p >= 0,
                PaymentType::TilgungEuro => input.tilgung_euro_minor matches Some(e) && e > 0,
            }
        },
{
}

} // verus!
