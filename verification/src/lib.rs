//! Debt tracking: loan amortization, payment splitting, payoff projection and
//! dashboard aggregation over integer minor currency units and calendar dates.

pub mod calendar;
pub mod text;
pub mod types;
pub mod due_payments;
pub mod money;
pub mod amortization;
pub mod payment_split;
pub mod extras;
pub mod projection;
pub mod payoff_timeline;
pub mod interest;
pub mod dashboard;
pub mod validation;
pub mod combined;
pub mod api;
pub mod requests;
pub mod store;
pub mod auth;
pub mod transfer;
pub mod detail;
pub mod autopay;
