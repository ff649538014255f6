//! Decisions: what voters decide, and when.

pub mod database;
pub mod laws;
pub mod order;
pub mod order_laws;
pub mod pricing;
pub mod types;

pub use database::Dbs;
pub use pricing::PeriodPricing;
pub use types::{
    period_to_name, period_to_string, Decision, DecisionConfig, DecisionEntry, DecisionId,
    DecisionState, DecisionStateHistory, DecisionType,
};
