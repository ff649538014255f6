//! Markets on the outcomes of decisions.

pub mod database;
pub mod dimension_laws;
pub mod laws;
pub mod types;

pub use database::{Market, MarketTerms, MarketsDatabase};
pub use types::{
    parse_dimensions, CreatorRefund, DimensionSpec, FeePayoutRecord, FeeRole, MarketError, MarketId,
    MarketPayoutSummary, MarketState, Position, ShareAccount, SharePayoutRecord,
};
