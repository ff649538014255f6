//! What a transaction and a block must meet.

pub mod block;
pub mod claim_laws;
pub mod decision;
pub mod good_laws;
pub mod laws;
pub mod market;
pub mod tx_laws;

pub use block::BlockValidator;
pub use decision::DecisionValidator;
pub use market::{MarketStateValidator, MarketValidator};
