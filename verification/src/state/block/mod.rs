//! Connecting and disconnecting blocks.

pub mod claim_laws;
pub mod claims;
pub mod creation;
pub mod creation_laws;
pub mod trade_laws;
pub mod trades;
pub mod undo_laws;
pub mod vote_laws;
pub mod votes;
pub mod coin_laws;
pub mod coins;
pub mod connect;
pub mod data_laws;
pub mod decision_laws;
pub mod disconnect;
pub mod effect_laws;
pub mod laws;
pub mod move_laws;
pub mod plain_laws;
pub mod progress;
