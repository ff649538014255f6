//! Voting on decisions.

pub mod database;
pub mod laws;
pub mod plurality;
pub mod plurality_laws;
pub mod polls;
pub mod record_laws;
pub mod system;
pub mod types;

pub use database::VotingDatabases;
pub use polls::VotingSystem;
