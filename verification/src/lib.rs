//! Verified core of a Hivemind sidechain node.

pub mod authorization;
pub mod bytes;
pub mod frost;
pub mod hex;
pub mod mempool;
pub mod mempool_laws;
pub mod node;
pub mod pool_laws;
pub mod replica;
pub mod signature_laws;
pub mod state;
pub mod sums;
pub mod table;
pub mod text_laws;
pub mod types;
pub mod validation;
