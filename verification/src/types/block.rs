//! Blocks.

use vstd::prelude::*;

use crate::authorization::Authorization;
use crate::types::transaction::output::TxOutput;
use crate::types::transaction::Transaction;
use crate::types::{BlockHash, MainBlockHash, MerkleRoot};

verus! {

#[derive(Clone, Copy, Debug)]
pub struct Header {
    pub merkle_root: MerkleRoot,
    pub prev_side_hash: Option<BlockHash>,
    pub prev_main_hash: MainBlockHash,
}

#[derive(Debug)]
pub struct Body {
    pub coinbase: Vec<TxOutput>,
    pub transactions: Vec<Transaction>,
    /// A signature for each input of the transactions, in their order.
    pub authorizations: Vec<Authorization>,
    /// For each transaction, a proof of who acts by it, if one is needed.
    pub actor_proofs: Vec<Option<Authorization>>,
}

} // verus!
