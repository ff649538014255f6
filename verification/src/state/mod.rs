//! The state of the chain.
//!
//! A function that changes the state and returns an error leaves it in the
//! middle of the change: the caller throws it away.

use vstd::prelude::*;

use crate::state::block::votes::ReputationTransferUndoEntry;
use crate::state::consolidation::ConsolidationUndoData;
use crate::state::decisions::Dbs;
use crate::state::ledger::{Ledger, LedgerView};
use crate::state::peg::Peg;
use crate::state::reputation::ReputationDbs;
use crate::state::undo::SettlementUndoEntry;
use crate::state::voting::system::ConsensusUndoEntry;
use crate::table::Table;
use crate::types::transaction::output::FilledOutput;
use crate::types::transaction::OutPoint;
use crate::types::BlockHash;

pub mod access;
pub mod block;
pub mod bundle_laws;
pub mod consolidation;
pub mod consolidation_laws;
pub mod decisions;
pub mod error;
pub mod ledger;
pub mod markets;
pub mod payout_laws;
pub mod peg;
pub mod peg_laws;
pub mod replica;
pub mod reputation;
pub mod rollback;
pub mod settlement_laws;
pub mod share_laws;
pub mod sum_laws;
pub mod two_way_peg_data;
pub mod undo;
pub mod update;
pub mod update_laws;
pub mod voting;
pub mod wealth_laws;
pub mod withdrawals;

pub use decisions::period_to_name;
pub use error::{Error, Reason};
pub use ledger::UtxoManager;
pub use markets::{Market, MarketId, MarketState, MarketsDatabase, ShareAccount};
pub use peg::WITHDRAWAL_BUNDLE_FAILURE_GAP;
pub use voting::VotingSystem;

verus! {

pub struct State {
    pub tip: Option<BlockHash>,
    pub height: Option<u32>,
    pub mainchain_timestamp: Option<u64>,
    pub genesis_timestamp: Option<u64>,
    pub reputation: ReputationDbs,
    pub decisions: Dbs,
    pub markets: MarketsDatabase,
    pub voting: VotingSystem,
    pub ledger: Ledger,
    pub peg: Peg,
    /// By height, what undoes the settlement of markets.
    pub settlement_undo: Table<u32, Vec<SettlementUndoEntry>>,
    /// By height, what undoes the reckoning of periods.
    pub consensus_undo: Table<u32, Vec<ConsensusUndoEntry>>,
    /// By height, what undoes the consolidation of market funds.
    pub consolidation_undo: Table<u32, ConsolidationUndoData>,
    /// By height, the last period that there was before the block.
    pub minting_undo: Table<u32, u32>,
    /// By height, what undoes transfers of reputation.
    pub reputation_transfer_undo: Table<u32, Vec<ReputationTransferUndoEntry>>,
    /// By height, the transactions that took no effect.
    pub skipped_tx_indices_undo: Table<u32, Vec<u32>>,
}

impl UtxoManager for State {
    open spec fn coins(&self) -> LedgerView {
        self.ledger@
    }

    fn insert_utxo(&mut self, outpoint: &OutPoint, filled_output: &FilledOutput)
        ensures
            *final(self) == (State { ledger: final(self).ledger, ..*old(self) }),
    {
        self.ledger.insert_utxo(outpoint, filled_output);
    }

    fn delete_utxo(&mut self, outpoint: &OutPoint) -> (r: bool)
        ensures
            *final(self) == (State { ledger: final(self).ledger, ..*old(self) }),
    {
        self.ledger.delete_utxo(outpoint)
    }

    fn clear_utxos(&mut self)
        ensures
            *final(self) == (State { ledger: final(self).ledger, ..*old(self) }),
    {
        self.ledger.clear_utxos();
    }
}

} // verus!
