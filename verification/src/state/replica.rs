//! Copies of the state.

use vstd::prelude::*;

use crate::bytes::{boxed_copy, to_vec};
use crate::replica::Replica;
use crate::state::block::votes::ReputationTransferUndoEntry;
use crate::state::consolidation::{ConsolidationUndoData, ConsolidationUndoEntry};
use crate::state::decisions::database::{
    entries_view, histories_view, periods_view, undo_view, Dbs, PeriodPricingUndoEntry,
};
use crate::state::decisions::order::Claims;
use crate::state::decisions::types::{DecisionEntry, DecisionStateHistory, HistoryEntry};
use crate::state::decisions::PeriodPricing;
use crate::state::ledger::Ledger;
use crate::state::markets::database::{
    accounts_view, markets_view, shares_view, Market, MarketTerms, MarketsDatabase,
};
use crate::state::markets::types::{MarketId, ShareAccount};
use crate::state::peg::{
    bundles_view, BundleOutput, BundleRow, Peg, WithdrawalBundle, WithdrawalBundleInfo,
};
use crate::state::reputation::ReputationDbs;
use crate::state::undo::SettlementUndoEntry;
use crate::state::voting::database::VotingDatabases;
use crate::state::voting::system::ConsensusUndoEntry;
use crate::state::voting::types::{
    Ballot, DecisionOutcome, VoteMatrixEntry, VotingPeriodStats,
};
use crate::state::voting::VotingSystem;
use crate::state::State;
use crate::types::transaction::output::FilledOutput;
use crate::types::transaction::OutPoint;
use crate::types::{boxed_duplicate, Duplicate};

verus! {

impl Replica for PeriodPricing {
    open spec fn same(self, other: Self) -> bool {
        self == other
    }

    fn replica(&self) -> (r: Self) {
        *self
    }
}

impl Replica for PeriodPricingUndoEntry {
    open spec fn same(self, other: Self) -> bool {
        self == other
    }

    fn replica(&self) -> (r: Self) {
        *self
    }
}

impl Replica for HistoryEntry {
    open spec fn same(self, other: Self) -> bool {
        self == other
    }

    fn replica(&self) -> (r: Self) {
        *self
    }
}

impl Replica for VoteMatrixEntry {
    open spec fn same(self, other: Self) -> bool {
        self == other
    }

    fn replica(&self) -> (r: Self) {
        *self
    }
}

impl Replica for DecisionOutcome {
    open spec fn same(self, other: Self) -> bool {
        self == other
    }

    fn replica(&self) -> (r: Self) {
        *self
    }
}

impl Replica for ReputationTransferUndoEntry {
    open spec fn same(self, other: Self) -> bool {
        self == other
    }

    fn replica(&self) -> (r: Self) {
        *self
    }
}

impl Replica for DecisionEntry {
    open spec fn same(self, other: Self) -> bool {
        self == other
    }

    fn replica(&self) -> (r: Self) {
        self.duplicate()
    }
}

impl Replica for Ballot {
    open spec fn same(self, other: Self) -> bool {
        self == other
    }

    fn replica(&self) -> (r: Self) {
        Ballot {
            period_id: self.period_id,
            created_at: self.created_at,
            votes: boxed_copy(&self.votes),
        }
    }
}

impl Replica for VotingPeriodStats {
    open spec fn same(self, other: Self) -> bool {
        self == other
    }

    fn replica(&self) -> (r: Self) {
        VotingPeriodStats {
            period_id: self.period_id,
            timestamp: self.timestamp,
            total_voters: self.total_voters,
            total_votes: self.total_votes,
            total_decisions: self.total_decisions,
            avg_participation_rate: self.avg_participation_rate,
            total_reputation_weight: self.total_reputation_weight,
            consensus_decisions: self.consensus_decisions,
            first_loading: match &self.first_loading {
                Some(list) => Some(boxed_copy(list)),
                None => None,
            },
            certainty: self.certainty,
            reputation_changes: match &self.reputation_changes {
                Some(list) => Some(boxed_copy(list)),
                None => None,
            },
        }
    }
}

impl Duplicate for (OutPoint, FilledOutput) {
    fn duplicate(&self) -> (r: Self) {
        (self.0, self.1.duplicate())
    }
}

impl Duplicate for BundleOutput {
    fn duplicate(&self) -> (r: Self) {
        BundleOutput { value: self.value, script_pubkey: boxed_copy(&self.script_pubkey) }
    }
}

impl Duplicate for WithdrawalBundle {
    fn duplicate(&self) -> (r: Self) {
        WithdrawalBundle {
            m6id: self.m6id,
            block_height: self.block_height,
            fee: self.fee,
            spend_utxos: boxed_duplicate(&self.spend_utxos),
            outputs: boxed_duplicate(&self.outputs),
        }
    }
}

impl Replica for BundleRow {
    open spec fn same(self, other: Self) -> bool {
        self@ == other@
    }

    fn replica(&self) -> (r: Self) {
        let info = match &self.info {
            WithdrawalBundleInfo::Known(bundle) => WithdrawalBundleInfo::Known(bundle.duplicate()),
            WithdrawalBundleInfo::Unknown => WithdrawalBundleInfo::Unknown,
            WithdrawalBundleInfo::UnknownConfirmed { spend_utxos } => {
                WithdrawalBundleInfo::UnknownConfirmed { spend_utxos: boxed_duplicate(spend_utxos) }
            },
        };
        BundleRow { info, status: self.status.duplicate() }
    }
}

impl Duplicate for MarketTerms {
    fn duplicate(&self) -> (r: Self) {
        MarketTerms {
            id: self.id,
            creator_address: self.creator_address,
            title: self.title.duplicate(),
            description: self.description.duplicate(),
            tags: boxed_duplicate(&self.tags),
            dimension_specs: boxed_copy(&self.dimension_specs),
            decision_ids: boxed_copy(&self.decision_ids),
            trading_fee: self.trading_fee,
            tx_pow_hash_selector: self.tx_pow_hash_selector,
            tx_pow_ordering: self.tx_pow_ordering,
            tx_pow_difficulty: self.tx_pow_difficulty,
            created_at_height: self.created_at_height,
        }
    }
}

impl Replica for Market {
    open spec fn same(self, other: Self) -> bool {
        self@ == other@
    }

    fn replica(&self) -> (r: Self) {
        Market {
            terms: self.terms.duplicate(),
            state: self.state,
            shares: to_vec(self.shares.as_slice()),
            volumes: to_vec(self.volumes.as_slice()),
            liquidity_base_sats: self.liquidity_base_sats,
            last_updated_height: self.last_updated_height,
        }
    }
}

impl Replica for ShareAccount {
    open spec fn same(self, other: Self) -> bool {
        self@ == other@
    }

    fn replica(&self) -> (r: Self) {
        let r = ShareAccount {
            positions: self.positions.replica(),
            last_updated_height: self.last_updated_height,
        };
        assert(r.positions@ =~= self.positions@);
        r
    }
}

impl Replica for Claims {
    open spec fn same(self, other: Self) -> bool {
        self@ == other@
    }

    fn replica(&self) -> (r: Self) {
        let r = Claims { first: self.first.duplicate(), more: self.more.replica() };
        assert(r.more@ =~= self.more@);
        r
    }
}

impl Replica for DecisionStateHistory {
    open spec fn same(self, other: Self) -> bool {
        self@ == other@
    }

    fn replica(&self) -> (r: Self) {
        DecisionStateHistory { state_history: to_vec(self.state_history.as_slice()) }
    }
}

impl Replica for SettlementUndoEntry {
    open spec fn same(self, other: Self) -> bool {
        self@ == other@
    }

    fn replica(&self) -> (r: Self) {
        SettlementUndoEntry {
            payout_utxos: to_vec(self.payout_utxos.as_slice()),
            payouts: to_vec(self.payouts.as_slice()),
            treasury_utxo: self.treasury_utxo.duplicate(),
            fee_utxo: self.fee_utxo.duplicate(),
            pre_settlement_market: self.pre_settlement_market.replica(),
        }
    }
}

impl Replica for ConsensusUndoEntry {
    open spec fn same(self, other: Self) -> bool {
        &&& self.period_id == other.period_id
        &&& self.decision_outcome_ids@ == other.decision_outcome_ids@
        &&& self.had_period_stats == other.had_period_stats
        &&& self.resolved_decision_ids@ == other.resolved_decision_ids@
        &&& self.pre_consensus_reputation@ == other.pre_consensus_reputation@
    }

    fn replica(&self) -> (r: Self) {
        let r = ConsensusUndoEntry {
            period_id: self.period_id,
            decision_outcome_ids: to_vec(self.decision_outcome_ids.as_slice()),
            had_period_stats: self.had_period_stats,
            resolved_decision_ids: to_vec(self.resolved_decision_ids.as_slice()),
            pre_consensus_reputation: self.pre_consensus_reputation.replica(),
        };
        assert(self.pre_consensus_reputation@ =~= r.pre_consensus_reputation@);
        r
    }
}

impl Replica for ConsolidationUndoEntry {
    open spec fn same(self, other: Self) -> bool {
        self@ == other@
    }

    fn replica(&self) -> (r: Self) {
        ConsolidationUndoEntry {
            market_id: self.market_id,
            old_treasury_utxo: self.old_treasury_utxo.duplicate(),
            old_fee_utxo: self.old_fee_utxo.duplicate(),
            old_treasury_pointer: self.old_treasury_pointer,
            old_fee_pointer: self.old_fee_pointer,
            new_treasury_utxo: self.new_treasury_utxo,
            new_fee_utxo: self.new_fee_utxo,
            sell_payout_utxos: to_vec(self.sell_payout_utxos.as_slice()),
            buy_change_utxos: to_vec(self.buy_change_utxos.as_slice()),
        }
    }
}

impl Replica for ConsolidationUndoData {
    open spec fn same(self, other: Self) -> bool {
        self@ == other@
    }

    fn replica(&self) -> (r: Self) {
        let r = ConsolidationUndoData {
            entries: self.entries.replica(),
            sell_input_change_utxos: to_vec(self.sell_input_change_utxos.as_slice()),
        };
        assert(r@.entries =~= self@.entries);
        r
    }
}

impl Ledger {
    pub fn duplicate(&self) -> (r: Self)
        ensures
            r@ == self@,
    {
        let r = Ledger {
            utxos: self.utxos.replica(),
            utxos_by_address: self.utxos_by_address.replica(),
            stxos: self.stxos.replica(),
        };
        assert(r.utxos@ =~= self.utxos@);
        assert(r.utxos_by_address@ =~= self.utxos_by_address@);
        assert(r.stxos@ =~= self.stxos@);
        r
    }
}

impl MarketsDatabase {
    pub fn duplicate(&self) -> (r: Self)
        ensures
            r@ == self@,
    {
        let r = MarketsDatabase {
            markets: self.markets.replica(),
            share_accounts: self.share_accounts.replica(),
            market_funds: self.market_funds.replica(),
            mempool_shares: self.mempool_shares.replica(),
        };
        assert(markets_view(r.markets@) =~= markets_view(self.markets@));
        assert(accounts_view(r.share_accounts@) =~= accounts_view(self.share_accounts@));
        assert(r.market_funds@ =~= self.market_funds@);
        assert(shares_view(r.mempool_shares@) =~= shares_view(self.mempool_shares@)) by {
            assert forall|m: MarketId| #[trigger]
                self.mempool_shares@.dom().contains(m) implies r.mempool_shares@[m]@
                =~= self.mempool_shares@[m]@ by {}
        }
        r
    }
}

impl ReputationDbs {
    pub fn duplicate(&self) -> (r: Self)
        ensures
            r@ == self@,
    {
        let r = ReputationDbs { reputation: self.reputation.replica() };
        assert(r.reputation@ =~= self.reputation@);
        r
    }
}

impl VotingSystem {
    pub fn duplicate(&self) -> (r: Self)
        ensures
            r@ == self@,
    {
        let from = &self.databases;
        let databases = VotingDatabases {
            votes: from.votes.replica(),
            ballots: from.ballots.replica(),
            decision_outcomes: from.decision_outcomes.replica(),
            period_stats: from.period_stats.replica(),
        };
        assert(databases.votes@ =~= from.votes@);
        assert(databases.ballots@ =~= from.ballots@);
        assert(databases.decision_outcomes@ =~= from.decision_outcomes@);
        assert(databases.period_stats@ =~= from.period_stats@);
        VotingSystem { databases }
    }
}

impl Dbs {
    pub fn duplicate(&self) -> (r: Self)
        ensures
            r@ == self@,
    {
        let r = Dbs {
            period_decisions: self.period_decisions.replica(),
            decision_state_histories: self.decision_state_histories.replica(),
            period_pricing: self.period_pricing.replica(),
            period_pricing_undo: self.period_pricing_undo.replica(),
            config: self.config,
            genesis_p_period_sats: self.genesis_p_period_sats,
        };
        proof {
            assert forall|p: u32| #[trigger]
                self.period_decisions@.dom().contains(p) implies entries_view(
                r.period_decisions@[p]@,
            ) == entries_view(self.period_decisions@[p]@) by {
                assert(self.period_decisions@[p].same(r.period_decisions@[p]));
                assert(entries_view(r.period_decisions@[p]@) =~= entries_view(
                    self.period_decisions@[p]@,
                ));
            }
            assert(periods_view(r.period_decisions@) =~= periods_view(self.period_decisions@));
            assert(histories_view(r.decision_state_histories@) =~= histories_view(
                self.decision_state_histories@,
            ));
            assert(r.period_pricing@ =~= self.period_pricing@);
            assert forall|p: u32| #[trigger]
                self.period_pricing_undo@.dom().contains(p) implies r.period_pricing_undo@[p]@
                == self.period_pricing_undo@[p]@ by {
                assert(self.period_pricing_undo@[p].same(r.period_pricing_undo@[p]));
                assert(r.period_pricing_undo@[p]@ =~= self.period_pricing_undo@[p]@);
            }
            assert(undo_view(r.period_pricing_undo@) =~= undo_view(self.period_pricing_undo@));
        }
        r
    }
}

impl Peg {
    pub fn duplicate(&self) -> (r: Self)
        ensures
            r@ == self@,
    {
        let r = Peg {
            pending_withdrawal_bundle: self.pending_withdrawal_bundle,
            latest_failed_withdrawal_bundle: match &self.latest_failed_withdrawal_bundle {
                Some(failed) => Some(failed.duplicate()),
                None => None,
            },
            withdrawal_bundles: self.withdrawal_bundles.replica(),
            deposit_blocks: self.deposit_blocks.replica(),
            withdrawal_bundle_event_blocks: self.withdrawal_bundle_event_blocks.replica(),
        };
        assert(bundles_view(r.withdrawal_bundles@) =~= bundles_view(self.withdrawal_bundles@));
        assert(r.deposit_blocks@ =~= self.deposit_blocks@);
        assert(r.withdrawal_bundle_event_blocks@ =~= self.withdrawal_bundle_event_blocks@);
        r
    }
}

/// Two states say the same.
pub open spec fn same_state(a: State, b: State) -> bool {
    &&& a.tip == b.tip
    &&& a.height == b.height
    &&& a.mainchain_timestamp == b.mainchain_timestamp
    &&& a.genesis_timestamp == b.genesis_timestamp
    &&& a.reputation@ == b.reputation@
    &&& a.decisions@ == b.decisions@
    &&& a.markets@ == b.markets@
    &&& a.voting@ == b.voting@
    &&& a.ledger@ == b.ledger@
    &&& a.peg@ == b.peg@
    &&& a.settlement_undo.same(b.settlement_undo)
    &&& a.consensus_undo.same(b.consensus_undo)
    &&& a.consolidation_undo.same(b.consolidation_undo)
    &&& a.minting_undo@ == b.minting_undo@
    &&& a.reputation_transfer_undo.same(b.reputation_transfer_undo)
    &&& a.skipped_tx_indices_undo.same(b.skipped_tx_indices_undo)
}

impl State {
    /// A copy, to go back to where a change cannot be finished.
    pub fn duplicate(&self) -> (r: Self)
        ensures
            same_state(*self, r),
    {
        let r = State {
            tip: self.tip,
            height: self.height,
            mainchain_timestamp: self.mainchain_timestamp,
            genesis_timestamp: self.genesis_timestamp,
            reputation: self.reputation.duplicate(),
            decisions: self.decisions.duplicate(),
            markets: self.markets.duplicate(),
            voting: self.voting.duplicate(),
            ledger: self.ledger.duplicate(),
            peg: self.peg.duplicate(),
            settlement_undo: self.settlement_undo.replica(),
            consensus_undo: self.consensus_undo.replica(),
            consolidation_undo: self.consolidation_undo.replica(),
            minting_undo: self.minting_undo.replica(),
            reputation_transfer_undo: self.reputation_transfer_undo.replica(),
            skipped_tx_indices_undo: self.skipped_tx_indices_undo.replica(),
        };
        assert(r.minting_undo@ =~= self.minting_undo@);
        r
    }
}

} // verus!
