//! What can be asked of the state as a whole.

use vstd::prelude::*;

use crate::authorization::BatchVerificationContext;
use crate::state::block::connect::{block_opened, connect_prevalidated, opened_parts};
use crate::state::block::connect::{Opened, PrevalidatedBlock};
use crate::state::block::disconnect::{disconnect_tip, end_undone, tip_problem};
use crate::state::block::votes::ReputationTransferUndoEntry;
use crate::state::consolidation::ConsolidationUndoData;
use crate::state::decisions::database::{
    available_first, claimed_count, decisions_offered, nth_unlocked, settled_entries, state_of,
    voting_list, DecisionsView,
};
use crate::state::decisions::types::{FUTURE_PERIODS, MAX_DECISION_INDEX, MAX_PERIOD_INDEX};
use crate::state::decisions::{Dbs, DecisionConfig, DecisionEntry, DecisionId};
use crate::state::decisions::pricing::{SLOTS_PER_TIER_PER_MINT, TIER_COUNT};
use crate::state::ledger::{
    all_spent, at, deposits_in, last_unspent, outputs_named, outputs_spent, saturated, spent_by,
    spent_deposits_in, withdrawals_in, Ledger, LedgerView,
};
use crate::state::markets::database::MarketsView;
use crate::state::markets::{MarketId, MarketsDatabase};
use crate::state::peg::{last_row, InfoView, Peg, PegView, TwoWayPegData, WithdrawalBundle};
use crate::state::reputation::ReputationDbs;
use crate::state::two_way_peg_data::{
    bundle_wanted, connect, connected, connects_within, disconnect, disconnected,
    disconnects_within, has_room, heights_within,
};
use crate::state::undo::SettlementUndoEntry;
use crate::state::voting::database::VotingView;
use crate::state::voting::system::ConsensusUndoEntry;
use crate::state::voting::VotingSystem;
use crate::state::{Error, Reason, State};
use crate::table::Table;
use crate::types::block::{Body, Header};
use crate::types::encoding::Encode;
use crate::types::transaction::output::{FilledOutput, SpentOutput};
use crate::types::transaction::{
    total_value, Authorized, AuthorizedTransaction, FilledTransaction, OutPoint, Transaction,
};
use crate::types::{
    Address, AmountOverflowError, BlockHash, M6id, MainBlockHash, MerkleRoot, Real,
};
use crate::validation::block::{
    all_figures_fit, are_filled, body_problem, check_figures_fit, checked_fee, is_checked,
    outline_problem, CheckFigures,
};
use crate::validation::market::TradeLimits;
use crate::validation::BlockValidator;

verus! {

impl State {
    /// The state before the first block. With `decision_config_testing` a
    /// period lasts that many blocks.
    pub fn new(decision_config_testing: Option<u32>, genesis_p_period_sats: u64) -> (r: Result<
        Self,
        Error,
    >)
        ensures
            match r {
                Err(e) => {
                    &&& decision_config_testing == Some(0u32)
                    &&& e == (Error::InvalidTransaction {
                        reason: Reason::Text("decision_config_testing blocks_per_period must be > 0"),
                    })
                },
                Ok(state) => {
                    &&& decision_config_testing != Some(0u32)
                    &&& state.tip is None
                    &&& state.height is None
                    &&& state.mainchain_timestamp is None
                    &&& state.genesis_timestamp is None
                    &&& state.reputation@ == Map::<Address, Real>::empty()
                    &&& state.decisions@ == (DecisionsView {
                        periods: Map::empty(),
                        histories: Map::empty(),
                        pricing: Map::empty(),
                        pricing_undo: Map::empty(),
                        config: match decision_config_testing {
                            Some(blocks_per_period) => (DecisionConfig {
                                is_blocks: true,
                                quantity: blocks_per_period,
                            }),
                            None => (DecisionConfig { is_blocks: false, quantity: 86400 }),
                        },
                        genesis_p_period_sats,
                    })
                    &&& state.markets@ == (MarketsView {
                        markets: Map::empty(),
                        accounts: Map::empty(),
                        funds: Map::empty(),
                        mempool_shares: Map::empty(),
                    })
                    &&& state.voting@ == (VotingView {
                        votes: Map::empty(),
                        ballots: Map::empty(),
                        outcomes: Map::empty(),
                        stats: Map::empty(),
                    })
                    &&& state.ledger@ == (LedgerView {
                        utxos: Map::empty(),
                        utxos_by_address: Map::empty(),
                        stxos: Map::empty(),
                    })
                    &&& state.peg@ == (PegView {
                        pending: None,
                        latest_failed: None,
                        bundles: Map::empty(),
                        deposit_blocks: Map::empty(),
                        event_blocks: Map::empty(),
                    })
                    &&& state.settlement_undo@ == Map::<u32, Vec<SettlementUndoEntry>>::empty()
                    &&& state.consensus_undo@ == Map::<u32, Vec<ConsensusUndoEntry>>::empty()
                    &&& state.consolidation_undo@ == Map::<u32, ConsolidationUndoData>::empty()
                    &&& state.minting_undo@ == Map::<u32, u32>::empty()
                    &&& state.reputation_transfer_undo@ == Map::<
                        u32,
                        Vec<ReputationTransferUndoEntry>,
                    >::empty()
                    &&& state.skipped_tx_indices_undo@ == Map::<u32, Vec<u32>>::empty()
                },
            },
    {
        let decisions = match decision_config_testing {
            Some(blocks_per_period) => {
                if blocks_per_period == 0 {
                    return Err(
                        Error::InvalidTransaction {
                            reason: Reason::Text("decision_config_testing blocks_per_period must be > 0"),
                        },
                    );
                }
                Dbs::new_with_config(
                    DecisionConfig::testing(blocks_per_period),
                    genesis_p_period_sats,
                )
            },
            None => Dbs::new(genesis_p_period_sats),
        };
        Ok(
            State {
                tip: None,
                height: None,
                mainchain_timestamp: None,
                genesis_timestamp: None,
                reputation: ReputationDbs::new(),
                decisions,
                markets: MarketsDatabase::new(),
                voting: VotingSystem::new(),
                ledger: Ledger::new(),
                peg: Peg::new(),
                settlement_undo: Table::new(),
                consensus_undo: Table::new(),
                consolidation_undo: Table::new(),
                minting_undo: Table::new(),
                reputation_transfer_undo: Table::new(),
                skipped_tx_indices_undo: Table::new(),
            },
        )
    }

    pub fn reputation(&self) -> (r: &ReputationDbs)
        ensures
            *r == self.reputation,
    {
        &self.reputation
    }

    pub fn decisions(&self) -> (r: &Dbs)
        ensures
            *r == self.decisions,
    {
        &self.decisions
    }

    pub fn markets(&self) -> (r: &MarketsDatabase)
        ensures
            *r == self.markets,
    {
        &self.markets
    }

    pub fn voting(&self) -> (r: &VotingSystem)
        ensures
            *r == self.voting,
    {
        &self.voting
    }

    pub fn deposit_blocks(&self) -> (r: &Table<u32, (MainBlockHash, u32)>)
        ensures
            *r == self.peg.deposit_blocks,
    {
        &self.peg.deposit_blocks
    }

    pub fn stxos(&self) -> (r: &Table<OutPoint, SpentOutput>)
        ensures
            *r == self.ledger.stxos,
    {
        &self.ledger.stxos
    }

    pub fn withdrawal_bundle_event_blocks(&self) -> (r: &Table<u32, (MainBlockHash, u32)>)
        ensures
            *r == self.peg.withdrawal_bundle_event_blocks,
    {
        &self.peg.withdrawal_bundle_event_blocks
    }

    pub fn try_get_tip(&self) -> (r: Option<BlockHash>)
        ensures
            r == self.tip,
    {
        self.tip
    }

    pub fn try_get_height(&self) -> (r: Option<u32>)
        ensures
            r == self.height,
    {
        self.height
    }

    pub fn try_get_mainchain_timestamp(&self) -> (r: Option<u64>)
        ensures
            r == self.mainchain_timestamp,
    {
        self.mainchain_timestamp
    }

    pub fn try_get_genesis_timestamp(&self) -> (r: Option<u64>)
        ensures
            r == self.genesis_timestamp,
    {
        self.genesis_timestamp
    }

    /// The coins that can be spent, by outpoint.
    pub fn get_utxos(&self) -> (r: &Table<OutPoint, FilledOutput>)
        ensures
            r@ == self.ledger@.utxos,
    {
        &self.ledger.utxos
    }

    /// The spent coins of some addresses.
    pub fn get_stxos_by_addresses(&self, addresses: &Vec<Address>) -> (r: Table<
        OutPoint,
        SpentOutput,
    >)
        ensures
            forall|o: OutPoint| #[trigger]
                r@.dom().contains(o) <==> self.ledger@.stxos.dom().contains(o)
                    && addresses@.contains(self.ledger@.stxos[o].output.address),
            forall|o: OutPoint| #[trigger]
                r@.dom().contains(o) ==> r@[o] == self.ledger@.stxos[o],
    {
        self.ledger.get_stxos_by_addresses(addresses)
    }

    /// The coins that some addresses can spend.
    pub fn get_utxos_by_addresses(&self, addresses: &Vec<Address>) -> (r: Table<
        OutPoint,
        FilledOutput,
    >)
        ensures
            forall|o: OutPoint| #[trigger]
                r@.dom().contains(o) <==> self.ledger@.utxos.dom().contains(o) && exists|
                    a: Address,
                |
                    addresses@.contains(a) && #[trigger]
                    self.ledger@.utxos_by_address.dom().contains(at(a, o)),
            forall|o: OutPoint| #[trigger]
                r@.dom().contains(o) ==> r@[o] == self.ledger@.utxos[o],
    {
        self.ledger.get_utxos_by_addresses(addresses)
    }

    pub fn get_mempool_shares(&self, market_id: &MarketId) -> (r: Option<&Vec<i64>>)
        ensures
            match r {
                Some(shares) => self.markets@.mempool_shares.dom().contains(*market_id) && shares@
                    == self.markets@.mempool_shares[*market_id],
                None => !self.markets@.mempool_shares.dom().contains(*market_id),
            },
    {
        self.markets.get_mempool_shares(market_id)
    }

    pub fn put_mempool_shares(&mut self, market_id: &MarketId, shares: Vec<i64>)
        ensures
            *final(self) == (State { markets: final(self).markets, ..*old(self) }),
            final(self).markets@ == (MarketsView {
                mempool_shares: old(self).markets@.mempool_shares.insert(*market_id, shares@),
                ..old(self).markets@
            }),
    {
        self.markets.put_mempool_shares(market_id, shares);
    }

    pub fn clear_mempool_shares(&mut self, market_id: &MarketId)
        ensures
            *final(self) == (State { markets: final(self).markets, ..*old(self) }),
            final(self).markets@ == (MarketsView {
                mempool_shares: old(self).markets@.mempool_shares.remove(*market_id),
                ..old(self).markets@
            }),
    {
        self.markets.clear_mempool_shares(market_id);
    }

    /// The last bundle that failed, and the height at which it did.
    pub fn get_latest_failed_withdrawal_bundle(&self) -> (r: Result<Option<(u32, M6id)>, Error>)
        ensures
            r == self.peg@.latest_failure(),
    {
        self.peg.get_latest_failed_withdrawal_bundle()
    }

    /// A transaction with the coins that it spends.
    pub fn fill_transaction(&self, transaction: &Transaction) -> (r: Result<
        FilledTransaction,
        Error,
    >)
        ensures
            match r {
                Ok(filled) => {
                    &&& filled.transaction == *transaction
                    &&& filled.actor_address is None
                    &&& outputs_named(self.ledger@.utxos, transaction.inputs@) == Ok::<
                        Seq<FilledOutput>,
                        OutPoint,
                    >(filled.spent_utxos@)
                },
                Err(e) => outputs_named(self.ledger@.utxos, transaction.inputs@) is Err && e
                    == (Error::NoUtxo {
                    outpoint: outputs_named(self.ledger@.utxos, transaction.inputs@)->Err_0,
                }),
            },
    {
        self.ledger.fill_transaction(transaction)
    }

    /// A transaction of the chain with the coins that it spent.
    pub fn fill_transaction_from_stxos(&self, tx: Transaction) -> (r: Result<
        FilledTransaction,
        Error,
    >)
        requires
            tx.encodable(),
            spent_by(self.ledger@.stxos, tx.inputs@, tx.id_bytes()),
        ensures
            match r {
                Ok(filled) => {
                    &&& all_spent(self.ledger@.stxos, tx.inputs@)
                    &&& filled.transaction == tx
                    &&& filled.actor_address is None
                    &&& filled.spent_utxos@ == outputs_spent(self.ledger@.stxos, tx.inputs@)
                },
                Err(e) => exists|i: int| #[trigger]
                    last_unspent(self.ledger@.stxos, tx.inputs@, i) && e == (Error::NoStxo {
                        outpoint: tx.inputs@[i],
                    }),
            },
    {
        self.ledger.fill_transaction_from_stxos(tx)
    }

    /// A signed transaction with the coins that it spends.
    pub fn fill_authorized_transaction(&self, transaction: AuthorizedTransaction) -> (r: Result<
        Authorized<FilledTransaction>,
        Error,
    >)
        ensures
            match r {
                Ok(filled) => {
                    &&& filled.transaction.transaction == transaction.transaction
                    &&& filled.transaction.actor_address is None
                    &&& outputs_named(self.ledger@.utxos, transaction.transaction.inputs@) == Ok::<
                        Seq<FilledOutput>,
                        OutPoint,
                    >(filled.transaction.spent_utxos@)
                    &&& filled.authorizations == transaction.authorizations
                    &&& filled.actor_proof == transaction.actor_proof
                },
                Err(e) => outputs_named(self.ledger@.utxos, transaction.transaction.inputs@) is Err
                    && e == (Error::NoUtxo {
                    outpoint: outputs_named(
                        self.ledger@.utxos,
                        transaction.transaction.inputs@,
                    )->Err_0,
                }),
            },
    {
        self.ledger.fill_authorized_transaction(transaction)
    }

    /// The bundle that waits for submission, and the height at which it was
    /// stored.
    pub fn get_pending_withdrawal_bundle(&self) -> (r: Result<
        Option<(&WithdrawalBundle, u32)>,
        Error,
    >)
        ensures
            match self.peg@.pending {
                None => r == Ok::<Option<(&WithdrawalBundle, u32)>, Error>(None),
                Some(m6id) => {
                    if !self.peg@.bundles.dom().contains(m6id) {
                        r == Err::<Option<(&WithdrawalBundle, u32)>, Error>(
                            Error::DatabaseError(
                                Reason::PendingBundleUnknown(m6id),
                            ),
                        )
                    } else {
                        match self.peg@.bundles[m6id].info {
                            InfoView::Known(bundle) => r == Ok::<
                                Option<(&WithdrawalBundle, u32)>,
                                Error,
                            >(Some((&bundle, self.peg@.bundles[m6id].status.last().height))),
                            _ => r == Err::<Option<(&WithdrawalBundle, u32)>, Error>(
                                Error::DatabaseError(Reason::PendingBundleNotKnown(m6id)),
                            ),
                        }
                    }
                },
            },
    {
        self.peg.get_pending_withdrawal_bundle()
    }

    /// Checks a transaction, and says what fee it pays.
    pub fn validate_filled_transaction(
        &self,
        tx: &FilledTransaction,
        current_period: u32,
        figures: &CheckFigures,
        limits: &TradeLimits,
    ) -> (r: Result<u64, Error>)
        requires
            current_period + FUTURE_PERIODS < u32::MAX,
            check_figures_fit(tx.transaction.data, *figures),
        ensures
            r == checked_fee(*self, *tx, current_period, *figures, *limits),
    {
        BlockValidator::validate_filled_transaction(self, tx, current_period, figures, limits)
    }

    /// Checks a signed transaction, and says what fee it pays.
    pub fn validate_transaction(
        &self,
        ctxt: &BatchVerificationContext,
        transaction: &AuthorizedTransaction,
        current_period: u32,
        figures: &CheckFigures,
        limits: &TradeLimits,
    ) -> (r: Result<u64, Error>)
        requires
            current_period + FUTURE_PERIODS < u32::MAX,
            check_figures_fit(transaction.transaction.data, *figures),
        ensures
            is_checked(*self, ctxt.key(), *transaction, current_period, *figures, *limits, r),
    {
        BlockValidator::validate_transaction(
            self,
            ctxt,
            transaction,
            current_period,
            figures,
            limits,
        )
    }

    /// The mainchain block of the last deposit.
    pub fn get_last_deposit_block_hash(&self) -> (r: Option<MainBlockHash>)
        ensures
            r == match last_row(self.peg@.deposit_blocks) {
                Some(row) => Some(row.1.0),
                None => None,
            },
    {
        self.peg.get_last_deposit_block_hash()
    }

    /// The mainchain block of the last bundle event.
    pub fn get_last_withdrawal_bundle_event_block_hash(&self) -> (r: Option<MainBlockHash>)
        ensures
            r == match last_row(self.peg@.event_blocks) {
                Some(row) => Some(row.1.0),
                None => None,
            },
    {
        self.peg.get_last_withdrawal_bundle_event_block_hash()
    }

    /// The value of all deposits that can be spent.
    pub fn compute_deposit_utxo_value(&self) -> (r: u64)
        ensures
            r == saturated(deposits_in(self.ledger.utxos.rows())),
    {
        self.ledger.compute_deposit_utxo_value()
    }

    /// The value of all deposits that were spent.
    pub fn compute_deposit_stxo_value(&self) -> (r: u64)
        ensures
            r == saturated(spent_deposits_in(self.ledger.stxos.rows())),
    {
        self.ledger.compute_deposit_stxo_value()
    }

    /// The value of all coins that were withdrawn.
    pub fn compute_withdrawal_stxo_value(&self) -> (r: u64)
        ensures
            r == saturated(withdrawals_in(self.ledger.stxos.rows())),
    {
        self.ledger.compute_withdrawal_stxo_value()
    }

    /// What was deposited and not withdrawn.
    pub fn sidechain_wealth(&self) -> (r: Result<u64, Error>)
        ensures
            ({
                let deposited = saturated(deposits_in(self.ledger.utxos.rows())) + saturated(
                    spent_deposits_in(self.ledger.stxos.rows()),
                );
                let withdrawn = saturated(withdrawals_in(self.ledger.stxos.rows()));
                if deposited <= u64::MAX && withdrawn <= deposited {
                    r == Ok::<u64, Error>((deposited - withdrawn) as u64)
                } else {
                    r == Err::<u64, Error>(Error::AmountOverflow(AmountOverflowError))
                }
            }),
    {
        self.ledger.sidechain_wealth()
    }

    /// Checks a block, and keeps what was worked out.
    pub fn prevalidate_block(
        &self,
        ctxt: &BatchVerificationContext,
        header: &Header,
        body: &Body,
        merkle_root: MerkleRoot,
        current_period: u32,
        figures: &Vec<CheckFigures>,
        limits: &TradeLimits,
    ) -> (r: Result<PrevalidatedBlock, Error>)
        requires
            current_period + FUTURE_PERIODS < u32::MAX,
            self.height != Some(u32::MAX),
            all_figures_fit(body.transactions@, figures@),
        ensures
            match outline_problem(*self, *header, *body, merkle_root) {
                Some(e) => r == Err::<PrevalidatedBlock, Error>(e),
                None => exists|filled: Seq<FilledTransaction>| #[trigger]
                    are_filled(
                        filled,
                        body.transactions@,
                        self.ledger@.utxos,
                        body.actor_proofs@,
                    ) && match body_problem(
                        *self,
                        filled,
                        *body,
                        ctxt.key(),
                        current_period,
                        figures@,
                        *limits,
                    ) {
                        Some(e) => r == Err::<PrevalidatedBlock, Error>(e),
                        None => {
                            &&& r is Ok
                            &&& r->Ok_0.filled_transactions@ == filled
                            &&& r->Ok_0.computed_merkle_root == merkle_root
                            &&& r->Ok_0.coinbase_value == total_value(body.coinbase@)
                            &&& r->Ok_0.next_height == match self.height {
                                Some(height) => (height + 1) as u32,
                                None => 0,
                            }
                        },
                    },
            },
    {
        BlockValidator::prevalidate(
            self,
            ctxt,
            header,
            body,
            merkle_root,
            current_period,
            figures,
            limits,
        )
    }

    /// Opens a block that was found valid.
    pub fn connect_prevalidated_block(
        &mut self,
        header: &Header,
        body: &Body,
        mainchain_timestamp: u64,
        current_period: u32,
        prevalidated: &PrevalidatedBlock,
    ) -> (r: Result<(), Error>)
        requires
            body.coinbase@.len() <= u32::MAX,
        ensures
            match r {
                Ok(()) => {
                    &&& block_opened(
                        opened_parts(*old(self)),
                        *header,
                        body.coinbase@,
                        mainchain_timestamp,
                        current_period,
                        prevalidated.next_height,
                    ) == Ok::<Opened, Error>(opened_parts(*final(self)))
                    &&& *final(self) == (State {
                        genesis_timestamp: final(self).genesis_timestamp,
                        reputation: final(self).reputation,
                        decisions: final(self).decisions,
                        minting_undo: final(self).minting_undo,
                        ledger: final(self).ledger,
                        ..*old(self)
                    })
                },
                Err(e) => block_opened(
                    opened_parts(*old(self)),
                    *header,
                    body.coinbase@,
                    mainchain_timestamp,
                    current_period,
                    prevalidated.next_height,
                ) == Err::<Opened, Error>(e),
            },
    {
        connect_prevalidated(
            self,
            header,
            body,
            mainchain_timestamp,
            current_period,
            prevalidated,
        )
    }

    /// Checks that a block is the tip, and undoes what was done after its
    /// transactions.
    pub fn disconnect_tip(
        &mut self,
        header: &Header,
        block_hash: BlockHash,
        merkle_root: MerkleRoot,
    ) -> (r: Result<u32, Error>)
        ensures
            *final(self) == (State {
                ledger: final(self).ledger,
                markets: final(self).markets,
                voting: final(self).voting,
                reputation: final(self).reputation,
                settlement_undo: final(self).settlement_undo,
                consensus_undo: final(self).consensus_undo,
                consolidation_undo: final(self).consolidation_undo,
                ..*old(self)
            }),
            match tip_problem(
                old(self).tip,
                old(self).height,
                *header,
                block_hash,
                merkle_root,
            ) {
                Some(e) => r == Err::<u32, Error>(e) && *final(self) == *old(self),
                None => {
                    let height = old(self).height->Some_0;
                    match end_undone(*old(self), height) {
                        Err(e) => r == Err::<u32, Error>(e),
                        Ok(undone) => {
                            let undo = old(self).consolidation_undo@;
                            &&& r == Ok::<u32, Error>(height)
                            &&& final(self).ledger@ == undone.ledger
                            &&& final(self).markets@ == undone.markets
                            &&& final(self).voting@ == undone.voting
                            &&& final(self).reputation@ == undone.reputation
                            &&& final(self).settlement_undo@ == old(self).settlement_undo@.remove(
                                height,
                            )
                            &&& final(self).consensus_undo@ == old(self).consensus_undo@.remove(
                                height,
                            )
                            &&& final(self).consolidation_undo@ == undo.remove(height)
                        },
                    }
                },
            },
    {
        disconnect_tip(self, header, block_hash, merkle_root)
    }

    /// Lets what the mainchain says take effect, and says whether a new bundle
    /// is wanted.
    pub fn connect_two_way_peg_data(&mut self, two_way_peg_data: &TwoWayPegData) -> (r: Result<
        bool,
        Error,
    >)
        requires
            old(self).height is Some ==> connects_within(
                old(self).ledger@,
                old(self).peg@,
                old(self).height->0,
                *two_way_peg_data,
            ),
            has_room(old(self).peg@),
        ensures
            *final(self) == (State {
                ledger: final(self).ledger,
                peg: final(self).peg,
                ..*old(self)
            }),
            match old(self).height {
                None => r == Err::<bool, Error>(Error::NoTip),
                Some(block_height) => match connected(
                    old(self).ledger@,
                    old(self).peg@,
                    block_height,
                    *two_way_peg_data,
                ) {
                    Err(e) => r == Err::<bool, Error>(e),
                    Ok((next_ledger, next_peg)) => match next_peg.latest_failure() {
                        Err(e) => r == Err::<bool, Error>(e),
                        Ok(_) => {
                            &&& r == Ok::<bool, Error>(bundle_wanted(next_peg, block_height))
                            &&& final(self).ledger@ == next_ledger
                            &&& final(self).peg@ == next_peg
                            &&& heights_within(old(self).peg@, block_height) ==> heights_within(
                                next_peg,
                                block_height,
                            )
                        },
                    },
                },
            },
    {
        connect(&mut self.ledger, &mut self.peg, self.height, two_way_peg_data)
    }

    /// Undoes what the mainchain said.
    pub fn disconnect_two_way_peg_data(&mut self, two_way_peg_data: &TwoWayPegData) -> (r: Result<
        (),
        Error,
    >)
        requires
            old(self).height is Some ==> disconnects_within(
                old(self).ledger@,
                old(self).peg@,
                old(self).height->0,
                *two_way_peg_data,
            ),
        ensures
            *final(self) == (State {
                ledger: final(self).ledger,
                peg: final(self).peg,
                ..*old(self)
            }),
            match old(self).height {
                None => r == Err::<(), Error>(Error::NoTip),
                Some(block_height) => match r {
                    Ok(()) => disconnected(
                        old(self).ledger@,
                        old(self).peg@,
                        block_height,
                        *two_way_peg_data,
                    ) == Ok::<(LedgerView, PegView), Error>(
                        (final(self).ledger@, final(self).peg@),
                    ),
                    Err(e) => disconnected(
                        old(self).ledger@,
                        old(self).peg@,
                        block_height,
                        *two_way_peg_data,
                    ) == Err::<(LedgerView, PegView), Error>(e),
                },
            },
    {
        disconnect(&mut self.ledger, &mut self.peg, self.height, two_way_peg_data)
    }

    /// What the current period is reckoned from: the time, the height, and the
    /// time of the first block.
    pub fn period_context(&self) -> (r: (u64, Option<u32>, u64))
        ensures
            r.0 == match self.mainchain_timestamp {
                Some(timestamp) => timestamp,
                None => 0,
            },
            r.1 == self.height,
            r.2 == match self.genesis_timestamp {
                Some(timestamp) => timestamp,
                None => 0,
            },
    {
        let current: u64 = match self.mainchain_timestamp {
            Some(timestamp) => timestamp,
            None => 0,
        };
        let genesis: u64 = match self.genesis_timestamp {
            Some(timestamp) => timestamp,
            None => 0,
        };
        (current, self.height, genesis)
    }

    /// The periods in which decisions can be claimed, and how many are offered
    /// in each.
    pub fn get_all_decision_periods(&self, current_period: u32) -> (r: Vec<(u32, u64)>)
        requires
            current_period + FUTURE_PERIODS < u32::MAX,
        ensures
            r@ == Seq::new(
                FUTURE_PERIODS as nat,
                |k: int|
                    (
                        (current_period + k) as u32,
                        decisions_offered((current_period + k) as u32, current_period),
                    ),
            ),
    {
        self.decisions.get_active_periods(current_period)
    }

    /// How many decisions are offered in a period.
    pub fn get_decisions_for_period(&self, period: u32, current_period: u32) -> (r: u64)
        ensures
            r == decisions_offered(period, current_period),
    {
        self.decisions.total_for(period, current_period)
    }

    /// The unlocked decisions of a period that nobody has claimed.
    pub fn get_available_decisions_in_period(&self, period_index: u32, current_period: u32) -> (r:
        Result<Vec<DecisionId>, Error>)
        requires
            self.decisions@.pricing.dom().contains(period_index)
                ==> self.decisions@.pricing[period_index].mints * SLOTS_PER_TIER_PER_MINT * TIER_COUNT
                <= u64::MAX,
        ensures
            if decisions_offered(period_index, current_period) == 0
                || !self.decisions@.pricing.dom().contains(period_index)
                || self.decisions@.pricing[period_index].mints == 0 {
                r is Ok && r->Ok_0@.len() == 0
            } else {
                let mints = self.decisions@.pricing[period_index].mints;
                let n = mints * SLOTS_PER_TIER_PER_MINT * TIER_COUNT;
                if period_index > MAX_PERIOD_INDEX {
                    r is Err && r->Err_0 == (Error::InvalidDecisionId {
                        reason: Reason::PeriodAboveMaximum {
                            period: period_index,
                            maximum: MAX_PERIOD_INDEX,
                        },
                    })
                } else if nth_unlocked(n - 1, mints) > MAX_DECISION_INDEX {
                    r is Err && r->Err_0 == (Error::InvalidDecisionId {
                        reason: Reason::IndexAboveMaximum {
                            index: (MAX_DECISION_INDEX + 1) as u32,
                            maximum: MAX_DECISION_INDEX,
                        },
                    })
                } else {
                    r is Ok && r->Ok_0@ == available_first(
                        self.decisions@,
                        period_index,
                        mints,
                        n as int,
                    )
                }
            },
    {
        self.decisions.get_available_decisions_in_period(period_index, current_period)
    }

    /// The claimed decisions of the periods that are settled.
    pub fn get_settled_decisions(&self, current_period: u32) -> (r: Vec<DecisionEntry>)
        ensures
            r@ == settled_entries(self.decisions.period_decisions.rows(), current_period),
    {
        self.decisions.get_settled_decisions(current_period)
    }

    pub fn is_decision_in_voting(&self, decision_id: DecisionId) -> (r: bool)
        ensures
            r == (state_of(self.decisions@, decision_id) is Voting),
    {
        self.decisions.is_decision_in_voting(decision_id)
    }

    /// The periods with decisions that are voted on: how many those are, and
    /// how many decisions the period has in all.
    pub fn get_voting_periods(&self) -> (r: Vec<(u32, u64, u64)>)
        ensures
            r@ == voting_list(self.decisions.decision_state_histories.rows(), 128),
    {
        self.decisions.get_voting_periods()
    }

    /// The periods in which decisions can be claimed, and those in which they
    /// are voted on.
    pub fn get_period_summary(&self, current_period: u32) -> (r: (
        Vec<(u32, u64)>,
        Vec<(u32, u64)>,
    ))
        requires
            current_period + FUTURE_PERIODS < u32::MAX,
        ensures
            r.0@ == Seq::new(
                FUTURE_PERIODS as nat,
                |k: int|
                    (
                        (current_period + k) as u32,
                        decisions_offered((current_period + k) as u32, current_period),
                    ),
            ),
            r.1@ == voting_list(self.decisions.decision_state_histories.rows(), 128).map_values(
                |v: (u32, u64, u64)| (v.0, v.1),
            ),
    {
        self.decisions.get_period_summary(current_period)
    }

    /// How many decisions of a period are claimed.
    pub fn claimed_count_in_period(&self, period_index: u32) -> (r: u64)
        ensures
            r == if self.decisions.period_decisions@.dom().contains(period_index) {
                claimed_count(self.decisions.period_decisions@[period_index].rows(), false)
            } else {
                0
            },
    {
        self.decisions.claimed_count_in_period(period_index)
    }
}

} // verus!
