//! What a node answers from the state and the pool together.

use vstd::prelude::*;

use crate::mempool::{self, deleted, pool_fits, txids_at, unconfirmed, MemPool, MemPoolView};
use crate::node::lookup::waiting_among;
use crate::node::Node;
use crate::state::decisions::database::{claimed_entries, entries_of, DecisionsView};
use crate::state::decisions::{
    Dbs, Decision, DecisionConfig, DecisionEntry, DecisionId, PeriodPricing,
};
use crate::state::ledger::{
    all_spent, at, deposits_in, last_unspent, outputs_named, outputs_spent, saturated, spent_by,
    spent_deposits_in, withdrawals_in,
};
use crate::state::markets::{Market, MarketId, MarketState};
use crate::state::peg::{InfoView, WithdrawalBundle};
use crate::state::reputation::ReputationDbs;
use crate::state::voting::database::outcomes_for;
use crate::state::voting::types::{DecisionOutcome, VotingPeriodId};
use crate::state::voting::VotingSystem;
use crate::state::{Error, Reason, State};
use crate::table::{rows_of, Table};
use crate::types::encoding::Encode;
use crate::types::transaction::output::{FilledOutput, TxOutput};
use crate::types::transaction::{
    Authorized, AuthorizedTransaction, FilledTransaction, InPoint, OutPoint,
};
use crate::types::{
    Address, AmountOverflowError, BlockHash, Duplicate, MainBlockHash, Real, Txid,
};

verus! {

/// Where a transaction stands in the chain.
#[derive(Clone, Copy, Debug)]
pub struct TxIn {
    pub block_hash: BlockHash,
    pub idx: u32,
}

/// A transaction with what it spends, and where it stands in the chain if it
/// does.
pub type FilledTransactionWithPosition = (Authorized<FilledTransaction>, Option<TxIn>);

/// A table with some more rows, of which later ones replace earlier ones.
pub open spec fn with_rows(
    before: Map<OutPoint, TxOutput>,
    rows: Seq<(OutPoint, TxOutput)>,
) -> Map<OutPoint, TxOutput>
    decreases rows.len(),
{
    if rows.len() == 0 {
        before
    } else {
        with_rows(before, rows.drop_last()).insert(rows.last().0, rows.last().1)
    }
}

/// The outputs of waiting transactions to some addresses.
pub open spec fn unconfirmed_to(pool: MemPoolView, addresses: Seq<Address>) -> Result<
    Map<OutPoint, TxOutput>,
    mempool::Error,
>
    decreases addresses.len(),
{
    if addresses.len() == 0 {
        Ok(Map::empty())
    } else {
        match unconfirmed_to(pool, addresses.drop_last()) {
            Err(e) => Err(e),
            Ok(before) => match unconfirmed(
                pool.txs,
                rows_of(txids_at(pool.by_address, addresses.last())),
                addresses.last(),
            ) {
                Err(e) => Err(e),
                Ok(rows) => Ok(with_rows(before, rows)),
            },
        }
    }
}

proof fn lemma_unconfirmed_to_prefix(pool: MemPoolView, addresses: Seq<Address>, n: int)
    requires
        0 <= n <= addresses.len(),
        unconfirmed_to(pool, addresses.subrange(0, n)) is Err,
    ensures
        unconfirmed_to(pool, addresses) == unconfirmed_to(pool, addresses.subrange(0, n)),
    decreases addresses.len() - n,
{
    if n == addresses.len() {
        assert(addresses.subrange(0, n) =~= addresses);
    } else {
        assert(addresses.subrange(0, n + 1).drop_last() =~= addresses.subrange(0, n));
        lemma_unconfirmed_to_prefix(pool, addresses, n + 1);
    }
}

/// Puts rows into a table.
fn put_rows(table: &mut Table<OutPoint, TxOutput>, rows: &Vec<(OutPoint, TxOutput)>)
    ensures
        final(table)@ == with_rows(old(table)@, rows@),
{
    let mut i: usize = 0;
    assert(rows@.subrange(0, 0) =~= Seq::empty());
    while i < rows.len()
        invariant
            i <= rows@.len(),
            table@ == with_rows(old(table)@, rows@.subrange(0, i as int)),
        decreases rows@.len() - i,
    {
        assert(rows@.subrange(0, i + 1).drop_last() =~= rows@.subrange(0, i as int));
        table.put(rows[i].0, rows[i].1.duplicate());
        i += 1;
    }
    assert(rows@.subrange(0, i as int) =~= rows@);
}

/// The keys of some rows.
pub open spec fn keys_of(rows: Seq<(OutPoint, FilledOutput)>) -> Seq<OutPoint> {
    Seq::new(rows.len(), |i: int| rows[i].0)
}

/// Of some decisions, those that are claimed, each with what was claimed.
pub open spec fn described(view: DecisionsView, ids: Seq<DecisionId>) -> Map<DecisionId, Decision>
    decreases ids.len(),
{
    if ids.len() == 0 {
        Map::empty()
    } else {
        let before = described(view, ids.drop_last());
        let entries = entries_of(view, ids.last().period());
        if entries.dom().contains(ids.last()) && entries[ids.last()][0].decision is Some {
            before.insert(ids.last(), entries[ids.last()][0].decision->Some_0)
        } else {
            before
        }
    }
}

/// The blocks of the mainchain in which a block is found to be included.
pub open spec fn verified_among(results: Seq<(MainBlockHash, bool)>) -> Seq<MainBlockHash>
    decreases results.len(),
{
    if results.len() == 0 {
        Seq::empty()
    } else if results.last().1 {
        verified_among(results.drop_last()).push(results.last().0)
    } else {
        verified_among(results.drop_last())
    }
}

/// The blocks of the mainchain in which a block is included. `results` says of
/// each block of the mainchain whether the inclusion was verified there.
pub fn get_bmm_inclusions(results: &Vec<(MainBlockHash, bool)>) -> (r: Vec<MainBlockHash>)
    ensures
        r@ == verified_among(results@),
{
    let mut r: Vec<MainBlockHash> = Vec::new();
    let mut i: usize = 0;
    assert(results@.subrange(0, 0) =~= Seq::empty());
    while i < results.len()
        invariant
            i <= results@.len(),
            r@ == verified_among(results@.subrange(0, i as int)),
        decreases results@.len() - i,
    {
        assert(results@.subrange(0, i + 1).drop_last() =~= results@.subrange(0, i as int));
        if results[i].1 {
            r.push(results[i].0);
        }
        i += 1;
    }
    assert(results@.subrange(0, i as int) =~= results@);
    r
}

/// What is left to do to invalidate a block.
#[derive(Clone, Copy, Debug, PartialEq, Eq, Structural)]
pub enum InvalidationStep {
    /// Disconnect the tip, and ask again.
    DisconnectTip,
    /// Mark the block and its descendants as invalid.
    MarkInvalid,
}

impl Node {
    pub fn new(state: State, mempool: MemPool) -> (r: Self)
        ensures
            r == (Node { state, mempool }),
    {
        Node { state, mempool }
    }

    pub fn state(&self) -> (r: &State)
        ensures
            *r == self.state,
    {
        &self.state
    }

    pub fn voting_state(&self) -> (r: &VotingSystem)
        ensures
            *r == self.state.voting,
    {
        self.state.voting()
    }

    pub fn reputation(&self) -> (r: &ReputationDbs)
        ensures
            *r == self.state.reputation,
    {
        self.state.reputation()
    }

    pub fn get_decisions_db(&self) -> (r: &Dbs)
        ensures
            *r == self.state.decisions,
    {
        self.state.decisions()
    }

    pub fn is_decisions_testing_mode(&self) -> (r: bool)
        ensures
            r == self.state.decisions@.config.is_blocks,
    {
        self.state.decisions().is_testing_mode()
    }

    pub fn get_decisions_testing_config(&self) -> (r: u32)
        ensures
            r == self.state.decisions@.config.quantity,
    {
        self.state.decisions().get_testing_blocks_per_period()
    }

    pub fn get_decision_config(&self) -> (r: &DecisionConfig)
        ensures
            *r == self.state.decisions@.config,
    {
        self.state.decisions().get_config()
    }

    pub fn get_all_utxos(&self) -> (r: &Table<OutPoint, FilledOutput>)
        ensures
            r@ == self.state.ledger@.utxos,
    {
        self.state.get_utxos()
    }

    /// What voters decided in a period.
    pub fn resolve_voting_period(&self, period_id: VotingPeriodId) -> (r: Result<
        Vec<DecisionOutcome>,
        Error,
    >)
        ensures
            ({
                let databases = self.state.voting.databases;
                let stored = outcomes_for(databases.decision_outcomes.rows(), period_id);
                if stored.len() == 0 {
                    r is Err && r->Err_0 == Error::ConsensusNotYetCalculated(period_id)
                } else {
                    r is Ok && r->Ok_0@ == stored.map_values(
                        |row: (DecisionId, DecisionOutcome)| row.1,
                    )
                }
            }),
    {
        self.state.voting().resolve_period_decisions(period_id)
    }

    pub fn get_consensus_outcomes(&self, period_id: VotingPeriodId) -> (r: Vec<(DecisionId, Real)>)
        ensures
            r@ == outcomes_for(
                self.state.voting.databases.decision_outcomes.rows(),
                period_id,
            ).map_values(|row: (DecisionId, DecisionOutcome)| (row.0, row.1.outcome_value)),
    {
        self.state.voting().databases().get_consensus_outcomes_for_period(period_id)
    }

    pub fn get_claimed_decisions_in_period(&self, period_id: VotingPeriodId) -> (r: Vec<
        DecisionEntry,
    >)
        ensures
            ({
                let periods = self.state.decisions.period_decisions@;
                if periods.dom().contains(period_id.0) {
                    r@ == claimed_entries(periods[period_id.0].rows())
                } else {
                    r@.len() == 0
                }
            }),
    {
        self.state.decisions().get_claimed_decisions_in_period(period_id.as_u32())
    }

    pub fn get_listing_fee_info(&self, period: u32) -> (r: Option<PeriodPricing>)
        ensures
            match r {
                Some(p) => self.state.decisions@.pricing.dom().contains(period) && p
                    == self.state.decisions@.pricing[period],
                None => !self.state.decisions@.pricing.dom().contains(period),
            },
    {
        self.state.decisions().get_listing_fee_info(period)
    }

    pub fn try_get_tip(&self) -> (r: Option<BlockHash>)
        ensures
            r == self.state.tip,
    {
        self.state.try_get_tip()
    }

    pub fn try_get_tip_height(&self) -> (r: Option<u32>)
        ensures
            r == self.state.height,
    {
        self.state.try_get_height()
    }

    pub fn get_tip_height(&self) -> (r: Result<u32, Error>)
        ensures
            r == match self.state.height {
                Some(height) => Ok::<u32, Error>(height),
                None => Err(
                    Error::InvalidTransaction { reason: Reason::Text("No tip height found") },
                ),
            },
    {
        match self.try_get_tip_height() {
            Some(height) => Ok(height),
            None => Err(Error::InvalidTransaction { reason: Reason::Text("No tip height found") }),
        }
    }

    pub fn get_genesis_timestamp(&self) -> (r: Option<u64>)
        ensures
            r == self.state.genesis_timestamp,
    {
        self.state.try_get_genesis_timestamp()
    }

    pub fn get_mainchain_timestamp(&self) -> (r: u64)
        ensures
            r == match self.state.mainchain_timestamp {
                Some(timestamp) => timestamp,
                None => 0,
            },
    {
        match self.state.try_get_mainchain_timestamp() {
            Some(timestamp) => timestamp,
            None => 0,
        }
    }

    pub fn get_last_block_timestamp(&self) -> (r: u64)
        ensures
            r == match self.state.mainchain_timestamp {
                Some(timestamp) => timestamp,
                None => 0,
            },
    {
        self.get_mainchain_timestamp()
    }

    pub fn get_sidechain_wealth(&self) -> (r: Result<u64, Error>)
        ensures
            ({
                let ledger = self.state.ledger;
                let deposited = saturated(deposits_in(ledger.utxos.rows())) + saturated(
                    spent_deposits_in(ledger.stxos.rows()),
                );
                let withdrawn = saturated(withdrawals_in(ledger.stxos.rows()));
                if deposited <= u64::MAX && withdrawn <= deposited {
                    r == Ok::<u64, Error>((deposited - withdrawn) as u64)
                } else {
                    r == Err::<u64, Error>(Error::AmountOverflow(AmountOverflowError))
                }
            }),
    {
        self.state.sidechain_wealth()
    }

    /// The height at which the last bundle failed.
    pub fn get_latest_failed_bundle_height(&self) -> (r: Result<Option<u32>, Error>)
        ensures
            r == match self.state.peg@.latest_failure() {
                Err(e) => Err::<Option<u32>, Error>(e),
                Ok(None) => Ok(None),
                Ok(Some((height, _))) => Ok(Some(height)),
            },
    {
        match self.state.get_latest_failed_withdrawal_bundle() {
            Err(e) => Err(e),
            Ok(None) => Ok(None),
            Ok(Some((height, _))) => Ok(Some(height)),
        }
    }

    /// The bundle that waits for submission.
    pub fn get_pending_withdrawal_bundle(&self) -> (r: Result<Option<&WithdrawalBundle>, Error>)
        ensures
            match self.state.peg@.pending {
                None => r == Ok::<Option<&WithdrawalBundle>, Error>(None),
                Some(m6id) => {
                    if !self.state.peg@.bundles.dom().contains(m6id) {
                        r == Err::<Option<&WithdrawalBundle>, Error>(
                            Error::DatabaseError(
                                Reason::PendingBundleUnknown(m6id),
                            ),
                        )
                    } else {
                        match self.state.peg@.bundles[m6id].info {
                            InfoView::Known(bundle) => r == Ok::<
                                Option<&WithdrawalBundle>,
                                Error,
                            >(Some(&bundle)),
                            _ => r == Err::<Option<&WithdrawalBundle>, Error>(
                                Error::DatabaseError(Reason::PendingBundleNotKnown(m6id)),
                            ),
                        }
                    }
                },
            },
    {
        match self.state.get_pending_withdrawal_bundle() {
            Err(e) => Err(e),
            Ok(None) => Ok(None),
            Ok(Some((bundle, _))) => Ok(Some(bundle)),
        }
    }

    /// The outputs of waiting transactions to some addresses.
    pub fn get_unconfirmed_utxos_by_addresses(&self, addresses: &Vec<Address>) -> (r: Result<
        Table<OutPoint, TxOutput>,
        mempool::Error,
    >)
        requires
            pool_fits(self.mempool@),
        ensures
            match r {
                Ok(table) => unconfirmed_to(self.mempool@, addresses@) == Ok::<
                    Map<OutPoint, TxOutput>,
                    mempool::Error,
                >(table@),
                Err(e) => unconfirmed_to(self.mempool@, addresses@) == Err::<
                    Map<OutPoint, TxOutput>,
                    mempool::Error,
                >(e),
            },
    {
        let mut table: Table<OutPoint, TxOutput> = Table::new();
        let mut i: usize = 0;
        assert(addresses@.subrange(0, 0) =~= Seq::empty());
        while i < addresses.len()
            invariant
                i <= addresses@.len(),
                pool_fits(self.mempool@),
                unconfirmed_to(self.mempool@, addresses@.subrange(0, i as int)) == Ok::<
                    Map<OutPoint, TxOutput>,
                    mempool::Error,
                >(table@),
            decreases addresses@.len() - i,
        {
            assert(addresses@.subrange(0, i + 1).drop_last() =~= addresses@.subrange(0, i as int));
            match self.mempool.get_unconfirmed_utxos(&addresses[i]) {
                Err(e) => {
                    proof {
                        lemma_unconfirmed_to_prefix(self.mempool@, addresses@, i + 1);
                    }
                    return Err(e);
                },
                Ok(rows) => put_rows(&mut table, &rows),
            }
            i += 1;
        }
        assert(addresses@.subrange(0, i as int) =~= addresses@);
        Ok(table)
    }

    /// The coins of some addresses, and those of them that a waiting
    /// transaction spends.
    pub fn get_utxos_with_mempool_status(&self, addresses: &Vec<Address>) -> (r: (
        Table<OutPoint, FilledOutput>,
        Vec<(OutPoint, InPoint)>,
    ))
        ensures
            forall|o: OutPoint| #[trigger]
                r.0@.dom().contains(o) <==> self.state.ledger@.utxos.dom().contains(o) && exists|
                    a: Address,
                |
                    addresses@.contains(a) && #[trigger]
                    self.state.ledger@.utxos_by_address.dom().contains(at(a, o)),
            forall|o: OutPoint| #[trigger]
                r.0@.dom().contains(o) ==> r.0@[o] == self.state.ledger@.utxos[o],
            r.1@ == waiting_among(self.mempool@.spent, keys_of(rows_of(r.0@))),
    {
        let utxos = self.state.get_utxos_by_addresses(addresses);
        utxos.rows_facts();
        let n: usize = utxos.len();
        let mut outpoints: Vec<OutPoint> = Vec::new();
        let mut i: usize = 0;
        while i < n
            invariant
                i <= n == utxos.rows().len(),
                outpoints@ == Seq::new(i as nat, |k: int| utxos.rows()[k].0),
            decreases n - i,
        {
            outpoints.push(utxos.row(i).0);
            i += 1;
            assert(outpoints@ =~= Seq::new(i as nat, |k: int| utxos.rows()[k].0));
        }
        assert(outpoints@ =~= keys_of(utxos.rows()));
        let spent = self.get_unconfirmed_spent_utxos(&outpoints);
        (utxos, spent)
    }

    pub fn get_all_transactions(&self) -> (r: Vec<AuthorizedTransaction>)
        ensures
            r@ == Seq::new(
                rows_of(self.mempool@.txs).len(),
                |i: int| rows_of(self.mempool@.txs)[i].1,
            ),
    {
        self.mempool.take_all()
    }

    pub fn get_pending_decision_claim_ids(&self) -> (r: Vec<DecisionId>)
        ensures
            r@ == Seq::new(
                rows_of(self.mempool@.claims).len(),
                |i: int| rows_of(self.mempool@.claims)[i].0,
            ),
    {
        self.mempool.pending_decision_claim_ids()
    }

    pub fn remove_from_mempool(&mut self, txid: Txid)
        requires
            pool_fits(old(self).mempool@),
        ensures
            final(self).state == old(self).state,
            final(self).mempool@ == deleted(old(self).mempool@, seq![txid]),
            pool_fits(final(self).mempool@),
    {
        self.mempool.delete(txid);
    }

    pub fn get_mempool_shares(&self, market_id: &MarketId) -> (r: Option<&Vec<i64>>)
        ensures
            match r {
                Some(shares) => {
                    &&& self.state.markets@.mempool_shares.dom().contains(*market_id)
                    &&& shares@ == self.state.markets@.mempool_shares[*market_id]
                },
                None => !self.state.markets@.mempool_shares.dom().contains(*market_id),
            },
    {
        self.state.get_mempool_shares(market_id)
    }

    pub fn get_decision_entry(&self, decision_id: DecisionId) -> (r: Option<&DecisionEntry>)
        ensures
            ({
                let entries = entries_of(self.state.decisions@, decision_id.period());
                match r {
                    Some(entry) => entries.dom().contains(decision_id) && *entry
                        == entries[decision_id][0],
                    None => !entries.dom().contains(decision_id),
                }
            }),
    {
        self.state.decisions.get_decision_entry(decision_id)
    }

    pub fn get_market_by_id(&self, market_id: &MarketId) -> (r: Option<&Market>)
        ensures
            match r {
                Some(market) => self.state.markets@.markets.dom().contains(*market_id) && market@
                    == self.state.markets@.markets[*market_id],
                None => !self.state.markets@.markets.dom().contains(*market_id),
            },
    {
        self.state.markets.get_market(market_id)
    }

    pub fn get_market_by_id_with_state(&self, market_id: &MarketId) -> (r: Option<
        (&Market, MarketState),
    >)
        ensures
            match r {
                Some((market, state)) => {
                    &&& self.state.markets@.markets.dom().contains(*market_id)
                    &&& market@ == self.state.markets@.markets[*market_id]
                    &&& state == market@.state
                },
                None => !self.state.markets@.markets.dom().contains(*market_id),
            },
    {
        match self.get_market_by_id(market_id) {
            Some(market) => Some((market, market.state())),
            None => None,
        }
    }

    /// What is decided by a market, as far as it was claimed.
    pub fn get_market_decisions(&self, market: &Market) -> (r: Table<DecisionId, Decision>)
        ensures
            r@ == described(self.state.decisions@, market@.terms.decision_ids@),
    {
        let ids = &market.terms.decision_ids;
        let mut table: Table<DecisionId, Decision> = Table::new();
        let mut i: usize = 0;
        assert(ids@.subrange(0, 0) =~= Seq::empty());
        while i < ids.len()
            invariant
                i <= ids@.len(),
                table@ == described(self.state.decisions@, ids@.subrange(0, i as int)),
            decreases ids@.len() - i,
        {
            assert(ids@.subrange(0, i + 1).drop_last() =~= ids@.subrange(0, i as int));
            match self.state.decisions.get_decision_entry(ids[i]) {
                Some(entry) => match &entry.decision {
                    Some(decision) => table.put(ids[i], decision.duplicate()),
                    None => {},
                },
                None => {},
            }
            i += 1;
        }
        assert(ids@.subrange(0, i as int) =~= ids@);
        table
    }

    /// A transaction with what it spends. `inclusion` is the transaction as it
    /// stands in a block of the current chain, if it does. `None` where the
    /// coins of that one are noted as spent by another transaction.
    pub fn try_get_filled_transaction(
        &self,
        inclusion: Option<(AuthorizedTransaction, TxIn)>,
        txid: &Txid,
    ) -> (r: Option<Result<Option<FilledTransactionWithPosition>, Error>>)
        requires
            inclusion is Some ==> inclusion->Some_0.0.transaction.encodable(),
        ensures
            match inclusion {
                Some((auth_tx, txin)) => {
                    let tx = auth_tx.transaction;
                    let stxos = self.state.ledger@.stxos;
                    match r {
                        None => !spent_by(stxos, tx.inputs@, tx.id_bytes()),
                        Some(Ok(found)) => {
                            &&& spent_by(stxos, tx.inputs@, tx.id_bytes())
                            &&& all_spent(stxos, tx.inputs@)
                            &&& found is Some
                            &&& found->Some_0.1 == Some(txin)
                            &&& found->Some_0.0.authorizations == auth_tx.authorizations
                            &&& found->Some_0.0.actor_proof == auth_tx.actor_proof
                            &&& found->Some_0.0.transaction.transaction == tx
                            &&& found->Some_0.0.transaction.actor_address is None
                            &&& found->Some_0.0.transaction.spent_utxos@ == outputs_spent(
                                stxos,
                                tx.inputs@,
                            )
                        },
                        Some(Err(e)) => spent_by(stxos, tx.inputs@, tx.id_bytes()) && exists|i: int|
                         #[trigger]
                            last_unspent(stxos, tx.inputs@, i) && e == (Error::NoStxo {
                                outpoint: tx.inputs@[i],
                            }),
                    }
                },
                None => {
                    &&& r is Some
                    &&& r->Some_0 is Ok
                    &&& match r->Some_0->Ok_0 {
                        Some((filled, txin)) => {
                            let waiting = self.mempool@.txs[*txid];
                            &&& self.mempool@.txs.dom().contains(*txid)
                            &&& txin is None
                            &&& filled.authorizations == waiting.authorizations
                            &&& filled.actor_proof == waiting.actor_proof
                            &&& filled.transaction.transaction == waiting.transaction
                            &&& filled.transaction.actor_address is None
                            &&& outputs_named(
                                self.state.ledger@.utxos,
                                waiting.transaction.inputs@,
                            ) == Ok::<Seq<FilledOutput>, OutPoint>(
                                filled.transaction.spent_utxos@,
                            )
                        },
                        None => !self.mempool@.txs.dom().contains(*txid) || outputs_named(
                            self.state.ledger@.utxos,
                            self.mempool@.txs[*txid].transaction.inputs@,
                        ) is Err,
                    }
                },
            },
    {
        match inclusion {
            Some((auth_tx, txin)) => {
                match self.state.ledger.find_spent_outputs(auth_tx.transaction) {
                    None => None,
                    Some(Err(e)) => Some(Err(e)),
                    Some(Ok(filled)) => Some(
                        Ok(
                            Some(
                                (
                                    Authorized {
                                        transaction: filled,
                                        authorizations: auth_tx.authorizations,
                                        actor_proof: auth_tx.actor_proof,
                                    },
                                    Some(txin),
                                ),
                            ),
                        ),
                    ),
                }
            },
            None => match self.mempool.transactions.get(txid) {
                None => Some(Ok(None)),
                Some(waiting) => match self.state.fill_authorized_transaction(
                    waiting.duplicate(),
                ) {
                    Ok(filled) => Some(Ok(Some((filled, None)))),
                    Err(_) => Some(Ok(None)),
                },
            },
        }
    }

    /// What is left to do to invalidate a block whose parent is `parent`.
    /// `in_active_chain` says whether the tip descended from the block.
    pub fn invalidation_step(&self, parent: &Option<BlockHash>, in_active_chain: bool) -> (r:
        InvalidationStep)
        ensures
            r == if in_active_chain && self.state.tip != *parent {
                InvalidationStep::DisconnectTip
            } else {
                InvalidationStep::MarkInvalid
            },
    {
        let at_parent = match (&self.state.tip, parent) {
            (None, None) => true,
            (Some(tip), Some(parent)) => *tip == *parent,
            _ => false,
        };
        if in_active_chain && !at_parent {
            InvalidationStep::DisconnectTip
        } else {
            InvalidationStep::MarkInvalid
        }
    }
}

} // verus!
