//! Blocks on their way into the state, and out of it.
//!
//! What a trade costs is worked out elsewhere, from a state in which the
//! transactions before it have taken effect. So transactions are taken one by
//! one, each with its figures.

use vstd::prelude::*;

use crate::bytes::to_vec;
use crate::state::block::coins::coins_moved_back;
use crate::state::block::connect::{
    apply_transaction, applying_parts, block_opened, connect_prevalidated, figures_fit,
    finish_transactions, opened_parts, transactions_written, tx_applied, txs_fit, Opened,
    PrevalidatedBlock, TxFigures,
};
use crate::state::block::disconnect::{
    data_reverted, disconnect_tip, end_undone, finish_disconnect, is_filled_from,
    revert_own_transaction, reverting_parts, start_undone, tip_problem, undo_figures_fit,
    Reverting, UndoFigures,
};
use crate::state::block::trades::TradeShareDelta;
use crate::state::consolidation::{covers, FundsAddresses};
use crate::state::ledger::{all_spent, last_unspent, spent_by};
use crate::state::markets::MarketId;
use crate::state::update::{StateUpdate, StateUpdateView};
use crate::state::{Error, State};
use crate::table::Table;
use crate::types::block::{Body, Header};
use crate::types::encoding::Encode;
use crate::types::transaction::{FilledTransaction, Transaction};
use crate::types::{BlockHash, MerkleRoot};
use crate::validation::block::is_skipped;

verus! {

/// A block on its way into the state.
pub struct Connecting {
    pub block: PrevalidatedBlock,
    /// What the transactions so far add up to.
    pub update: StateUpdate,
    /// The indices of the transactions that are skipped.
    pub skipped: Vec<u32>,
    /// How many transactions were taken.
    pub taken: usize,
}

impl Connecting {
    /// Transactions are taken in their order, and skipped ones were taken.
    pub open spec fn in_order(self) -> bool {
        &&& self.taken <= self.block.filled_transactions@.len() <= u32::MAX
        &&& self.skipped@.no_duplicates()
        &&& forall|i: int| 0 <= i < self.skipped@.len() ==> #[trigger] self.skipped@[i] < self.taken
    }

    /// Opens a block that was found valid.
    pub fn open(
        state: &mut State,
        header: &Header,
        body: &Body,
        mainchain_timestamp: u64,
        current_period: u32,
        block: PrevalidatedBlock,
    ) -> (r: Result<Self, Error>)
        requires
            body.coinbase@.len() <= u32::MAX,
            block.filled_transactions@.len() <= u32::MAX,
        ensures
            match r {
                Ok(connecting) => {
                    &&& connecting.in_order()
                    &&& connecting.block == block
                    &&& connecting.update@ == StateUpdateView::empty()
                    &&& connecting.skipped@.len() == 0
                    &&& connecting.taken == 0
                    &&& block_opened(
                        opened_parts(*old(state)),
                        *header,
                        body.coinbase@,
                        mainchain_timestamp,
                        current_period,
                        block.next_height,
                    ) == Ok::<Opened, Error>(opened_parts(*final(state)))
                    &&& *final(state) == (State {
                        genesis_timestamp: final(state).genesis_timestamp,
                        reputation: final(state).reputation,
                        decisions: final(state).decisions,
                        minting_undo: final(state).minting_undo,
                        ledger: final(state).ledger,
                        ..*old(state)
                    })
                },
                Err(e) => block_opened(
                    opened_parts(*old(state)),
                    *header,
                    body.coinbase@,
                    mainchain_timestamp,
                    current_period,
                    block.next_height,
                ) == Err::<Opened, Error>(e),
            },
    {
        match connect_prevalidated(
            state,
            header,
            body,
            mainchain_timestamp,
            current_period,
            &block,
        ) {
            Err(e) => Err(e),
            Ok(()) => Ok(
                Connecting { block, update: StateUpdate::new(), skipped: Vec::new(), taken: 0 },
            ),
        }
    }

    /// The transaction that is to be taken next.
    pub fn next_transaction(&self) -> (r: Option<&FilledTransaction>)
        ensures
            match r {
                Some(tx) => self.taken < self.block.filled_transactions@.len() && *tx
                    == self.block.filled_transactions@[self.taken as int],
                None => self.taken >= self.block.filled_transactions@.len(),
            },
    {
        if self.taken < self.block.filled_transactions.len() {
            Some(&self.block.filled_transactions[self.taken])
        } else {
            None
        }
    }

    /// Takes the next transaction. Says whether it is skipped.
    pub fn take_transaction(&mut self, state: &mut State, figures: &TxFigures, miner_fee: u64)
        -> (r: Result<bool, Error>)
        requires
            old(self).in_order(),
            old(self).taken < old(self).block.filled_transactions@.len(),
            ({
                let tx = old(self).block.filled_transactions@[old(self).taken as int];
                tx.transaction.encodable() && figures_fit(tx.transaction.data, *figures)
            }),
        ensures
            tx_applied(
                applying_parts(*old(state), old(self).update),
                applying_parts(*final(state), final(self).update),
                old(self).block.filled_transactions@[old(self).taken as int],
                *figures,
                old(state).mainchain_timestamp,
                old(self).block.next_height,
                miner_fee,
                r,
            ),
            *final(state) == (State {
                decisions: final(state).decisions,
                markets: final(state).markets,
                reputation: final(state).reputation,
                reputation_transfer_undo: final(state).reputation_transfer_undo,
                ..*old(state)
            }),
            final(self).block == old(self).block,
            r is Ok ==> {
                &&& final(self).in_order()
                &&& final(self).taken == old(self).taken + 1
                &&& final(self).skipped@ == if r->Ok_0 {
                    old(self).skipped@.push(old(self).taken as u32)
                } else {
                    old(self).skipped@
                }
            },
    {
        let ghost before = self.skipped@;
        let index: usize = self.taken;
        let r = apply_transaction(
            state,
            &self.block.filled_transactions[index],
            &mut self.update,
            figures,
            self.block.next_height,
            miner_fee,
        );
        match r {
            Err(e) => Err(e),
            Ok(is_skipped) => {
                if is_skipped {
                    self.skipped.push(index as u32);
                }
                self.taken = index + 1;
                proof {
                    assert forall|i: int| 0 <= i < self.skipped@.len() implies
                        #[trigger] self.skipped@[i] < self.taken by {
                        if i < before.len() {
                            assert(self.skipped@[i] == before[i]);
                        }
                    }
                }
                Ok(is_skipped)
            },
        }
    }

    /// Writes down what the transactions add up to. `addresses` says where the
    /// funds of the traded markets are held. Gives the indices of the
    /// transactions that are skipped.
    pub fn write(
        self,
        state: &mut State,
        addresses: &Table<MarketId, FundsAddresses>,
        miner_fee: u64,
    ) -> (r: Result<Vec<u32>, Error>)
        requires
            self.taken == self.block.filled_transactions@.len(),
            txs_fit(self.block.filled_transactions@),
            covers(addresses@, self.update@.sells, self.update@.buys),
        ensures
            *final(state) == (State {
                ledger: final(state).ledger,
                markets: final(state).markets,
                voting: final(state).voting,
                consolidation_undo: final(state).consolidation_undo,
                ..*old(state)
            }),
            match transactions_written(
                *old(state),
                self.update@,
                addresses@,
                self.block.coinbase_value,
                self.block.filled_transactions@,
                self.skipped@,
                self.block.next_height,
                miner_fee,
            ) {
                Err(e) => r == Err::<Vec<u32>, Error>(e),
                Ok(written) => {
                    let height = self.block.next_height;
                    &&& r == Ok::<Vec<u32>, Error>(self.skipped)
                    &&& final(state).ledger@ == written.ledger
                    &&& final(state).markets@ == written.markets
                    &&& final(state).voting@ == written.voting
                    &&& match written.undo {
                        None => final(state).consolidation_undo@ == old(state).consolidation_undo@,
                        Some(undo) => {
                            let now = final(state).consolidation_undo@;
                            &&& now.dom().contains(height)
                            &&& now[height]@ == undo
                            &&& now == old(state).consolidation_undo@.insert(height, now[height])
                        },
                    }
                },
            },
    {
        match finish_transactions(
            state,
            self.update,
            &self.block,
            &self.skipped,
            addresses,
            miner_fee,
        ) {
            Err(e) => Err(e),
            Ok(()) => Ok(self.skipped),
        }
    }
}

/// Under `left`, the last index that is not skipped.
pub open spec fn last_taken(skipped: Seq<u32>, left: nat) -> Option<nat>
    decreases left,
{
    if left == 0 {
        None
    } else if skipped.contains((left - 1) as u32) {
        last_taken(skipped, (left - 1) as nat)
    } else {
        Some((left - 1) as nat)
    }
}

/// The transactions that a block skipped.
pub open spec fn skipped_at(state: State, height: u32) -> Seq<u32> {
    if state.skipped_tx_indices_undo@.dom().contains(height) {
        state.skipped_tx_indices_undo@[height]@
    } else {
        Seq::empty()
    }
}

/// A block on its way out of the state.
pub struct Disconnecting {
    pub height: u32,
    pub skipped: Vec<u32>,
    /// How many transactions, from the first, are not taken back yet.
    pub left: usize,
    /// How accounts of traders are to be changed.
    pub deltas: Vec<TradeShareDelta>,
}

impl Disconnecting {
    /// Checks that a block is the tip, and undoes what was done after its
    /// transactions.
    pub fn open(
        state: &mut State,
        header: &Header,
        body: &Body,
        block_hash: BlockHash,
        merkle_root: MerkleRoot,
    ) -> (r: Result<Self, Error>)
        ensures
            *final(state) == (State {
                ledger: final(state).ledger,
                markets: final(state).markets,
                voting: final(state).voting,
                reputation: final(state).reputation,
                settlement_undo: final(state).settlement_undo,
                consensus_undo: final(state).consensus_undo,
                consolidation_undo: final(state).consolidation_undo,
                ..*old(state)
            }),
            match tip_problem(
                old(state).tip,
                old(state).height,
                *header,
                block_hash,
                merkle_root,
            ) {
                Some(e) => r == Err::<Self, Error>(e) && *final(state) == *old(state),
                None => {
                    let height = old(state).height->Some_0;
                    match end_undone(*old(state), height) {
                        Err(e) => r == Err::<Self, Error>(e),
                        Ok(undone) => {
                            let undo = old(state).consolidation_undo@;
                            &&& r is Ok
                            &&& r->Ok_0.height == height
                            &&& r->Ok_0.skipped@ == skipped_at(*old(state), height)
                            &&& r->Ok_0.left == body.transactions@.len()
                            &&& r->Ok_0.deltas@.len() == 0
                            &&& final(state).ledger@ == undone.ledger
                            &&& final(state).markets@ == undone.markets
                            &&& final(state).voting@ == undone.voting
                            &&& final(state).reputation@ == undone.reputation
                            &&& final(state).settlement_undo@ == old(state).settlement_undo@.remove(
                                height,
                            )
                            &&& final(state).consensus_undo@ == old(state).consensus_undo@.remove(
                                height,
                            )
                            &&& final(state).consolidation_undo@ == undo.remove(height)
                        },
                    }
                },
            },
    {
        match disconnect_tip(state, header, block_hash, merkle_root) {
            Err(e) => Err(e),
            Ok(height) => {
                let skipped: Vec<u32> = match state.skipped_tx_indices_undo.get(&height) {
                    Some(list) => to_vec(list.as_slice()),
                    None => Vec::new(),
                };
                assert(skipped@ =~= skipped_at(*old(state), height));
                Ok(
                    Disconnecting {
                        height,
                        skipped,
                        left: body.transactions.len(),
                        deltas: Vec::new(),
                    },
                )
            },
        }
    }

    /// The index of the transaction that is to be taken back next: the last one
    /// that is left and was not skipped.
    pub fn next_index(&self) -> (r: Option<usize>)
        requires
            self.left <= u32::MAX,
        ensures
            match r {
                Some(i) => last_taken(self.skipped@, self.left as nat) == Some(i as nat) && i
                    < self.left,
                None => last_taken(self.skipped@, self.left as nat) is None,
            },
    {
        let mut i: usize = self.left;
        while i > 0
            invariant
                i <= self.left <= u32::MAX,
                last_taken(self.skipped@, i as nat) == last_taken(
                    self.skipped@,
                    self.left as nat,
                ),
            decreases i,
        {
            if !is_skipped(&self.skipped, (i - 1) as u32) {
                return Some(i - 1);
            }
            i -= 1;
        }
        None
    }

    /// Takes back the transaction at an index. `None` where its inputs are
    /// noted as spent by another one; then nothing has changed.
    pub fn revert(
        &mut self,
        state: &mut State,
        tx: &Transaction,
        index: usize,
        figures: &UndoFigures,
    ) -> (r: Option<Result<(), Error>>)
        requires
            last_taken(old(self).skipped@, old(self).left as nat) == Some(index as nat),
            tx.encodable(),
            undo_figures_fit(tx.data, *figures),
        ensures
            *final(state) == (State {
                ledger: final(state).ledger,
                markets: final(state).markets,
                decisions: final(state).decisions,
                voting: final(state).voting,
                ..*old(state)
            }),
            final(self).height == old(self).height,
            final(self).skipped == old(self).skipped,
            if !spent_by(old(state).ledger@.stxos, tx.inputs@, tx.id_bytes()) {
                r is None && *final(state) == *old(state) && *final(self) == *old(self)
            } else if !all_spent(old(state).ledger@.stxos, tx.inputs@) {
                exists|i: int| #[trigger]
                    last_unspent(old(state).ledger@.stxos, tx.inputs@, i) && r == Some(
                        Err::<(), Error>(Error::NoStxo { outpoint: tx.inputs@[i] }),
                    )
            } else {
                r is Some && exists|filled: FilledTransaction| #[trigger]
                    is_filled_from(filled, *tx, old(state).ledger@) && match data_reverted(
                        reverting_parts(*old(state), None),
                        filled,
                        *figures,
                        old(self).height,
                    ) {
                        Err(e) => r->Some_0 == Err::<(), Error>(e),
                        Ok(after) => match coins_moved_back(after.ledger, *tx) {
                            Err(e) => r->Some_0 == Err::<(), Error>(e),
                            Ok(ledger) => {
                                &&& r->Some_0 is Ok
                                &&& final(self).left == index
                                &&& final(self).deltas@ == match after.delta {
                                    Some(delta) => old(self).deltas@.push(delta),
                                    None => old(self).deltas@,
                                }
                                &&& reverting_parts(*final(state), after.delta) == (Reverting {
                                    ledger,
                                    ..after
                                })
                            },
                        },
                    }
            },
    {
        match revert_own_transaction(state, tx, figures, self.height) {
            None => None,
            Some(Err(e)) => Some(Err(e)),
            Some(Ok(delta)) => {
                match delta {
                    Some(delta) => self.deltas.push(delta),
                    None => {},
                }
                self.left = index;
                Some(Ok(()))
            },
        }
    }

    /// Undoes the rest of a block, and makes the block before it the tip.
    pub fn finish(self, state: &mut State, header: &Header, body: &Body) -> (r: Result<(), Error>)
        requires
            last_taken(self.skipped@, self.left as nat) is None,
            body.coinbase@.len() <= u32::MAX,
        ensures
            *final(state) == (State {
                ledger: final(state).ledger,
                markets: final(state).markets,
                reputation: final(state).reputation,
                decisions: final(state).decisions,
                tip: final(state).tip,
                height: final(state).height,
                minting_undo: final(state).minting_undo,
                reputation_transfer_undo: final(state).reputation_transfer_undo,
                skipped_tx_indices_undo: final(state).skipped_tx_indices_undo,
                ..*old(state)
            }),
            match start_undone(
                *old(state),
                *header,
                body.coinbase@.len(),
                self.deltas@,
                self.height,
            ) {
                Err(e) => r == Err::<(), Error>(e),
                Ok(done) => {
                    let transfers = old(state).reputation_transfer_undo@;
                    let skipped = old(state).skipped_tx_indices_undo@;
                    &&& r is Ok
                    &&& final(state).ledger@ == done.ledger
                    &&& final(state).markets@ == done.markets
                    &&& final(state).reputation@ == done.reputation
                    &&& final(state).decisions@ == done.decisions
                    &&& final(state).tip == done.tip
                    &&& final(state).height == done.height
                    &&& final(state).minting_undo@ == old(state).minting_undo@.remove(self.height)
                    &&& final(state).reputation_transfer_undo@ == transfers.remove(self.height)
                    &&& final(state).skipped_tx_indices_undo@ == skipped.remove(self.height)
                },
            },
    {
        finish_disconnect(state, header, &body.coinbase, &self.deltas, self.height)
    }
}

} // verus!
