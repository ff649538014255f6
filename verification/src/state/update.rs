//! What the transactions of a block add up to, before it is written down.

use vstd::prelude::*;

use crate::bytes::{append, be32, be32_injective, lemma_array_equal, push_be32, to_vec};
use crate::replica::Replica;
use crate::state::consolidation::{
    block_trades, consolidate_market_utxos, consolidated, covers, holdings, undo_view,
    ConsolidationUndoData, ConsolidationUndoView, FundsAddresses, InputChange,
    PendingBuySettlement, PendingSellPayout,
};
use crate::state::ledger::{Ledger, LedgerView};
use crate::state::markets::database::{
    account_of, share_problem, Market, MarketView, MarketsDatabase, MarketsView,
};
use crate::state::markets::types::{position, MarketError, MarketId};
use crate::state::voting::database::{VotingDatabases, VotingView};
use crate::state::voting::types::{vote_key, Vote, VoteMatrixEntry};
use crate::state::{Error, Reason};
use crate::table::{rows_of, Key, Table};
use crate::types::Address;
use crate::validation::market::{shares_problem, MarketValidator};

verus! {

/// Whose shares of what change.
#[derive(Clone, Copy, Debug)]
pub struct ShareChangeKey {
    pub address: Address,
    pub market_id: MarketId,
    pub outcome_index: u32,
}

pub open spec fn change_key(address: Address, market_id: MarketId, outcome_index: u32)
    -> ShareChangeKey {
    ShareChangeKey { address, market_id, outcome_index }
}

impl Key for ShareChangeKey {
    open spec fn key_bytes(&self) -> Seq<u8> {
        self.address.0@ + self.market_id.0@ + be32(self.outcome_index)
    }

    proof fn key_bytes_injective(a: Self, b: Self) {
        let x = a.key_bytes();
        let y = b.key_bytes();
        assert(x.subrange(0, 20) =~= a.address.0@);
        assert(y.subrange(0, 20) =~= b.address.0@);
        assert(x.subrange(20, 26) =~= a.market_id.0@);
        assert(y.subrange(20, 26) =~= b.market_id.0@);
        assert(x.subrange(26, 30) =~= be32(a.outcome_index));
        assert(y.subrange(26, 30) =~= be32(b.outcome_index));
        lemma_array_equal(a.address.0, b.address.0);
        lemma_array_equal(a.market_id.0, b.market_id.0);
        be32_injective(a.outcome_index, b.outcome_index);
    }

    fn to_key_bytes(&self) -> (r: Vec<u8>) {
        let mut r = to_vec(self.address.0.as_slice());
        append(&mut r, self.market_id.0.as_slice());
        push_be32(&mut r, self.outcome_index);
        r
    }
}

/// What a trade does to its market.
#[derive(Clone, Copy, Debug)]
pub struct MarketStateUpdate {
    pub market_id: MarketId,
    /// The outcome whose shares change, and by how much.
    pub share_delta: Option<(usize, i64)>,
    pub transaction_id: Option<[u8; 32]>,
    pub volume_sats: Option<u64>,
    pub fee_sats: Option<u64>,
}

pub struct StateUpdate {
    pub market_updates: Vec<MarketStateUpdate>,
    pub market_creations: Vec<Market>,
    pub share_account_changes: Table<ShareChangeKey, i64>,
    pub vote_submissions: Vec<Vote>,
    pub pending_sell_payouts: Vec<PendingSellPayout>,
    pub pending_buy_settlements: Vec<PendingBuySettlement>,
    pub pending_sell_input_changes: Vec<InputChange>,
}

#[verifier::ext_equal]
pub struct StateUpdateView {
    pub updates: Seq<MarketStateUpdate>,
    pub creations: Seq<MarketView>,
    pub changes: Map<ShareChangeKey, i64>,
    pub votes: Seq<Vote>,
    pub sells: Seq<PendingSellPayout>,
    pub buys: Seq<PendingBuySettlement>,
    pub input_changes: Seq<InputChange>,
}

pub open spec fn market_views(markets: Seq<Market>) -> Seq<MarketView> {
    Seq::new(markets.len(), |i: int| markets[i]@)
}

impl View for StateUpdate {
    type V = StateUpdateView;

    open spec fn view(&self) -> StateUpdateView {
        StateUpdateView {
            updates: self.market_updates@,
            creations: market_views(self.market_creations@),
            changes: self.share_account_changes@,
            votes: self.vote_submissions@,
            sells: self.pending_sell_payouts@,
            buys: self.pending_buy_settlements@,
            input_changes: self.pending_sell_input_changes@,
        }
    }
}

impl StateUpdateView {
    pub open spec fn empty() -> StateUpdateView {
        StateUpdateView {
            updates: Seq::empty(),
            creations: Seq::empty(),
            changes: Map::empty(),
            votes: Seq::empty(),
            sells: Seq::empty(),
            buys: Seq::empty(),
            input_changes: Seq::empty(),
        }
    }

    /// By how much the shares at a key change.
    pub open spec fn change(self, key: ShareChangeKey) -> i64 {
        if self.changes.dom().contains(key) {
            self.changes[key]
        } else {
            0
        }
    }

    pub open spec fn with_change(self, key: ShareChangeKey, delta: i64) -> StateUpdateView {
        StateUpdateView {
            changes: self.changes.insert(key, (self.change(key) + delta) as i64),
            ..self
        }
    }
}

pub open spec fn creates(creations: Seq<MarketView>, m: MarketId) -> bool {
    exists|i: int| 0 <= i < creations.len() && (#[trigger] creations[i]).terms.id == m
}

/// What is wrong with an update by itself.
pub open spec fn consistency_problem(update: StateUpdateView) -> Option<Error> {
    match first_twice(update.creations, 0) {
        Some(id) => Some(
            Error::InvalidTransaction { reason: Reason::DuplicateMarketCreation(id) },
        ),
        None => match first_created(update.creations, update.updates, 0) {
            Some(id) => Some(
                Error::InvalidTransaction { reason: Reason::MarketCreatedAndUpdated(id) },
            ),
            None => None,
        },
    }
}

/// The first market from a place on that was created before.
pub open spec fn first_twice(creations: Seq<MarketView>, i: int) -> Option<MarketId>
    decreases creations.len() - i,
{
    if i >= creations.len() {
        None
    } else if creates(creations.subrange(0, i), creations[i].terms.id) {
        Some(creations[i].terms.id)
    } else {
        first_twice(creations, i + 1)
    }
}

/// The first market that is traded, from a place on, and created too.
pub open spec fn first_created(
    creations: Seq<MarketView>,
    updates: Seq<MarketStateUpdate>,
    i: int,
) -> Option<MarketId>
    decreases updates.len() - i,
{
    if i >= updates.len() {
        None
    } else if creates(creations, updates[i].market_id) {
        Some(updates[i].market_id)
    } else {
        first_created(creations, updates, i + 1)
    }
}

/// The first market that is traded, from a place on, and is not there.
pub open spec fn first_absent(
    markets: Map<MarketId, MarketView>,
    updates: Seq<MarketStateUpdate>,
    i: int,
) -> Option<MarketId>
    decreases updates.len() - i,
{
    if i >= updates.len() {
        None
    } else if !markets.dom().contains(updates[i].market_id) {
        Some(updates[i].market_id)
    } else {
        first_absent(markets, updates, i + 1)
    }
}

/// What is wrong with the markets that are created.
pub open spec fn creation_problem(
    markets: Map<MarketId, MarketView>,
    creations: Seq<MarketView>,
) -> Option<Error>
    decreases creations.len(),
{
    if creations.len() == 0 {
        None
    } else {
        match creation_problem(markets, creations.drop_last()) {
            Some(e) => Some(e),
            None => if markets.dom().contains(creations.last().terms.id) {
                Some(
                    Error::InvalidTransaction {
                        reason: Reason::MarketAlreadyExists(creations.last().terms.id),
                    },
                )
            } else {
                shares_problem(creations.last().shares)
            },
        }
    }
}

/// What is wrong with an update.
pub open spec fn update_problem(
    markets: Map<MarketId, MarketView>,
    update: StateUpdateView,
) -> Option<Error> {
    match consistency_problem(update) {
        Some(e) => Some(e),
        None => match first_absent(markets, update.updates, 0) {
            Some(id) => Some(
                Error::InvalidTransaction { reason: Reason::MarketDoesNotExist(id) },
            ),
            None => creation_problem(markets, update.creations),
        },
    }
}

proof fn lemma_creation_prefix(
    markets: Map<MarketId, MarketView>,
    creations: Seq<MarketView>,
    n: int,
)
    requires
        0 <= n <= creations.len(),
        creation_problem(markets, creations.subrange(0, n)) is Some,
    ensures
        creation_problem(markets, creations) == creation_problem(
            markets,
            creations.subrange(0, n),
        ),
    decreases creations.len() - n,
{
    if n == creations.len() {
        assert(creations.subrange(0, n) =~= creations);
    } else {
        assert(creations.subrange(0, n + 1).drop_last() =~= creations.subrange(0, n));
        lemma_creation_prefix(markets, creations, n + 1);
    }
}

impl StateUpdate {
    pub fn new() -> (r: Self)
        ensures
            r@ == StateUpdateView::empty(),
    {
        let r = StateUpdate {
            market_updates: Vec::new(),
            market_creations: Vec::new(),
            share_account_changes: Table::new(),
            vote_submissions: Vec::new(),
            pending_sell_payouts: Vec::new(),
            pending_buy_settlements: Vec::new(),
            pending_sell_input_changes: Vec::new(),
        };
        assert(r@ =~= StateUpdateView::empty());
        r
    }

    pub fn add_market_update(&mut self, update: MarketStateUpdate)
        ensures
            final(self)@ == (StateUpdateView {
                updates: old(self)@.updates.push(update),
                ..old(self)@
            }),
    {
        self.market_updates.push(update);
    }

    /// By how much the shares of a trader change.
    pub fn pending_share_change(
        &self,
        address: &Address,
        market_id: &MarketId,
        outcome: u32,
    ) -> (r: i64)
        ensures
            r == self@.change(change_key(*address, *market_id, outcome)),
    {
        let key = ShareChangeKey {
            address: *address,
            market_id: *market_id,
            outcome_index: outcome,
        };
        match self.share_account_changes.get(&key) {
            Some(delta) => *delta,
            None => 0,
        }
    }

    pub fn add_share_account_change(
        &mut self,
        address: Address,
        market_id: MarketId,
        outcome: u32,
        delta: i64,
    )
        requires
            i64::MIN <= old(self)@.change(change_key(address, market_id, outcome)) + delta
                <= i64::MAX,
        ensures
            final(self)@ == old(self)@.with_change(change_key(address, market_id, outcome), delta),
    {
        let before: i64 = self.pending_share_change(&address, &market_id, outcome);
        self.share_account_changes.put(
            ShareChangeKey { address, market_id, outcome_index: outcome },
            before + delta,
        );
    }

    pub fn add_market_creation(&mut self, market: Market)
        ensures
            final(self)@ == (StateUpdateView {
                creations: old(self)@.creations.push(market@),
                ..old(self)@
            }),
    {
        let ghost before = self.market_creations@;
        self.market_creations.push(market);
        assert(market_views(self.market_creations@) =~= market_views(before).push(market@));
    }

    pub fn add_vote_submission(&mut self, vote: Vote)
        ensures
            final(self)@ == (StateUpdateView { votes: old(self)@.votes.push(vote), ..old(self)@ }),
    {
        self.vote_submissions.push(vote);
    }

    pub fn add_pending_sell_payout(&mut self, payout: PendingSellPayout)
        ensures
            final(self)@ == (StateUpdateView {
                sells: old(self)@.sells.push(payout),
                ..old(self)@
            }),
    {
        self.pending_sell_payouts.push(payout);
    }

    pub fn add_pending_buy_settlement(&mut self, settlement: PendingBuySettlement)
        ensures
            final(self)@ == (StateUpdateView {
                buys: old(self)@.buys.push(settlement),
                ..old(self)@
            }),
    {
        self.pending_buy_settlements.push(settlement);
    }

    pub fn add_pending_sell_input_change(
        &mut self,
        address: Address,
        change_sats: u64,
        transaction_id: [u8; 32],
    )
        ensures
            final(self)@ == (StateUpdateView {
                input_changes: old(self)@.input_changes.push(
                    InputChange { address, change_sats, transaction_id },
                ),
                ..old(self)@
            }),
    {
        self.pending_sell_input_changes.push(InputChange { address, change_sats, transaction_id });
    }

    fn creates(&self, n: usize, m: &MarketId) -> (r: bool)
        requires
            n <= self.market_creations@.len(),
        ensures
            r == creates(self@.creations.subrange(0, n as int), *m),
    {
        let ghost list = self@.creations.subrange(0, n as int);
        let mut i: usize = 0;
        while i < n
            invariant
                i <= n <= self.market_creations@.len(),
                list == self@.creations.subrange(0, n as int),
                forall|k: int| 0 <= k < i ==> (#[trigger] list[k]).terms.id != *m,
            decreases n - i,
        {
            assert(list[i as int] == self.market_creations@[i as int]@);
            if self.market_creations[i].terms.id == *m {
                return true;
            }
            i += 1;
        }
        false
    }

    /// Checks that no market is created twice, or created and traded at once.
    pub fn verify_internal_consistency(&self) -> (r: Result<(), Error>)
        ensures
            consistency_problem(self@) == match r {
                Ok(()) => None::<Error>,
                Err(e) => Some(e),
            },
    {
        let ghost list = self@.creations;
        let n: usize = self.market_creations.len();
        let mut i: usize = 0;
        while i < n
            invariant
                i <= n == self.market_creations@.len(),
                list == self@.creations,
                first_twice(list, 0) == first_twice(list, i as int),
            decreases n - i,
        {
            let id = self.market_creations[i].terms.id;
            assert(list[i as int].terms.id == id);
            if self.creates(i, &id) {
                return Err(
                    Error::InvalidTransaction { reason: Reason::DuplicateMarketCreation(id) },
                );
            }
            i += 1;
        }
        assert(first_twice(list, 0) is None);
        assert(list.subrange(0, n as int) =~= list);
        let mut u: usize = 0;
        while u < self.market_updates.len()
            invariant
                u <= self.market_updates@.len(),
                n == self.market_creations@.len(),
                list == self@.creations,
                list.subrange(0, n as int) == list,
                first_twice(list, 0) is None,
                first_created(list, self.market_updates@, 0) == first_created(
                    list,
                    self.market_updates@,
                    u as int,
                ),
            decreases self.market_updates@.len() - u,
        {
            if self.creates(n, &self.market_updates[u].market_id) {
                return Err(
                    Error::InvalidTransaction {
                        reason: Reason::MarketCreatedAndUpdated(self.market_updates[u].market_id),
                    },
                );
            }
            u += 1;
        }
        Ok(())
    }

    /// Checks an update against the markets that there are.
    pub fn validate_all_changes(&self, markets: &MarketsDatabase) -> (r: Result<(), Error>)
        ensures
            update_problem(markets@.markets, self@) == match r {
                Ok(()) => None::<Error>,
                Err(e) => Some(e),
            },
    {
        match self.verify_internal_consistency() {
            Err(e) => return Err(e),
            Ok(()) => {},
        }
        let ghost map = markets@.markets;
        let mut u: usize = 0;
        while u < self.market_updates.len()
            invariant
                u <= self.market_updates@.len(),
                map == markets@.markets,
                consistency_problem(self@) is None,
                first_absent(map, self.market_updates@, 0) == first_absent(
                    map,
                    self.market_updates@,
                    u as int,
                ),
            decreases self.market_updates@.len() - u,
        {
            if markets.get_market(&self.market_updates[u].market_id).is_none() {
                return Err(
                    Error::InvalidTransaction {
                        reason: Reason::MarketDoesNotExist(self.market_updates[u].market_id),
                    },
                );
            }
            u += 1;
        }
        let ghost list = self@.creations;
        let mut i: usize = 0;
        assert(list.subrange(0, 0) =~= Seq::empty());
        while i < self.market_creations.len()
            invariant
                i <= self.market_creations@.len() == list.len(),
                map == markets@.markets,
                list == self@.creations,
                consistency_problem(self@) is None,
                first_absent(map, self.market_updates@, 0) is None,
                creation_problem(map, list.subrange(0, i as int)) is None,
            decreases self.market_creations@.len() - i,
        {
            let market = &self.market_creations[i];
            proof {
                assert(list.subrange(0, i + 1).drop_last() =~= list.subrange(0, i as int));
                assert(list.subrange(0, i + 1).last() == market@);
            }
            if markets.get_market(&market.terms.id).is_some() {
                proof {
                    lemma_creation_prefix(map, list, i + 1);
                }
                return Err(
                    Error::InvalidTransaction {
                        reason: Reason::MarketAlreadyExists(market.terms.id),
                    },
                );
            }
            match MarketValidator::validate_market_shares(&market.shares) {
                Err(e) => {
                    proof {
                        lemma_creation_prefix(map, list, i + 1);
                    }
                    return Err(e);
                },
                Ok(()) => {},
            }
            i += 1;
        }
        assert(list.subrange(0, i as int) =~= list);
        Ok(())
    }
}

/// The markets with new ones, the last one first.
pub open spec fn with_creations(
    markets: Map<MarketId, MarketView>,
    creations: Seq<MarketView>,
) -> Map<MarketId, MarketView>
    decreases creations.len(),
{
    if creations.len() == 0 {
        markets
    } else {
        with_creations(
            markets.insert(creations.last().terms.id, creations.last()),
            creations.drop_last(),
        )
    }
}

/// A trade is written into its market. The shares that wait for a block are
/// dropped.
pub open spec fn market_updated(v: MarketsView, u: MarketStateUpdate, height: u32) -> Result<
    MarketsView,
    Error,
> {
    match u.share_delta {
        None => Ok(v),
        Some((outcome, delta)) => if !v.markets.dom().contains(u.market_id) {
            Err(Error::InvalidTransaction { reason: Reason::MarketNotFound(u.market_id) })
        } else {
            let market = v.markets[u.market_id];
            if outcome >= market.shares.len() {
                Err(Error::Market(MarketError::InvalidOutcomeIndex(outcome)))
            } else if !(i64::MIN <= market.shares[outcome as int] + delta <= i64::MAX) {
                Err(Error::InvalidTransaction { reason: Reason::Text("Market shares overflow") })
            } else {
                let volume = match u.volume_sats {
                    Some(sats) => market.volume_added(outcome as int, sats),
                    None => Ok(market),
                };
                match volume {
                    Err(_) => Err(
                        Error::InvalidTransaction {
                            reason: Reason::Text("Failed to update volume"),
                        },
                    ),
                    Ok(market) => Ok(
                        MarketsView {
                            markets: v.markets.insert(
                                u.market_id,
                                MarketView {
                                    shares: market.shares.update(
                                        outcome as int,
                                        (market.shares[outcome as int] + delta) as i64,
                                    ),
                                    last_updated_height: height,
                                    ..market
                                },
                            ),
                            mempool_shares: v.mempool_shares.remove(u.market_id),
                            ..v
                        },
                    ),
                }
            }
        },
    }
}

pub open spec fn markets_updated(v: MarketsView, updates: Seq<MarketStateUpdate>, height: u32)
    -> Result<MarketsView, Error>
    decreases updates.len(),
{
    if updates.len() == 0 {
        Ok(v)
    } else {
        match markets_updated(v, updates.drop_last(), height) {
            Err(e) => Err(e),
            Ok(before) => market_updated(before, updates.last(), height),
        }
    }
}

/// What an author adds to a market makes it more liquid.
pub open spec fn amplified(v: MarketsView, buy: PendingBuySettlement) -> Result<
    MarketsView,
    Error,
> {
    if !buy.is_amplify {
        Ok(v)
    } else if !v.markets.dom().contains(buy.market_id) {
        Err(Error::InvalidTransaction { reason: Reason::MarketNotFound(buy.market_id) })
    } else {
        let market = v.markets[buy.market_id];
        if market.liquidity_base_sats + buy.lmsr_cost_sats > u64::MAX {
            Err(Error::InvalidTransaction { reason: Reason::LiquidityBaseOverflow(buy.market_id) })
        } else {
            Ok(
                MarketsView {
                    markets: v.markets.insert(
                        buy.market_id,
                        MarketView {
                            liquidity_base_sats: (market.liquidity_base_sats
                                + buy.lmsr_cost_sats) as u64,
                            ..market
                        },
                    ),
                    ..v
                },
            )
        }
    }
}

pub open spec fn all_amplified(v: MarketsView, buys: Seq<PendingBuySettlement>) -> Result<
    MarketsView,
    Error,
>
    decreases buys.len(),
{
    if buys.len() == 0 {
        Ok(v)
    } else {
        match all_amplified(v, buys.drop_last()) {
            Err(e) => Err(e),
            Ok(before) => amplified(before, buys.last()),
        }
    }
}

/// The shares of a trader change.
pub open spec fn account_changed(v: MarketsView, key: ShareChangeKey, delta: i64, height: u32)
    -> Result<MarketsView, Error> {
    let account = account_of(v.accounts, key.address);
    let p = position(key.market_id, key.outcome_index);
    if delta == 0 {
        Ok(v)
    } else if delta > 0 {
        if account.shares(p) + delta > i64::MAX {
            Err(Error::InvalidTransaction { reason: Reason::Text("Share account overflow") })
        } else {
            Ok(
                MarketsView {
                    accounts: v.accounts.insert(key.address, account.added(p, delta, height)),
                    ..v
                },
            )
        }
    } else if delta == i64::MIN {
        Err(Error::InvalidTransaction { reason: Reason::Text("Share account overflow") })
    } else {
        match account.removed(p, (-delta) as i64, height) {
            Err(e) => Err(Error::Market(e)),
            Ok(next) => Ok(MarketsView { accounts: v.accounts.insert(key.address, next), ..v }),
        }
    }
}

pub open spec fn accounts_changed(v: MarketsView, rows: Seq<(ShareChangeKey, i64)>, height: u32)
    -> Result<MarketsView, Error>
    decreases rows.len(),
{
    if rows.len() == 0 {
        Ok(v)
    } else {
        match accounts_changed(v, rows.drop_last(), height) {
            Err(e) => Err(e),
            Ok(before) => account_changed(before, rows.last().0, rows.last().1, height),
        }
    }
}

/// The first market whose shares are not those of its holders.
pub open spec fn first_share_problem(v: MarketsView, rows: Seq<(ShareChangeKey, i64)>) -> Option<
    Error,
>
    decreases rows.len(),
{
    if rows.len() == 0 {
        None
    } else {
        match first_share_problem(v, rows.drop_last()) {
            Some(e) => Some(e),
            None => share_problem(v, rows.last().0.market_id),
        }
    }
}

pub open spec fn vote_put(v: VotingView, vote: Vote) -> VotingView {
    VotingView {
        votes: v.votes.insert(
            vote_key(vote.period_id, vote.voter_address, vote.decision_id),
            VoteMatrixEntry {
                value: vote.value,
                timestamp: vote.timestamp,
                block_height: vote.block_height,
            },
        ),
        ..v
    }
}

pub open spec fn votes_put(v: VotingView, votes: Seq<Vote>) -> VotingView
    decreases votes.len(),
{
    if votes.len() == 0 {
        v
    } else {
        vote_put(votes_put(v, votes.drop_last()), votes.last())
    }
}

/// The markets after the trades of a block.
pub open spec fn markets_after(markets: MarketsView, update: StateUpdateView, height: u32)
    -> Result<MarketsView, Error> {
    let created = MarketsView {
        markets: with_creations(markets.markets, update.creations),
        ..markets
    };
    match markets_updated(created, update.updates, height) {
        Err(e) => Err(e),
        Ok(traded) => match all_amplified(traded, update.buys) {
            Err(e) => Err(e),
            Ok(amplified) => match accounts_changed(amplified, rows_of(update.changes), height) {
                Err(e) => Err(e),
                Ok(changed) => match first_share_problem(changed, rows_of(update.changes)) {
                    Some(e) => Err(e),
                    None => Ok(changed),
                },
            },
        },
    }
}

/// What an update makes of the ledger, the markets and the votes.
pub struct Written {
    pub ledger: LedgerView,
    pub markets: MarketsView,
    pub voting: VotingView,
    pub undo: Option<ConsolidationUndoView>,
}

/// An update is written down.
pub open spec fn all_written(
    ledger: LedgerView,
    markets: MarketsView,
    voting: VotingView,
    update: StateUpdateView,
    addresses: Map<MarketId, FundsAddresses>,
    height: u32,
    miner_fee: u64,
) -> Result<Written, Error> {
    match markets_after(markets, update, height) {
        Err(e) => Err(e),
        Ok(after) => match consolidated(
            holdings(ledger, after),
            addresses,
            block_trades(update.sells, update.buys, height, miner_fee),
            update.input_changes,
        ) {
            Err(e) => Err(e),
            Ok((held, undo)) => Ok(
                Written {
                    ledger: held.ledger,
                    markets: MarketsView { funds: held.funds, ..after },
                    voting: votes_put(voting, update.votes),
                    undo,
                },
            ),
        },
    }
}

proof fn lemma_updates_prefix(v: MarketsView, updates: Seq<MarketStateUpdate>, height: u32, n: int)
    requires
        0 <= n <= updates.len(),
        markets_updated(v, updates.subrange(0, n), height) is Err,
    ensures
        markets_updated(v, updates, height) == markets_updated(v, updates.subrange(0, n), height),
    decreases updates.len() - n,
{
    if n == updates.len() {
        assert(updates.subrange(0, n) =~= updates);
    } else {
        assert(updates.subrange(0, n + 1).drop_last() =~= updates.subrange(0, n));
        lemma_updates_prefix(v, updates, height, n + 1);
    }
}

proof fn lemma_amplified_prefix(v: MarketsView, buys: Seq<PendingBuySettlement>, n: int)
    requires
        0 <= n <= buys.len(),
        all_amplified(v, buys.subrange(0, n)) is Err,
    ensures
        all_amplified(v, buys) == all_amplified(v, buys.subrange(0, n)),
    decreases buys.len() - n,
{
    if n == buys.len() {
        assert(buys.subrange(0, n) =~= buys);
    } else {
        assert(buys.subrange(0, n + 1).drop_last() =~= buys.subrange(0, n));
        lemma_amplified_prefix(v, buys, n + 1);
    }
}

proof fn lemma_changes_prefix(
    v: MarketsView,
    rows: Seq<(ShareChangeKey, i64)>,
    height: u32,
    n: int,
)
    requires
        0 <= n <= rows.len(),
        accounts_changed(v, rows.subrange(0, n), height) is Err,
    ensures
        accounts_changed(v, rows, height) == accounts_changed(v, rows.subrange(0, n), height),
    decreases rows.len() - n,
{
    if n == rows.len() {
        assert(rows.subrange(0, n) =~= rows);
    } else {
        assert(rows.subrange(0, n + 1).drop_last() =~= rows.subrange(0, n));
        lemma_changes_prefix(v, rows, height, n + 1);
    }
}

proof fn lemma_problem_prefix(v: MarketsView, rows: Seq<(ShareChangeKey, i64)>, n: int)
    requires
        0 <= n <= rows.len(),
        first_share_problem(v, rows.subrange(0, n)) is Some,
    ensures
        first_share_problem(v, rows) == first_share_problem(v, rows.subrange(0, n)),
    decreases rows.len() - n,
{
    if n == rows.len() {
        assert(rows.subrange(0, n) =~= rows);
    } else {
        assert(rows.subrange(0, n + 1).drop_last() =~= rows.subrange(0, n));
        lemma_problem_prefix(v, rows, n + 1);
    }
}

fn create_markets(markets: &mut MarketsDatabase, creations: Vec<Market>)
    ensures
        final(markets)@ == (MarketsView {
            markets: with_creations(old(markets)@.markets, market_views(creations@)),
            ..old(markets)@
        }),
{
    let mut rest = creations;
    let ghost all = market_views(creations@);
    while rest.len() > 0
        invariant
            markets@ == (MarketsView { markets: markets@.markets, ..old(markets)@ }),
            with_creations(markets@.markets, market_views(rest@)) == with_creations(
                old(markets)@.markets,
                all,
            ),
        decreases rest@.len(),
    {
        let ghost before = rest@;
        let market = rest.pop().unwrap();
        assert(market_views(before).drop_last() =~= market_views(rest@));
        assert(market_views(before).last() == market@);
        markets.add_market(market);
    }
}

/// Writes a trade into its market.
pub fn update_market(markets: &mut MarketsDatabase, update: &MarketStateUpdate, height: u32) -> (r:
    Result<(), Error>)
    ensures
        match r {
            Ok(()) => market_updated(old(markets)@, *update, height) == Ok::<MarketsView, Error>(
                final(markets)@,
            ),
            Err(e) => {
                &&& market_updated(old(markets)@, *update, height) == Err::<MarketsView, Error>(e)
                &&& *final(markets) == *old(markets)
            },
        },
{
    match update.share_delta {
        None => Ok(()),
        Some((outcome, delta)) => {
            let mut market = match markets.get_market(&update.market_id) {
                None => return Err(
                    Error::InvalidTransaction { reason: Reason::MarketNotFound(update.market_id) },
                ),
                Some(market) => market.replica(),
            };
            if outcome >= market.shares.len() {
                return Err(Error::Market(MarketError::InvalidOutcomeIndex(outcome)));
            }
            let shares: i64 = match market.shares[outcome].checked_add(delta) {
                None => return Err(
                    Error::InvalidTransaction { reason: Reason::Text("Market shares overflow") },
                ),
                Some(shares) => shares,
            };
            match update.volume_sats {
                None => {},
                Some(sats) => match market.update_trading_volume(outcome, sats) {
                    Err(_) => return Err(
                        Error::InvalidTransaction {
                            reason: Reason::Text("Failed to update volume"),
                        },
                    ),
                    Ok(()) => {},
                },
            }
            market.shares[outcome] = shares;
            market.last_updated_height = height;
            markets.update_market(&update.market_id, market);
            markets.clear_mempool_shares(&update.market_id);
            Ok(())
        },
    }
}

fn update_markets(
    markets: &mut MarketsDatabase,
    updates: &Vec<MarketStateUpdate>,
    height: u32,
) -> (r: Result<(), Error>)
    ensures
        match r {
            Ok(()) => markets_updated(old(markets)@, updates@, height) == Ok::<MarketsView, Error>(
                final(markets)@,
            ),
            Err(e) => markets_updated(old(markets)@, updates@, height) == Err::<MarketsView, Error>(
                e,
            ),
        },
{
    let mut i: usize = 0;
    assert(updates@.subrange(0, 0) =~= Seq::empty());
    while i < updates.len()
        invariant
            i <= updates@.len(),
            markets_updated(old(markets)@, updates@.subrange(0, i as int), height) == Ok::<
                MarketsView,
                Error,
            >(markets@),
        decreases updates@.len() - i,
    {
        proof {
            assert(updates@.subrange(0, i + 1).drop_last() =~= updates@.subrange(0, i as int));
        }
        match update_market(markets, &updates[i], height) {
            Err(e) => {
                proof {
                    lemma_updates_prefix(old(markets)@, updates@, height, i + 1);
                }
                return Err(e);
            },
            Ok(()) => {},
        }
        i += 1;
    }
    assert(updates@.subrange(0, i as int) =~= updates@);
    Ok(())
}

fn amplify_markets(markets: &mut MarketsDatabase, buys: &Vec<PendingBuySettlement>) -> (r: Result<
    (),
    Error,
>)
    ensures
        match r {
            Ok(()) => all_amplified(old(markets)@, buys@) == Ok::<MarketsView, Error>(
                final(markets)@,
            ),
            Err(e) => all_amplified(old(markets)@, buys@) == Err::<MarketsView, Error>(e),
        },
{
    let mut i: usize = 0;
    assert(buys@.subrange(0, 0) =~= Seq::empty());
    while i < buys.len()
        invariant
            i <= buys@.len(),
            all_amplified(old(markets)@, buys@.subrange(0, i as int)) == Ok::<MarketsView, Error>(
                markets@,
            ),
        decreases buys@.len() - i,
    {
        proof {
            assert(buys@.subrange(0, i + 1).drop_last() =~= buys@.subrange(0, i as int));
        }
        let buy = &buys[i];
        if buy.is_amplify {
            let ghost before = markets@.markets;
            let mut market = match markets.take_market(&buy.market_id) {
                None => {
                    proof {
                        lemma_amplified_prefix(old(markets)@, buys@, i + 1);
                    }
                    return Err(
                        Error::InvalidTransaction { reason: Reason::MarketNotFound(buy.market_id) },
                    );
                },
                Some(market) => market,
            };
            let base: u64 = match market.liquidity_base_sats.checked_add(buy.lmsr_cost_sats) {
                None => {
                    proof {
                        lemma_amplified_prefix(old(markets)@, buys@, i + 1);
                    }
                    return Err(
                        Error::InvalidTransaction {
                            reason: Reason::LiquidityBaseOverflow(buy.market_id),
                        },
                    );
                },
                Some(base) => base,
            };
            market.liquidity_base_sats = base;
            markets.update_market(&buy.market_id, market);
            assert(before.remove(buy.market_id).insert(buy.market_id, market@) =~= before.insert(
                buy.market_id,
                market@,
            ));
        }
        i += 1;
    }
    assert(buys@.subrange(0, i as int) =~= buys@);
    Ok(())
}

/// Changes the shares of a trader.
pub fn change_account(
    markets: &mut MarketsDatabase,
    key: &ShareChangeKey,
    delta: i64,
    height: u32,
) -> (r: Result<(), Error>)
    ensures
        match r {
            Ok(()) => account_changed(old(markets)@, *key, delta, height) == Ok::<
                MarketsView,
                Error,
            >(final(markets)@),
            Err(e) => account_changed(old(markets)@, *key, delta, height) == Err::<
                MarketsView,
                Error,
            >(e),
        },
{
    if delta == 0 {
        return Ok(());
    }
    if delta > 0 {
        let owned: i64 = markets.get_shares(&key.address, &key.market_id, key.outcome_index);
        if owned.checked_add(delta).is_none() {
            return Err(
                Error::InvalidTransaction { reason: Reason::Text("Share account overflow") },
            );
        }
        markets.add_shares_to_account(
            &key.address,
            key.market_id,
            key.outcome_index,
            delta,
            height,
        );
        return Ok(());
    }
    if delta == i64::MIN {
        return Err(Error::InvalidTransaction { reason: Reason::Text("Share account overflow") });
    }
    markets.remove_shares_from_account(
        &key.address,
        &key.market_id,
        key.outcome_index,
        -delta,
        height,
    )
}

/// Changes the shares of traders, in ascending order of their keys.
pub fn change_accounts(
    markets: &mut MarketsDatabase,
    changes: &Table<ShareChangeKey, i64>,
    height: u32,
) -> (r: Result<(), Error>)
    ensures
        match r {
            Ok(()) => accounts_changed(old(markets)@, rows_of(changes@), height) == Ok::<
                MarketsView,
                Error,
            >(final(markets)@),
            Err(e) => accounts_changed(old(markets)@, rows_of(changes@), height) == Err::<
                MarketsView,
                Error,
            >(e),
        },
{
    changes.rows_facts();
    let ghost rows = rows_of(changes@);
    let n: usize = changes.len();
    let mut i: usize = 0;
    assert(rows.subrange(0, 0) =~= Seq::empty());
    while i < n
        invariant
            i <= n == rows.len(),
            rows == changes.rows(),
            rows == rows_of(changes@),
            accounts_changed(old(markets)@, rows.subrange(0, i as int), height) == Ok::<
                MarketsView,
                Error,
            >(markets@),
        decreases n - i,
    {
        proof {
            assert(rows.subrange(0, i + 1).drop_last() =~= rows.subrange(0, i as int));
        }
        let row = changes.row(i);
        match change_account(markets, &row.0, row.1, height) {
            Err(e) => {
                proof {
                    lemma_changes_prefix(old(markets)@, rows, height, i + 1);
                }
                return Err(e);
            },
            Ok(()) => {},
        }
        i += 1;
    }
    assert(rows.subrange(0, i as int) =~= rows);
    Ok(())
}

fn check_shares(markets: &MarketsDatabase, changes: &Table<ShareChangeKey, i64>) -> (r: Result<
    (),
    Error,
>)
    ensures
        first_share_problem(markets@, rows_of(changes@)) == match r {
            Ok(()) => None::<Error>,
            Err(e) => Some(e),
        },
{
    changes.rows_facts();
    let ghost rows = rows_of(changes@);
    let n: usize = changes.len();
    let mut i: usize = 0;
    assert(rows.subrange(0, 0) =~= Seq::empty());
    while i < n
        invariant
            i <= n == rows.len(),
            rows == changes.rows(),
            rows == rows_of(changes@),
            first_share_problem(markets@, rows.subrange(0, i as int)) is None,
        decreases n - i,
    {
        proof {
            assert(rows.subrange(0, i + 1).drop_last() =~= rows.subrange(0, i as int));
        }
        match markets.verify_share_invariant(&changes.row(i).0.market_id) {
            Err(e) => {
                proof {
                    lemma_problem_prefix(markets@, rows, i + 1);
                }
                return Err(e);
            },
            Ok(()) => {},
        }
        i += 1;
    }
    assert(rows.subrange(0, i as int) =~= rows);
    Ok(())
}

fn put_votes(voting: &mut VotingDatabases, votes: &Vec<Vote>)
    ensures
        final(voting)@ == votes_put(old(voting)@, votes@),
{
    let mut i: usize = 0;
    assert(votes@.subrange(0, 0) =~= Seq::empty());
    while i < votes.len()
        invariant
            i <= votes@.len(),
            voting@ == votes_put(old(voting)@, votes@.subrange(0, i as int)),
        decreases votes@.len() - i,
    {
        assert(votes@.subrange(0, i + 1).drop_last() =~= votes@.subrange(0, i as int));
        voting.put_vote(&votes[i]);
        i += 1;
    }
    assert(votes@.subrange(0, i as int) =~= votes@);
}

impl StateUpdate {
    /// Writes an update down. `addresses` says where the funds of the traded
    /// markets are held, and `miner_fee` is what the miner gets for each trade.
    pub fn apply_all_changes(
        self,
        ledger: &mut Ledger,
        markets: &mut MarketsDatabase,
        voting: &mut VotingDatabases,
        addresses: &Table<MarketId, FundsAddresses>,
        height: u32,
        miner_fee: u64,
    ) -> (r: Result<Option<ConsolidationUndoData>, Error>)
        requires
            covers(addresses@, self@.sells, self@.buys),
        ensures
            match r {
                Ok(undo) => all_written(
                    old(ledger)@,
                    old(markets)@,
                    old(voting)@,
                    self@,
                    addresses@,
                    height,
                    miner_fee,
                ) == Ok::<Written, Error>(
                    Written {
                        ledger: final(ledger)@,
                        markets: final(markets)@,
                        voting: final(voting)@,
                        undo: undo_view(undo),
                    },
                ),
                Err(e) => all_written(
                    old(ledger)@,
                    old(markets)@,
                    old(voting)@,
                    self@,
                    addresses@,
                    height,
                    miner_fee,
                ) == Err::<Written, Error>(e),
            },
    {
        create_markets(markets, self.market_creations);
        match update_markets(markets, &self.market_updates, height) {
            Err(e) => return Err(e),
            Ok(()) => {},
        }
        match amplify_markets(markets, &self.pending_buy_settlements) {
            Err(e) => return Err(e),
            Ok(()) => {},
        }
        match change_accounts(markets, &self.share_account_changes, height) {
            Err(e) => return Err(e),
            Ok(()) => {},
        }
        match check_shares(markets, &self.share_account_changes) {
            Err(e) => return Err(e),
            Ok(()) => {},
        }
        put_votes(voting, &self.vote_submissions);
        consolidate_market_utxos(
            ledger,
            markets,
            addresses,
            height,
            miner_fee,
            &self.pending_sell_payouts,
            &self.pending_buy_settlements,
            &self.pending_sell_input_changes,
        )
    }
}

} // verus!
