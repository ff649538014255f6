//! The markets, their funds, and the shares of traders.

use vstd::prelude::*;

use crate::bytes::{lemma_array_equal, to_vec};
use crate::replica::Replica;
use crate::state::decisions::DecisionId;
use crate::state::markets::types::{
    position, DimensionSpec, MarketError, MarketId, MarketState, Position, ShareAccount,
    ShareAccountView,
};
use crate::state::{Error, Reason};
use crate::table::{lemma_rows_mapped, rows_mapped, rows_of, Key, Table};
use crate::types::transaction::OutPoint;
use crate::types::{Address, Real};

verus! {

/// What does not change about a market.
#[derive(Debug)]
pub struct MarketTerms {
    pub id: MarketId,
    pub creator_address: Address,
    pub title: String,
    pub description: String,
    pub tags: Box<[String]>,
    pub dimension_specs: Box<[DimensionSpec]>,
    pub decision_ids: Box<[DecisionId]>,
    pub trading_fee: Real,
    pub tx_pow_hash_selector: u8,
    pub tx_pow_ordering: u8,
    pub tx_pow_difficulty: u8,
    pub created_at_height: u32,
}

#[derive(Debug)]
pub struct Market {
    pub terms: MarketTerms,
    pub state: MarketState,
    /// The shares of each outcome.
    pub shares: Vec<i64>,
    /// The volume traded in each outcome.
    pub volumes: Vec<u64>,
    /// The seed of the market, and what its author has added since.
    pub liquidity_base_sats: u64,
    pub last_updated_height: u32,
}

#[verifier::ext_equal]
pub struct MarketView {
    pub terms: MarketTerms,
    pub state: MarketState,
    pub shares: Seq<i64>,
    pub volumes: Seq<u64>,
    pub liquidity_base_sats: u64,
    pub last_updated_height: u32,
}

impl View for Market {
    type V = MarketView;

    open spec fn view(&self) -> MarketView {
        MarketView {
            terms: self.terms,
            state: self.state,
            shares: self.shares@,
            volumes: self.volumes@,
            liquidity_base_sats: self.liquidity_base_sats,
            last_updated_height: self.last_updated_height,
        }
    }
}

impl MarketView {
    /// A volume is added to an outcome.
    pub open spec fn volume_added(self, outcome: int, sats: u64) -> Result<MarketView, MarketError> {
        if outcome >= self.volumes.len() {
            Err(MarketError::InvalidOutcomeIndex(outcome as usize))
        } else if self.volumes[outcome] + sats > u64::MAX {
            Err(MarketError::DatabaseError("trading volume overflow"))
        } else {
            Ok(
                MarketView {
                    volumes: self.volumes.update(outcome, (self.volumes[outcome] + sats) as u64),
                    ..self
                },
            )
        }
    }

    /// A volume is taken back from an outcome.
    pub open spec fn volume_removed(self, outcome: int, sats: u64) -> Result<
        MarketView,
        MarketError,
    > {
        if outcome >= self.volumes.len() {
            Err(MarketError::InvalidOutcomeIndex(outcome as usize))
        } else if self.volumes[outcome] < sats {
            Err(MarketError::DatabaseError("trading volume underflow"))
        } else {
            Ok(
                MarketView {
                    volumes: self.volumes.update(outcome, (self.volumes[outcome] - sats) as u64),
                    ..self
                },
            )
        }
    }
}

impl Market {
    pub fn id(&self) -> (r: MarketId)
        ensures
            r == self@.terms.id,
    {
        self.terms.id
    }

    pub fn state(&self) -> (r: MarketState)
        ensures
            r == self@.state,
    {
        self.state
    }

    pub fn shares(&self) -> (r: &Vec<i64>)
        ensures
            r@ == self@.shares,
    {
        &self.shares
    }

    pub fn trading_fee(&self) -> (r: Real)
        ensures
            r == self@.terms.trading_fee,
    {
        self.terms.trading_fee
    }

    pub fn update_trading_volume(&mut self, outcome: usize, sats: u64) -> (r: Result<
        (),
        MarketError,
    >)
        ensures
            match r {
                Ok(()) => old(self)@.volume_added(outcome as int, sats) == Ok::<
                    MarketView,
                    MarketError,
                >(final(self)@),
                Err(e) => old(self)@.volume_added(outcome as int, sats) == Err::<
                    MarketView,
                    MarketError,
                >(e) && *final(self) == *old(self),
            },
    {
        if outcome >= self.volumes.len() {
            return Err(MarketError::InvalidOutcomeIndex(outcome));
        }
        match self.volumes[outcome].checked_add(sats) {
            Some(sum) => {
                self.volumes[outcome] = sum;
                Ok(())
            },
            None => Err(MarketError::DatabaseError("trading volume overflow")),
        }
    }

    pub fn revert_trading_volume(&mut self, outcome: usize, sats: u64) -> (r: Result<
        (),
        MarketError,
    >)
        ensures
            match r {
                Ok(()) => old(self)@.volume_removed(outcome as int, sats) == Ok::<
                    MarketView,
                    MarketError,
                >(final(self)@),
                Err(e) => old(self)@.volume_removed(outcome as int, sats) == Err::<
                    MarketView,
                    MarketError,
                >(e) && *final(self) == *old(self),
            },
    {
        if outcome >= self.volumes.len() {
            return Err(MarketError::InvalidOutcomeIndex(outcome));
        }
        match self.volumes[outcome].checked_sub(sats) {
            Some(rest) => {
                self.volumes[outcome] = rest;
                Ok(())
            },
            None => Err(MarketError::DatabaseError("trading volume underflow")),
        }
    }
}

/// The funds of a market: its treasury, or the fees of its author.
#[derive(Clone, Copy, Debug)]
pub struct FundsKey {
    pub market_id: MarketId,
    pub is_fee: bool,
}

pub open spec fn funds(market_id: MarketId, is_fee: bool) -> FundsKey {
    FundsKey { market_id, is_fee }
}

impl Key for FundsKey {
    open spec fn key_bytes(&self) -> Seq<u8> {
        self.market_id.0@ + seq![if self.is_fee { 1u8 } else { 0u8 }]
    }

    proof fn key_bytes_injective(a: Self, b: Self) {
        let x = a.key_bytes();
        let y = b.key_bytes();
        assert(x.subrange(0, 6) =~= a.market_id.0@);
        assert(y.subrange(0, 6) =~= b.market_id.0@);
        assert(x[6] == if a.is_fee { 1u8 } else { 0u8 });
        assert(y[6] == if b.is_fee { 1u8 } else { 0u8 });
        lemma_array_equal(a.market_id.0, b.market_id.0);
    }

    fn to_key_bytes(&self) -> (r: Vec<u8>) {
        let mut r = to_vec(self.market_id.0.as_slice());
        r.push(if self.is_fee { 1 } else { 0 });
        assert(r@ =~= self.key_bytes());
        r
    }
}

pub struct MarketsDatabase {
    pub markets: Table<MarketId, Market>,
    pub share_accounts: Table<Address, ShareAccount>,
    /// Where the funds of each market are.
    pub market_funds: Table<FundsKey, OutPoint>,
    /// The shares of markets with the trades that wait for a block.
    pub mempool_shares: Table<MarketId, Vec<i64>>,
}

#[verifier::ext_equal]
pub struct MarketsView {
    pub markets: Map<MarketId, MarketView>,
    pub accounts: Map<Address, ShareAccountView>,
    pub funds: Map<FundsKey, OutPoint>,
    pub mempool_shares: Map<MarketId, Seq<i64>>,
}

pub open spec fn markets_view(m: Map<MarketId, Market>) -> Map<MarketId, MarketView> {
    m.map_values(|market: Market| market@)
}

pub open spec fn accounts_view(m: Map<Address, ShareAccount>) -> Map<Address, ShareAccountView> {
    m.map_values(|account: ShareAccount| account@)
}

pub open spec fn shares_view(m: Map<MarketId, Vec<i64>>) -> Map<MarketId, Seq<i64>> {
    m.map_values(|shares: Vec<i64>| shares@)
}

impl View for MarketsDatabase {
    type V = MarketsView;

    open spec fn view(&self) -> MarketsView {
        MarketsView {
            markets: markets_view(self.markets@),
            accounts: accounts_view(self.share_accounts@),
            funds: self.market_funds@,
            mempool_shares: shares_view(self.mempool_shares@),
        }
    }
}

proof fn lemma_markets_view(m: Map<MarketId, Market>, k: MarketId, v: Market)
    ensures
        markets_view(m.insert(k, v)) == markets_view(m).insert(k, v@),
        markets_view(m.remove(k)) == markets_view(m).remove(k),
        markets_view(m.remove(k).insert(k, v)) == markets_view(m).insert(k, v@),
{
    assert(markets_view(m.insert(k, v)) =~= markets_view(m).insert(k, v@));
    assert(markets_view(m.remove(k)) =~= markets_view(m).remove(k));
    assert(m.remove(k).insert(k, v) =~= m.insert(k, v));
}

proof fn lemma_accounts_view(m: Map<Address, ShareAccount>, k: Address, v: ShareAccount)
    ensures
        accounts_view(m.remove(k).insert(k, v)) == accounts_view(m).insert(k, v@),
{
    assert(m.remove(k).insert(k, v) =~= m.insert(k, v));
    assert(accounts_view(m.insert(k, v)) =~= accounts_view(m).insert(k, v@));
}

/// The account of a trader, an empty one if there is none.
pub open spec fn account_of(accounts: Map<Address, ShareAccountView>, address: Address)
    -> ShareAccountView {
    if accounts.dom().contains(address) {
        accounts[address]
    } else {
        ShareAccountView::empty()
    }
}

/// The shares that the accounts hold in a position.
pub open spec fn held(rows: Seq<(Address, ShareAccountView)>, p: Position) -> int
    decreases rows.len(),
{
    if rows.len() == 0 {
        0
    } else {
        held(rows.drop_last(), p) + rows.last().1.shares(p)
    }
}

/// The accounts hold just the shares of a market.
pub open spec fn shares_accounted_for(
    accounts: Map<Address, ShareAccountView>,
    market_id: MarketId,
    shares: Seq<i64>,
) -> bool {
    &&& shares.len() <= u32::MAX
    &&& forall|o: int|
        0 <= o < shares.len() ==> #[trigger] shares[o] == held(
            rows_of(accounts),
            position(market_id, o as u32),
        )
}

/// What is wrong with the shares of a market.
pub open spec fn share_problem(view: MarketsView, market_id: MarketId) -> Option<Error> {
    if !view.markets.dom().contains(market_id) {
        Some(Error::Market(MarketError::MarketNotFound { id: market_id }))
    } else if !shares_accounted_for(view.accounts, market_id, view.markets[market_id].shares) {
        Some(Error::DatabaseError(Reason::Text("share invariant violated")))
    } else {
        None
    }
}

proof fn lemma_held_bounds(rows: Seq<(Address, ShareAccountView)>, p: Position)
    ensures
        -(rows.len() * 0x8000_0000_0000_0000) <= held(rows, p) <= rows.len()
            * 0x8000_0000_0000_0000,
    decreases rows.len(),
{
    if rows.len() > 0 {
        lemma_held_bounds(rows.drop_last(), p);
    }
}

impl MarketsDatabase {
    pub fn new() -> (r: Self)
        ensures
            r@ == (MarketsView {
                markets: Map::empty(),
                accounts: Map::empty(),
                funds: Map::empty(),
                mempool_shares: Map::empty(),
            }),
    {
        let r = MarketsDatabase {
            markets: Table::new(),
            share_accounts: Table::new(),
            market_funds: Table::new(),
            mempool_shares: Table::new(),
        };
        assert(r@.markets =~= Map::empty());
        assert(r@.accounts =~= Map::empty());
        assert(r@.mempool_shares =~= Map::empty());
        r
    }

    pub fn get_market(&self, market_id: &MarketId) -> (r: Option<&Market>)
        ensures
            match r {
                Some(market) => self@.markets.dom().contains(*market_id) && market@
                    == self@.markets[*market_id],
                None => !self@.markets.dom().contains(*market_id),
            },
    {
        self.markets.get(market_id)
    }

    /// Takes a market out, to be put back changed.
    pub fn take_market(&mut self, market_id: &MarketId) -> (r: Option<Market>)
        ensures
            final(self)@ == (MarketsView {
                markets: old(self)@.markets.remove(*market_id),
                ..old(self)@
            }),
            match r {
                Some(market) => old(self)@.markets.dom().contains(*market_id) && market@
                    == old(self)@.markets[*market_id],
                None => !old(self)@.markets.dom().contains(*market_id),
            },
    {
        let ghost m = self.markets@;
        let r = self.markets.take(market_id);
        assert(markets_view(m.remove(*market_id)) =~= markets_view(m).remove(*market_id));
        r
    }

    pub fn add_market(&mut self, market: Market)
        ensures
            final(self)@ == (MarketsView {
                markets: old(self)@.markets.insert(market@.terms.id, market@),
                ..old(self)@
            }),
    {
        let id = market.terms.id;
        proof {
            lemma_markets_view(self.markets@, id, market);
        }
        self.markets.put(id, market);
    }

    /// Puts a market back where it was taken from.
    pub fn update_market(&mut self, market_id: &MarketId, market: Market)
        ensures
            final(self)@ == (MarketsView {
                markets: old(self)@.markets.insert(*market_id, market@),
                ..old(self)@
            }),
    {
        proof {
            lemma_markets_view(self.markets@, *market_id, market);
        }
        self.markets.put(*market_id, market);
    }

    pub fn delete_market(&mut self, market_id: &MarketId) -> (r: bool)
        ensures
            r == old(self)@.markets.dom().contains(*market_id),
            final(self)@ == (MarketsView {
                markets: old(self)@.markets.remove(*market_id),
                ..old(self)@
            }),
    {
        self.take_market(market_id).is_some()
    }

    /// Where the funds of a market are.
    pub fn get_market_funds_utxo(&self, market_id: &MarketId, is_fee: bool) -> (r: Option<OutPoint>)
        ensures
            match r {
                Some(outpoint) => self@.funds.dom().contains(funds(*market_id, is_fee)) && outpoint
                    == self@.funds[funds(*market_id, is_fee)],
                None => !self@.funds.dom().contains(funds(*market_id, is_fee)),
            },
    {
        match self.market_funds.get(&(FundsKey { market_id: *market_id, is_fee })) {
            Some(outpoint) => Some(*outpoint),
            None => None,
        }
    }

    pub fn set_market_funds_utxo(
        &mut self,
        market_id: &MarketId,
        is_fee: bool,
        outpoint: &OutPoint,
    )
        ensures
            final(self)@ == (MarketsView {
                funds: old(self)@.funds.insert(funds(*market_id, is_fee), *outpoint),
                ..old(self)@
            }),
    {
        self.market_funds.put(FundsKey { market_id: *market_id, is_fee }, *outpoint);
    }

    pub fn clear_market_funds_utxo(&mut self, market_id: &MarketId, is_fee: bool)
        ensures
            final(self)@ == (MarketsView {
                funds: old(self)@.funds.remove(funds(*market_id, is_fee)),
                ..old(self)@
            }),
    {
        let _ = self.market_funds.delete(&(FundsKey { market_id: *market_id, is_fee }));
    }

    /// The shares of a trader in an outcome of a market.
    pub fn get_shares(&self, address: &Address, market_id: &MarketId, outcome_index: u32) -> (r:
        i64)
        ensures
            r == account_of(self@.accounts, *address).shares(position(*market_id, outcome_index)),
    {
        match self.share_accounts.get(address) {
            Some(account) => account.get_position(market_id, outcome_index),
            None => 0,
        }
    }

    pub fn add_shares_to_account(
        &mut self,
        address: &Address,
        market_id: MarketId,
        outcome_index: u32,
        shares: i64,
        height: u32,
    )
        requires
            i64::MIN <= account_of(old(self)@.accounts, *address).shares(
                position(market_id, outcome_index),
            ) + shares <= i64::MAX,
        ensures
            final(self)@ == (MarketsView {
                accounts: old(self)@.accounts.insert(
                    *address,
                    account_of(old(self)@.accounts, *address).added(
                        position(market_id, outcome_index),
                        shares,
                        height,
                    ),
                ),
                ..old(self)@
            }),
    {
        let ghost m = self.share_accounts@;
        let mut account = match self.share_accounts.take(address) {
            Some(account) => account,
            None => ShareAccount::new(),
        };
        assert(account@ == account_of(old(self)@.accounts, *address));
        account.add_shares(market_id, outcome_index, shares, height);
        proof {
            lemma_accounts_view(m, *address, account);
        }
        self.share_accounts.put(*address, account);
    }

    pub fn remove_shares_from_account(
        &mut self,
        address: &Address,
        market_id: &MarketId,
        outcome_index: u32,
        shares: i64,
        height: u32,
    ) -> (r: Result<(), Error>)
        requires
            account_of(old(self)@.accounts, *address).shares(position(*market_id, outcome_index))
                - shares <= i64::MAX,
        ensures
            match account_of(old(self)@.accounts, *address).removed(
                position(*market_id, outcome_index),
                shares,
                height,
            ) {
                Ok(account) => r is Ok && final(self)@ == (MarketsView {
                    accounts: old(self)@.accounts.insert(*address, account),
                    ..old(self)@
                }),
                Err(e) => r == Err::<(), Error>(Error::Market(e)) && *final(self) == *old(self),
            },
    {
        let ghost m = self.share_accounts@;
        let mut account = match self.share_accounts.get(address) {
            Some(account) => account.replica(),
            None => ShareAccount::new(),
        };
        assert(account@ == account_of(old(self)@.accounts, *address));
        match account.remove_shares(market_id, outcome_index, shares, height) {
            Err(e) => return Err(Error::Market(e)),
            Ok(()) => {},
        }
        proof {
            lemma_accounts_view(m, *address, account);
        }
        self.share_accounts.put(*address, account);
        Ok(())
    }

    fn sum_held(&self, market_id: &MarketId, outcome_index: u32) -> (r: i128)
        ensures
            r == held(rows_of(self@.accounts), position(*market_id, outcome_index)),
    {
        self.share_accounts.rows_facts();
        let ghost table = self.share_accounts.rows();
        let ghost rows = rows_of(self@.accounts);
        let ghost p = position(*market_id, outcome_index);
        proof {
            lemma_rows_mapped(table, |account: ShareAccount| account@);
        }
        let mut sum: i128 = 0;
        let mut i: usize = 0;
        let n: usize = self.share_accounts.len();
        assert(rows.subrange(0, 0) =~= Seq::empty());
        while i < n
            invariant
                i <= n == rows.len(),
                table == self.share_accounts.rows(),
                rows == rows_mapped(table, |account: ShareAccount| account@),
                p == position(*market_id, outcome_index),
                sum == held(rows.subrange(0, i as int), p),
            decreases n - i,
        {
            proof {
                assert(rows.subrange(0, i + 1).drop_last() =~= rows.subrange(0, i as int));
                lemma_held_bounds(rows.subrange(0, i as int), p);
            }
            let account = &self.share_accounts.row(i).1;
            sum = sum + account.get_position(market_id, outcome_index) as i128;
            i += 1;
        }
        assert(rows.subrange(0, i as int) =~= rows);
        sum
    }

    /// Checks that the accounts hold just the shares of a market.
    pub fn verify_share_invariant(&self, market_id: &MarketId) -> (r: Result<(), Error>)
        ensures
            share_problem(self@, *market_id) == match r {
                Ok(()) => None::<Error>,
                Err(e) => Some(e),
            },
    {
        match self.markets.get(market_id) {
            None => Err(Error::Market(MarketError::MarketNotFound { id: *market_id })),
            Some(market) => {
                let ghost rows = rows_of(self@.accounts);
                let ghost shares = self@.markets[*market_id].shares;
                let n: usize = market.shares.len();
                if n as u64 > u32::MAX as u64 {
                    return Err(Error::DatabaseError(Reason::Text("share invariant violated")));
                }
                let mut o: usize = 0;
                while o < n
                    invariant
                        o <= n == shares.len() <= u32::MAX,
                        rows == rows_of(self@.accounts),
                        self@.markets.dom().contains(*market_id),
                        shares == self@.markets[*market_id].shares,
                        shares == market.shares@,
                        forall|k: int|
                            0 <= k < o ==> #[trigger] shares[k] == held(
                                rows,
                                position(*market_id, k as u32),
                            ),
                    decreases n - o,
                {
                    if market.shares[o] as i128 != self.sum_held(market_id, o as u32) {
                        assert(shares[o as int] != held(rows, position(*market_id, o as u32)));
                        return Err(Error::DatabaseError(Reason::Text("share invariant violated")));
                    }
                    o += 1;
                }
                Ok(())
            },
        }
    }

    pub fn get_mempool_shares(&self, market_id: &MarketId) -> (r: Option<&Vec<i64>>)
        ensures
            match r {
                Some(shares) => self@.mempool_shares.dom().contains(*market_id) && shares@
                    == self@.mempool_shares[*market_id],
                None => !self@.mempool_shares.dom().contains(*market_id),
            },
    {
        self.mempool_shares.get(market_id)
    }

    pub fn put_mempool_shares(&mut self, market_id: &MarketId, shares: Vec<i64>)
        ensures
            final(self)@ == (MarketsView {
                mempool_shares: old(self)@.mempool_shares.insert(*market_id, shares@),
                ..old(self)@
            }),
    {
        proof {
            let m = self.mempool_shares@;
            assert(shares_view(m.insert(*market_id, shares)) =~= shares_view(m).insert(
                *market_id,
                shares@,
            ));
        }
        self.mempool_shares.put(*market_id, shares);
    }

    pub fn clear_mempool_shares(&mut self, market_id: &MarketId)
        ensures
            final(self)@ == (MarketsView {
                mempool_shares: old(self)@.mempool_shares.remove(*market_id),
                ..old(self)@
            }),
    {
        proof {
            let m = self.mempool_shares@;
            assert(shares_view(m.remove(*market_id)) =~= shares_view(m).remove(*market_id));
        }
        let _ = self.mempool_shares.delete(market_id);
    }
}

} // verus!
