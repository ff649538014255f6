//! What undoes the settlement of markets.

use vstd::prelude::*;

use crate::state::consolidation::{delete_all, deleted_all, restore_utxo, restored};
use crate::state::ledger::{Ledger, LedgerView, UtxoManager};
use crate::state::markets::database::{funds, FundsKey, MarketView, MarketsDatabase, MarketsView};
use crate::state::markets::types::SharePayoutRecord;
use crate::state::markets::{Market, MarketId};
use crate::state::update::{account_changed, change_account, ShareChangeKey};
use crate::state::Error;
use crate::types::transaction::output::FilledOutput;
use crate::types::transaction::OutPoint;

verus! {

/// What undoes the settlement of a market.
#[derive(Debug)]
pub struct SettlementUndoEntry {
    /// The coins that were paid out.
    pub payout_utxos: Vec<OutPoint>,
    /// The shares that were redeemed.
    pub payouts: Vec<SharePayoutRecord>,
    pub treasury_utxo: Option<(OutPoint, FilledOutput)>,
    pub fee_utxo: Option<(OutPoint, FilledOutput)>,
    pub pre_settlement_market: Market,
}

pub struct SettlementEntryView {
    pub payout_utxos: Seq<OutPoint>,
    pub payouts: Seq<SharePayoutRecord>,
    pub treasury_utxo: Option<(OutPoint, FilledOutput)>,
    pub fee_utxo: Option<(OutPoint, FilledOutput)>,
    pub market: MarketView,
}

impl View for SettlementUndoEntry {
    type V = SettlementEntryView;

    open spec fn view(&self) -> SettlementEntryView {
        SettlementEntryView {
            payout_utxos: self.payout_utxos@,
            payouts: self.payouts@,
            treasury_utxo: self.treasury_utxo,
            fee_utxo: self.fee_utxo,
            market: self.pre_settlement_market@,
        }
    }
}

/// The key of the shares that a payout redeemed.
pub open spec fn redeemed_key(payout: SharePayoutRecord) -> ShareChangeKey {
    ShareChangeKey {
        address: payout.address,
        market_id: payout.market_id,
        outcome_index: payout.outcome_index,
    }
}

/// Redeemed shares are given back.
pub open spec fn shares_given_back(
    markets: MarketsView,
    payouts: Seq<SharePayoutRecord>,
    height: u32,
) -> Result<MarketsView, Error>
    decreases payouts.len(),
{
    if payouts.len() == 0 {
        Ok(markets)
    } else {
        match shares_given_back(markets, payouts.drop_last(), height) {
            Err(e) => Err(e),
            Ok(before) => account_changed(
                before,
                redeemed_key(payouts.last()),
                payouts.last().shares_redeemed,
                height,
            ),
        }
    }
}

/// Where a coin of a market is, if there is one.
pub open spec fn pointed_at(
    map: Map<FundsKey, OutPoint>,
    m: MarketId,
    is_fee: bool,
    coin: Option<(OutPoint, FilledOutput)>,
) -> Map<FundsKey, OutPoint> {
    match coin {
        Some((outpoint, _)) => map.insert(funds(m, is_fee), outpoint),
        None => map,
    }
}

/// The ledger and the markets before a market was settled.
pub open spec fn settlement_undone(
    ledger: LedgerView,
    markets: MarketsView,
    e: SettlementEntryView,
    height: u32,
) -> Result<(LedgerView, MarketsView), Error> {
    let m = e.market.terms.id;
    match shares_given_back(markets, e.payouts, height) {
        Err(err) => Err(err),
        Ok(held) => Ok(
            (
                restored(
                    restored(deleted_all(ledger, e.payout_utxos), e.treasury_utxo),
                    e.fee_utxo,
                ),
                MarketsView {
                    funds: pointed_at(
                        pointed_at(held.funds, m, false, e.treasury_utxo),
                        m,
                        true,
                        e.fee_utxo,
                    ),
                    markets: held.markets.insert(m, e.market),
                    ..held
                },
            ),
        ),
    }
}

/// Settlements are undone, the last one first.
pub open spec fn settlements_undone(
    ledger: LedgerView,
    markets: MarketsView,
    entries: Seq<SettlementUndoEntry>,
    height: u32,
) -> Result<(LedgerView, MarketsView), Error>
    decreases entries.len(),
{
    if entries.len() == 0 {
        Ok((ledger, markets))
    } else {
        match settlement_undone(ledger, markets, entries.last()@, height) {
            Err(e) => Err(e),
            Ok((l, m)) => settlements_undone(l, m, entries.drop_last(), height),
        }
    }
}

proof fn lemma_given_back_prefix(
    markets: MarketsView,
    payouts: Seq<SharePayoutRecord>,
    height: u32,
    n: int,
)
    requires
        0 <= n <= payouts.len(),
        shares_given_back(markets, payouts.subrange(0, n), height) is Err,
    ensures
        shares_given_back(markets, payouts, height) == shares_given_back(
            markets,
            payouts.subrange(0, n),
            height,
        ),
    decreases payouts.len() - n,
{
    if n == payouts.len() {
        assert(payouts.subrange(0, n) =~= payouts);
    } else {
        assert(payouts.subrange(0, n + 1).drop_last() =~= payouts.subrange(0, n));
        lemma_given_back_prefix(markets, payouts, height, n + 1);
    }
}

fn give_shares_back(
    markets: &mut MarketsDatabase,
    payouts: &Vec<SharePayoutRecord>,
    height: u32,
) -> (r: Result<(), Error>)
    ensures
        match r {
            Ok(()) => shares_given_back(old(markets)@, payouts@, height) == Ok::<
                MarketsView,
                Error,
            >(final(markets)@),
            Err(e) => shares_given_back(old(markets)@, payouts@, height) == Err::<
                MarketsView,
                Error,
            >(e),
        },
{
    let mut i: usize = 0;
    assert(payouts@.subrange(0, 0) =~= Seq::empty());
    while i < payouts.len()
        invariant
            i <= payouts@.len(),
            shares_given_back(old(markets)@, payouts@.subrange(0, i as int), height) == Ok::<
                MarketsView,
                Error,
            >(markets@),
        decreases payouts@.len() - i,
    {
        let payout = &payouts[i];
        proof {
            assert(payouts@.subrange(0, i + 1).drop_last() =~= payouts@.subrange(0, i as int));
        }
        let key = ShareChangeKey {
            address: payout.address,
            market_id: payout.market_id,
            outcome_index: payout.outcome_index,
        };
        match change_account(markets, &key, payout.shares_redeemed, height) {
            Err(e) => {
                proof {
                    lemma_given_back_prefix(old(markets)@, payouts@, height, i + 1);
                }
                return Err(e);
            },
            Ok(()) => {},
        }
        i += 1;
    }
    assert(payouts@.subrange(0, i as int) =~= payouts@);
    Ok(())
}

/// Undoes the settlement of markets.
pub fn revert_settlement(
    ledger: &mut Ledger,
    markets: &mut MarketsDatabase,
    undo: Vec<SettlementUndoEntry>,
    block_height: u32,
) -> (r: Result<(), Error>)
    ensures
        match r {
            Ok(()) => settlements_undone(old(ledger)@, old(markets)@, undo@, block_height) == Ok::<
                (LedgerView, MarketsView),
                Error,
            >((final(ledger)@, final(markets)@)),
            Err(e) => settlements_undone(old(ledger)@, old(markets)@, undo@, block_height)
                == Err::<(LedgerView, MarketsView), Error>(e),
        },
{
    let ghost all = settlements_undone(ledger@, markets@, undo@, block_height);
    let mut rest = undo;
    while rest.len() > 0
        invariant
            all == settlements_undone(old(ledger)@, old(markets)@, undo@, block_height),
            settlements_undone(ledger@, markets@, rest@, block_height) == all,
        decreases rest@.len(),
    {
        let ghost before = rest@;
        let entry = rest.pop().unwrap();
        assert(before.drop_last() =~= rest@);
        let ghost e = entry@;
        match give_shares_back(markets, &entry.payouts, block_height) {
            Err(e) => return Err(e),
            Ok(()) => {},
        }
        delete_all(ledger, &entry.payout_utxos);
        let market_id = entry.pre_settlement_market.terms.id;
        restore_utxo(ledger, &entry.treasury_utxo);
        match &entry.treasury_utxo {
            Some((outpoint, _)) => markets.set_market_funds_utxo(&market_id, false, outpoint),
            None => {},
        }
        restore_utxo(ledger, &entry.fee_utxo);
        match &entry.fee_utxo {
            Some((outpoint, _)) => markets.set_market_funds_utxo(&market_id, true, outpoint),
            None => {},
        }
        markets.add_market(entry.pre_settlement_market);
    }
    Ok(())
}

} // verus!
