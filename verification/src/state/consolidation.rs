//! The funds of markets after the trades of a block.
//!
//! A trade moves no coin of its market by itself. Once all transactions of a
//! block are known, the treasury of each traded market, and the fees of its
//! author, are gathered into one coin each, sellers are paid, and buyers get
//! their change.

use vstd::prelude::*;

use crate::bytes::{append, empty_boxed, lemma_array_equal, lemma_empty_boxed};
use crate::state::update::StateUpdate;
use crate::state::ledger::{Ledger, LedgerView, UtxoManager};
use crate::state::markets::database::{funds, FundsKey, MarketsDatabase, MarketsView};
use crate::state::markets::MarketId;
use crate::state::{Error, Reason};
use crate::table::{rows_of, Table};
use crate::types::hashes::{blake3_hash, hash};
use crate::types::transaction::output::{
    BitcoinContent, FilledContent, FilledOutput, GetBitcoinValue,
};
use crate::types::transaction::OutPoint;
use crate::types::{Address, AmountOverflowError, Duplicate, MerkleRoot};

verus! {

/// Where the funds of a market are held. Both addresses follow from its id.
#[derive(Clone, Copy, Debug)]
pub struct FundsAddresses {
    /// Who holds the treasury.
    pub treasury: Address,
    /// Who holds the fees of the author until the market is settled.
    pub author_fee: Address,
}

/// What a seller is owed.
#[derive(Clone, Copy, Debug)]
pub struct PendingSellPayout {
    pub market_id: MarketId,
    pub seller_address: Address,
    pub payout_sats: u64,
    pub fee_sats: u64,
    pub outcome_index: u32,
    pub transaction_id: [u8; 32],
}

/// What a buyer, or an author who adds liquidity, has paid.
#[derive(Clone, Copy, Debug)]
pub struct PendingBuySettlement {
    pub market_id: MarketId,
    pub trader_address: Address,
    pub input_value_sats: u64,
    pub lmsr_cost_sats: u64,
    pub market_fee_sats: u64,
    pub transaction_id: [u8; 32],
    pub is_amplify: bool,
}

/// What a seller gets back of the coins that paid for the transaction.
#[derive(Clone, Copy, Debug)]
pub struct InputChange {
    pub address: Address,
    pub change_sats: u64,
    pub transaction_id: [u8; 32],
}

/// The merkle root with these bytes.
pub open spec fn root_of(bytes: Seq<u8>) -> MerkleRoot {
    choose|root: MerkleRoot| root.0@ == bytes
}

/// The outpoint that the hash of some bytes names.
pub open spec fn point_of(bytes: Seq<u8>) -> OutPoint {
    OutPoint::Payout { hash: root_of(blake3_hash(bytes)), vout: 0 }
}

/// `SELL_PAYOUT` in ASCII.
pub open spec fn sell_payout_label() -> Seq<u8> {
    seq![83, 69, 76, 76, 95, 80, 65, 89, 79, 85, 84]
}

/// `BUY_CHANGE` in ASCII.
pub open spec fn buy_change_label() -> Seq<u8> {
    seq![66, 85, 89, 95, 67, 72, 65, 78, 71, 69]
}

/// `SELL_INPUT_CHANGE` in ASCII.
pub open spec fn sell_input_change_label() -> Seq<u8> {
    seq![83, 69, 76, 76, 95, 73, 78, 80, 85, 84, 95, 67, 72, 65, 78, 71, 69]
}

pub open spec fn sell_payout_point(
    market_id: MarketId,
    address: Address,
    transaction_id: [u8; 32],
) -> OutPoint {
    point_of(sell_payout_label() + market_id.0@ + address.0@ + transaction_id@)
}

pub open spec fn buy_change_point(
    market_id: MarketId,
    address: Address,
    transaction_id: [u8; 32],
) -> OutPoint {
    point_of(buy_change_label() + market_id.0@ + address.0@ + transaction_id@)
}

pub open spec fn sell_input_change_point(address: Address, transaction_id: [u8; 32]) -> OutPoint {
    point_of(sell_input_change_label() + address.0@ + transaction_id@)
}

fn point_from(bytes: &Vec<u8>) -> (r: OutPoint)
    ensures
        r == point_of(bytes@),
{
    let root = MerkleRoot(hash(bytes.as_slice()));
    proof {
        let other = root_of(blake3_hash(bytes@));
        assert(other.0@ == root.0@);
        lemma_array_equal(other.0, root.0);
    }
    OutPoint::Payout { hash: root, vout: 0 }
}

impl StateUpdate {
    /// The coin that pays a seller.
    pub fn generate_sell_payout_outpoint(
        market_id: &MarketId,
        seller_address: &Address,
        transaction_id: [u8; 32],
    ) -> (r: OutPoint)
        ensures
            r == sell_payout_point(*market_id, *seller_address, transaction_id),
    {
        let mut bytes: Vec<u8> = vec![83u8, 69, 76, 76, 95, 80, 65, 89, 79, 85, 84];
        assert(bytes@ =~= sell_payout_label());
        append(&mut bytes, market_id.0.as_slice());
        append(&mut bytes, seller_address.0.as_slice());
        append(&mut bytes, transaction_id.as_slice());
        point_from(&bytes)
    }

    /// The coin that a buyer gets back.
    pub fn generate_buy_change_outpoint(
        market_id: &MarketId,
        trader_address: &Address,
        transaction_id: [u8; 32],
    ) -> (r: OutPoint)
        ensures
            r == buy_change_point(*market_id, *trader_address, transaction_id),
    {
        let mut bytes: Vec<u8> = vec![66u8, 85, 89, 95, 67, 72, 65, 78, 71, 69];
        assert(bytes@ =~= buy_change_label());
        append(&mut bytes, market_id.0.as_slice());
        append(&mut bytes, trader_address.0.as_slice());
        append(&mut bytes, transaction_id.as_slice());
        point_from(&bytes)
    }

    /// The coin that a seller gets back.
    pub fn generate_sell_input_change_outpoint(trader_address: &Address, transaction_id: [u8; 32]) -> (r:
        OutPoint)
        ensures
            r == sell_input_change_point(*trader_address, transaction_id),
    {
        let mut bytes: Vec<u8> = vec![
            83u8, 69, 76, 76, 95, 73, 78, 80, 85, 84, 95, 67, 72, 65, 78, 71, 69,
        ];
        assert(bytes@ =~= sell_input_change_label());
        append(&mut bytes, trader_address.0.as_slice());
        append(&mut bytes, transaction_id.as_slice());
        point_from(&bytes)
    }
}

/// An output without a memo.
pub open spec fn plain(address: Address, content: FilledContent) -> FilledOutput {
    FilledOutput { address, content, memo: empty_boxed() }
}

/// A coin of an owner.
pub open spec fn coin(address: Address, sats: u64) -> FilledOutput {
    plain(address, FilledContent::Bitcoin(BitcoinContent(sats)))
}

/// A coin of a market.
pub open spec fn market_coin(address: Address, market_id: MarketId, sats: u64, is_fee: bool)
    -> FilledOutput {
    plain(
        address,
        FilledContent::MarketFunds {
            market_id: market_id.0,
            amount: BitcoinContent(sats),
            is_fee,
        },
    )
}

/// The place of a coin of a market that a block makes.
pub open spec fn funds_point(market_id: MarketId, height: u32, is_fee: bool) -> OutPoint {
    OutPoint::MarketFunds { market_id: market_id.0, block_height: height, is_fee }
}

proof fn lemma_plain(output: FilledOutput, address: Address, content: FilledContent)
    requires
        output.is_plain(address, content),
    ensures
        output == plain(address, content),
{
    lemma_empty_boxed(output.memo);
}

fn new_plain(address: Address, content: FilledContent) -> (r: FilledOutput)
    ensures
        r == plain(address, content),
{
    let r = FilledOutput::new(address, content);
    proof {
        lemma_plain(r, address, content);
    }
    r
}

/// The cost of what was bought in a market.
pub open spec fn costs(buys: Seq<PendingBuySettlement>, m: MarketId) -> int
    decreases buys.len(),
{
    if buys.len() == 0 {
        0
    } else {
        costs(buys.drop_last(), m) + if buys.last().market_id == m {
            buys.last().lmsr_cost_sats as int
        } else {
            0
        }
    }
}

/// The fees on what was bought in a market.
pub open spec fn buy_fees(buys: Seq<PendingBuySettlement>, m: MarketId) -> int
    decreases buys.len(),
{
    if buys.len() == 0 {
        0
    } else {
        buy_fees(buys.drop_last(), m) + if buys.last().market_id == m {
            buys.last().market_fee_sats as int
        } else {
            0
        }
    }
}

/// What the sellers of a market are owed.
pub open spec fn payouts(sells: Seq<PendingSellPayout>, m: MarketId) -> int
    decreases sells.len(),
{
    if sells.len() == 0 {
        0
    } else {
        payouts(sells.drop_last(), m) + if sells.last().market_id == m {
            sells.last().payout_sats as int
        } else {
            0
        }
    }
}

/// The fees on what was sold in a market.
pub open spec fn sell_fees(sells: Seq<PendingSellPayout>, m: MarketId) -> int
    decreases sells.len(),
{
    if sells.len() == 0 {
        0
    } else {
        sell_fees(sells.drop_last(), m) + if sells.last().market_id == m {
            sells.last().fee_sats as int
        } else {
            0
        }
    }
}

pub open spec fn sells_in(sells: Seq<PendingSellPayout>, m: MarketId) -> bool {
    exists|i: int| 0 <= i < sells.len() && (#[trigger] sells[i]).market_id == m
}

pub proof fn lemma_buy_sums(buys: Seq<PendingBuySettlement>, m: MarketId)
    ensures
        0 <= costs(buys, m) <= buys.len() * 0xffff_ffff_ffff_ffff,
        0 <= buy_fees(buys, m) <= buys.len() * 0xffff_ffff_ffff_ffff,
    decreases buys.len(),
{
    if buys.len() > 0 {
        lemma_buy_sums(buys.drop_last(), m);
    }
}

pub proof fn lemma_sell_sums(sells: Seq<PendingSellPayout>, m: MarketId)
    ensures
        0 <= payouts(sells, m) <= sells.len() * 0xffff_ffff_ffff_ffff,
        0 <= sell_fees(sells, m) <= sells.len() * 0xffff_ffff_ffff_ffff,
    decreases sells.len(),
{
    if sells.len() > 0 {
        lemma_sell_sums(sells.drop_last(), m);
    }
}

/// The costs and the fees of what was bought in a market.
fn sum_buys(buys: &Vec<PendingBuySettlement>, m: &MarketId) -> (r: (u128, u128))
    ensures
        r.0 == costs(buys@, *m),
        r.1 == buy_fees(buys@, *m),
{
    let mut cost: u128 = 0;
    let mut fee: u128 = 0;
    let mut i: usize = 0;
    assert(buys@.subrange(0, 0) =~= Seq::empty());
    while i < buys.len()
        invariant
            i <= buys@.len(),
            cost == costs(buys@.subrange(0, i as int), *m),
            fee == buy_fees(buys@.subrange(0, i as int), *m),
        decreases buys@.len() - i,
    {
        proof {
            assert(buys@.subrange(0, i + 1).drop_last() =~= buys@.subrange(0, i as int));
            lemma_buy_sums(buys@.subrange(0, i as int), *m);
        }
        if buys[i].market_id == *m {
            cost = cost + buys[i].lmsr_cost_sats as u128;
            fee = fee + buys[i].market_fee_sats as u128;
        }
        i += 1;
    }
    assert(buys@.subrange(0, i as int) =~= buys@);
    (cost, fee)
}

/// The payouts and the fees of what was sold in a market, and whether
/// anything was.
fn sum_sells(sells: &Vec<PendingSellPayout>, m: &MarketId) -> (r: (u128, u128, bool))
    ensures
        r.0 == payouts(sells@, *m),
        r.1 == sell_fees(sells@, *m),
        r.2 == sells_in(sells@, *m),
{
    let mut paid: u128 = 0;
    let mut fee: u128 = 0;
    let mut any = false;
    let mut i: usize = 0;
    assert(sells@.subrange(0, 0) =~= Seq::empty());
    while i < sells.len()
        invariant
            i <= sells@.len(),
            paid == payouts(sells@.subrange(0, i as int), *m),
            fee == sell_fees(sells@.subrange(0, i as int), *m),
            any <==> exists|j: int| 0 <= j < i && (#[trigger] sells@[j]).market_id == *m,
        decreases sells@.len() - i,
    {
        proof {
            assert(sells@.subrange(0, i + 1).drop_last() =~= sells@.subrange(0, i as int));
            lemma_sell_sums(sells@.subrange(0, i as int), *m);
        }
        if sells[i].market_id == *m {
            assert(sells@[i as int].market_id == *m);
            paid = paid + sells[i].payout_sats as u128;
            fee = fee + sells[i].fee_sats as u128;
            any = true;
        }
        i += 1;
    }
    assert(sells@.subrange(0, i as int) =~= sells@);
    (paid, fee, any)
}

/// The trades of a block.
pub struct BlockTrades {
    pub sells: Seq<PendingSellPayout>,
    pub buys: Seq<PendingBuySettlement>,
    pub height: u32,
    /// What the miner gets for each trade.
    pub miner_fee: u64,
}

/// The ledger, and where the funds of markets are.
pub struct Holdings {
    pub ledger: LedgerView,
    pub funds: Map<FundsKey, OutPoint>,
}

/// The ledger after the sellers of a market are paid.
pub open spec fn sellers_paid(ledger: LedgerView, sells: Seq<PendingSellPayout>, m: MarketId)
    -> LedgerView
    decreases sells.len(),
{
    if sells.len() == 0 {
        ledger
    } else {
        let before = sellers_paid(ledger, sells.drop_last(), m);
        let sell = sells.last();
        if sell.market_id == m {
            before.insert(
                sell_payout_point(m, sell.seller_address, sell.transaction_id),
                coin(sell.seller_address, sell.payout_sats),
            )
        } else {
            before
        }
    }
}

/// The coins that the sellers of a market get.
pub open spec fn payout_points(sells: Seq<PendingSellPayout>, m: MarketId) -> Seq<OutPoint>
    decreases sells.len(),
{
    if sells.len() == 0 {
        Seq::empty()
    } else {
        let before = payout_points(sells.drop_last(), m);
        let sell = sells.last();
        if sell.market_id == m {
            before.push(sell_payout_point(m, sell.seller_address, sell.transaction_id))
        } else {
            before
        }
    }
}

/// What a buyer gets back.
pub open spec fn change_of(buy: PendingBuySettlement, miner_fee: u64) -> int {
    buy.input_value_sats - miner_fee - buy.lmsr_cost_sats - buy.market_fee_sats
}

/// The ledger after the buyers of a market have got their change.
pub open spec fn buyers_paid(
    ledger: LedgerView,
    buys: Seq<PendingBuySettlement>,
    m: MarketId,
    miner_fee: u64,
) -> Result<LedgerView, Error>
    decreases buys.len(),
{
    if buys.len() == 0 {
        Ok(ledger)
    } else {
        match buyers_paid(ledger, buys.drop_last(), m, miner_fee) {
            Err(e) => Err(e),
            Ok(before) => {
                let buy = buys.last();
                if buy.market_id != m {
                    Ok(before)
                } else if change_of(buy, miner_fee) < 0 {
                    Err(Error::InvalidTransaction { reason: Reason::BuyChangeUnderflow {
                        input_sats: buy.input_value_sats,
                        miner_fee_sats: miner_fee,
                        cost_sats: buy.lmsr_cost_sats,
                        market_fee_sats: buy.market_fee_sats,
                    } })
                } else if change_of(buy, miner_fee) == 0 {
                    Ok(before)
                } else {
                    Ok(
                        before.insert(
                            buy_change_point(m, buy.trader_address, buy.transaction_id),
                            coin(buy.trader_address, change_of(buy, miner_fee) as u64),
                        ),
                    )
                }
            },
        }
    }
}

/// The coins that the buyers of a market get back.
pub open spec fn change_points(buys: Seq<PendingBuySettlement>, m: MarketId, miner_fee: u64) -> Seq<
    OutPoint,
>
    decreases buys.len(),
{
    if buys.len() == 0 {
        Seq::empty()
    } else {
        let before = change_points(buys.drop_last(), m, miner_fee);
        let buy = buys.last();
        if buy.market_id == m && change_of(buy, miner_fee) > 0 {
            before.push(buy_change_point(m, buy.trader_address, buy.transaction_id))
        } else {
            before
        }
    }
}

proof fn lemma_buyers_prefix(
    ledger: LedgerView,
    buys: Seq<PendingBuySettlement>,
    m: MarketId,
    miner_fee: u64,
    n: int,
)
    requires
        0 <= n <= buys.len(),
        buyers_paid(ledger, buys.subrange(0, n), m, miner_fee) is Err,
    ensures
        buyers_paid(ledger, buys, m, miner_fee) == buyers_paid(
            ledger,
            buys.subrange(0, n),
            m,
            miner_fee,
        ),
    decreases buys.len() - n,
{
    if n == buys.len() {
        assert(buys.subrange(0, n) =~= buys);
    } else {
        assert(buys.subrange(0, n + 1).drop_last() =~= buys.subrange(0, n));
        lemma_buyers_prefix(ledger, buys, m, miner_fee, n + 1);
    }
}

fn pay_sellers(ledger: &mut Ledger, sells: &Vec<PendingSellPayout>, m: &MarketId) -> (r: Vec<
    OutPoint,
>)
    ensures
        final(ledger)@ == sellers_paid(old(ledger)@, sells@, *m),
        r@ == payout_points(sells@, *m),
{
    let ghost before = ledger@;
    let mut points: Vec<OutPoint> = Vec::new();
    let mut i: usize = 0;
    assert(sells@.subrange(0, 0) =~= Seq::empty());
    while i < sells.len()
        invariant
            i <= sells@.len(),
            ledger@ == sellers_paid(before, sells@.subrange(0, i as int), *m),
            points@ == payout_points(sells@.subrange(0, i as int), *m),
        decreases sells@.len() - i,
    {
        proof {
            assert(sells@.subrange(0, i + 1).drop_last() =~= sells@.subrange(0, i as int));
        }
        let sell = &sells[i];
        if sell.market_id == *m {
            let point = StateUpdate::generate_sell_payout_outpoint(m, &sell.seller_address, sell.transaction_id);
            let output = new_plain(
                sell.seller_address,
                FilledContent::Bitcoin(BitcoinContent(sell.payout_sats)),
            );
            ledger.insert_utxo(&point, &output);
            points.push(point);
        }
        i += 1;
    }
    assert(sells@.subrange(0, i as int) =~= sells@);
    points
}

fn pay_buyers(
    ledger: &mut Ledger,
    buys: &Vec<PendingBuySettlement>,
    m: &MarketId,
    miner_fee: u64,
) -> (r: Result<Vec<OutPoint>, Error>)
    ensures
        match r {
            Ok(points) => {
                &&& buyers_paid(old(ledger)@, buys@, *m, miner_fee) == Ok::<LedgerView, Error>(
                    final(ledger)@,
                )
                &&& points@ == change_points(buys@, *m, miner_fee)
            },
            Err(e) => buyers_paid(old(ledger)@, buys@, *m, miner_fee) == Err::<LedgerView, Error>(
                e,
            ),
        },
{
    let ghost before = ledger@;
    let mut points: Vec<OutPoint> = Vec::new();
    let mut i: usize = 0;
    assert(buys@.subrange(0, 0) =~= Seq::empty());
    while i < buys.len()
        invariant
            i <= buys@.len(),
            before == old(ledger)@,
            buyers_paid(before, buys@.subrange(0, i as int), *m, miner_fee) == Ok::<
                LedgerView,
                Error,
            >(ledger@),
            points@ == change_points(buys@.subrange(0, i as int), *m, miner_fee),
        decreases buys@.len() - i,
    {
        proof {
            assert(buys@.subrange(0, i + 1).drop_last() =~= buys@.subrange(0, i as int));
        }
        let buy = &buys[i];
        if buy.market_id == *m {
            let change: i128 = buy.input_value_sats as i128 - miner_fee as i128
                - buy.lmsr_cost_sats as i128 - buy.market_fee_sats as i128;
            if change < 0 {
                proof {
                    lemma_buyers_prefix(before, buys@, *m, miner_fee, i + 1);
                }
                return Err(Error::InvalidTransaction { reason: Reason::BuyChangeUnderflow {
                        input_sats: buy.input_value_sats,
                        miner_fee_sats: miner_fee,
                        cost_sats: buy.lmsr_cost_sats,
                        market_fee_sats: buy.market_fee_sats,
                    } });
            }
            if change > 0 {
                let point = StateUpdate::generate_buy_change_outpoint(
                    m,
                    &buy.trader_address,
                    buy.transaction_id,
                );
                let output = new_plain(
                    buy.trader_address,
                    FilledContent::Bitcoin(BitcoinContent(change as u64)),
                );
                ledger.insert_utxo(&point, &output);
                points.push(point);
            }
        }
        i += 1;
    }
    assert(buys@.subrange(0, i as int) =~= buys@);
    Ok(points)
}

/// What undoes the consolidation of the funds of a market.
#[derive(Debug)]
pub struct ConsolidationUndoEntry {
    pub market_id: MarketId,
    pub old_treasury_utxo: Option<(OutPoint, FilledOutput)>,
    pub old_fee_utxo: Option<(OutPoint, FilledOutput)>,
    pub old_treasury_pointer: Option<OutPoint>,
    pub old_fee_pointer: Option<OutPoint>,
    pub new_treasury_utxo: Option<OutPoint>,
    pub new_fee_utxo: Option<OutPoint>,
    pub sell_payout_utxos: Vec<OutPoint>,
    pub buy_change_utxos: Vec<OutPoint>,
}

#[verifier::ext_equal]
pub struct EntryView {
    pub market_id: MarketId,
    pub old_treasury_utxo: Option<(OutPoint, FilledOutput)>,
    pub old_fee_utxo: Option<(OutPoint, FilledOutput)>,
    pub old_treasury_pointer: Option<OutPoint>,
    pub old_fee_pointer: Option<OutPoint>,
    pub new_treasury_utxo: Option<OutPoint>,
    pub new_fee_utxo: Option<OutPoint>,
    pub sell_payout_utxos: Seq<OutPoint>,
    pub buy_change_utxos: Seq<OutPoint>,
}

impl View for ConsolidationUndoEntry {
    type V = EntryView;

    open spec fn view(&self) -> EntryView {
        EntryView {
            market_id: self.market_id,
            old_treasury_utxo: self.old_treasury_utxo,
            old_fee_utxo: self.old_fee_utxo,
            old_treasury_pointer: self.old_treasury_pointer,
            old_fee_pointer: self.old_fee_pointer,
            new_treasury_utxo: self.new_treasury_utxo,
            new_fee_utxo: self.new_fee_utxo,
            sell_payout_utxos: self.sell_payout_utxos@,
            buy_change_utxos: self.buy_change_utxos@,
        }
    }
}

/// Where the funds of a market are said to be.
pub open spec fn pointer(at: Holdings, m: MarketId, is_fee: bool) -> Option<OutPoint> {
    if at.funds.dom().contains(funds(m, is_fee)) {
        Some(at.funds[funds(m, is_fee)])
    } else {
        None
    }
}

/// The coin of a market.
pub open spec fn held_coin(at: Holdings, m: MarketId, is_fee: bool) -> Option<
    (OutPoint, FilledOutput),
> {
    match pointer(at, m, is_fee) {
        Some(outpoint) => if at.ledger.utxos.dom().contains(outpoint) {
            Some((outpoint, at.ledger.utxos[outpoint]))
        } else {
            None
        },
        None => None,
    }
}

pub open spec fn value_of(coin: Option<(OutPoint, FilledOutput)>) -> int {
    match coin {
        Some((_, output)) => output.bitcoin_value() as int,
        None => 0,
    }
}

/// The treasury of a market with what was bought.
pub open spec fn treasury_total(at: Holdings, m: MarketId, t: BlockTrades) -> int {
    value_of(held_coin(at, m, false)) + costs(t.buys, m)
}

/// The fees of a market with those of the block.
pub open spec fn fee_total(at: Holdings, m: MarketId, t: BlockTrades) -> int {
    value_of(held_coin(at, m, true)) + buy_fees(t.buys, m) + sell_fees(t.sells, m)
}

/// What the sellers take out of the treasury, fees and all.
pub open spec fn sell_gross(m: MarketId, t: BlockTrades) -> int {
    payouts(t.sells, m) + sell_fees(t.sells, m)
}

/// Without the old coin of a market.
pub open spec fn without_coin(
    at: Holdings,
    m: MarketId,
    is_fee: bool,
    coin: Option<(OutPoint, FilledOutput)>,
) -> Holdings {
    Holdings {
        ledger: match coin {
            Some((outpoint, _)) => at.ledger.delete(outpoint),
            None => at.ledger,
        },
        funds: at.funds.remove(funds(m, is_fee)),
    }
}

/// With a new coin of a market.
pub open spec fn with_coin(
    at: Holdings,
    address: Address,
    m: MarketId,
    height: u32,
    sats: u64,
    is_fee: bool,
) -> Holdings {
    Holdings {
        ledger: at.ledger.insert(
            funds_point(m, height, is_fee),
            market_coin(address, m, sats, is_fee),
        ),
        funds: at.funds.insert(funds(m, is_fee), funds_point(m, height, is_fee)),
    }
}

/// The treasury of a market is gathered, and its traders are paid.
pub open spec fn treasury_gathered(at: Holdings, address: Address, m: MarketId, t: BlockTrades)
    -> Result<Holdings, Error> {
    let total = treasury_total(at, m, t);
    if total == 0 && !sells_in(t.sells, m) {
        Ok(at)
    } else {
        let emptied = without_coin(at, m, false, held_coin(at, m, false));
        match buyers_paid(sellers_paid(emptied.ledger, t.sells, m), t.buys, m, t.miner_fee) {
            Err(e) => Err(e),
            Ok(ledger) => {
                let paid = Holdings { ledger, ..emptied };
                let rest = total - sell_gross(m, t);
                if rest > 0 {
                    Ok(with_coin(paid, address, m, t.height, rest as u64, false))
                } else {
                    Ok(paid)
                }
            },
        }
    }
}

/// The fees of a market are gathered: `total` sats in all, of which some may
/// be in an old coin.
pub open spec fn fees_gathered(
    at: Holdings,
    address: Address,
    m: MarketId,
    height: u32,
    total: int,
    coin: Option<(OutPoint, FilledOutput)>,
) -> Holdings {
    if total == 0 {
        at
    } else {
        with_coin(without_coin(at, m, true, coin), address, m, height, total as u64, true)
    }
}

/// What undoes the consolidation of a market.
pub open spec fn entry_of(at: Holdings, m: MarketId, t: BlockTrades) -> EntryView {
    let total = treasury_total(at, m, t);
    let traded = total > 0 || sells_in(t.sells, m);
    EntryView {
        market_id: m,
        old_treasury_utxo: held_coin(at, m, false),
        old_fee_utxo: held_coin(at, m, true),
        old_treasury_pointer: pointer(at, m, false),
        old_fee_pointer: pointer(at, m, true),
        new_treasury_utxo: if total - sell_gross(m, t) > 0 {
            Some(funds_point(m, t.height, false))
        } else {
            None
        },
        new_fee_utxo: if fee_total(at, m, t) > 0 {
            Some(funds_point(m, t.height, true))
        } else {
            None
        },
        sell_payout_utxos: payout_points(t.sells, m),
        buy_change_utxos: if traded {
            change_points(t.buys, m, t.miner_fee)
        } else {
            Seq::empty()
        },
    }
}

/// That a treasury cannot pay the sellers.
pub open spec fn treasury_shortfall(at: Holdings, m: MarketId, t: BlockTrades) -> Reason {
    Reason::TreasuryUnderflow {
        gross_sats: sell_gross(m, t) as u64,
        payouts_sats: payouts(t.sells, m) as u64,
        fees_sats: sell_fees(t.sells, m) as u64,
        treasury_sats: treasury_total(at, m, t) as u64,
        market_id: m,
    }
}

/// The funds of one market are gathered. Sums past 64 bits are refused.
pub open spec fn market_gathered(
    at: Holdings,
    addresses: Map<MarketId, FundsAddresses>,
    m: MarketId,
    t: BlockTrades,
) -> Result<Holdings, Error> {
    let total = treasury_total(at, m, t);
    let fees = fee_total(at, m, t);
    if total > u64::MAX || fees > u64::MAX || sell_gross(m, t) > u64::MAX {
        Err(Error::AmountOverflow(AmountOverflowError))
    } else if sell_gross(m, t) > total {
        Err(Error::InvalidTransaction { reason: treasury_shortfall(at, m, t) })
    } else {
        match treasury_gathered(at, addresses[m].treasury, m, t) {
            Err(e) => Err(e),
            Ok(next) => Ok(
                fees_gathered(
                    next,
                    addresses[m].author_fee,
                    m,
                    t.height,
                    fees,
                    held_coin(at, m, true),
                ),
            ),
        }
    }
}

/// The markets that were sold in.
pub open spec fn sold_in(sells: Seq<PendingSellPayout>) -> Map<MarketId, ()>
    decreases sells.len(),
{
    if sells.len() == 0 {
        Map::empty()
    } else {
        sold_in(sells.drop_last()).insert(sells.last().market_id, ())
    }
}

/// Those markets, and the markets that were bought in.
pub open spec fn traded_in(sold: Map<MarketId, ()>, buys: Seq<PendingBuySettlement>) -> Map<
    MarketId,
    (),
>
    decreases buys.len(),
{
    if buys.len() == 0 {
        sold
    } else {
        traded_in(sold, buys.drop_last()).insert(buys.last().market_id, ())
    }
}

/// It is known where the funds of all traded markets are held.
pub open spec fn covers(
    addresses: Map<MarketId, FundsAddresses>,
    sells: Seq<PendingSellPayout>,
    buys: Seq<PendingBuySettlement>,
) -> bool {
    forall|m: MarketId| #[trigger]
        traded_in(sold_in(sells), buys).dom().contains(m) ==> addresses.dom().contains(m)
}

/// The markets to consolidate, in ascending order.
pub open spec fn markets_due(t: BlockTrades) -> Seq<(MarketId, ())> {
    rows_of(traded_in(sold_in(t.sells), t.buys))
}

/// The funds of markets are gathered, one market after the other.
pub open spec fn markets_gathered(
    at: Holdings,
    addresses: Map<MarketId, FundsAddresses>,
    due: Seq<(MarketId, ())>,
    t: BlockTrades,
) -> Result<(Holdings, Seq<EntryView>), Error>
    decreases due.len(),
{
    if due.len() == 0 {
        Ok((at, Seq::empty()))
    } else {
        match markets_gathered(at, addresses, due.drop_last(), t) {
            Err(e) => Err(e),
            Ok((before, entries)) => match market_gathered(before, addresses, due.last().0, t) {
                Err(e) => Err(e),
                Ok(after) => Ok((after, entries.push(entry_of(before, due.last().0, t)))),
            },
        }
    }
}

proof fn lemma_markets_prefix(
    at: Holdings,
    addresses: Map<MarketId, FundsAddresses>,
    due: Seq<(MarketId, ())>,
    t: BlockTrades,
    n: int,
)
    requires
        0 <= n <= due.len(),
        markets_gathered(at, addresses, due.subrange(0, n), t) is Err,
    ensures
        markets_gathered(at, addresses, due, t) == markets_gathered(
            at,
            addresses,
            due.subrange(0, n),
            t,
        ),
    decreases due.len() - n,
{
    if n == due.len() {
        assert(due.subrange(0, n) =~= due);
    } else {
        assert(due.subrange(0, n + 1).drop_last() =~= due.subrange(0, n));
        lemma_markets_prefix(at, addresses, due, t, n + 1);
    }
}

/// The ledger after sellers have got their coins back.
pub open spec fn inputs_returned(ledger: LedgerView, changes: Seq<InputChange>) -> LedgerView
    decreases changes.len(),
{
    if changes.len() == 0 {
        ledger
    } else {
        let before = inputs_returned(ledger, changes.drop_last());
        let change = changes.last();
        if change.change_sats > 0 {
            before.insert(
                sell_input_change_point(change.address, change.transaction_id),
                coin(change.address, change.change_sats),
            )
        } else {
            before
        }
    }
}

/// The coins that sellers get back.
pub open spec fn returned_points(changes: Seq<InputChange>) -> Seq<OutPoint>
    decreases changes.len(),
{
    if changes.len() == 0 {
        Seq::empty()
    } else {
        let before = returned_points(changes.drop_last());
        let change = changes.last();
        if change.change_sats > 0 {
            before.push(sell_input_change_point(change.address, change.transaction_id))
        } else {
            before
        }
    }
}

/// What undoes the consolidation of a block.
#[derive(Debug)]
pub struct ConsolidationUndoData {
    pub entries: Vec<ConsolidationUndoEntry>,
    pub sell_input_change_utxos: Vec<OutPoint>,
}

#[verifier::ext_equal]
pub struct ConsolidationUndoView {
    pub entries: Seq<EntryView>,
    pub sell_input_change_utxos: Seq<OutPoint>,
}

pub open spec fn entries_view(entries: Seq<ConsolidationUndoEntry>) -> Seq<EntryView> {
    Seq::new(entries.len(), |i: int| entries[i]@)
}

impl View for ConsolidationUndoData {
    type V = ConsolidationUndoView;

    open spec fn view(&self) -> ConsolidationUndoView {
        ConsolidationUndoView {
            entries: entries_view(self.entries@),
            sell_input_change_utxos: self.sell_input_change_utxos@,
        }
    }
}

/// The funds of all traded markets are gathered.
pub open spec fn consolidated(
    at: Holdings,
    addresses: Map<MarketId, FundsAddresses>,
    t: BlockTrades,
    changes: Seq<InputChange>,
) -> Result<(Holdings, Option<ConsolidationUndoView>), Error> {
    if markets_due(t).len() == 0 && changes.len() == 0 {
        Ok((at, None))
    } else {
        match markets_gathered(at, addresses, markets_due(t), t) {
            Err(e) => Err(e),
            Ok((next, entries)) => Ok(
                (
                    Holdings { ledger: inputs_returned(next.ledger, changes), ..next },
                    Some(
                        ConsolidationUndoView {
                            entries,
                            sell_input_change_utxos: returned_points(changes),
                        },
                    ),
                ),
            ),
        }
    }
}

/// The ledger, and where the markets say that their funds are.
pub open spec fn holdings(ledger: LedgerView, markets: MarketsView) -> Holdings {
    Holdings { ledger, funds: markets.funds }
}

fn return_inputs(ledger: &mut Ledger, changes: &Vec<InputChange>) -> (r: Vec<OutPoint>)
    ensures
        final(ledger)@ == inputs_returned(old(ledger)@, changes@),
        r@ == returned_points(changes@),
{
    let ghost before = ledger@;
    let mut points: Vec<OutPoint> = Vec::new();
    let mut i: usize = 0;
    assert(changes@.subrange(0, 0) =~= Seq::empty());
    while i < changes.len()
        invariant
            i <= changes@.len(),
            ledger@ == inputs_returned(before, changes@.subrange(0, i as int)),
            points@ == returned_points(changes@.subrange(0, i as int)),
        decreases changes@.len() - i,
    {
        proof {
            assert(changes@.subrange(0, i + 1).drop_last() =~= changes@.subrange(0, i as int));
        }
        let change = &changes[i];
        if change.change_sats > 0 {
            let point = StateUpdate::generate_sell_input_change_outpoint(&change.address, change.transaction_id);
            let output = new_plain(
                change.address,
                FilledContent::Bitcoin(BitcoinContent(change.change_sats)),
            );
            ledger.insert_utxo(&point, &output);
            points.push(point);
        }
        i += 1;
    }
    assert(changes@.subrange(0, i as int) =~= changes@);
    points
}

fn list_markets(sells: &Vec<PendingSellPayout>, buys: &Vec<PendingBuySettlement>) -> (r: Table<
    MarketId,
    (),
>)
    ensures
        r@ == traded_in(sold_in(sells@), buys@),
{
    let mut r: Table<MarketId, ()> = Table::new();
    let mut i: usize = 0;
    assert(sells@.subrange(0, 0) =~= Seq::empty());
    while i < sells.len()
        invariant
            i <= sells@.len(),
            r@ == sold_in(sells@.subrange(0, i as int)),
        decreases sells@.len() - i,
    {
        assert(sells@.subrange(0, i + 1).drop_last() =~= sells@.subrange(0, i as int));
        r.put(sells[i].market_id, ());
        i += 1;
    }
    assert(sells@.subrange(0, i as int) =~= sells@);
    let mut j: usize = 0;
    assert(buys@.subrange(0, 0) =~= Seq::empty());
    while j < buys.len()
        invariant
            j <= buys@.len(),
            r@ == traded_in(sold_in(sells@), buys@.subrange(0, j as int)),
        decreases buys@.len() - j,
    {
        assert(buys@.subrange(0, j + 1).drop_last() =~= buys@.subrange(0, j as int));
        r.put(buys[j].market_id, ());
        j += 1;
    }
    assert(buys@.subrange(0, j as int) =~= buys@);
    r
}

/// The coin of a market, and where it is said to be.
fn find_coin(ledger: &Ledger, markets: &MarketsDatabase, m: &MarketId, is_fee: bool) -> (r: (
    Option<OutPoint>,
    Option<(OutPoint, FilledOutput)>,
    u64,
))
    ensures
        r.0 == pointer(holdings(ledger@, markets@), *m, is_fee),
        r.1 == held_coin(holdings(ledger@, markets@), *m, is_fee),
        r.2 == value_of(r.1),
{
    match markets.get_market_funds_utxo(m, is_fee) {
        None => (None, None, 0),
        Some(outpoint) => match ledger.utxos.get(&outpoint) {
            None => (Some(outpoint), None, 0),
            Some(output) => {
                let value: u64 = output.get_bitcoin_value();
                (Some(outpoint), Some((outpoint, output.duplicate())), value)
            },
        },
    }
}

fn remove_coin(
    ledger: &mut Ledger,
    markets: &mut MarketsDatabase,
    m: &MarketId,
    is_fee: bool,
    coin: &Option<(OutPoint, FilledOutput)>,
)
    ensures
        final(markets)@ == (MarketsView { funds: final(markets)@.funds, ..old(markets)@ }),
        holdings(final(ledger)@, final(markets)@) == without_coin(
            holdings(old(ledger)@, old(markets)@),
            *m,
            is_fee,
            *coin,
        ),
{
    match coin {
        Some((outpoint, _)) => {
            let _ = ledger.delete_utxo(outpoint);
        },
        None => {},
    }
    markets.clear_market_funds_utxo(m, is_fee);
}

fn add_coin(
    ledger: &mut Ledger,
    markets: &mut MarketsDatabase,
    address: Address,
    m: &MarketId,
    height: u32,
    sats: u64,
    is_fee: bool,
) -> (r: OutPoint)
    ensures
        r == funds_point(*m, height, is_fee),
        final(markets)@ == (MarketsView { funds: final(markets)@.funds, ..old(markets)@ }),
        holdings(final(ledger)@, final(markets)@) == with_coin(
            holdings(old(ledger)@, old(markets)@),
            address,
            *m,
            height,
            sats,
            is_fee,
        ),
{
    let point = OutPoint::MarketFunds { market_id: m.0, block_height: height, is_fee };
    let output = new_plain(
        address,
        FilledContent::MarketFunds { market_id: m.0, amount: BitcoinContent(sats), is_fee },
    );
    ledger.insert_utxo(&point, &output);
    markets.set_market_funds_utxo(m, is_fee, &point);
    point
}

pub open spec fn block_trades(
    sells: Seq<PendingSellPayout>,
    buys: Seq<PendingBuySettlement>,
    height: u32,
    miner_fee: u64,
) -> BlockTrades {
    BlockTrades { sells, buys, height, miner_fee }
}

fn consolidate_market(
    ledger: &mut Ledger,
    markets: &mut MarketsDatabase,
    addresses: &Table<MarketId, FundsAddresses>,
    m: &MarketId,
    sells: &Vec<PendingSellPayout>,
    buys: &Vec<PendingBuySettlement>,
    height: u32,
    miner_fee: u64,
) -> (r: Result<ConsolidationUndoEntry, Error>)
    requires
        addresses@.dom().contains(*m),
    ensures
        match r {
            Ok(entry) => {
                &&& final(markets)@ == (MarketsView { funds: final(markets)@.funds, ..old(markets)@
                })
                &&& market_gathered(
                    holdings(old(ledger)@, old(markets)@),
                    addresses@,
                    *m,
                    block_trades(sells@, buys@, height, miner_fee),
                ) == Ok::<Holdings, Error>(holdings(final(ledger)@, final(markets)@))
                &&& entry@ == entry_of(
                    holdings(old(ledger)@, old(markets)@),
                    *m,
                    block_trades(sells@, buys@, height, miner_fee),
                )
            },
            Err(e) => market_gathered(
                holdings(old(ledger)@, old(markets)@),
                addresses@,
                *m,
                block_trades(sells@, buys@, height, miner_fee),
            ) == Err::<Holdings, Error>(e),
        },
{
    let (treasury_address, fee_address) = match addresses.get(m) {
        None => vstd::pervasive::unreached(),
        Some(held) => (held.treasury, held.author_fee),
    };
    let (old_treasury_pointer, old_treasury_utxo, treasury_value) = find_coin(
        ledger,
        markets,
        m,
        false,
    );
    let (old_fee_pointer, old_fee_utxo, fee_value) = find_coin(ledger, markets, m, true);
    let (cost, buy_fee) = sum_buys(buys, m);
    let (paid, sell_fee, any_sells) = sum_sells(sells, m);
    proof {
        lemma_buy_sums(buys@, *m);
        lemma_sell_sums(sells@, *m);
        lemma_no_sells(sells@, *m);
    }
    let most: u128 = u64::MAX as u128;
    if cost > most || buy_fee > most || paid > most || sell_fee > most {
        return Err(Error::AmountOverflow(AmountOverflowError));
    }
    let treasury: u128 = treasury_value as u128 + cost;
    let fees: u128 = fee_value as u128 + buy_fee + sell_fee;
    let gross: u128 = paid + sell_fee;
    if treasury > most || fees > most || gross > most {
        return Err(Error::AmountOverflow(AmountOverflowError));
    }
    if gross > treasury {
        return Err(Error::InvalidTransaction { reason: Reason::TreasuryUnderflow {
                gross_sats: gross as u64,
                payouts_sats: paid as u64,
                fees_sats: sell_fee as u64,
                treasury_sats: treasury as u64,
                market_id: *m,
            } });
    }
    let mut new_treasury_utxo: Option<OutPoint> = None;
    let mut new_fee_utxo: Option<OutPoint> = None;
    let mut sell_payout_utxos: Vec<OutPoint> = Vec::new();
    let mut buy_change_utxos: Vec<OutPoint> = Vec::new();
    if treasury > 0 || any_sells {
        remove_coin(ledger, markets, m, false, &old_treasury_utxo);
        sell_payout_utxos = pay_sellers(ledger, sells, m);
        buy_change_utxos = match pay_buyers(ledger, buys, m, miner_fee) {
            Err(e) => return Err(e),
            Ok(points) => points,
        };
        let rest: u64 = (treasury - gross) as u64;
        if rest > 0 {
            new_treasury_utxo = Some(
                add_coin(ledger, markets, treasury_address, m, height, rest, false),
            );
        }
    }
    if fees > 0 {
        remove_coin(ledger, markets, m, true, &old_fee_utxo);
        new_fee_utxo = Some(
            add_coin(ledger, markets, fee_address, m, height, fees as u64, true),
        );
    }
    Ok(
        ConsolidationUndoEntry {
            market_id: *m,
            old_treasury_utxo,
            old_fee_utxo,
            old_treasury_pointer,
            old_fee_pointer,
            new_treasury_utxo,
            new_fee_utxo,
            sell_payout_utxos,
            buy_change_utxos,
        },
    )
}

/// A market without sells pays no seller.
pub proof fn lemma_no_sells(sells: Seq<PendingSellPayout>, m: MarketId)
    ensures
        !sells_in(sells, m) ==> payout_points(sells, m) == Seq::<OutPoint>::empty(),
        !sells_in(sells, m) ==> payouts(sells, m) == 0 && sell_fees(sells, m) == 0,
    decreases sells.len(),
{
    if sells.len() > 0 && !sells_in(sells, m) {
        let front = sells.drop_last();
        assert(sells[sells.len() - 1].market_id != m);
        assert forall|i: int| 0 <= i < front.len() implies (#[trigger] front[i]).market_id != m by {
            assert(front[i] == sells[i]);
        }
        lemma_no_sells(front, m);
    }
}

/// Gathers the funds of all markets that were traded in a block.
///
/// The markets are taken in ascending order of their ids. `addresses` says where
/// their funds are held, and `miner_fee` is what the miner gets for each trade.
pub fn consolidate_market_utxos(
    ledger: &mut Ledger,
    markets: &mut MarketsDatabase,
    addresses: &Table<MarketId, FundsAddresses>,
    height: u32,
    miner_fee: u64,
    pending_sell_payouts: &Vec<PendingSellPayout>,
    pending_buy_settlements: &Vec<PendingBuySettlement>,
    pending_sell_input_changes: &Vec<InputChange>,
) -> (r: Result<Option<ConsolidationUndoData>, Error>)
    requires
        covers(addresses@, pending_sell_payouts@, pending_buy_settlements@),
    ensures
        match r {
            Ok(undo) => {
                &&& final(markets)@ == (MarketsView { funds: final(markets)@.funds, ..old(markets)@
                })
                &&& consolidated(
                    holdings(old(ledger)@, old(markets)@),
                    addresses@,
                    block_trades(
                        pending_sell_payouts@,
                        pending_buy_settlements@,
                        height,
                        miner_fee,
                    ),
                    pending_sell_input_changes@,
                ) == Ok::<(Holdings, Option<ConsolidationUndoView>), Error>(
                    (holdings(final(ledger)@, final(markets)@), undo_view(undo)),
                )
            },
            Err(e) => consolidated(
                holdings(old(ledger)@, old(markets)@),
                addresses@,
                block_trades(pending_sell_payouts@, pending_buy_settlements@, height, miner_fee),
                pending_sell_input_changes@,
            ) == Err::<(Holdings, Option<ConsolidationUndoView>), Error>(e),
        },
{
    let due = list_markets(pending_sell_payouts, pending_buy_settlements);
    due.rows_facts();
    let n: usize = due.len();
    if n == 0 && pending_sell_input_changes.len() == 0 {
        return Ok(None);
    }
    let ghost at = holdings(ledger@, markets@);
    let ghost t = block_trades(
        pending_sell_payouts@,
        pending_buy_settlements@,
        height,
        miner_fee,
    );
    let ghost rows = due.rows();
    let mut entries: Vec<ConsolidationUndoEntry> = Vec::new();
    let mut i: usize = 0;
    assert(rows.subrange(0, 0) =~= Seq::empty());
    assert(entries_view(entries@) =~= Seq::empty());
    while i < n
        invariant
            i <= n == rows.len(),
            rows == due.rows(),
            rows == markets_due(t),
            due@ == traded_in(sold_in(pending_sell_payouts@), pending_buy_settlements@),
            covers(addresses@, pending_sell_payouts@, pending_buy_settlements@),
            forall|k: int|
                0 <= k < rows.len() ==> due@.dom().contains((#[trigger] rows[k]).0),
            n > 0 || pending_sell_input_changes@.len() > 0,
            at == holdings(old(ledger)@, old(markets)@),
            t == block_trades(pending_sell_payouts@, pending_buy_settlements@, height, miner_fee),
            markets@ == (MarketsView { funds: markets@.funds, ..old(markets)@ }),
            markets_gathered(at, addresses@, rows.subrange(0, i as int), t) == Ok::<
                (Holdings, Seq<EntryView>),
                Error,
            >((holdings(ledger@, markets@), entries_view(entries@))),
        decreases n - i,
    {
        let market_id = due.row(i).0;
        proof {
            assert(rows.subrange(0, i + 1).drop_last() =~= rows.subrange(0, i as int));
        }
        assert(due@.dom().contains(rows[i as int].0));
        match consolidate_market(
            ledger,
            markets,
            addresses,
            &market_id,
            pending_sell_payouts,
            pending_buy_settlements,
            height,
            miner_fee,
        ) {
            Err(e) => {
                proof {
                    lemma_markets_prefix(at, addresses@, rows, t, i + 1);
                }
                return Err(e);
            },
            Ok(entry) => {
                let ghost before = entries@;
                entries.push(entry);
                assert(entries_view(entries@) =~= entries_view(before).push(entry@));
            },
        }
        i += 1;
    }
    assert(rows.subrange(0, i as int) =~= rows);
    let sell_input_change_utxos = return_inputs(ledger, pending_sell_input_changes);
    Ok(Some(ConsolidationUndoData { entries, sell_input_change_utxos }))
}

pub open spec fn undo_view(undo: Option<ConsolidationUndoData>) -> Option<ConsolidationUndoView> {
    match undo {
        Some(data) => Some(data@),
        None => None,
    }
}

/// The ledger without some coins.
pub open spec fn deleted_all(ledger: LedgerView, points: Seq<OutPoint>) -> LedgerView
    decreases points.len(),
{
    if points.len() == 0 {
        ledger
    } else {
        deleted_all(ledger, points.drop_last()).delete(points.last())
    }
}

/// The ledger without a coin, where there is one.
pub open spec fn deleted(ledger: LedgerView, point: Option<OutPoint>) -> LedgerView {
    match point {
        Some(point) => ledger.delete(point),
        None => ledger,
    }
}

/// The ledger with an old coin, where there was one.
pub open spec fn restored(ledger: LedgerView, coin: Option<(OutPoint, FilledOutput)>) -> LedgerView {
    match coin {
        Some((outpoint, output)) => ledger.insert(outpoint, output),
        None => ledger,
    }
}

/// Where the funds of a market are, set back.
pub open spec fn pointed(
    map: Map<FundsKey, OutPoint>,
    m: MarketId,
    is_fee: bool,
    pointer: Option<OutPoint>,
) -> Map<FundsKey, OutPoint> {
    match pointer {
        Some(outpoint) => map.insert(funds(m, is_fee), outpoint),
        None => map.remove(funds(m, is_fee)),
    }
}

/// The consolidation of a market is undone.
pub open spec fn entry_reverted(at: Holdings, e: EntryView) -> Holdings {
    let l1 = deleted(deleted(at.ledger, e.new_treasury_utxo), e.new_fee_utxo);
    let l2 = deleted_all(deleted_all(l1, e.sell_payout_utxos), e.buy_change_utxos);
    Holdings {
        ledger: restored(restored(l2, e.old_treasury_utxo), e.old_fee_utxo),
        funds: pointed(
            pointed(at.funds, e.market_id, false, e.old_treasury_pointer),
            e.market_id,
            true,
            e.old_fee_pointer,
        ),
    }
}

/// The consolidation of some markets is undone, that of the last one first.
pub open spec fn entries_reverted(at: Holdings, entries: Seq<EntryView>) -> Holdings
    decreases entries.len(),
{
    if entries.len() == 0 {
        at
    } else {
        entries_reverted(entry_reverted(at, entries.last()), entries.drop_last())
    }
}

/// The consolidation of a block is undone.
pub open spec fn unconsolidated(at: Holdings, undo: ConsolidationUndoView) -> Holdings {
    let before = entries_reverted(at, undo.entries);
    Holdings { ledger: deleted_all(before.ledger, undo.sell_input_change_utxos), ..before }
}

pub fn delete_all(ledger: &mut Ledger, points: &Vec<OutPoint>)
    ensures
        final(ledger)@ == deleted_all(old(ledger)@, points@),
{
    let ghost before = ledger@;
    let mut i: usize = 0;
    assert(points@.subrange(0, 0) =~= Seq::empty());
    while i < points.len()
        invariant
            i <= points@.len(),
            ledger@ == deleted_all(before, points@.subrange(0, i as int)),
        decreases points@.len() - i,
    {
        assert(points@.subrange(0, i + 1).drop_last() =~= points@.subrange(0, i as int));
        let _ = ledger.delete_utxo(&points[i]);
        i += 1;
    }
    assert(points@.subrange(0, i as int) =~= points@);
}

/// Removes a coin, where there is one. A coin of no value was never made, so
/// that it may be missing.
fn revert_delete_utxo(ledger: &mut Ledger, point: &Option<OutPoint>)
    ensures
        final(ledger)@ == deleted(old(ledger)@, *point),
{
    match point {
        Some(outpoint) => {
            let _ = ledger.delete_utxo(outpoint);
        },
        None => {},
    }
}

pub fn restore_utxo(ledger: &mut Ledger, coin: &Option<(OutPoint, FilledOutput)>)
    ensures
        final(ledger)@ == restored(old(ledger)@, *coin),
{
    match coin {
        Some((outpoint, output)) => {
            ledger.insert_utxo(outpoint, output);
        },
        None => {},
    }
}

fn restore_pointer(
    markets: &mut MarketsDatabase,
    m: &MarketId,
    is_fee: bool,
    pointer: &Option<OutPoint>,
)
    ensures
        final(markets)@ == (MarketsView {
            funds: pointed(old(markets)@.funds, *m, is_fee, *pointer),
            ..old(markets)@
        }),
{
    match pointer {
        Some(outpoint) => markets.set_market_funds_utxo(m, is_fee, outpoint),
        None => markets.clear_market_funds_utxo(m, is_fee),
    }
}

/// Undoes the consolidation of a block.
pub fn revert_consolidation(
    ledger: &mut Ledger,
    markets: &mut MarketsDatabase,
    undo: &ConsolidationUndoData,
)
    ensures
        final(markets)@ == (MarketsView { funds: final(markets)@.funds, ..old(markets)@ }),
        holdings(final(ledger)@, final(markets)@) == unconsolidated(
            holdings(old(ledger)@, old(markets)@),
            undo@,
        ),
{
    let ghost entries = undo@.entries;
    let mut i: usize = undo.entries.len();
    assert(entries.subrange(0, i as int) =~= entries);
    while i > 0
        invariant
            i <= undo.entries@.len() == entries.len(),
            entries == undo@.entries,
            markets@ == (MarketsView { funds: markets@.funds, ..old(markets)@ }),
            entries_reverted(holdings(ledger@, markets@), entries.subrange(0, i as int))
                == entries_reverted(holdings(old(ledger)@, old(markets)@), entries),
        decreases i,
    {
        i -= 1;
        let entry = &undo.entries[i];
        proof {
            assert(entries.subrange(0, i + 1).drop_last() =~= entries.subrange(0, i as int));
            assert(entries.subrange(0, i + 1).last() == entry@);
        }
        let ghost at = holdings(ledger@, markets@);
        revert_delete_utxo(ledger, &entry.new_treasury_utxo);
        revert_delete_utxo(ledger, &entry.new_fee_utxo);
        delete_all(ledger, &entry.sell_payout_utxos);
        delete_all(ledger, &entry.buy_change_utxos);
        restore_utxo(ledger, &entry.old_treasury_utxo);
        restore_utxo(ledger, &entry.old_fee_utxo);
        restore_pointer(markets, &entry.market_id, false, &entry.old_treasury_pointer);
        restore_pointer(markets, &entry.market_id, true, &entry.old_fee_pointer);
        assert(holdings(ledger@, markets@) == entry_reverted(at, entry@));
    }
    assert(entries.subrange(0, 0) =~= Seq::empty());
    delete_all(ledger, &undo.sell_input_change_utxos);
}

} // verus!
