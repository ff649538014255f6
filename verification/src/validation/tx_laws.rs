//! What holds of transactions and blocks that are found valid.

use vstd::prelude::*;

use crate::authorization::{address_of, input_count, proof_at, Authorization};
use crate::state::block::connect::PrevalidatedBlock;
use crate::state::block::creation::treasury_output;
use crate::state::block::creation_laws::endows;
use crate::state::decisions::database::DecisionsView;
use crate::state::decisions::types::{DecisionId, DecisionType};
use crate::state::ledger::outputs_named;
use crate::state::markets::database::{account_of, MarketsView};
use crate::state::markets::types::{position, DimensionSpec, MarketId};
use crate::state::{Error, State};
use crate::types::block::{Body, Header};
use crate::types::transaction::output::{BitcoinContent, Content, FilledOutput, TxOutput};
use crate::types::transaction::{
    total_value, AuthorizedTransaction, ClaimDecisionPayload, FilledTransaction, OutPoint,
    Transaction, TransactionData,
};
use crate::types::{Address, BlockHash, MerkleRoot};
use crate::validation::block::{
    all_spent_coins, body_problem, checked_fee, checks_problem, coinbase_is_plain, fees_problem,
    is_checked, is_filled_tx, is_prevalidated, outline_problem, signers_own, total_fees,
    CheckFigures,
};
use crate::validation::claim_laws::{claims_owe_the_sum_of_the_fees, listing_sum};
use crate::validation::decision::{claim_tx_problem, payload_fee, ClaimFigures};
use crate::validation::market::{
    acts_for, amplify_tx_problem, claims_checked, creation_tx_problem, dimensions_problem, fees_at,
    trade_tx_problem, TradeFigures, TradeLimits,
};

verus! {

/// Somebody acts by a transaction: a coin of theirs is spent, or they show a proof.
pub open spec fn is_actor(tx: FilledTransaction, a: Address) -> bool {
    ||| exists|i: int|
        0 <= i < tx.spent_utxos@.len() && (#[trigger] tx.spent_utxos@[i]).address == a
    ||| tx.actor_address == Some(a)
}

/// A valid trade is one in an open market, on an outcome that the market has, and
/// of some shares. It names a recent block of this chain, and has the proof of
/// work that the market asks for. A buyer puts in at least what they offer. A
/// seller acts for themselves, has the shares, and can pay the miner.
pub proof fn valid_trades_can_be_made(
    markets: MarketsView,
    tip: Option<BlockHash>,
    height: Option<u32>,
    tx: FilledTransaction,
    figures: TradeFigures,
    limits: TradeLimits,
)
    requires
        trade_tx_problem(markets, tip, height, tx, figures, limits) is None,
    ensures
        tx.transaction.data is Some,
        tx.transaction.data->0 is Trade,
        ({
            let trade = tx.transaction.data->0;
            let m = trade->Trade_market_id;
            let total = total_value(tx.spent_utxos@);
            &&& markets.markets.dom().contains(m)
            &&& markets.markets[m].state is Trading
            &&& trade->Trade_outcome_index < markets.markets[m].shares.len()
            &&& trade->Trade_shares != 0
            &&& tx.transaction.outputs@.len() == 0
            &&& tx.transaction.inputs@.len() > 0
            &&& tx.spent_utxos@.len() > 0
            &&& tip is Some && height is Some && figures.prev_block_height is Some
            &&& Some(trade->Trade_prev_block_hash) == tip || figures.is_ancestor
            &&& height->0 <= figures.prev_block_height->0 + limits.pow_bound_window_blocks
            &&& figures.pow_enabled ==> trade->Trade_tx_pow_nonce is Some && figures.pow_verified
            &&& trade->Trade_shares > 0 ==> 0 < trade->Trade_limit_sats <= total
            &&& trade->Trade_shares < 0 ==> {
                &&& is_actor(tx, trade->Trade_trader)
                &&& account_of(markets.accounts, trade->Trade_trader).shares(
                    position(m, trade->Trade_outcome_index),
                ) + trade->Trade_shares >= 0
                &&& limits.miner_fee_sats <= total
            }
        }),
{
    if tx.transaction.data->0->Trade_shares < 0 {
        assert(acts_for(tx, tx.transaction.data->0->Trade_trader));
    }
}

/// A purchase that meets all that is asked of it is valid.
pub proof fn good_purchases_are_valid(
    markets: MarketsView,
    tip: Option<BlockHash>,
    height: Option<u32>,
    tx: FilledTransaction,
    figures: TradeFigures,
    limits: TradeLimits,
)
    requires
        tx.transaction.data is Some,
        tx.transaction.data->0 is Trade,
        ({
            let trade = tx.transaction.data->0;
            let m = trade->Trade_market_id;
            &&& markets.markets.dom().contains(m)
            &&& markets.markets[m].state is Trading
            &&& trade->Trade_outcome_index < markets.markets[m].shares.len()
            &&& trade->Trade_shares > 0
            &&& tx.transaction.outputs@.len() == 0
            &&& tx.transaction.inputs@.len() > 0
            &&& tx.spent_utxos@.len() > 0
            &&& tip is Some && height is Some && figures.prev_block_height is Some
            &&& Some(trade->Trade_prev_block_hash) == tip || figures.is_ancestor
            &&& height->0 <= figures.prev_block_height->0 + limits.pow_bound_window_blocks
            &&& !figures.pow_enabled
            &&& 0 < trade->Trade_limit_sats <= total_value(tx.spent_utxos@) <= u64::MAX
        }),
    ensures
        trade_tx_problem(markets, tip, height, tx, figures, limits) is None,
{
}

/// A market is deepened by its author alone, while it is open, and with coins that
/// hold the amount and the fee of the miner.
pub proof fn only_authors_deepen_markets(
    markets: MarketsView,
    tx: FilledTransaction,
    miner_fee: u64,
)
    requires
        amplify_tx_problem(markets, tx, miner_fee) is None,
    ensures
        tx.transaction.data is Some,
        tx.transaction.data->0 is AmplifyBeta,
        ({
            let m = tx.transaction.data->0->AmplifyBeta_market_id;
            let amount = tx.transaction.data->0->AmplifyBeta_amount;
            let author = tx.transaction.data->0->AmplifyBeta_market_author;
            &&& amount > 0
            &&& markets.markets.dom().contains(m)
            &&& markets.markets[m].state is Trading
            &&& markets.markets[m].terms.creator_address == author
            &&& is_actor(tx, author)
            &&& tx.transaction.outputs@.len() == 0
            &&& total_value(tx.spent_utxos@) >= amount + miner_fee
        }),
{
    assert(acts_for(tx, tx.transaction.data->0->AmplifyBeta_market_author));
}

/// The sum of the listing fees of several claims.
pub open spec fn all_listing_sums(
    payloads: Seq<ClaimDecisionPayload>,
    claims: Seq<ClaimFigures>,
) -> int
    decreases payloads.len(),
{
    if payloads.len() == 0 {
        0
    } else {
        let n = payloads.len() - 1;
        all_listing_sums(payloads.drop_last(), claims) + if n < claims.len() {
            listing_sum(payloads.last().decisions@, claims[n].listing_fees@)
        } else {
            listing_sum(payloads.last().decisions@, Seq::empty())
        }
    }
}

proof fn lemma_claims_checked(
    view: DecisionsView,
    payloads: Seq<ClaimDecisionPayload>,
    current_period: u32,
    claims: Seq<ClaimFigures>,
)
    requires
        claims_checked(view, payloads, current_period, claims) is Ok,
    ensures
        claims_checked(view, payloads, current_period, claims)->Ok_0.fees == all_listing_sums(
            payloads,
            claims,
        ),
    decreases payloads.len(),
{
    if payloads.len() > 0 {
        let n = payloads.len() - 1;
        lemma_claims_checked(view, payloads.drop_last(), current_period, claims);
        let last = payloads.last();
        let fees = fees_at(claims, n);
        let aligned = crate::validation::market::aligned_at(claims, n);
        let owed = payload_fee(view, last, current_period, aligned, fees)->Ok_0;
        claims_owe_the_sum_of_the_fees(last.decisions@, fees, owed);
    }
}

/// A valid market has a dimension, a treasury with something in it, and a trading
/// fee from nothing to all, if one is chosen. It leaves over the listing fees of
/// the decisions that are claimed with it.
pub proof fn valid_markets_are_funded(
    view: DecisionsView,
    tx: FilledTransaction,
    current_period: u32,
    claims: Seq<ClaimFigures>,
    market_id: MarketId,
    pow_is_valid: bool,
)
    requires
        creation_tx_problem(view, tx, current_period, claims, market_id, pow_is_valid) is None,
    ensures
        tx.transaction.data is Some,
        tx.transaction.data->0 is CreateMarket,
        tx.spent_utxos@.len() > 0,
        ({
            let asked = tx.transaction.data->0;
            let owed = all_listing_sums(asked->CreateMarket_new_claims@, claims);
            &&& asked->CreateMarket_dimension_specs@.len() > 0
            &&& asked->CreateMarket_trading_fee is Some ==> {
                let fee = asked->CreateMarket_trading_fee->0;
                !fee.spec_is_nan() && 0 <= fee.rank() <= 0x3ff0_0000_0000_0000
            }
            &&& asked->CreateMarket_tx_pow_difficulty is Some
                && asked->CreateMarket_tx_pow_difficulty->0 > 0 ==> pow_is_valid
            &&& owed > 0 ==> total_value(tx.spent_utxos@) >= total_value(
                tx.transaction.outputs@,
            ) + owed
            &&& exists|i: int, sats: u64|
                0 <= i < tx.transaction.outputs@.len() && sats > 0 && #[trigger] endows(
                    tx.transaction.outputs@[i],
                    market_id,
                    sats,
                )
        }),
{
    let asked = tx.transaction.data->0;
    lemma_claims_checked(view, asked->CreateMarket_new_claims@, current_period, claims);
    let i = treasury_output(tx.transaction.outputs@, market_id)->0;
    assert(crate::state::block::creation::is_treasury_output(
        tx.transaction.outputs@,
        market_id,
        i,
    ));
    match tx.transaction.outputs@[i].content {
        Content::MarketFunds { market_id: m, amount, is_fee } => {
            assert(amount == BitcoinContent(amount.0));
            assert(endows(tx.transaction.outputs@[i], market_id, amount.0));
        },
        _ => {},
    }
}

proof fn lemma_dimension(
    view: DecisionsView,
    types: Map<DecisionId, DecisionType>,
    specs: Seq<DimensionSpec>,
    i: int,
)
    requires
        dimensions_problem(view, types, specs) is None,
        0 <= i < specs.len(),
    ensures
        crate::validation::market::dimension_problem(view, types, specs[i]) is None,
    decreases specs.len(),
{
    if i < specs.len() - 1 {
        lemma_dimension(view, types, specs.drop_last(), i);
    }
}

/// Each dimension of a valid market is a decision that was claimed, before or with
/// the market, and a categorical one is a category with two options or more.
pub proof fn valid_markets_name_decisions(
    view: DecisionsView,
    tx: FilledTransaction,
    current_period: u32,
    claims: Seq<ClaimFigures>,
    market_id: MarketId,
    pow_is_valid: bool,
    i: int,
)
    requires
        creation_tx_problem(view, tx, current_period, claims, market_id, pow_is_valid) is None,
        0 <= i < tx.transaction.data->0->CreateMarket_dimension_specs@.len(),
    ensures
        ({
            let asked = tx.transaction.data->0;
            let pending = claims_checked(
                view,
                asked->CreateMarket_new_claims@,
                current_period,
                claims,
            )->Ok_0;
            let (id, categorical) = match asked->CreateMarket_dimension_specs@[i] {
                DimensionSpec::Single(id) => (id, false),
                DimensionSpec::Categorical(id) => (id, true),
            };
            let p = id.period();
            let stored = view.periods.dom().contains(p) && view.periods[p].dom().contains(id)
                && view.periods[p][id][0].decision is Some;
            &&& pending.types.dom().contains(id) || stored
            &&& categorical ==> {
                let kind = if pending.types.dom().contains(id) {
                    pending.types[id]
                } else {
                    view.periods[p][id][0].decision->0.decision_type
                };
                match kind {
                    DecisionType::Category { options } => options@.len() >= 2,
                    _ => false,
                }
            }
        }),
{
    let asked = tx.transaction.data->0;
    let pending = claims_checked(
        view,
        asked->CreateMarket_new_claims@,
        current_period,
        claims,
    )->Ok_0;
    lemma_dimension(view, pending.types, asked->CreateMarket_dimension_specs@, i);
}

/// A transaction is valid only if what is asked of its kind is met, and the miner
/// gets its fee: a fixed one for trades and for deepening a market, and else what
/// the transaction leaves over, which is not negative.
pub proof fn valid_transactions_pay_the_miner(
    state: State,
    tx: FilledTransaction,
    current_period: u32,
    figures: CheckFigures,
    limits: TradeLimits,
    fee: u64,
)
    requires
        checked_fee(state, tx, current_period, figures, limits) == Ok::<u64, Error>(fee),
    ensures
        match tx.transaction.data {
            Some(TransactionData::Trade { .. }) => {
                &&& fee == limits.miner_fee_sats
                &&& trade_tx_problem(
                    state.markets@,
                    state.tip,
                    state.height,
                    tx,
                    figures->Trade_0,
                    limits,
                ) is None
            },
            Some(TransactionData::AmplifyBeta { .. }) => {
                &&& fee == limits.miner_fee_sats
                &&& amplify_tx_problem(state.markets@, tx, limits.miner_fee_sats) is None
            },
            data => {
                &&& total_value(tx.spent_utxos@) == total_value(tx.transaction.outputs@) + fee
                &&& match data {
                    Some(TransactionData::ClaimDecision(_)) => claim_tx_problem(
                        state.decisions@,
                        tx,
                        current_period,
                        figures->Claim_0,
                    ) is None,
                    Some(TransactionData::CreateMarket { .. }) => creation_tx_problem(
                        state.decisions@,
                        tx,
                        current_period,
                        figures->Creation_0.claims@,
                        figures->Creation_0.market_id,
                        figures->Creation_0.pow_is_valid,
                    ) is None,
                    Some(_) => figures->Vote_0 is None,
                    None => true,
                }
            },
        },
{
}

/// A plain transaction that pays out no more than it spends, and spends no
/// withdrawal, is valid.
pub proof fn plain_transactions_that_add_up_are_valid(
    state: State,
    tx: FilledTransaction,
    current_period: u32,
    figures: CheckFigures,
    limits: TradeLimits,
)
    requires
        tx.transaction.data is None,
        total_value(tx.transaction.outputs@) <= total_value(tx.spent_utxos@) <= u64::MAX,
        forall|i: int|
            0 <= i < tx.spent_utxos@.len() ==> !((
            #[trigger] tx.spent_utxos@[i]).content is BitcoinWithdrawal),
    ensures
        checked_fee(state, tx, current_period, figures, limits) is Ok,
{
    lemma_no_withdrawal(tx, tx.spent_len());
}

proof fn lemma_no_withdrawal(tx: FilledTransaction, n: int)
    requires
        n <= tx.spent_utxos@.len(),
        forall|i: int|
            0 <= i < tx.spent_utxos@.len() ==> !((
            #[trigger] tx.spent_utxos@[i]).content is BitcoinWithdrawal),
    ensures
        crate::validation::block::withdrawal_among(tx, n) is None,
    decreases n,
{
    if n > 0 {
        lemma_no_withdrawal(tx, n - 1);
    }
}

/// A signed transaction is valid only if all its coins are there, and each of them
/// is spent by its owner.
pub proof fn coins_are_spent_by_their_owners(
    state: State,
    key: Seq<u8>,
    tx: AuthorizedTransaction,
    current_period: u32,
    figures: CheckFigures,
    limits: TradeLimits,
    fee: u64,
    i: int,
)
    requires
        is_checked(state, key, tx, current_period, figures, limits, Ok(fee)),
        0 <= i < tx.transaction.inputs@.len(),
    ensures
        tx.authorizations@.len() == tx.transaction.inputs@.len(),
        state.ledger@.utxos.dom().contains(tx.transaction.inputs@[i]),
        address_of(tx.authorizations@[i].verifying_key)
            == state.ledger@.utxos[tx.transaction.inputs@[i]].address,
        crate::authorization::transaction_verifies(key, tx) is Ok,
        crate::authorization::actor_proof_holds(tx.actor_proof, tx.transaction) is Ok,
{
    let coins = outputs_named(state.ledger@.utxos, tx.transaction.inputs@)->Ok_0;
    lemma_named(state.ledger@.utxos, tx.transaction.inputs@, coins, i);
    assert(crate::validation::block::signers_own(tx.authorizations@, coins));
    assert(address_of(tx.authorizations@[i].verifying_key) == coins[i].address);
}

proof fn lemma_named(
    utxos: Map<OutPoint, FilledOutput>,
    inputs: Seq<OutPoint>,
    coins: Seq<FilledOutput>,
    i: int,
)
    requires
        outputs_named(utxos, inputs) == Ok::<Seq<FilledOutput>, OutPoint>(coins),
        0 <= i < inputs.len(),
    ensures
        coins.len() == inputs.len(),
        utxos.dom().contains(inputs[i]),
        coins[i] == utxos[inputs[i]],
    decreases inputs.len(),
{
    let front = inputs.drop_last();
    let before = outputs_named(utxos, front)->Ok_0;
    if front.len() > 0 {
        lemma_named(utxos, front, before, if i < front.len() {
            i
        } else {
            0
        });
    }
}

/// The sum of what transactions leave for the miner: a fixed fee for trades and for
/// deepening a market, and else what is not paid out. Those that are skipped leave
/// nothing.
pub open spec fn left_for_the_miner(
    txs: Seq<FilledTransaction>,
    skipped: Seq<u32>,
    miner_fee: u64,
) -> int
    decreases txs.len(),
{
    if txs.len() == 0 {
        0
    } else {
        let tx = txs.last();
        left_for_the_miner(txs.drop_last(), skipped, miner_fee) + if skipped.contains(
            (txs.len() - 1) as u32,
        ) {
            0
        } else {
            match tx.transaction.data {
                Some(TransactionData::Trade { .. }) => miner_fee as int,
                Some(TransactionData::AmplifyBeta { .. }) => miner_fee as int,
                _ => total_value(tx.spent_utxos@) - total_value(tx.transaction.outputs@),
            }
        }
    }
}

proof fn lemma_total_fees(txs: Seq<FilledTransaction>, skipped: Seq<u32>, miner_fee: u64)
    requires
        total_fees(txs, skipped, miner_fee) is Ok,
    ensures
        total_fees(txs, skipped, miner_fee)->Ok_0 == left_for_the_miner(txs, skipped, miner_fee),
    decreases txs.len(),
{
    if txs.len() > 0 {
        lemma_total_fees(txs.drop_last(), skipped, miner_fee);
    }
}

/// A miner is paid no more than the transactions of the block leave over.
pub proof fn miners_take_no_more_than_the_fees(
    coinbase_value: u64,
    txs: Seq<FilledTransaction>,
    skipped: Seq<u32>,
    miner_fee: u64,
)
    requires
        fees_problem(coinbase_value, txs, skipped, miner_fee) is None,
    ensures
        coinbase_value <= left_for_the_miner(txs, skipped, miner_fee),
{
    lemma_total_fees(txs, skipped, miner_fee);
}

/// A miner may take all that the transactions of the block leave over.
pub proof fn miners_may_take_all_fees(
    coinbase_value: u64,
    txs: Seq<FilledTransaction>,
    skipped: Seq<u32>,
    miner_fee: u64,
)
    requires
        total_fees(txs, skipped, miner_fee) is Ok,
        coinbase_value <= left_for_the_miner(txs, skipped, miner_fee),
    ensures
        fees_problem(coinbase_value, txs, skipped, miner_fee) is None,
{
    lemma_total_fees(txs, skipped, miner_fee);
}

proof fn lemma_check(
    state: State,
    filled: Seq<FilledTransaction>,
    current_period: u32,
    figures: Seq<CheckFigures>,
    limits: TradeLimits,
    i: int,
)
    requires
        checks_problem(state, filled, current_period, figures, limits) is None,
        0 <= i < filled.len(),
    ensures
        checked_fee(state, filled[i], current_period, figures[i], limits) is Ok,
    decreases filled.len(),
{
    if i < filled.len() - 1 {
        lemma_check(state, filled.drop_last(), current_period, figures, limits, i);
    }
}

/// A valid block builds on the tip, has the body that its header names, and spends
/// coins that are there.
pub proof fn valid_blocks_build_on_the_tip(
    state: State,
    header: Header,
    body: Body,
    merkle_root: MerkleRoot,
    i: int,
    k: int,
)
    requires
        outline_problem(state, header, body, merkle_root) is None,
        0 <= i < body.transactions@.len(),
        0 <= k < body.transactions@[i].inputs@.len(),
    ensures
        header.prev_side_hash == state.tip,
        header.merkle_root == merkle_root,
        state.ledger@.utxos.dom().contains(body.transactions@[i].inputs@[k]),
{
    lemma_inputs_there(state.ledger@.utxos, body.transactions@, i);
    let inputs = body.transactions@[i].inputs@;
    lemma_named(
        state.ledger@.utxos,
        inputs,
        outputs_named(state.ledger@.utxos, inputs)->Ok_0,
        k,
    );
}

proof fn lemma_inputs_there(
    utxos: Map<OutPoint, FilledOutput>,
    txs: Seq<crate::types::transaction::Transaction>,
    i: int,
)
    requires
        crate::validation::block::missing_input(utxos, txs) is None,
        0 <= i < txs.len(),
    ensures
        outputs_named(utxos, txs[i].inputs@) is Ok,
    decreases txs.len(),
{
    if i < txs.len() - 1 {
        lemma_inputs_there(utxos, txs.drop_last(), i);
    }
}

/// What is kept of a block that was found valid: each transaction with the coins
/// that it spends and with who acts by it, the pay of the miner, and the height
/// after that of the tip.
pub proof fn checked_blocks_are_filled(
    state: State,
    key: Seq<u8>,
    header: Header,
    body: Body,
    merkle_root: MerkleRoot,
    current_period: u32,
    figures: Seq<CheckFigures>,
    limits: TradeLimits,
    block: PrevalidatedBlock,
    i: int,
    k: int,
)
    requires
        is_prevalidated(
            state,
            key,
            header,
            body,
            merkle_root,
            current_period,
            figures,
            limits,
            Ok(block),
        ),
        0 <= i < body.transactions@.len(),
        0 <= k < body.transactions@[i].inputs@.len(),
        state.height != Some(u32::MAX),
    ensures
        header.prev_side_hash == state.tip,
        header.merkle_root == merkle_root,
        block.computed_merkle_root == merkle_root,
        block.coinbase_value == total_value(body.coinbase@),
        state.height is None ==> block.next_height == 0,
        state.height is Some ==> block.next_height == state.height->0 + 1,
        block.filled_transactions@.len() == body.transactions@.len(),
        block.filled_transactions@[i].transaction == body.transactions@[i],
        block.filled_transactions@[i].spent_utxos@.len() == body.transactions@[i].inputs@.len(),
        block.filled_transactions@[i].spent_utxos@[k]
            == state.ledger@.utxos[body.transactions@[i].inputs@[k]],
        checked_fee(
            state,
            block.filled_transactions@[i],
            current_period,
            figures[i],
            limits,
        ) is Ok,
{
    let filled = block.filled_transactions@;
    assert(is_filled_tx(
        filled[i],
        body.transactions@[i],
        state.ledger@.utxos,
        proof_at(body.actor_proofs@, i),
    ));
    lemma_named(
        state.ledger@.utxos,
        body.transactions@[i].inputs@,
        filled[i].spent_utxos@,
        k,
    );
    lemma_check(state, filled, current_period, figures, limits, i);
}

/// A block that does not build on the tip is refused.
pub proof fn blocks_off_the_tip_are_refused(
    state: State,
    header: Header,
    body: Body,
    merkle_root: MerkleRoot,
)
    requires
        header.prev_side_hash != state.tip || header.merkle_root != merkle_root,
    ensures
        outline_problem(state, header, body, merkle_root) is Some,
{
}

/// Each transaction of a valid block is valid, and each coin that the block spends
/// is signed for by its owner.
pub proof fn valid_blocks_have_valid_transactions(
    state: State,
    filled: Seq<FilledTransaction>,
    body: Body,
    key: Seq<u8>,
    current_period: u32,
    figures: Seq<CheckFigures>,
    limits: TradeLimits,
    i: int,
    k: int,
)
    requires
        body_problem(state, filled, body, key, current_period, figures, limits) is None,
        0 <= i < filled.len(),
        0 <= k < all_spent_coins(filled).len(),
        k < body.authorizations@.len(),
    ensures
        checked_fee(state, filled[i], current_period, figures[i], limits) is Ok,
        address_of(body.authorizations@[k].verifying_key) == all_spent_coins(filled)[k].address,
        body.authorizations@.len() == crate::authorization::input_count(body.transactions@),
        crate::authorization::body_verifies(
            key,
            body.authorizations@,
            body.transactions@,
        ) is Ok,
        crate::authorization::all_proofs_hold(body.actor_proofs@, body.transactions@) is Ok,
{
    lemma_check(state, filled, current_period, figures, limits, i);
    assert(crate::validation::block::signers_own(
        body.authorizations@,
        all_spent_coins(filled),
    ));
}

/// A coinbase holds no funds of a market, and one that holds none is in order.
pub proof fn coinbases_hold_no_market_funds(coinbase: Seq<TxOutput>, i: int)
    ensures
        coinbase_is_plain(coinbase) && 0 <= i < coinbase.len() ==> !(coinbase[i].content
            is MarketFunds),
        (forall|k: int| 0 <= k < coinbase.len() ==> !((#[trigger] coinbase[k]).content is MarketFunds))
            ==> coinbase_is_plain(coinbase),
{
}

/// A valid block has a signature for each input of its transactions.
pub proof fn valid_blocks_are_signed_for(
    state: State,
    filled: Seq<FilledTransaction>,
    body: Body,
    key: Seq<u8>,
    current_period: u32,
    figures: Seq<CheckFigures>,
    limits: TradeLimits,
)
    requires
        body_problem(state, filled, body, key, current_period, figures, limits) is None,
    ensures
        body.authorizations@.len() == input_count(body.transactions@),
        signers_own(body.authorizations@, all_spent_coins(filled)),
{
}

/// Each input counts once.
pub proof fn inputs_are_counted(txs: Seq<Transaction>, tx: Transaction)
    ensures
        input_count(Seq::<Transaction>::empty()) == 0,
        input_count(txs.push(tx)) == input_count(txs) + tx.inputs@.len(),
{
    assert(txs.push(tx).drop_last() =~= txs);
}

/// Who shows a proof acts by a transaction, under the address of the key of the proof.
pub proof fn proofs_name_the_actor(
    filled: FilledTransaction,
    tx: Transaction,
    utxos: Map<OutPoint, FilledOutput>,
    shown: Option<Authorization>,
)
    requires
        is_filled_tx(filled, tx, utxos, shown),
    ensures
        filled.transaction == tx,
        shown is Some ==> filled.actor_address == Some(address_of(shown->0.verifying_key)),
        shown is None ==> filled.actor_address is None,
{
}

} // verus!
