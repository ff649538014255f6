//! What holds of connecting and disconnecting a whole block of plain
//! transactions, those that only move coins.

use vstd::prelude::*;

use crate::state::block::coin_laws::{
    forgetting, inputs_of, moves_fit, nothing_to_forget, taking_back_gives_back_coins,
};
use crate::state::block::coins::{
    coins_moved, coins_moved_back, inputs_spent, moving_back_undoes_moving, outputs_made,
};
use crate::state::block::connect::{
    all_coins_moved, block_opened, coinbase_made, opened_parts, transactions_written, Opened,
};
use crate::state::block::decision_laws::{
    disconnecting_undoes_deciding, happened_at, happened_under, resolving_happens_at_its_height,
};
use crate::state::block::disconnect::{
    coinbase_unmade, data_reverted, end_undone, reckonings_undone, start_undone, tip_problem,
    Reverting, UndoFigures,
};
use crate::state::block::laws::{coinbase_free, moves_are_new, unmaking_undoes_coinbase};
use crate::state::block::progress::skipped_at;
use crate::state::block::trades::TradeShareDelta;
use crate::state::consolidation::{
    markets_due, sold_in, traded_in, BlockTrades, FundsAddresses,
};
use crate::state::decisions::database::{highest_or_zero, periods_opened, DecisionsView};
use crate::state::decisions::types::{current_of, up_to_height, FUTURE_PERIODS};
use crate::state::decisions::{DecisionId, PeriodPricing};
use crate::state::error::InvalidHeader;
use crate::state::ledger::{all_spent, spent_by, spent_from, LedgerView};
use crate::state::markets::database::MarketsView;
use crate::state::markets::MarketId;
use crate::state::reputation::{positives, Reputations};
use crate::state::undo::{settlements_undone, SettlementUndoEntry};
use crate::state::update::{ShareChangeKey, StateUpdateView, Written};
use crate::state::voting::database::VotingView;
use crate::state::voting::system::{
    resolved_all, reverting_undoes_reckoning, updated, with_anchor, with_outcomes,
    ConsensusUndoEntry,
};
use crate::state::voting::types::{ConsensusResult, DecisionOutcome};
use crate::state::{Error, State};
use crate::sums::has_rows;
use crate::table::{is_rows_of, rows_are_determined, rows_map, rows_of, Key};
use crate::types::block::Header;
use crate::types::transaction::output::{FilledOutput, TxOutput};
use crate::types::transaction::{FilledTransaction, InPoint, OutPoint};
use crate::types::{BlockHash, MerkleRoot, Real, Txid};

verus! {

/// The ids of transactions are the hashes of their encodings.
pub open spec fn have_own_ids(txs: Seq<FilledTransaction>) -> bool {
    forall|i: int|
        0 <= i < txs.len() ==> (#[trigger] txs[i]).transaction.id().0@
            == txs[i].transaction.id_bytes()
}

/// The transactions carry no data, and their ids are the hashes of their
/// encodings.
pub open spec fn are_plain(txs: Seq<FilledTransaction>) -> bool {
    &&& have_own_ids(txs)
    &&& forall|i: int| 0 <= i < txs.len() ==> (#[trigger] txs[i]).transaction.data is None
}

/// The coins of transactions are moved back, those of the last one first. `None` where one of
/// them is not noted as the spender of its inputs.
pub open spec fn plain_taken_back(ledger: LedgerView, txs: Seq<FilledTransaction>) -> Option<
    LedgerView,
>
    decreases txs.len(),
{
    if txs.len() == 0 {
        Some(ledger)
    } else {
        let tx = txs.last().transaction;
        if !spent_by(ledger.stxos, tx.inputs@, tx.id_bytes()) || !all_spent(
            ledger.stxos,
            tx.inputs@,
        ) {
            None
        } else {
            match coins_moved_back(ledger, tx) {
                Err(_) => None,
                Ok(before) => plain_taken_back(before, txs.drop_last()),
            }
        }
    }
}

/// Nothing is kept to undo a block at a height.
pub open spec fn nothing_kept(state: State, height: u32) -> bool {
    &&& !state.settlement_undo@.dom().contains(height)
    &&& !state.consensus_undo@.dom().contains(height)
    &&& !state.consolidation_undo@.dom().contains(height)
    &&& !state.skipped_tx_indices_undo@.dom().contains(height)
    &&& !state.reputation_transfer_undo@.dom().contains(height)
}

/// Opening a block changes these parts of the state and no others.
pub open spec fn is_opened(before: State, opened: State) -> bool {
    opened == (State {
        genesis_timestamp: opened.genesis_timestamp,
        reputation: opened.reputation,
        decisions: opened.decisions,
        minting_undo: opened.minting_undo,
        ledger: opened.ledger,
        ..before
    })
}

/// The transactions of a block are written down, with nothing to gather from
/// markets.
pub open spec fn is_written(opened: State, written: State, result: Written) -> bool {
    &&& written == (State {
        ledger: written.ledger,
        markets: written.markets,
        voting: written.voting,
        consolidation_undo: written.consolidation_undo,
        ..opened
    })
    &&& written.ledger@ == result.ledger
    &&& written.markets@ == result.markets
    &&& written.voting@ == result.voting
    &&& result.undo is None ==> written.consolidation_undo@ == opened.consolidation_undo@
}

/// What the reckoning of votes changes.
#[verifier::ext_equal]
pub struct Standing {
    pub voting: VotingView,
    pub reputation: Reputations,
    pub decisions: DecisionsView,
}

/// What comes of the votes of a period is stored.
pub open spec fn reckoning_stored(at: Standing, result: ConsensusResult, anchored: Option<Real>)
    -> Standing {
    Standing {
        voting: VotingView {
            stats: at.voting.stats.insert(result.period_stats.period_id, result.period_stats),
            outcomes: with_outcomes(at.voting.outcomes, result.decision_outcomes@),
            ..at.voting
        },
        reputation: positives(
            with_anchor(
                updated(positives(at.reputation), result.updated_reputations@),
                anchored,
            ),
        ),
        decisions: resolved_all(
            at.decisions,
            result.decision_resolutions@,
            result.block_height,
        )->Ok_0,
    }
}

/// A record undoes a reckoning.
pub open spec fn is_record_of(
    record: ConsensusUndoEntry,
    at: Standing,
    result: ConsensusResult,
) -> bool {
    &&& record.period_id == result.period_id
    &&& record.had_period_stats == at.voting.stats.dom().contains(result.period_id)
    &&& record.pre_consensus_reputation@ == positives(at.reputation)
    &&& record.decision_outcome_ids@ == result.decision_outcomes@.map_values(
        |o: DecisionOutcome| o.decision_id,
    )
}

/// A period is reckoned for the first time, at a height.
pub open spec fn is_first_reckoning(at: Standing, result: ConsensusResult, height: u32) -> bool {
    &&& result.block_height == height
    &&& result.period_stats.period_id == result.period_id
    &&& !at.voting.stats.dom().contains(result.period_id)
    &&& forall|i: int|
        0 <= i < result.decision_outcomes@.len() ==> !at.voting.outcomes.dom().contains(
            (#[trigger] result.decision_outcomes@[i]).decision_id,
        )
    &&& resolved_all(at.decisions, result.decision_resolutions@, height) is Ok
}

/// Periods are reckoned one after the other, each for the first time and with a
/// record that undoes it.
pub open spec fn all_reckoned(
    at: Standing,
    results: Seq<ConsensusResult>,
    anchors: Seq<Option<Real>>,
    records: Seq<ConsensusUndoEntry>,
    height: u32,
) -> Option<Standing>
    decreases results.len(),
{
    if anchors.len() != results.len() || records.len() != results.len() {
        None
    } else if results.len() == 0 {
        Some(at)
    } else {
        match all_reckoned(
            at,
            results.drop_last(),
            anchors.drop_last(),
            records.drop_last(),
            height,
        ) {
            None => None,
            Some(mid) => if is_first_reckoning(mid, results.last(), height) && is_record_of(
                records.last(),
                mid,
                results.last(),
            ) {
                Some(reckoning_stored(mid, results.last(), anchors.last()))
            } else {
                None
            },
        }
    }
}

/// Undoing the reckoning of periods, the last one first, takes votes and
/// reputations back to where they were. What happened to decisions happened at
/// the height of the block.
pub proof fn reverting_undoes_all_reckonings(
    at: Standing,
    results: Seq<ConsensusResult>,
    anchors: Seq<Option<Real>>,
    records: Seq<ConsensusUndoEntry>,
    height: u32,
    after: Standing,
)
    requires
        positives(at.reputation) == at.reputation,
        all_reckoned(at, results, anchors, records, height) == Some(after),
    ensures
        reckonings_undone(after.voting, after.reputation, records) == (at.voting, at.reputation),
        positives(after.reputation) == after.reputation,
        after.decisions == (DecisionsView {
            histories: after.decisions.histories,
            ..at.decisions
        }),
        happened_at(at.decisions.histories, after.decisions.histories, height),
    decreases results.len(),
{
    if results.len() > 0 {
        let front = records.drop_last();
        let mid = all_reckoned(at, results.drop_last(), anchors.drop_last(), front, height)->0;
        reverting_undoes_all_reckonings(
            at,
            results.drop_last(),
            anchors.drop_last(),
            front,
            height,
            mid,
        );
        let result = results.last();
        reverting_undoes_reckoning(mid.voting, result.decision_outcomes@, result.period_stats);
        assert(positives(positives(mid.reputation)) =~= mid.reputation);
        assert(positives(after.reputation) =~= after.reputation);
        resolving_happens_at_its_height(
            mid.decisions,
            result.decision_resolutions@,
            height,
            after.decisions,
        );
        assert forall|id: DecisionId| #[trigger] at.decisions.histories.dom().contains(
            id,
        ) implies {
            ||| after.decisions.histories[id] == at.decisions.histories[id]
            ||| !(current_of(at.decisions.histories[id]) is Created)
        } by {
            assert(mid.decisions.histories.dom().contains(id));
        }
        if height > 0 {
            assert forall|id: DecisionId| #[trigger] at.decisions.histories.dom().contains(
                id,
            ) implies up_to_height(after.decisions.histories[id], (height - 1) as u32)
                == up_to_height(at.decisions.histories[id], (height - 1) as u32) by {
                assert(mid.decisions.histories.dom().contains(id));
            }
        }
    }
}

/// What the reckoning of votes starts from, after new periods were opened and
/// prices worked out anew.
pub open spec fn to_reckon(
    written: State,
    pricing: Map<u32, PeriodPricing>,
    height: u32,
    current_period: u32,
) -> Standing {
    Standing {
        voting: written.voting@,
        reputation: written.reputation@,
        decisions: DecisionsView {
            pricing,
            ..periods_opened(written.decisions@, height, current_period)
        },
    }
}

/// A block is closed after its votes were reckoned and markets settled, and what
/// undoes that is kept. What was kept of the settlement of markets takes it back.
pub open spec fn is_closed(
    written: State,
    closed: State,
    reckoned: Standing,
    records: Seq<ConsensusUndoEntry>,
    settlements: Seq<SettlementUndoEntry>,
    block_hash: BlockHash,
    height: u32,
) -> bool {
    &&& closed == (State {
        tip: Some(block_hash),
        height: Some(height),
        mainchain_timestamp: closed.mainchain_timestamp,
        decisions: closed.decisions,
        voting: closed.voting,
        reputation: closed.reputation,
        ledger: closed.ledger,
        markets: closed.markets,
        consensus_undo: closed.consensus_undo,
        settlement_undo: closed.settlement_undo,
        ..written
    })
    &&& closed.voting@ == reckoned.voting
    &&& closed.reputation@ == reckoned.reputation
    &&& closed.decisions@ == reckoned.decisions
    &&& settlements_undone(closed.ledger@, closed.markets@, settlements, height) == Ok::<
        (LedgerView, MarketsView),
        Error,
    >((written.ledger@, written.markets@))
    &&& if records.len() > 0 {
        closed.consensus_undo@.dom().contains(height) && closed.consensus_undo@[height]@ == records
    } else {
        closed.consensus_undo@ == written.consensus_undo@
    }
    &&& if settlements.len() > 0 {
        closed.settlement_undo@.dom().contains(height) && closed.settlement_undo@[height]@
            == settlements
    } else {
        closed.settlement_undo@ == written.settlement_undo@
    }
}

proof fn lemma_inputs_noted(ledger: LedgerView, inputs: Seq<OutPoint>, txid: Txid)
    requires
        inputs_spent(ledger, inputs, txid) is Ok,
    ensures
        ({
            let after = inputs_spent(ledger, inputs, txid)->Ok_0;
            forall|i: int|
                0 <= i < inputs.len() ==> after.stxos.dom().contains(#[trigger] inputs[i])
                    && after.stxos[inputs[i]].inpoint == (InPoint::Regular { txid, vin: i as u32 })
                    && !after.utxos.dom().contains(inputs[i])
        }),
    decreases inputs.len(),
{
    if inputs.len() > 0 {
        let front = inputs.drop_last();
        lemma_inputs_noted(ledger, front, txid);
        let before = inputs_spent(ledger, front, txid)->Ok_0;
        let after = inputs_spent(ledger, inputs, txid)->Ok_0;
        assert forall|i: int| 0 <= i < inputs.len() implies after.stxos.dom().contains(
            #[trigger] inputs[i],
        ) && after.stxos[inputs[i]].inpoint == (InPoint::Regular { txid, vin: i as u32 })
            && !after.utxos.dom().contains(inputs[i]) by {
            if i < front.len() {
                assert(front[i] == inputs[i]);
                assert(!before.utxos.dom().contains(front[i]));
            }
        }
    }
}

proof fn lemma_made_keeps_spent(ledger: LedgerView, outputs: Seq<FilledOutput>, txid: Txid)
    ensures
        outputs_made(ledger, outputs, txid).stxos == ledger.stxos,
    decreases outputs.len(),
{
    if outputs.len() > 0 {
        lemma_made_keeps_spent(ledger, outputs.drop_last(), txid);
    }
}

/// A transaction that took effect is noted as the spender of its inputs.
proof fn lemma_noted_as_spender(ledger: LedgerView, tx: FilledTransaction)
    requires
        coins_moved(ledger, tx) is Ok,
        tx.transaction.id().0@ == tx.transaction.id_bytes(),
    ensures
        all_spent(coins_moved(ledger, tx)->Ok_0.stxos, tx.transaction.inputs@),
        spent_by(
            coins_moved(ledger, tx)->Ok_0.stxos,
            tx.transaction.inputs@,
            tx.transaction.id_bytes(),
        ),
{
    let txid = tx.transaction.id();
    let inputs = tx.transaction.inputs@;
    let stxos = coins_moved(ledger, tx)->Ok_0.stxos;
    lemma_inputs_noted(ledger, inputs, txid);
    lemma_made_keeps_spent(inputs_spent(ledger, inputs, txid)->Ok_0, tx.filled()->Some_0, txid);
    assert forall|i: int| 0 <= i < inputs.len() && #[trigger] spent_from(
        stxos,
        inputs,
        i,
    ) implies match stxos[inputs[i]].inpoint {
        InPoint::Regular { txid, vin } => txid.0@ == tx.transaction.id_bytes() && vin == i as u32,
        _ => false,
    } by {
        assert(stxos.dom().contains(inputs[i]));
    }
}

/// Moving coins back, those of the last transaction first, gives back the ledger.
pub proof fn taking_back_undoes_moving(
    ledger: LedgerView,
    txs: Seq<FilledTransaction>,
)
    requires
        ledger.index_in_step(),
        have_own_ids(txs),
        moves_are_new(ledger, txs, Seq::empty()),
        all_coins_moved(ledger, txs, Seq::empty()) is Ok,
    ensures
        all_coins_moved(ledger, txs, Seq::empty())->Ok_0.index_in_step(),
        plain_taken_back(all_coins_moved(ledger, txs, Seq::empty())->Ok_0, txs) == Some(ledger),
    decreases txs.len(),
{
    if txs.len() > 0 {
        let front = txs.drop_last();
        assert forall|i: int| 0 <= i < front.len() implies (
        #[trigger] front[i]).transaction.id().0@ == front[i].transaction.id_bytes() by {
            assert(front[i] == txs[i]);
        }
        taking_back_undoes_moving(ledger, front);
        let before = all_coins_moved(ledger, front, Seq::empty())->Ok_0;
        assert(txs[txs.len() - 1] == txs.last());
        moving_back_undoes_moving(before, txs.last());
        lemma_noted_as_spender(before, txs.last());
    }
}

/// Without data there is nothing to take back of a transaction but its coins.
pub proof fn plain_transactions_change_coins_only(
    at: Reverting,
    tx: FilledTransaction,
    figures: UndoFigures,
    height: u32,
)
    requires
        tx.transaction.data is None,
    ensures
        data_reverted(at, tx, figures, height) == Ok::<Reverting, Error>(at),
{
}

pub proof fn lemma_no_rows<K: Key, V>()
    ensures
        rows_of(Map::<K, V>::empty()) == Seq::<(K, V)>::empty(),
{
    let none = Seq::<(K, V)>::empty();
    assert(rows_map(none) =~= Map::<K, V>::empty());
    assert(is_rows_of(none, Map::<K, V>::empty()));
    rows_are_determined(rows_of(Map::<K, V>::empty()), none);
}

pub proof fn lemma_nothing_gathered(height: u32, miner_fee: u64)
    ensures
        markets_due(
            BlockTrades { sells: Seq::empty(), buys: Seq::empty(), height, miner_fee },
        ).len() == 0,
{
    lemma_no_rows::<MarketId, ()>();
    assert(traded_in(sold_in(Seq::empty()), Seq::empty()) =~= Map::<MarketId, ()>::empty());
}

proof fn lemma_coinbase_apart(
    ledger: LedgerView,
    merkle_root: MerkleRoot,
    coinbase: Seq<TxOutput>,
    coins: Set<OutPoint>,
)
    ensures
        coinbase_made(forgetting(ledger, coins), merkle_root, coinbase) == forgetting(
            coinbase_made(ledger, merkle_root, coinbase),
            coins,
        ),
    decreases coinbase.len(),
{
    if coinbase.len() > 0 {
        lemma_coinbase_apart(ledger, merkle_root, coinbase.drop_last(), coins);
    }
}

/// The pay of the miner is taken back where it is forgotten how coins were spent.
pub proof fn lemma_coinbase_back(
    ledger: LedgerView,
    merkle_root: MerkleRoot,
    coinbase: Seq<TxOutput>,
    coins: Set<OutPoint>,
)
    requires
        ledger.index_in_step(),
        coinbase.len() <= u32::MAX,
        coinbase_free(ledger, merkle_root, coinbase.len() as int),
    ensures
        coinbase_made(ledger, merkle_root, coinbase).index_in_step(),
        coinbase_unmade(
            forgetting(coinbase_made(ledger, merkle_root, coinbase), coins),
            merkle_root,
            coinbase.len(),
        ) == Ok::<LedgerView, Error>(forgetting(ledger, coins)),
        ledger.stxos.dom().disjoint(coins) ==> forgetting(ledger, coins) == ledger,
{
    unmaking_undoes_coinbase(ledger, merkle_root, coinbase);
    unmaking_undoes_coinbase(forgetting(ledger, coins), merkle_root, coinbase);
    lemma_coinbase_apart(ledger, merkle_root, coinbase, coins);
    if ledger.stxos.dom().disjoint(coins) {
        nothing_to_forget(ledger, coins);
    }
}

/// Disconnecting a block of plain transactions takes the state back to where it
/// was before the block was opened, written down and closed: the coins, the
/// markets, the votes, the reputations, the decisions, the tip and its height.
/// What is forgotten is how a coin that the block spent had been spent before,
/// where that was noted. Periods may have been reckoned in the block, each for
/// the first time, and markets settled. `undone` is the state without what was done after the
/// transactions, and `taken_back` the one in which their coins, too, have been
/// moved back.
pub proof fn disconnecting_undoes_a_plain_block(
    before: State,
    opened: State,
    written: State,
    reckoned: Standing,
    closed: State,
    undone: State,
    taken_back: State,
    header: Header,
    block_hash: BlockHash,
    coinbase: Seq<TxOutput>,
    txs: Seq<FilledTransaction>,
    addresses: Map<MarketId, FundsAddresses>,
    result: Written,
    pricing: Map<u32, PeriodPricing>,
    results: Seq<ConsensusResult>,
    anchors: Seq<Option<Real>>,
    records: Seq<ConsensusUndoEntry>,
    settlements: Seq<SettlementUndoEntry>,
    mainchain_timestamp: u64,
    current_period: u32,
    height: u32,
    coinbase_value: u64,
    miner_fee: u64,
)
    requires
        height > 0,
        header.prev_side_hash is Some,
        before.tip == header.prev_side_hash,
        before.height == Some((height - 1) as u32),
        nothing_kept(before, height),
        before.ledger@.index_in_step(),
        positives(before.reputation@) == before.reputation@,
        has_rows(before.decisions@.histories),
        has_rows(before.decisions@.pricing),
        happened_under(before.decisions@.histories, height),
        !before.decisions@.pricing_undo.dom().contains(height),
        current_period + FUTURE_PERIODS < u32::MAX,
        highest_or_zero(before.decisions@.periods) < u32::MAX,
        coinbase.len() <= u32::MAX,
        coinbase_free(before.ledger@, header.merkle_root, coinbase.len() as int),
        are_plain(txs),
        moves_fit(coinbase_made(before.ledger@, header.merkle_root, coinbase), txs),
        block_opened(
            opened_parts(before),
            header,
            coinbase,
            mainchain_timestamp,
            current_period,
            height,
        ) == Ok::<Opened, Error>(opened_parts(opened)),
        is_opened(before, opened),
        transactions_written(
            opened,
            StateUpdateView::empty(),
            addresses,
            coinbase_value,
            txs,
            Seq::empty(),
            height,
            miner_fee,
        ) == Ok::<Written, Error>(result),
        is_written(opened, written, result),
        all_reckoned(
            to_reckon(written, pricing, height, current_period),
            results,
            anchors,
            records,
            height,
        ) == Some(reckoned),
        is_closed(written, closed, reckoned, records, settlements, block_hash, height),
        undone == (State {
            ledger: undone.ledger,
            markets: undone.markets,
            voting: undone.voting,
            reputation: undone.reputation,
            settlement_undo: undone.settlement_undo,
            consensus_undo: undone.consensus_undo,
            consolidation_undo: undone.consolidation_undo,
            ..closed
        }),
        end_undone(closed, height) is Ok ==> {
            let end = end_undone(closed, height)->Ok_0;
            &&& undone.ledger@ == end.ledger
            &&& undone.markets@ == end.markets
            &&& undone.voting@ == end.voting
            &&& undone.reputation@ == end.reputation
        },
        taken_back == (State { ledger: taken_back.ledger, ..undone }),
        plain_taken_back(undone.ledger@, txs) is Some ==> taken_back.ledger@ == plain_taken_back(
            undone.ledger@,
            txs,
        )->0,
    ensures
        tip_problem(closed.tip, closed.height, header, block_hash, header.merkle_root) is None,
        end_undone(closed, height) is Ok,
        skipped_at(closed, height) == Seq::<u32>::empty(),
        plain_taken_back(undone.ledger@, txs) is Some,
        taken_back.voting@ == before.voting@,
        start_undone(
            taken_back,
            header,
            coinbase.len(),
            Seq::<TradeShareDelta>::empty(),
            height,
        ) is Ok,
        ({
            let done = start_undone(
                taken_back,
                header,
                coinbase.len(),
                Seq::<TradeShareDelta>::empty(),
                height,
            )->Ok_0;
            &&& done.ledger == forgetting(before.ledger@, inputs_of(txs))
            &&& before.ledger@.stxos.dom().disjoint(inputs_of(txs)) ==> done.ledger
                == before.ledger@
            &&& done.markets == before.markets@
            &&& done.reputation == before.reputation@
            &&& done.decisions == before.decisions@
            &&& done.tip == before.tip
            &&& done.height == before.height
        }),
{
    lemma_nothing_gathered(height, miner_fee);
    lemma_no_rows::<ShareChangeKey, i64>();
    assert(result.undo is None);
    assert(result.markets == opened.markets@);
    assert(result.voting == opened.voting@);
    lemma_coinbase_back(before.ledger@, header.merkle_root, coinbase, inputs_of(txs));
    taking_back_gives_back_coins(opened.ledger@, txs);
    let start = to_reckon(written, pricing, height, current_period);
    reverting_undoes_all_reckonings(start, results, anchors, records, height, reckoned);
    assert(end_undone(closed, height) is Ok);
    assert(undone.ledger@ == written.ledger@);
    assert(undone.markets@ == written.markets@);
    assert(undone.voting@ == written.voting@ && undone.reputation@ == written.reputation@);
    assert(taken_back.ledger@ == forgetting(opened.ledger@, inputs_of(txs)));
    disconnecting_undoes_deciding(
        before.decisions@,
        opened.decisions@,
        closed.decisions@,
        before.minting_undo@,
        height,
        current_period,
    );
}

/// The plain transactions of a block that was written down can be taken back:
/// their coins come back to where they were when the block had been opened.
pub proof fn plain_blocks_can_be_taken_back(
    opened: State,
    txs: Seq<FilledTransaction>,
    addresses: Map<MarketId, FundsAddresses>,
    result: Written,
    height: u32,
    coinbase_value: u64,
    miner_fee: u64,
)
    requires
        opened.ledger@.index_in_step(),
        are_plain(txs),
        moves_fit(opened.ledger@, txs),
        transactions_written(
            opened,
            StateUpdateView::empty(),
            addresses,
            coinbase_value,
            txs,
            Seq::empty(),
            height,
            miner_fee,
        ) == Ok::<Written, Error>(result),
    ensures
        plain_taken_back(result.ledger, txs) == Some(
            forgetting(opened.ledger@, inputs_of(txs)),
        ),
{
    lemma_nothing_gathered(height, miner_fee);
    taking_back_gives_back_coins(opened.ledger@, txs);
}

/// A block that is not the tip is refused.
pub proof fn only_the_tip_is_disconnected(state: State, header: Header, block_hash: BlockHash)
    requires
        state.tip is Some,
        state.tip != Some(block_hash),
    ensures
        tip_problem(state.tip, state.height, header, block_hash, header.merkle_root) == Some(
            Error::InvalidHeader(
                InvalidHeader::BlockHash { expected: state.tip->Some_0, computed: block_hash },
            ),
        ),
{
}

} // verus!
