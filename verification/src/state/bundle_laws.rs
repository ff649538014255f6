//! What holds of deposits and of withdrawal bundles.

use vstd::prelude::*;

use crate::state::ledger::LedgerView;
use crate::state::peg::{
    failed_height, BlockEvent, BundleOutput, BundleRowView, Deposit, InfoView, PegView,
    StatusHistory, WithdrawalBundle, WithdrawalBundleEvent, WithdrawalBundleEventStatus,
    WithdrawalBundleStatus,
};
use crate::state::rollback::HeightStamped;
use crate::state::two_way_peg_data::{
    bundle_event, bundle_wanted, connect_one, pending_stored, reinstate_all, resubmission_problem,
    withdraw_all, Coins, PegProgress,
};
use crate::state::withdrawals::{
    aggregates, does_not_fit, fee_to, fees_of_first, is_selection, outputs_of_first, size_of_first,
    tried, value_to, AggregatedWithdrawal,
};
use crate::state::Error;
use crate::types::transaction::output::{FilledContent, FilledOutput, MainAddress};
use crate::types::transaction::{InPoint, OutPoint};
use crate::types::{M6id, MainBlockHash};

verus! {

/// A deposit on the mainchain makes a coin of this chain, with the owner and the
/// content that the deposit names. No other coin changes.
pub proof fn deposits_make_a_coin(
    at: PegProgress,
    height: u32,
    hash: MainBlockHash,
    deposit: Deposit,
    after: PegProgress,
)
    requires
        connect_one(at, height, hash, BlockEvent::Deposit(deposit)) == Ok::<PegProgress, Error>(
            after,
        ),
    ensures
        after.ledger.utxos.dom().contains(OutPoint::Deposit(deposit.outpoint)),
        after.ledger.utxos[OutPoint::Deposit(deposit.outpoint)] == deposit.output,
        forall|o: OutPoint|
            o != OutPoint::Deposit(deposit.outpoint) ==> (
            #[trigger] after.ledger.utxos.dom().contains(o) <==> at.ledger.utxos.dom().contains(o))
                && after.ledger.utxos[o] == at.ledger.utxos[o],
        after.ledger.stxos == at.ledger.stxos,
        after.peg == at.peg,
        after.deposit_block == Some(hash),
        after.event_block == at.event_block,
{
}

/// Deposits are never refused.
pub proof fn deposits_are_taken(
    at: PegProgress,
    height: u32,
    hash: MainBlockHash,
    deposit: Deposit,
)
    ensures
        connect_one(at, height, hash, BlockEvent::Deposit(deposit)) is Ok,
{
}

/// Coins that a bundle spends are gone, and noted as spent by that bundle; other
/// coins stay.
pub proof fn bundles_spend_their_coins(
    ledger: LedgerView,
    coins: Coins,
    m6id: M6id,
    after: LedgerView,
    o: OutPoint,
)
    requires
        withdraw_all(ledger, coins, m6id) == Ok::<LedgerView, OutPoint>(after),
    ensures
        (forall|i: int| 0 <= i < coins.len() ==> (#[trigger] coins[i]).0 != o) ==> {
            &&& after.utxos.dom().contains(o) <==> ledger.utxos.dom().contains(o)
            &&& after.utxos[o] == ledger.utxos[o]
            &&& after.stxos.dom().contains(o) <==> ledger.stxos.dom().contains(o)
            &&& after.stxos[o] == ledger.stxos[o]
        },
        forall|i: int|
            0 <= i < coins.len() && (#[trigger] coins[i]).0 == o ==> {
                &&& ledger.utxos.dom().contains(o)
                &&& !after.utxos.dom().contains(o)
                &&& after.stxos.dom().contains(o)
                &&& after.stxos[o].output == coins[i].1
                &&& after.stxos[o].inpoint == (InPoint::Withdrawal { m6id })
            },
    decreases coins.len(),
{
    if coins.len() > 0 {
        let front = coins.drop_last();
        let before = withdraw_all(ledger, front, m6id)->Ok_0;
        bundles_spend_their_coins(ledger, front, m6id, before, o);
        assert(coins[coins.len() - 1] == coins.last());
        if forall|i: int| 0 <= i < coins.len() ==> (#[trigger] coins[i]).0 != o {
            assert forall|i: int| 0 <= i < front.len() implies (#[trigger] front[i]).0 != o by {
                assert(front[i] == coins[i]);
            }
        }
        assert forall|i: int| 0 <= i < coins.len() && (#[trigger] coins[i]).0 == o implies {
            &&& ledger.utxos.dom().contains(o)
            &&& !after.utxos.dom().contains(o)
            &&& after.stxos.dom().contains(o)
            &&& after.stxos[o].output == coins[i].1
            &&& after.stxos[o].inpoint == (InPoint::Withdrawal { m6id })
        } by {
            if i < front.len() {
                assert(front[i] == coins[i]);
            } else {
                if exists|j: int| 0 <= j < front.len() && (#[trigger] front[j]).0 == o {
                    let j = choose|j: int| 0 <= j < front.len() && (#[trigger] front[j]).0 == o;
                    assert(!before.utxos.dom().contains(o));
                } else {
                    assert(forall|j: int| 0 <= j < front.len() ==> (#[trigger] front[j]).0 != o);
                }
            }
        }
    }
}

/// The coins of a bundle that failed are there again, as the bundle lists them, and
/// no longer noted as spent; other coins stay.
pub proof fn failed_bundles_give_their_coins_back(ledger: LedgerView, coins: Coins, o: OutPoint)
    ensures
        (forall|i: int| 0 <= i < coins.len() ==> (#[trigger] coins[i]).0 != o) ==> {
            let after = reinstate_all(ledger, coins);
            &&& after.utxos.dom().contains(o) <==> ledger.utxos.dom().contains(o)
            &&& after.utxos[o] == ledger.utxos[o]
            &&& after.stxos.dom().contains(o) <==> ledger.stxos.dom().contains(o)
            &&& after.stxos[o] == ledger.stxos[o]
        },
        forall|i: int|
            0 <= i < coins.len() && (#[trigger] coins[i]).0 == o && (forall|j: int|
                i < j < coins.len() ==> (#[trigger] coins[j]).0 != o) ==> {
                let after = reinstate_all(ledger, coins);
                &&& after.utxos.dom().contains(o)
                &&& after.utxos[o] == coins[i].1
                &&& !after.stxos.dom().contains(o)
            },
    decreases coins.len(),
{
    if coins.len() > 0 {
        let front = coins.drop_last();
        failed_bundles_give_their_coins_back(ledger, front, o);
        assert(coins[coins.len() - 1] == coins.last());
        if forall|i: int| 0 <= i < coins.len() ==> (#[trigger] coins[i]).0 != o {
            assert forall|i: int| 0 <= i < front.len() implies (#[trigger] front[i]).0 != o by {
                assert(front[i] == coins[i]);
            }
        }
        assert forall|i: int|
            0 <= i < coins.len() && (#[trigger] coins[i]).0 == o && (forall|j: int|
                i < j < coins.len() ==> (#[trigger] coins[j]).0 != o) implies {
            let after = reinstate_all(ledger, coins);
            &&& after.utxos.dom().contains(o)
            &&& after.utxos[o] == coins[i].1
            &&& !after.stxos.dom().contains(o)
        } by {
            if i < front.len() {
                assert(front[i] == coins[i]);
                assert(coins[coins.len() - 1].0 != o);
                assert forall|j: int| i < j < front.len() implies (#[trigger] front[j]).0
                    != o by {
                    assert(front[j] == coins[j]);
                }
            }
        }
    }
}

/// Where a bundle stands.
pub open spec fn stands_at(
    peg: PegView,
    m6id: M6id,
    value: WithdrawalBundleStatus,
    height: u32,
) -> bool {
    &&& peg.bundles.dom().contains(m6id)
    &&& peg.bundles[m6id].status.len() > 0
    &&& peg.bundles[m6id].status.last().value == value
    &&& peg.bundles[m6id].status.last().height == height
}

/// A bundle that waits is submitted: it spends its coins, waits no longer, and
/// stands as submitted at the height of the block.
pub proof fn submitted_bundles_spend_their_coins(
    ledger: LedgerView,
    peg: PegView,
    height: u32,
    hash: MainBlockHash,
    m6id: M6id,
    after: (LedgerView, PegView),
    bundle: WithdrawalBundle,
)
    requires
        peg.pending == Some(m6id),
        peg.bundles[m6id].info == InfoView::Known(bundle),
        bundle_event(
            ledger,
            peg,
            height,
            hash,
            WithdrawalBundleEvent { m6id, status: WithdrawalBundleEventStatus::Submitted },
        ) == Ok::<(LedgerView, PegView), Error>(after),
    ensures
        withdraw_all(ledger, bundle.spend_utxos@, m6id) == Ok::<LedgerView, OutPoint>(after.0),
        after.1.pending is None,
        stands_at(after.1, m6id, WithdrawalBundleStatus::Submitted, height),
        after.1.bundles[m6id].info == InfoView::Known(bundle),
        after.1.bundles[m6id].status.drop_last() == peg.bundles[m6id].status,
        after.1.latest_failed == peg.latest_failed,
        forall|other: M6id|
            other != m6id ==> (#[trigger] after.1.bundles.dom().contains(other)
                <==> peg.bundles.dom().contains(other)) && after.1.bundles[other]
                == peg.bundles[other],
{
    assert(after.1.bundles[m6id].status.drop_last() =~= peg.bundles[m6id].status);
}

/// A bundle that nobody knows is noted when it is submitted, and spends nothing.
pub proof fn unknown_bundles_are_noted(
    ledger: LedgerView,
    peg: PegView,
    height: u32,
    hash: MainBlockHash,
    m6id: M6id,
    after: (LedgerView, PegView),
)
    requires
        peg.pending != Some(m6id),
        !peg.bundles.dom().contains(m6id),
        bundle_event(
            ledger,
            peg,
            height,
            hash,
            WithdrawalBundleEvent { m6id, status: WithdrawalBundleEventStatus::Submitted },
        ) == Ok::<(LedgerView, PegView), Error>(after),
    ensures
        after.0 == ledger,
        stands_at(after.1, m6id, WithdrawalBundleStatus::Submitted, height),
        after.1.bundles[m6id].info is Unknown,
        after.1.pending == peg.pending,
{
}

/// A bundle that was submitted is confirmed: nothing more is spent, and it stands as
/// confirmed.
pub proof fn confirmed_bundles_stay_spent(
    ledger: LedgerView,
    peg: PegView,
    height: u32,
    hash: MainBlockHash,
    m6id: M6id,
    after: (LedgerView, PegView),
)
    requires
        peg.bundles[m6id].info is Known,
        peg.bundles[m6id].status.last().value == WithdrawalBundleStatus::Submitted,
        bundle_event(
            ledger,
            peg,
            height,
            hash,
            WithdrawalBundleEvent { m6id, status: WithdrawalBundleEventStatus::Confirmed },
        ) == Ok::<(LedgerView, PegView), Error>(after),
    ensures
        after.0 == ledger,
        stands_at(after.1, m6id, WithdrawalBundleStatus::Confirmed, height),
        after.1.bundles[m6id].info == peg.bundles[m6id].info,
        after.1.pending == peg.pending,
        after.1.latest_failed == peg.latest_failed,
        forall|other: M6id|
            other != m6id ==> (#[trigger] after.1.bundles.dom().contains(other)
                <==> peg.bundles.dom().contains(other)) && after.1.bundles[other]
                == peg.bundles[other],
{
}

/// A bundle that was submitted fails: its coins are given back, it stands as failed,
/// and is noted as the one that failed last.
pub proof fn rejected_bundles_fail(
    ledger: LedgerView,
    peg: PegView,
    height: u32,
    hash: MainBlockHash,
    m6id: M6id,
    after: (LedgerView, PegView),
    bundle: WithdrawalBundle,
)
    requires
        peg.bundles[m6id].info == InfoView::Known(bundle),
        peg.bundles[m6id].status.last().value == WithdrawalBundleStatus::Submitted,
        bundle_event(
            ledger,
            peg,
            height,
            hash,
            WithdrawalBundleEvent { m6id, status: WithdrawalBundleEventStatus::Failed },
        ) == Ok::<(LedgerView, PegView), Error>(after),
    ensures
        after.0 == reinstate_all(ledger, bundle.spend_utxos@),
        stands_at(after.1, m6id, WithdrawalBundleStatus::Failed, height),
        after.1.latest_failed is Some,
        after.1.latest_failed->0.len() > 0,
        after.1.latest_failed->0.last().value == m6id,
        after.1.latest_failed->0.last().height == height,
        after.1.pending == peg.pending,
        after.1.bundles[m6id].info == peg.bundles[m6id].info,
        forall|other: M6id|
            other != m6id ==> (#[trigger] after.1.bundles.dom().contains(other)
                <==> peg.bundles.dom().contains(other)) && after.1.bundles[other]
                == peg.bundles[other],
{
}

/// A bundle that the mainchain pays, or rejects, must have been submitted.
pub proof fn bundles_are_submitted_first(
    ledger: LedgerView,
    peg: PegView,
    height: u32,
    hash: MainBlockHash,
    event: WithdrawalBundleEvent,
)
    requires
        event.status != WithdrawalBundleEventStatus::Submitted,
        bundle_event(ledger, peg, height, hash, event) is Ok,
    ensures
        peg.bundles.dom().contains(event.m6id),
        ({
            let value = peg.bundles[event.m6id].status.last().value;
            ||| value == WithdrawalBundleStatus::Submitted
            ||| value == WithdrawalBundleStatus::SubmittedUnexpected
            ||| value == WithdrawalBundleStatus::Confirmed && event.status
                == WithdrawalBundleEventStatus::Confirmed
            ||| value == WithdrawalBundleStatus::Failed && event.status
                == WithdrawalBundleEventStatus::Failed
        }),
{
}

/// A new bundle is made only where none waits, and four blocks have passed since the
/// last one failed, if one did.
pub proof fn bundles_wait_after_a_failure(peg: PegView, height: u32)
    ensures
        bundle_wanted(peg, height) <==> peg.pending is None && height >= peg.failure_height() + 4,
{
}

/// A new bundle waits, known by its id, as pending at the height of the block.
pub proof fn new_bundles_wait(
    peg: PegView,
    height: u32,
    bundle: WithdrawalBundle,
    after: PegView,
)
    requires
        pending_stored(peg, height, bundle) == Ok::<PegView, Error>(after),
    ensures
        after.pending == Some(bundle.m6id),
        stands_at(after, bundle.m6id, WithdrawalBundleStatus::Pending, height),
        after.bundles[bundle.m6id].info == InfoView::Known(bundle),
        after.latest_failed == peg.latest_failed,
        after.deposit_blocks == peg.deposit_blocks,
        after.event_blocks == peg.event_blocks,
        forall|other: M6id|
            other != bundle.m6id ==> (#[trigger] after.bundles.dom().contains(other)
                <==> peg.bundles.dom().contains(other)) && after.bundles[other]
                == peg.bundles[other],
{
}

/// Withdrawals to one address are paid together: the sums of what they pay and of
/// their fees count each of them once.
pub proof fn withdrawals_add_up(
    rows: Seq<(OutPoint, FilledOutput)>,
    row: (OutPoint, FilledOutput),
    address: MainAddress,
)
    ensures
        value_to(Seq::empty(), address) == 0,
        fee_to(Seq::empty(), address) == 0,
        match row.1.content {
            FilledContent::BitcoinWithdrawal(w) => {
                &&& w.main_address == address ==> {
                    &&& value_to(rows.push(row), address) == value_to(rows, address) + w.value
                    &&& fee_to(rows.push(row), address) == fee_to(rows, address) + w.main_fee
                }
                &&& w.main_address != address ==> {
                    &&& value_to(rows.push(row), address) == value_to(rows, address)
                    &&& fee_to(rows.push(row), address) == fee_to(rows, address)
                }
            },
            _ => {
                &&& value_to(rows.push(row), address) == value_to(rows, address)
                &&& fee_to(rows.push(row), address) == fee_to(rows, address)
            },
        },
{
    assert(rows.push(row).drop_last() =~= rows);
}

/// The coins of an aggregate are all coins that withdraw to its address, and no
/// others.
pub proof fn aggregates_hold_their_coins(
    a: AggregatedWithdrawal,
    rows: Seq<(OutPoint, FilledOutput)>,
    row: (OutPoint, FilledOutput),
)
    requires
        aggregates(a, rows),
    ensures
        a.value == value_to(rows, a.main_address),
        a.main_fee == fee_to(rows, a.main_address),
        a.spend_utxos@.contains(row) <==> rows.contains(row) && match row.1.content {
            FilledContent::BitcoinWithdrawal(w) => w.main_address == a.main_address,
            _ => false,
        },
{
    let pred = |r: (OutPoint, FilledOutput)|
        crate::state::withdrawals::withdraws_to(r, a.main_address);
    lemma_filtered(rows, pred, row);
    assert(pred(row) <==> match row.1.content {
        FilledContent::BitcoinWithdrawal(w) => w.main_address == a.main_address,
        _ => false,
    });
}

/// A list that is filtered holds what meets the condition, and nothing else.
pub proof fn lemma_filtered<A>(list: Seq<A>, pred: spec_fn(A) -> bool, a: A)
    ensures
        list.filter(pred).contains(a) <==> list.contains(a) && pred(a),
    decreases list.len(),
{
    reveal(Seq::filter);
    if list.len() > 0 {
        let front = list.drop_last();
        let last = list.last();
        lemma_filtered(front, pred, a);
        let before = front.filter(pred);
        let after = list.filter(pred);
        assert(list[list.len() - 1] == last);
        if front.contains(a) {
            assert(list[front.index_of(a)] == a);
        }
        if list.contains(a) && a != last {
            assert(front[list.index_of(a)] == a);
        }
        if pred(last) {
            assert(after == before.push(last));
            assert(after[before.len() as int] == last);
            if before.contains(a) {
                assert(after[before.index_of(a)] == a);
            }
            if after.contains(a) && a != last {
                assert(before[after.index_of(a)] == a);
            }
        } else {
            assert(after == before);
        }
    }
}

/// The sum of the fees of some withdrawals.
pub open spec fn fee_sum(withdrawals: Seq<AggregatedWithdrawal>) -> int
    decreases withdrawals.len(),
{
    if withdrawals.len() == 0 {
        0
    } else {
        fee_sum(withdrawals.drop_last()) + withdrawals.last().main_fee
    }
}

proof fn lemma_all_first(
    withdrawals: Seq<AggregatedWithdrawal>,
    sizes: Seq<Option<u32>>,
    n: int,
)
    requires
        0 <= n <= withdrawals.len(),
        sizes.len() == withdrawals.len(),
        forall|i: int| 0 <= i < sizes.len() ==> (#[trigger] sizes[i]) is Some,
    ensures
        fees_of_first(withdrawals, sizes, n) == fee_sum(withdrawals.subrange(0, n)),
        outputs_of_first(withdrawals, sizes, n).len() == n,
        forall|i: int|
            0 <= i < n ==> (#[trigger] outputs_of_first(withdrawals, sizes, n)[i]) == (
                withdrawals[i].value,
                withdrawals[i].main_address.script_pubkey@,
            ),
    decreases n,
{
    if n > 0 {
        lemma_all_first(withdrawals, sizes, n - 1);
        assert(withdrawals.subrange(0, n).drop_last() =~= withdrawals.subrange(0, n - 1));
        assert(sizes[n - 1] is Some);
    }
}

/// Where all withdrawals fit, a bundle pays each of them: to its address, what it is
/// worth, in the order given. Its fee is the sum of their fees.
pub proof fn bundles_pay_all_that_fit(
    fee: u64,
    outputs: Seq<BundleOutput>,
    spend_utxos: Seq<(OutPoint, FilledOutput)>,
    withdrawals: Seq<AggregatedWithdrawal>,
    sizes: Seq<Option<u32>>,
    too_heavy: Seq<bool>,
)
    requires
        is_selection(fee, outputs, spend_utxos, withdrawals, sizes, too_heavy),
        sizes.len() == withdrawals.len(),
        too_heavy.len() == withdrawals.len(),
        forall|i: int| 0 <= i < sizes.len() ==> (#[trigger] sizes[i]) is Some,
        forall|i: int| 0 <= i < too_heavy.len() ==> !(#[trigger] too_heavy[i]),
        size_of_first(sizes, sizes.len() as int) <= u32::MAX,
    ensures
        fee == fee_sum(withdrawals),
        outputs.len() == withdrawals.len(),
        forall|i: int| #![trigger outputs[i]]
            0 <= i < outputs.len() ==> {
                &&& outputs[i].value == withdrawals[i].value
                &&& outputs[i].script_pubkey@ == withdrawals[i].main_address.script_pubkey@
            },
{
    let plain = |o: BundleOutput| (o.value, o.script_pubkey@);
    let n = choose|n: int|
        {
            &&& #[trigger] tried(sizes, too_heavy, n)
            &&& fee == fees_of_first(withdrawals, sizes, n)
            &&& outputs.map_values(|o: BundleOutput| (o.value, o.script_pubkey@))
                == outputs_of_first(withdrawals, sizes, n)
            &&& crate::types::transaction::order::is_listing(
                spend_utxos,
                crate::state::withdrawals::coins_of_first(withdrawals, sizes, n),
            )
        };
    if n < sizes.len() {
        assert(does_not_fit(sizes, too_heavy, n));
        lemma_sizes_grow(sizes, n + 1, sizes.len() as int);
    }
    lemma_all_first(withdrawals, sizes, n);
    assert(withdrawals.subrange(0, n) =~= withdrawals);
    assert forall|i: int| #![trigger outputs[i]] 0 <= i < outputs.len() implies {
        &&& outputs[i].value == withdrawals[i].value
        &&& outputs[i].script_pubkey@ == withdrawals[i].main_address.script_pubkey@
    } by {
        assert(outputs.map_values(plain)[i] == plain(outputs[i]));
    }
}

proof fn lemma_sizes_grow(sizes: Seq<Option<u32>>, n: int, m: int)
    requires
        n <= m,
    ensures
        size_of_first(sizes, n) <= size_of_first(sizes, m),
    decreases m - n,
{
    if n < m {
        lemma_sizes_grow(sizes, n, m - 1);
    }
}

/// A bundle may be submitted again after it failed, and one that is known also after it
/// was dropped. After that it was confirmed, is pending, or was submitted it may not.
pub proof fn bundles_may_be_submitted_again(
    row: BundleRowView,
    m6id: M6id,
    event_block_hash: MainBlockHash,
)
    ensures
        resubmission_problem(row, m6id, event_block_hash) is None <==> match row.status.last().value {
            WithdrawalBundleStatus::Failed => !(row.info is UnknownConfirmed),
            WithdrawalBundleStatus::Dropped => row.info is Known,
            _ => false,
        },
{
}

/// The height at which a bundle failed is that of its last failure.
pub proof fn the_last_failure_counts(
    status: StatusHistory,
    entry: HeightStamped<WithdrawalBundleStatus>,
)
    ensures
        failed_height(status.push(entry)) == if entry.value is Failed {
            Some(entry.height)
        } else {
            failed_height(status)
        },
{
    assert(status.push(entry).drop_last() =~= status);
}

/// A bundle that was dropped or has failed, and is submitted all the same, is noted as
/// unexpected, and spends nothing.
pub proof fn unexpected_bundles_are_noted(
    ledger: LedgerView,
    peg: PegView,
    height: u32,
    hash: MainBlockHash,
    m6id: M6id,
    after: (LedgerView, PegView),
)
    requires
        peg.pending != Some(m6id),
        peg.bundles.dom().contains(m6id),
        bundle_event(
            ledger,
            peg,
            height,
            hash,
            WithdrawalBundleEvent { m6id, status: WithdrawalBundleEventStatus::Submitted },
        ) == Ok::<(LedgerView, PegView), Error>(after),
    ensures
        after.0 == ledger,
        stands_at(after.1, m6id, WithdrawalBundleStatus::SubmittedUnexpected, height),
        after.1.bundles[m6id].status.drop_last() == peg.bundles[m6id].status,
        after.1.bundles[m6id].info == peg.bundles[m6id].info,
        after.1.pending == peg.pending,
        after.1.latest_failed == peg.latest_failed,
        peg.bundles[m6id].status.last().value is Failed || peg.bundles[m6id].status.last().value
            is Dropped,
{
    assert(after.1.bundles[m6id].status.drop_last() =~= peg.bundles[m6id].status);
}

proof fn lemma_all_there(ledger: LedgerView, coins: Seq<(OutPoint, FilledOutput)>, m6id: M6id)
    requires
        forall|i: int, j: int|
            0 <= i < j < coins.len() ==> (#[trigger] coins[i]).0 != (#[trigger] coins[j]).0,
        forall|i: int| 0 <= i < coins.len() ==> ledger.utxos.dom().contains((#[trigger] coins[i]).0),
    ensures
        withdraw_all(ledger, coins, m6id) is Ok,
        forall|o: OutPoint|
            ledger.utxos.dom().contains(o) && (forall|i: int|
                0 <= i < coins.len() ==> (#[trigger] coins[i]).0 != o)
                ==> #[trigger] withdraw_all(ledger, coins, m6id)->Ok_0.utxos.dom().contains(o),
    decreases coins.len(),
{
    if coins.len() > 0 {
        let front = coins.drop_last();
        assert forall|i: int| 0 <= i < front.len() implies #[trigger] front[i] == coins[i] by {}
        lemma_all_there(ledger, front, m6id);
        assert(coins[coins.len() - 1] == coins.last());
        assert(forall|i: int| 0 <= i < front.len() ==> (#[trigger] front[i]).0 != coins.last().0);
        let before = withdraw_all(ledger, front, m6id)->Ok_0;
        assert(before.utxos.dom().contains(coins.last().0));
        assert forall|o: OutPoint|
            ledger.utxos.dom().contains(o) && (forall|i: int|
                0 <= i < coins.len() ==> (#[trigger] coins[i]).0
                    != o) implies #[trigger] withdraw_all(
            ledger,
            coins,
            m6id,
        )->Ok_0.utxos.dom().contains(o) by {
            assert(coins.last().0 != o);
            assert forall|i: int| 0 <= i < front.len() implies (#[trigger] front[i]).0 != o by {
                assert(coins[i].0 != o);
            }
            assert(before.utxos.dom().contains(o));
        }
    }
}

/// The pending bundle can be submitted while its coins are there.
pub proof fn pending_bundles_can_be_submitted(
    ledger: LedgerView,
    peg: PegView,
    height: u32,
    hash: MainBlockHash,
    m6id: M6id,
    bundle: WithdrawalBundle,
)
    requires
        peg.pending == Some(m6id),
        peg.bundles.dom().contains(m6id),
        peg.bundles[m6id].info == InfoView::Known(bundle),
        peg.bundles[m6id].status.len() > 0,
        peg.bundles[m6id].status.last().value is Pending,
        peg.bundles[m6id].status.last().height <= height,
        forall|i: int, j: int|
            0 <= i < j < bundle.spend_utxos@.len() ==> (#[trigger] bundle.spend_utxos@[i]).0 != (
            #[trigger] bundle.spend_utxos@[j]).0,
        forall|i: int|
            0 <= i < bundle.spend_utxos@.len() ==> ledger.utxos.dom().contains(
                (#[trigger] bundle.spend_utxos@[i]).0,
            ),
    ensures
        bundle_event(
            ledger,
            peg,
            height,
            hash,
            WithdrawalBundleEvent { m6id, status: WithdrawalBundleEventStatus::Submitted },
        ) is Ok,
{
    lemma_all_there(ledger, bundle.spend_utxos@, m6id);
}

/// A bundle that was submitted unexpectedly spends its coins when it is confirmed.
pub proof fn unexpected_bundles_spend_when_confirmed(
    ledger: LedgerView,
    peg: PegView,
    height: u32,
    hash: MainBlockHash,
    m6id: M6id,
    after: (LedgerView, PegView),
    bundle: WithdrawalBundle,
)
    requires
        peg.bundles.dom().contains(m6id),
        peg.bundles[m6id].info == InfoView::Known(bundle),
        peg.bundles[m6id].status.last().value is SubmittedUnexpected,
        bundle_event(
            ledger,
            peg,
            height,
            hash,
            WithdrawalBundleEvent { m6id, status: WithdrawalBundleEventStatus::Confirmed },
        ) == Ok::<(LedgerView, PegView), Error>(after),
    ensures
        withdraw_all(ledger, bundle.spend_utxos@, m6id) == Ok::<LedgerView, OutPoint>(after.0),
        stands_at(after.1, m6id, WithdrawalBundleStatus::Confirmed, height),
{
}

/// When it fails nothing is given back, since nothing was spent, and it does not count
/// as a failure.
pub proof fn unexpected_bundles_give_nothing_back(
    ledger: LedgerView,
    peg: PegView,
    height: u32,
    hash: MainBlockHash,
    m6id: M6id,
    after: (LedgerView, PegView),
)
    requires
        peg.bundles.dom().contains(m6id),
        peg.bundles[m6id].status.last().value is SubmittedUnexpected,
        bundle_event(
            ledger,
            peg,
            height,
            hash,
            WithdrawalBundleEvent { m6id, status: WithdrawalBundleEventStatus::Failed },
        ) == Ok::<(LedgerView, PegView), Error>(after),
    ensures
        after.0 == ledger,
        after.1.latest_failed == peg.latest_failed,
        stands_at(after.1, m6id, WithdrawalBundleStatus::Failed, height),
{
}

/// A bundle that nobody knows and that is confirmed takes every coin where the chain
/// begins, and is refused later.
pub proof fn unknown_bundles_take_all_at_the_start(
    ledger: LedgerView,
    peg: PegView,
    height: u32,
    hash: MainBlockHash,
    m6id: M6id,
    o: OutPoint,
)
    requires
        peg.bundles.dom().contains(m6id),
        peg.bundles[m6id].info is Unknown,
        peg.bundles[m6id].status.last().value is Submitted,
        peg.bundles[m6id].status.last().height <= height,
    ensures
        height > 0 ==> bundle_event(
            ledger,
            peg,
            height,
            hash,
            WithdrawalBundleEvent { m6id, status: WithdrawalBundleEventStatus::Confirmed },
        ) is Err,
        height == 0 ==> {
            let r = bundle_event(
            ledger,
            peg,
            height,
            hash,
            WithdrawalBundleEvent { m6id, status: WithdrawalBundleEventStatus::Confirmed },
        );
            &&& r is Ok
            &&& !r->Ok_0.0.utxos.dom().contains(o)
            &&& ledger.utxos.dom().contains(o) ==> r->Ok_0.0.stxos.dom().contains(o)
                && r->Ok_0.0.stxos[o].output == ledger.utxos[o] && r->Ok_0.0.stxos[o].inpoint == (
            InPoint::Withdrawal { m6id })
            &&& !ledger.utxos.dom().contains(o) ==> (r->Ok_0.0.stxos.dom().contains(o)
                <==> ledger.stxos.dom().contains(o))
        },
{
}

/// A bundle that was never submitted is neither confirmed nor failed.
pub proof fn only_submitted_bundles_end(
    ledger: LedgerView,
    peg: PegView,
    height: u32,
    hash: MainBlockHash,
    m6id: M6id,
)
    requires
        !peg.bundles.dom().contains(m6id) || peg.bundles[m6id].status.last().value is Pending
            || peg.bundles[m6id].status.last().value is Dropped,
    ensures
        bundle_event(
            ledger,
            peg,
            height,
            hash,
            WithdrawalBundleEvent { m6id, status: WithdrawalBundleEventStatus::Confirmed },
        ) is Err,
        bundle_event(
            ledger,
            peg,
            height,
            hash,
            WithdrawalBundleEvent { m6id, status: WithdrawalBundleEventStatus::Failed },
        ) is Err,
{
}

} // verus!
