//! Connecting and disconnecting what the mainchain says: deposits, and what
//! becomes of withdrawal bundles.
//!
//! Where a function fails, what it has done so far is to be thrown away with
//! the state that it was given.

use vstd::prelude::*;

use crate::replica::Replica;
use crate::state::ledger::{Ledger, LedgerView, UtxoManager};
use crate::state::peg::{
    bundles_view, failed_height, last_of, last_row, lemma_bundles_view, next_seq_idx, BlockEvent,
    BundleRow, BundleRowView, EventBlock, InfoView, Peg, PegView, StatusHistory, TwoWayPegData,
    WITHDRAWAL_BUNDLE_FAILURE_GAP, WithdrawalBundle, WithdrawalBundleEvent,
    WithdrawalBundleEventStatus, WithdrawalBundleInfo, WithdrawalBundleStatus,
};
use crate::state::rollback::{HeightStamped, RollBack};
use crate::state::{Error, Reason};
use crate::table::{has_key, row_has_key, Table};
use crate::types::transaction::order::{is_listing, list_coins, listing};
use crate::types::transaction::output::{FilledOutput, SpentOutput};
use crate::types::transaction::{InPoint, OutPoint};
use crate::types::{Duplicate, M6id, MainBlockHash};

verus! {

/// Outputs with their names.
pub type Coins = Seq<(OutPoint, FilledOutput)>;

/// An output as a bundle spent it.
pub open spec fn withdrawn(output: FilledOutput, m6id: M6id) -> SpentOutput {
    SpentOutput { output, inpoint: InPoint::Withdrawal { m6id } }
}

/// A bundle spends an unspent output.
pub open spec fn withdraw_one(
    ledger: LedgerView,
    coin: (OutPoint, FilledOutput),
    m6id: M6id,
) -> LedgerView {
    ledger.delete(coin.0).note_spent(coin.0, withdrawn(coin.1, m6id))
}

/// A bundle spends outputs in their order; the first that is not unspent is
/// the failure.
pub open spec fn withdraw_all(ledger: LedgerView, coins: Coins, m6id: M6id) -> Result<
    LedgerView,
    OutPoint,
>
    decreases coins.len(),
{
    if coins.len() == 0 {
        Ok(ledger)
    } else {
        match withdraw_all(ledger, coins.drop_last(), m6id) {
            Err(outpoint) => Err(outpoint),
            Ok(done) => if done.utxos.dom().contains(coins.last().0) {
                Ok(withdraw_one(done, coins.last(), m6id))
            } else {
                Err(coins.last().0)
            },
        }
    }
}

proof fn lemma_withdraw_all_prefix(ledger: LedgerView, coins: Coins, m6id: M6id, n: int)
    requires
        0 <= n <= coins.len(),
        withdraw_all(ledger, coins.subrange(0, n), m6id) is Err,
    ensures
        withdraw_all(ledger, coins, m6id) == withdraw_all(ledger, coins.subrange(0, n), m6id),
    decreases coins.len() - n,
{
    if n == coins.len() {
        assert(coins.subrange(0, n) =~= coins);
    } else {
        assert(coins.subrange(0, n + 1).drop_last() =~= coins.subrange(0, n));
        lemma_withdraw_all_prefix(ledger, coins, m6id, n + 1);
    }
}

fn withdraw_coins(
    ledger: &mut Ledger,
    coins: &Box<[(OutPoint, FilledOutput)]>,
    m6id: M6id,
) -> (r: Result<(), OutPoint>)
    ensures
        match r {
            Ok(()) => withdraw_all(old(ledger)@, coins@, m6id) == Ok::<LedgerView, OutPoint>(
                final(ledger)@,
            ),
            Err(outpoint) => withdraw_all(old(ledger)@, coins@, m6id) == Err::<
                LedgerView,
                OutPoint,
            >(outpoint),
        },
{
    let mut i: usize = 0;
    while i < coins.len()
        invariant
            i <= coins@.len(),
            withdraw_all(old(ledger)@, coins@.subrange(0, i as int), m6id) == Ok::<
                LedgerView,
                OutPoint,
            >(ledger@),
        decreases coins@.len() - i,
    {
        proof {
            assert(coins@.subrange(0, i + 1).drop_last() =~= coins@.subrange(0, i as int));
        }
        let coin = &coins[i];
        if !ledger.delete_utxo(&coin.0) {
            proof {
                lemma_withdraw_all_prefix(old(ledger)@, coins@, m6id, i + 1);
            }
            return Err(coin.0);
        }
        let spent = SpentOutput {
            output: coin.1.duplicate(),
            inpoint: InPoint::Withdrawal { m6id },
        };
        ledger.stxos.put(coin.0, spent);
        i += 1;
    }
    assert(coins@.subrange(0, i as int) =~= coins@);
    Ok(())
}

/// An output that a bundle spent is unspent again.
pub open spec fn reinstate_one(ledger: LedgerView, coin: (OutPoint, FilledOutput)) -> LedgerView {
    ledger.forget_spent(coin.0).insert(coin.0, coin.1)
}

/// The outputs that a bundle spent are unspent again. They are taken from the
/// last to the first; the first of these that is not spent is the failure.
pub open spec fn unwithdraw_all(ledger: LedgerView, coins: Coins) -> Result<LedgerView, OutPoint>
    decreases coins.len(),
{
    if coins.len() == 0 {
        Ok(ledger)
    } else if !ledger.stxos.dom().contains(coins.last().0) {
        Err(coins.last().0)
    } else {
        unwithdraw_all(reinstate_one(ledger, coins.last()), coins.drop_last())
    }
}

fn unwithdraw_coins(ledger: &mut Ledger, coins: &Box<[(OutPoint, FilledOutput)]>) -> (r: Result<
    (),
    OutPoint,
>)
    ensures
        match r {
            Ok(()) => unwithdraw_all(old(ledger)@, coins@) == Ok::<LedgerView, OutPoint>(
                final(ledger)@,
            ),
            Err(outpoint) => unwithdraw_all(old(ledger)@, coins@) == Err::<LedgerView, OutPoint>(
                outpoint,
            ),
        },
{
    let mut i: usize = coins.len();
    assert(coins@.subrange(0, i as int) =~= coins@);
    while i > 0
        invariant
            i <= coins@.len(),
            unwithdraw_all(old(ledger)@, coins@) == unwithdraw_all(
                ledger@,
                coins@.subrange(0, i as int),
            ),
        decreases i,
    {
        proof {
            assert(coins@.subrange(0, i as int).drop_last() =~= coins@.subrange(0, i - 1));
        }
        i -= 1;
        let coin = &coins[i];
        if !ledger.stxos.delete(&coin.0) {
            return Err(coin.0);
        }
        ledger.insert_utxo(&coin.0, &coin.1);
    }
    Ok(())
}

/// The outputs of a bundle that was confirmed are unspent again. They are
/// taken from the first to the last; the first that is not spent is the
/// failure.
pub open spec fn unconfirm_all(ledger: LedgerView, coins: Coins) -> Result<LedgerView, OutPoint>
    decreases coins.len(),
{
    if coins.len() == 0 {
        Ok(ledger)
    } else {
        match unconfirm_all(ledger, coins.drop_last()) {
            Err(outpoint) => Err(outpoint),
            Ok(done) => if done.stxos.dom().contains(coins.last().0) {
                Ok(reinstate_one(done, coins.last()))
            } else {
                Err(coins.last().0)
            },
        }
    }
}

proof fn lemma_unconfirm_all_prefix(ledger: LedgerView, coins: Coins, n: int)
    requires
        0 <= n <= coins.len(),
        unconfirm_all(ledger, coins.subrange(0, n)) is Err,
    ensures
        unconfirm_all(ledger, coins) == unconfirm_all(ledger, coins.subrange(0, n)),
    decreases coins.len() - n,
{
    if n == coins.len() {
        assert(coins.subrange(0, n) =~= coins);
    } else {
        assert(coins.subrange(0, n + 1).drop_last() =~= coins.subrange(0, n));
        lemma_unconfirm_all_prefix(ledger, coins, n + 1);
    }
}

fn unconfirm_coins(ledger: &mut Ledger, coins: &Box<[(OutPoint, FilledOutput)]>) -> (r: Result<
    (),
    OutPoint,
>)
    ensures
        match r {
            Ok(()) => unconfirm_all(old(ledger)@, coins@) == Ok::<LedgerView, OutPoint>(
                final(ledger)@,
            ),
            Err(outpoint) => unconfirm_all(old(ledger)@, coins@) == Err::<LedgerView, OutPoint>(
                outpoint,
            ),
        },
{
    let mut i: usize = 0;
    while i < coins.len()
        invariant
            i <= coins@.len(),
            unconfirm_all(old(ledger)@, coins@.subrange(0, i as int)) == Ok::<
                LedgerView,
                OutPoint,
            >(ledger@),
        decreases coins@.len() - i,
    {
        proof {
            assert(coins@.subrange(0, i + 1).drop_last() =~= coins@.subrange(0, i as int));
        }
        let coin = &coins[i];
        ledger.insert_utxo(&coin.0, &coin.1);
        if !ledger.stxos.delete(&coin.0) {
            proof {
                lemma_unconfirm_all_prefix(old(ledger)@, coins@, i + 1);
            }
            return Err(coin.0);
        }
        i += 1;
    }
    assert(coins@.subrange(0, i as int) =~= coins@);
    Ok(())
}

/// The outputs of a bundle that failed are unspent again.
pub open spec fn reinstate_all(ledger: LedgerView, coins: Coins) -> LedgerView
    decreases coins.len(),
{
    if coins.len() == 0 {
        ledger
    } else {
        reinstate_one(reinstate_all(ledger, coins.drop_last()), coins.last())
    }
}

fn reinstate_coins(ledger: &mut Ledger, coins: &Box<[(OutPoint, FilledOutput)]>)
    ensures
        final(ledger)@ == reinstate_all(old(ledger)@, coins@),
{
    let mut i: usize = 0;
    while i < coins.len()
        invariant
            i <= coins@.len(),
            ledger@ == reinstate_all(old(ledger)@, coins@.subrange(0, i as int)),
        decreases coins@.len() - i,
    {
        proof {
            assert(coins@.subrange(0, i + 1).drop_last() =~= coins@.subrange(0, i as int));
        }
        let coin = &coins[i];
        let _ = ledger.stxos.delete(&coin.0);
        ledger.insert_utxo(&coin.0, &coin.1);
        i += 1;
    }
    assert(coins@.subrange(0, i as int) =~= coins@);
}

/// The outputs that a failed bundle gave back are spent by it again. They are
/// taken from the last to the first; the first of these that is not unspent
/// is the failure.
pub open spec fn respend_all(ledger: LedgerView, coins: Coins, m6id: M6id) -> Result<
    LedgerView,
    OutPoint,
>
    decreases coins.len(),
{
    if coins.len() == 0 {
        Ok(ledger)
    } else if !ledger.utxos.dom().contains(coins.last().0) {
        Err(coins.last().0)
    } else {
        respend_all(withdraw_one(ledger, coins.last(), m6id), coins.drop_last(), m6id)
    }
}

fn respend_coins(
    ledger: &mut Ledger,
    coins: &Box<[(OutPoint, FilledOutput)]>,
    m6id: M6id,
) -> (r: Result<(), OutPoint>)
    ensures
        match r {
            Ok(()) => respend_all(old(ledger)@, coins@, m6id) == Ok::<LedgerView, OutPoint>(
                final(ledger)@,
            ),
            Err(outpoint) => respend_all(old(ledger)@, coins@, m6id) == Err::<
                LedgerView,
                OutPoint,
            >(outpoint),
        },
{
    let mut i: usize = coins.len();
    assert(coins@.subrange(0, i as int) =~= coins@);
    while i > 0
        invariant
            i <= coins@.len(),
            respend_all(old(ledger)@, coins@, m6id) == respend_all(
                ledger@,
                coins@.subrange(0, i as int),
                m6id,
            ),
        decreases i,
    {
        proof {
            assert(coins@.subrange(0, i as int).drop_last() =~= coins@.subrange(0, i - 1));
        }
        i -= 1;
        let coin = &coins[i];
        let spent = SpentOutput {
            output: coin.1.duplicate(),
            inpoint: InPoint::Withdrawal { m6id },
        };
        ledger.stxos.put(coin.0, spent);
        if !ledger.delete_utxo(&coin.0) {
            return Err(coin.0);
        }
    }
    Ok(())
}

/// A bundle that waits for submission is submitted.
pub open spec fn submit_pending(
    ledger: LedgerView,
    peg: PegView,
    block_height: u32,
    m6id: M6id,
) -> Result<(LedgerView, PegView), Error> {
    if !peg.bundles.dom().contains(m6id) {
        Err(Error::DatabaseError(Reason::PendingBundleUnknown(m6id)))
    } else {
        let row = peg.bundles[m6id];
        match row.info {
            InfoView::Known(bundle) => match withdraw_all(ledger, bundle.spend_utxos@, m6id) {
                Err(outpoint) => Err(Error::NoUtxo { outpoint }),
                Ok(spent) => if !(row.status.last().value is Pending) {
                    Err(Error::DatabaseError(Reason::ExpectedPending(row.status.last().value)))
                } else if block_height < row.status.last().height {
                    Err(
                        Error::DatabaseError(
                            Reason::Text("failed to push submitted bundle status"),
                        ),
                    )
                } else {
                    Ok(
                        (
                            spent,
                            PegView {
                                pending: None,
                                bundles: with_status(
                                    peg.bundles,
                                    m6id,
                                    WithdrawalBundleStatus::Submitted,
                                    block_height,
                                ),
                                ..peg
                            },
                        ),
                    )
                },
            },
            _ => Err(Error::DatabaseError(Reason::PendingBundleNotKnown(m6id))),
        }
    }
}

/// A bundle enters another state.
pub open spec fn with_status(
    bundles: Map<M6id, BundleRowView>,
    m6id: M6id,
    value: WithdrawalBundleStatus,
    height: u32,
) -> Map<M6id, BundleRowView> {
    bundles.insert(
        m6id,
        BundleRowView {
            status: bundles[m6id].status.push(HeightStamped { value, height }),
            ..bundles[m6id]
        },
    )
}

/// Why a bundle that does not wait for submission cannot be submitted.
pub open spec fn resubmission_problem(
    row: BundleRowView,
    m6id: M6id,
    event_block_hash: MainBlockHash,
) -> Option<Error> {
    match (row.info, row.status.last().value) {
        (_, WithdrawalBundleStatus::Confirmed) => Some(
            Error::DatabaseError(Reason::ConfirmedResubmitted { m6id, event_block_hash }),
        ),
        (_, WithdrawalBundleStatus::Submitted) => Some(
            Error::DatabaseError(
                Reason::SubmittedResubmitted {
                    m6id,
                    height: row.status.last().height,
                    event_block_hash,
                },
            ),
        ),
        (_, WithdrawalBundleStatus::SubmittedUnexpected) => Some(
            Error::DatabaseError(
                Reason::SubmittedResubmitted {
                    m6id,
                    height: row.status.last().height,
                    event_block_hash,
                },
            ),
        ),
        (InfoView::Known(_), WithdrawalBundleStatus::Dropped) => None,
        (_, WithdrawalBundleStatus::Dropped) => Some(
            Error::DatabaseError(
                Reason::UnknownMarkedDropped { m6id, height: row.status.last().height },
            ),
        ),
        (InfoView::Known(_), WithdrawalBundleStatus::Pending) => Some(
            Error::DatabaseError(Reason::DroppedMarkedPending(m6id)),
        ),
        (_, WithdrawalBundleStatus::Pending) => Some(
            Error::DatabaseError(
                Reason::UnknownMarkedPending { m6id, height: row.status.last().height },
            ),
        ),
        (InfoView::UnknownConfirmed(_), WithdrawalBundleStatus::Failed) => Some(
            Error::DatabaseError(
                Reason::UnknownMarkedFailed { m6id, height: row.status.last().height },
            ),
        ),
        (_, WithdrawalBundleStatus::Failed) => None,
    }
}

/// The mainchain has a bundle submitted.
pub open spec fn submitted(
    ledger: LedgerView,
    peg: PegView,
    block_height: u32,
    event_block_hash: MainBlockHash,
    m6id: M6id,
) -> Result<(LedgerView, PegView), Error> {
    if peg.pending == Some(m6id) {
        submit_pending(ledger, peg, block_height, m6id)
    } else if peg.bundles.dom().contains(m6id) {
        let row = peg.bundles[m6id];
        match resubmission_problem(row, m6id, event_block_hash) {
            Some(e) => Err(e),
            None => if block_height < row.status.last().height {
                Err(
                    Error::DatabaseError(
                        Reason::Text("failed to push submitted-unexpected status"),
                    ),
                )
            } else {
                Ok(
                    (
                        ledger,
                        PegView {
                            bundles: with_status(
                                peg.bundles,
                                m6id,
                                WithdrawalBundleStatus::SubmittedUnexpected,
                                block_height,
                            ),
                            ..peg
                        },
                    ),
                )
            },
        }
    } else {
        Ok(
            (
                ledger,
                PegView {
                    bundles: peg.bundles.insert(
                        m6id,
                        BundleRowView {
                            info: InfoView::Unknown,
                            status: seq![
                                HeightStamped {
                                    value: WithdrawalBundleStatus::Submitted,
                                    height: block_height,
                                },
                            ],
                        },
                    ),
                    ..peg
                },
            ),
        )
    }
}

fn check_resubmission(row: &BundleRow, m6id: M6id, event_block_hash: MainBlockHash) -> (r: Result<
    (),
    Error,
>)
    ensures
        match r {
            Ok(()) => resubmission_problem(row@, m6id, event_block_hash) is None,
            Err(e) => resubmission_problem(row@, m6id, event_block_hash) == Some(e),
        },
{
    match (&row.info, row.status.latest().value) {
        (_, WithdrawalBundleStatus::Confirmed) => Err(
            Error::DatabaseError(Reason::ConfirmedResubmitted { m6id, event_block_hash }),
        ),
        (_, WithdrawalBundleStatus::Submitted | WithdrawalBundleStatus::SubmittedUnexpected) => Err(
            Error::DatabaseError(
                Reason::SubmittedResubmitted {
                    m6id,
                    height: row.status.latest().height,
                    event_block_hash,
                },
            ),
        ),
        (WithdrawalBundleInfo::Known(_), WithdrawalBundleStatus::Dropped) => Ok(()),
        (_, WithdrawalBundleStatus::Dropped) => Err(
            Error::DatabaseError(
                Reason::UnknownMarkedDropped { m6id, height: row.status.latest().height },
            ),
        ),
        (WithdrawalBundleInfo::Known(_), WithdrawalBundleStatus::Pending) => Err(
            Error::DatabaseError(Reason::DroppedMarkedPending(m6id)),
        ),
        (_, WithdrawalBundleStatus::Pending) => Err(
            Error::DatabaseError(
                Reason::UnknownMarkedPending { m6id, height: row.status.latest().height },
            ),
        ),
        (
            WithdrawalBundleInfo::UnknownConfirmed { .. },
            WithdrawalBundleStatus::Failed,
        ) => Err(
            Error::DatabaseError(
                Reason::UnknownMarkedFailed { m6id, height: row.status.latest().height },
            ),
        ),
        (_, WithdrawalBundleStatus::Failed) => Ok(()),
    }
}

/// Moves a bundle into another state, at a height that is not below that of
/// its present one.
fn push_status(peg: &mut Peg, m6id: M6id, value: WithdrawalBundleStatus, block_height: u32) -> (r:
    bool)
    requires
        old(peg)@.bundles.dom().contains(m6id),
    ensures
        r == (block_height >= old(peg)@.bundles[m6id].status.last().height),
        r ==> final(peg)@ == (PegView {
            bundles: with_status(old(peg)@.bundles, m6id, value, block_height),
            ..old(peg)@
        }),
{
    match peg.withdrawal_bundles.take(&m6id) {
        None => false,
        Some(row) => {
            let mut row = row;
            let ghost before = row@;
            let pushed = row.status.push(value, block_height).is_ok();
            proof {
                let m = old(peg).withdrawal_bundles@;
                assert(old(peg)@.bundles[m6id] == before);
                lemma_bundles_view(m, m6id, row);
                lemma_bundles_view(m.remove(m6id), m6id, row);
                assert(bundles_view(m).remove(m6id).insert(m6id, row@) =~= bundles_view(m).insert(
                    m6id,
                    row@,
                ));
            }
            peg.withdrawal_bundles.put(m6id, row);
            pushed
        },
    }
}

pub fn connect_withdrawal_bundle_submitted(
    ledger: &mut Ledger,
    peg: &mut Peg,
    block_height: u32,
    event_block_hash: MainBlockHash,
    m6id: M6id,
) -> (r: Result<(), Error>)
    ensures
        match r {
            Ok(()) => submitted(
                old(ledger)@,
                old(peg)@,
                block_height,
                event_block_hash,
                m6id,
            ) == Ok::<(LedgerView, PegView), Error>((final(ledger)@, final(peg)@)),
            Err(e) => submitted(
                old(ledger)@,
                old(peg)@,
                block_height,
                event_block_hash,
                m6id,
            ) == Err::<(LedgerView, PegView), Error>(e),
        },
{
    let is_pending = match peg.pending_withdrawal_bundle {
        Some(pending) => pending == m6id,
        None => false,
    };
    if is_pending {
        match peg.withdrawal_bundles.get(&m6id) {
            None => {
                return Err(
                    Error::DatabaseError(Reason::PendingBundleUnknown(m6id)),
                );
            },
            Some(row) => {
                let bundle = match &row.info {
                    WithdrawalBundleInfo::Known(bundle) => bundle,
                    _ => {
                        return Err(Error::DatabaseError(Reason::PendingBundleNotKnown(m6id)));
                    },
                };
                match withdraw_coins(ledger, &bundle.spend_utxos, m6id) {
                    Err(outpoint) => return Err(Error::NoUtxo { outpoint }),
                    Ok(()) => {},
                }
                if row.status.latest().value != WithdrawalBundleStatus::Pending {
                    return Err(
                        Error::DatabaseError(Reason::ExpectedPending(row.status.latest().value)),
                    );
                }
            },
        }
        if !push_status(peg, m6id, WithdrawalBundleStatus::Submitted, block_height) {
            return Err(
                Error::DatabaseError(Reason::Text("failed to push submitted bundle status")),
            );
        }
        peg.pending_withdrawal_bundle = None;
        return Ok(());
    }
    match peg.withdrawal_bundles.get(&m6id) {
        Some(row) => {
            match check_resubmission(row, m6id, event_block_hash) {
                Err(e) => return Err(e),
                Ok(()) => {},
            }
        },
        None => {
            let row = BundleRow {
                info: WithdrawalBundleInfo::Unknown,
                status: RollBack::new(WithdrawalBundleStatus::Submitted, block_height),
            };
            proof {
                lemma_bundles_view(peg.withdrawal_bundles@, m6id, row);
            }
            peg.withdrawal_bundles.put(m6id, row);
            return Ok(());
        },
    }
    if !push_status(peg, m6id, WithdrawalBundleStatus::SubmittedUnexpected, block_height) {
        return Err(
            Error::DatabaseError(Reason::Text("failed to push submitted-unexpected status")),
        );
    }
    Ok(())
}

/// All unspent outputs are spent by a bundle.
pub open spec fn all_withdrawn(ledger: LedgerView, m6id: M6id) -> LedgerView {
    LedgerView {
        utxos: Map::empty(),
        utxos_by_address: Map::empty(),
        stxos: ledger.stxos.union_prefer_right(
            ledger.utxos.map_values(|output: FilledOutput| withdrawn(output, m6id)),
        ),
    }
}

/// The mainchain has paid a bundle.
pub open spec fn confirmed(
    ledger: LedgerView,
    peg: PegView,
    block_height: u32,
    event_block_hash: MainBlockHash,
    m6id: M6id,
) -> Result<(LedgerView, PegView), Error> {
    if !peg.bundles.dom().contains(m6id) {
        Err(Error::UnknownWithdrawalBundle { m6id })
    } else {
        let row = peg.bundles[m6id];
        let latest = row.status.last();
        if latest.value is Confirmed {
            Ok((ledger, peg))
        } else if !(latest.value is Submitted || latest.value is SubmittedUnexpected) {
            Err(Error::DatabaseError(Reason::ExpectedSubmitted(latest.value)))
        } else {
            let changed = match row.info {
                InfoView::UnknownConfirmed(_) => Err(
                    Error::UnknownWithdrawalBundleReconfirmed { event_block_hash, m6id },
                ),
                InfoView::Unknown => if block_height == 0 {
                    Ok(
                        (
                            all_withdrawn(ledger, m6id),
                            InfoView::UnknownConfirmed(listing(ledger.utxos)),
                        ),
                    )
                } else {
                    Err(Error::UnknownWithdrawalBundleConfirmed { event_block_hash, m6id })
                },
                InfoView::Known(bundle) => if latest.value is SubmittedUnexpected {
                    match withdraw_all(ledger, bundle.spend_utxos@, m6id) {
                        Ok(spent) => Ok((spent, row.info)),
                        Err(outpoint) => Err(
                            Error::UnexpectedWithdrawalBundleInsolvency {
                                event_block_hash,
                                m6id,
                                outpoint,
                            },
                        ),
                    }
                } else {
                    Ok((ledger, row.info))
                },
            };
            match changed {
                Err(e) => Err(e),
                Ok((next, info)) => if block_height < latest.height {
                    Err(
                        Error::DatabaseError(
                            Reason::Text("failed to push confirmed bundle status"),
                        ),
                    )
                } else {
                    Ok(
                        (
                            next,
                            PegView {
                                bundles: peg.bundles.insert(
                                    m6id,
                                    BundleRowView {
                                        info,
                                        status: row.status.push(
                                            HeightStamped {
                                                value: WithdrawalBundleStatus::Confirmed,
                                                height: block_height,
                                            },
                                        ),
                                    },
                                ),
                                ..peg
                            },
                        ),
                    )
                },
            }
        }
    }
}

/// Notes all unspent outputs as spent by a bundle.
fn withdraw_everything(ledger: &mut Ledger, m6id: M6id) -> (r: Box<[(OutPoint, FilledOutput)]>)
    ensures
        r@ == listing(old(ledger)@.utxos),
        final(ledger)@ == all_withdrawn(old(ledger)@, m6id),
{
    let list = list_coins(&ledger.utxos);
    let ghost m = ledger@.utxos;
    let ghost stxos = ledger@.stxos;
    let mut i: usize = 0;
    while i < list.len()
        invariant
            i <= list@.len(),
            is_listing(list@, m),
            ledger@.utxos == m,
            forall|o: OutPoint| #[trigger]
                ledger@.stxos.dom().contains(o) <==> stxos.dom().contains(o) || exists|j: int|
                    0 <= j < i && (#[trigger] list@[j]).0 == o,
            forall|o: OutPoint|
                (exists|j: int| 0 <= j < i && (#[trigger] list@[j]).0 == o)
                    ==> #[trigger] ledger@.stxos[o] == withdrawn(m[o], m6id),
            forall|o: OutPoint|
                !(exists|j: int| 0 <= j < i && (#[trigger] list@[j]).0 == o)
                    ==> #[trigger] ledger@.stxos[o] == stxos[o],
        decreases list@.len() - i,
    {
        let coin = &list[i];
        let ghost before = ledger@.stxos;
        let spent = SpentOutput {
            output: coin.1.duplicate(),
            inpoint: InPoint::Withdrawal { m6id },
        };
        ledger.stxos.put(coin.0, spent);
        proof {
            assert forall|o: OutPoint| #[trigger]
                ledger@.stxos.dom().contains(o) <==> stxos.dom().contains(o) || exists|j: int|
                0 <= j < i + 1 && (#[trigger] list@[j]).0 == o by {
                if before.dom().contains(o) && !stxos.dom().contains(o) {
                    let j = choose|j: int| 0 <= j < i && (#[trigger] list@[j]).0 == o;
                    assert(0 <= j < i + 1);
                }
                if o == coin.0 {
                    assert(list@[i as int].0 == o);
                }
            }
            assert forall|o: OutPoint|
                (exists|j: int|
                    0 <= j < i + 1 && (#[trigger] list@[j]).0
                        == o) implies #[trigger] ledger@.stxos[o] == withdrawn(m[o], m6id) by {
                if o != coin.0 {
                    let j = choose|j: int| 0 <= j < i + 1 && (#[trigger] list@[j]).0 == o;
                    assert(0 <= j < i);
                    assert(before[o] == withdrawn(m[o], m6id));
                }
            }
            assert forall|o: OutPoint|
                !(exists|j: int|
                    0 <= j < i + 1 && (#[trigger] list@[j]).0
                        == o) implies #[trigger] ledger@.stxos[o] == stxos[o] by {
                assert(list@[i as int].0 == coin.0);
                assert(o != coin.0);
                assert(!(exists|j: int| 0 <= j < i && (#[trigger] list@[j]).0 == o)) by {
                    if exists|j: int| 0 <= j < i && (#[trigger] list@[j]).0 == o {
                        let j = choose|j: int| 0 <= j < i && (#[trigger] list@[j]).0 == o;
                        assert(0 <= j < i + 1);
                    }
                }
                assert(before[o] == stxos[o]);
            }
        }
        i += 1;
    }
    ledger.clear_utxos();
    proof {
        let expected = all_withdrawn(old(ledger)@, m6id).stxos;
        assert forall|o: OutPoint| m.dom().contains(o) <==> exists|j: int|
            0 <= j < list@.len() && (#[trigger] list@[j]).0 == o by {
            if m.dom().contains(o) {
                assert(has_key(list@, o));
                let j = choose|j: int| row_has_key(list@, o, j);
                assert(list@[j].0 == o);
            }
        }
        assert(ledger@.stxos =~= expected);
    }
    list
}

pub fn connect_withdrawal_bundle_confirmed(
    ledger: &mut Ledger,
    peg: &mut Peg,
    block_height: u32,
    event_block_hash: MainBlockHash,
    m6id: M6id,
) -> (r: Result<(), Error>)
    ensures
        match r {
            Ok(()) => confirmed(old(ledger)@, old(peg)@, block_height, event_block_hash, m6id)
                == Ok::<(LedgerView, PegView), Error>((final(ledger)@, final(peg)@)),
            Err(e) => {
                &&& confirmed(old(ledger)@, old(peg)@, block_height, event_block_hash, m6id)
                    == Err::<(LedgerView, PegView), Error>(e)
                &&& *final(peg) == *old(peg)
            },
        },
{
    let mut row = match peg.withdrawal_bundles.get(&m6id) {
        None => return Err(Error::UnknownWithdrawalBundle { m6id }),
        Some(row) => row.replica(),
    };
    let ghost m = old(peg).withdrawal_bundles@;
    assert(old(peg)@.bundles[m6id] == row@);
    let latest = row.status.latest();
    if latest.value == WithdrawalBundleStatus::Confirmed {
        return Ok(());
    }
    if !matches!(
        latest.value,
        WithdrawalBundleStatus::Submitted | WithdrawalBundleStatus::SubmittedUnexpected
    ) {
        return Err(Error::DatabaseError(Reason::ExpectedSubmitted(latest.value)));
    }
    let mut taken: Option<Box<[(OutPoint, FilledOutput)]>> = None;
    match &row.info {
        WithdrawalBundleInfo::UnknownConfirmed { .. } => {
            return Err(Error::UnknownWithdrawalBundleReconfirmed { event_block_hash, m6id });
        },
        WithdrawalBundleInfo::Unknown => {
            if block_height == 0 {
                taken = Some(withdraw_everything(ledger, m6id));
            } else {
                return Err(Error::UnknownWithdrawalBundleConfirmed { event_block_hash, m6id });
            }
        },
        WithdrawalBundleInfo::Known(bundle) => {
            if latest.value == WithdrawalBundleStatus::SubmittedUnexpected {
                match withdraw_coins(ledger, &bundle.spend_utxos, m6id) {
                    Ok(()) => {},
                    Err(outpoint) => {
                        return Err(
                            Error::UnexpectedWithdrawalBundleInsolvency {
                                event_block_hash,
                                m6id,
                                outpoint,
                            },
                        );
                    },
                }
            }
        },
    }
    match taken {
        Some(spend_utxos) => {
            row.info = WithdrawalBundleInfo::UnknownConfirmed { spend_utxos };
        },
        None => {},
    }
    if row.status.push(WithdrawalBundleStatus::Confirmed, block_height).is_err() {
        return Err(Error::DatabaseError(Reason::Text("failed to push confirmed bundle status")));
    }
    proof {
        lemma_bundles_view(m, m6id, row);
    }
    peg.withdrawal_bundles.put(m6id, row);
    Ok(())
}

/// The history of failures with another one.
pub open spec fn with_failure(
    latest_failed: Option<Seq<HeightStamped<M6id>>>,
    m6id: M6id,
    height: u32,
) -> Option<Seq<HeightStamped<M6id>>> {
    match latest_failed {
        Some(history) => if height < history.last().height {
            None
        } else {
            Some(history.push(HeightStamped { value: m6id, height }))
        },
        None => Some(seq![HeightStamped { value: m6id, height }]),
    }
}

/// The mainchain has rejected a bundle.
pub open spec fn failed(
    ledger: LedgerView,
    peg: PegView,
    block_height: u32,
    m6id: M6id,
) -> Result<(LedgerView, PegView), Error> {
    if !peg.bundles.dom().contains(m6id) {
        Err(Error::UnknownWithdrawalBundle { m6id })
    } else {
        let row = peg.bundles[m6id];
        let latest = row.status.last();
        if latest.value is Failed {
            Ok((ledger, peg))
        } else if !(latest.value is Submitted || latest.value is SubmittedUnexpected) {
            Err(Error::DatabaseError(Reason::ExpectedSubmitted(latest.value)))
        } else {
            let changed = match row.info {
                InfoView::Known(bundle) => if latest.value is Submitted {
                    match with_failure(peg.latest_failed, m6id, block_height) {
                        None => Err(
                            Error::DatabaseError(Reason::Text("failed to push latest failed m6id")),
                        ),
                        Some(history) => Ok(
                            (reinstate_all(ledger, bundle.spend_utxos@), Some(history)),
                        ),
                    }
                } else {
                    Ok((ledger, peg.latest_failed))
                },
                _ => Ok((ledger, peg.latest_failed)),
            };
            match changed {
                Err(e) => Err(e),
                Ok((next, latest_failed)) => if block_height < latest.height {
                    Err(Error::DatabaseError(Reason::Text("failed to push failed bundle status")))
                } else {
                    Ok(
                        (
                            next,
                            PegView {
                                latest_failed,
                                bundles: with_status(
                                    peg.bundles,
                                    m6id,
                                    WithdrawalBundleStatus::Failed,
                                    block_height,
                                ),
                                ..peg
                            },
                        ),
                    )
                },
            }
        }
    }
}

/// Notes a bundle as the one that failed last; fails where another failed at a
/// greater height.
fn push_failure(peg: &mut Peg, m6id: M6id, block_height: u32) -> (r: bool)
    ensures
        match with_failure(old(peg)@.latest_failed, m6id, block_height) {
            Some(history) => r && final(peg)@ == (PegView {
                latest_failed: Some(history),
                ..old(peg)@
            }),
            None => !r,
        },
{
    let mut history: Option<RollBack<M6id>> = None;
    core::mem::swap(&mut peg.latest_failed_withdrawal_bundle, &mut history);
    match history {
        Some(h) => {
            let mut h = h;
            if h.push(m6id, block_height).is_err() {
                return false;
            }
            peg.latest_failed_withdrawal_bundle = Some(h);
        },
        None => {
            peg.latest_failed_withdrawal_bundle = Some(RollBack::new(m6id, block_height));
        },
    }
    true
}

pub fn connect_withdrawal_bundle_failed(
    ledger: &mut Ledger,
    peg: &mut Peg,
    block_height: u32,
    m6id: M6id,
) -> (r: Result<(), Error>)
    ensures
        match r {
            Ok(()) => failed(old(ledger)@, old(peg)@, block_height, m6id) == Ok::<
                (LedgerView, PegView),
                Error,
            >((final(ledger)@, final(peg)@)),
            Err(e) => failed(old(ledger)@, old(peg)@, block_height, m6id) == Err::<
                (LedgerView, PegView),
                Error,
            >(e),
        },
{
    let mut gives_back = false;
    match peg.withdrawal_bundles.get(&m6id) {
        None => return Err(Error::UnknownWithdrawalBundle { m6id }),
        Some(row) => {
            let latest = row.status.latest();
            if latest.value == WithdrawalBundleStatus::Failed {
                return Ok(());
            }
            if !matches!(
                latest.value,
                WithdrawalBundleStatus::Submitted | WithdrawalBundleStatus::SubmittedUnexpected
            ) {
                return Err(Error::DatabaseError(Reason::ExpectedSubmitted(latest.value)));
            }
            match &row.info {
                WithdrawalBundleInfo::Known(bundle) => {
                    if latest.value == WithdrawalBundleStatus::Submitted {
                        gives_back = true;
                        reinstate_coins(ledger, &bundle.spend_utxos);
                    }
                },
                _ => {},
            }
        },
    }
    if gives_back {
        if !push_failure(peg, m6id, block_height) {
            return Err(Error::DatabaseError(Reason::Text("failed to push latest failed m6id")));
        }
    }
    if !push_status(peg, m6id, WithdrawalBundleStatus::Failed, block_height) {
        return Err(Error::DatabaseError(Reason::Text("failed to push failed bundle status")));
    }
    Ok(())
}

/// What the mainchain says of a bundle takes effect.
pub open spec fn bundle_event(
    ledger: LedgerView,
    peg: PegView,
    block_height: u32,
    event_block_hash: MainBlockHash,
    event: WithdrawalBundleEvent,
) -> Result<(LedgerView, PegView), Error> {
    match event.status {
        WithdrawalBundleEventStatus::Submitted => submitted(
            ledger,
            peg,
            block_height,
            event_block_hash,
            event.m6id,
        ),
        WithdrawalBundleEventStatus::Confirmed => confirmed(
            ledger,
            peg,
            block_height,
            event_block_hash,
            event.m6id,
        ),
        WithdrawalBundleEventStatus::Failed => failed(ledger, peg, block_height, event.m6id),
    }
}

pub fn connect_withdrawal_bundle_event(
    ledger: &mut Ledger,
    peg: &mut Peg,
    block_height: u32,
    event_block_hash: MainBlockHash,
    event: &WithdrawalBundleEvent,
) -> (r: Result<(), Error>)
    ensures
        match r {
            Ok(()) => bundle_event(old(ledger)@, old(peg)@, block_height, event_block_hash, *event)
                == Ok::<(LedgerView, PegView), Error>((final(ledger)@, final(peg)@)),
            Err(e) => bundle_event(old(ledger)@, old(peg)@, block_height, event_block_hash, *event)
                == Err::<(LedgerView, PegView), Error>(e),
        },
{
    match event.status {
        WithdrawalBundleEventStatus::Submitted => connect_withdrawal_bundle_submitted(
            ledger,
            peg,
            block_height,
            event_block_hash,
            event.m6id,
        ),
        WithdrawalBundleEventStatus::Confirmed => connect_withdrawal_bundle_confirmed(
            ledger,
            peg,
            block_height,
            event_block_hash,
            event.m6id,
        ),
        WithdrawalBundleEventStatus::Failed => connect_withdrawal_bundle_failed(
            ledger,
            peg,
            block_height,
            event.m6id,
        ),
    }
}

/// How far the events of the mainchain have taken effect, and the mainchain
/// blocks of the last deposit and the last bundle event among them.
#[verifier::ext_equal]
pub struct PegProgress {
    pub ledger: LedgerView,
    pub peg: PegView,
    pub deposit_block: Option<MainBlockHash>,
    pub event_block: Option<MainBlockHash>,
}

/// An event takes effect.
pub open spec fn connect_one(
    at: PegProgress,
    block_height: u32,
    event_block_hash: MainBlockHash,
    event: BlockEvent,
) -> Result<PegProgress, Error> {
    match event {
        BlockEvent::Deposit(deposit) => Ok(
            PegProgress {
                ledger: at.ledger.insert(OutPoint::Deposit(deposit.outpoint), deposit.output),
                deposit_block: Some(event_block_hash),
                ..at
            },
        ),
        BlockEvent::WithdrawalBundle(e) => match bundle_event(
            at.ledger,
            at.peg,
            block_height,
            event_block_hash,
            e,
        ) {
            Err(e) => Err(e),
            Ok((ledger, peg)) => Ok(
                PegProgress { ledger, peg, event_block: Some(event_block_hash), ..at },
            ),
        },
    }
}

/// The events of a mainchain block take effect in their order.
pub open spec fn connect_events(
    at: PegProgress,
    block_height: u32,
    event_block_hash: MainBlockHash,
    events: Seq<BlockEvent>,
) -> Result<PegProgress, Error>
    decreases events.len(),
{
    if events.len() == 0 {
        Ok(at)
    } else {
        match connect_events(at, block_height, event_block_hash, events.drop_last()) {
            Err(e) => Err(e),
            Ok(next) => connect_one(next, block_height, event_block_hash, events.last()),
        }
    }
}

/// The events of mainchain blocks take effect in their order.
pub open spec fn connect_blocks(
    at: PegProgress,
    block_height: u32,
    blocks: Seq<EventBlock>,
) -> Result<PegProgress, Error>
    decreases blocks.len(),
{
    if blocks.len() == 0 {
        Ok(at)
    } else {
        match connect_blocks(at, block_height, blocks.drop_last()) {
            Err(e) => Err(e),
            Ok(next) => connect_events(
                next,
                block_height,
                blocks.last().block_hash,
                blocks.last().events@,
            ),
        }
    }
}

proof fn lemma_connect_events_prefix(
    at: PegProgress,
    block_height: u32,
    event_block_hash: MainBlockHash,
    events: Seq<BlockEvent>,
    n: int,
)
    requires
        0 <= n <= events.len(),
        connect_events(at, block_height, event_block_hash, events.subrange(0, n)) is Err,
    ensures
        connect_events(at, block_height, event_block_hash, events) == connect_events(
            at,
            block_height,
            event_block_hash,
            events.subrange(0, n),
        ),
    decreases events.len() - n,
{
    if n == events.len() {
        assert(events.subrange(0, n) =~= events);
    } else {
        assert(events.subrange(0, n + 1).drop_last() =~= events.subrange(0, n));
        lemma_connect_events_prefix(at, block_height, event_block_hash, events, n + 1);
    }
}

proof fn lemma_connect_blocks_prefix(
    at: PegProgress,
    block_height: u32,
    blocks: Seq<EventBlock>,
    n: int,
)
    requires
        0 <= n <= blocks.len(),
        connect_blocks(at, block_height, blocks.subrange(0, n)) is Err,
    ensures
        connect_blocks(at, block_height, blocks) == connect_blocks(
            at,
            block_height,
            blocks.subrange(0, n),
        ),
    decreases blocks.len() - n,
{
    if n == blocks.len() {
        assert(blocks.subrange(0, n) =~= blocks);
    } else {
        assert(blocks.subrange(0, n + 1).drop_last() =~= blocks.subrange(0, n));
        lemma_connect_blocks_prefix(at, block_height, blocks, n + 1);
    }
}

/// The mainchain blocks of the last deposit and the last bundle event.
#[derive(Clone, Copy, Debug)]
pub struct LastBlocks {
    pub deposit_block: Option<MainBlockHash>,
    pub event_block: Option<MainBlockHash>,
}

pub open spec fn progress(ledger: LedgerView, peg: PegView, last: LastBlocks) -> PegProgress {
    PegProgress {
        ledger,
        peg,
        deposit_block: last.deposit_block,
        event_block: last.event_block,
    }
}

pub fn connect_2wpd_event(
    ledger: &mut Ledger,
    peg: &mut Peg,
    last: &mut LastBlocks,
    block_height: u32,
    event_block_hash: MainBlockHash,
    event: &BlockEvent,
) -> (r: Result<(), Error>)
    ensures
        match r {
            Ok(()) => connect_one(
                progress(old(ledger)@, old(peg)@, *old(last)),
                block_height,
                event_block_hash,
                *event,
            ) == Ok::<PegProgress, Error>(progress(final(ledger)@, final(peg)@, *final(last))),
            Err(e) => connect_one(
                progress(old(ledger)@, old(peg)@, *old(last)),
                block_height,
                event_block_hash,
                *event,
            ) == Err::<PegProgress, Error>(e),
        },
{
    match event {
        BlockEvent::Deposit(deposit) => {
            ledger.insert_utxo(&OutPoint::Deposit(deposit.outpoint), &deposit.output);
            last.deposit_block = Some(event_block_hash);
        },
        BlockEvent::WithdrawalBundle(e) => {
            match connect_withdrawal_bundle_event(ledger, peg, block_height, event_block_hash, e) {
                Ok(()) => {},
                Err(e) => return Err(e),
            }
            last.event_block = Some(event_block_hash);
        },
    }
    Ok(())
}

fn connect_event_block(
    ledger: &mut Ledger,
    peg: &mut Peg,
    last: &mut LastBlocks,
    block_height: u32,
    event_block_hash: MainBlockHash,
    events: &Box<[BlockEvent]>,
) -> (r: Result<(), Error>)
    ensures
        match r {
            Ok(()) => connect_events(
                progress(old(ledger)@, old(peg)@, *old(last)),
                block_height,
                event_block_hash,
                events@,
            ) == Ok::<PegProgress, Error>(progress(final(ledger)@, final(peg)@, *final(last))),
            Err(e) => connect_events(
                progress(old(ledger)@, old(peg)@, *old(last)),
                block_height,
                event_block_hash,
                events@,
            ) == Err::<PegProgress, Error>(e),
        },
{
    let ghost start = progress(ledger@, peg@, *last);
    let mut i: usize = 0;
    while i < events.len()
        invariant
            i <= events@.len(),
            start == progress(old(ledger)@, old(peg)@, *old(last)),
            connect_events(start, block_height, event_block_hash, events@.subrange(0, i as int))
                == Ok::<PegProgress, Error>(progress(ledger@, peg@, *last)),
        decreases events@.len() - i,
    {
        proof {
            assert(events@.subrange(0, i + 1).drop_last() =~= events@.subrange(0, i as int));
        }
        match connect_2wpd_event(ledger, peg, last, block_height, event_block_hash, &events[i]) {
            Ok(()) => {},
            Err(e) => {
                proof {
                    lemma_connect_events_prefix(
                        start,
                        block_height,
                        event_block_hash,
                        events@,
                        i + 1,
                    );
                }
                return Err(e);
            },
        }
        i += 1;
    }
    assert(events@.subrange(0, i as int) =~= events@);
    Ok(())
}

/// A row for a mainchain block, if there is one, after the others.
pub open spec fn with_block(
    blocks: Map<u32, (MainBlockHash, u32)>,
    block: Option<MainBlockHash>,
    block_height: u32,
) -> Map<u32, (MainBlockHash, u32)> {
    match block {
        Some(hash) => blocks.insert(next_seq_idx(blocks) as u32, (hash, block_height)),
        None => blocks,
    }
}

/// The events have taken effect, and their mainchain blocks are noted.
pub open spec fn connected(
    ledger: LedgerView,
    peg: PegView,
    block_height: u32,
    data: TwoWayPegData,
) -> Result<(LedgerView, PegView), Error> {
    match connect_blocks(
        PegProgress { ledger, peg, deposit_block: None, event_block: None },
        block_height,
        data.blocks@,
    ) {
        Err(e) => Err(e),
        Ok(at) => Ok(
            (
                at.ledger,
                PegView {
                    deposit_blocks: with_block(
                        at.peg.deposit_blocks,
                        at.deposit_block,
                        block_height,
                    ),
                    event_blocks: with_block(at.peg.event_blocks, at.event_block, block_height),
                    ..at.peg
                },
            ),
        ),
    }
}

/// A bundle is wanted: none waits for submission, and none failed lately.
pub open spec fn bundle_wanted(peg: PegView, block_height: u32) -> bool {
    block_height - peg.failure_height() >= WITHDRAWAL_BUNDLE_FAILURE_GAP && peg.pending is None
}

/// No bundle entered a state above a height.
pub open spec fn heights_within(peg: PegView, block_height: u32) -> bool {
    forall|m6id: M6id, i: int| #[trigger]
        peg.bundles.dom().contains(m6id) && 0 <= i < peg.bundles[m6id].status.len()
            ==> #[trigger] peg.bundles[m6id].status[i].height <= block_height
}

/// With the events of some blocks, no bundle failed last above a height.
pub open spec fn connects_within(
    ledger: LedgerView,
    peg: PegView,
    block_height: u32,
    data: TwoWayPegData,
) -> bool {
    match connect_blocks(
        PegProgress { ledger, peg, deposit_block: None, event_block: None },
        block_height,
        data.blocks@,
    ) {
        Ok(at) => at.peg.failure_height() <= block_height,
        Err(_) => true,
    }
}

/// Without the events of some blocks, no bundle failed last above a height.
pub open spec fn disconnects_within(
    ledger: LedgerView,
    peg: PegView,
    block_height: u32,
    data: TwoWayPegData,
) -> bool {
    match disconnect_blocks(
        PegProgress { ledger, peg, deposit_block: None, event_block: None },
        block_height,
        data.blocks@,
    ) {
        Ok(at) => at.peg.failure_height() <= block_height,
        Err(_) => true,
    }
}

/// There is a number left for another row.
pub open spec fn has_room(peg: PegView) -> bool {
    next_seq_idx(peg.deposit_blocks) <= u32::MAX && next_seq_idx(peg.event_blocks) <= u32::MAX
}

proof fn lemma_bundle_event_keeps(
    ledger: LedgerView,
    peg: PegView,
    block_height: u32,
    event_block_hash: MainBlockHash,
    event: WithdrawalBundleEvent,
)
    requires
        bundle_event(ledger, peg, block_height, event_block_hash, event) is Ok,
    ensures
        ({
            let next = bundle_event(ledger, peg, block_height, event_block_hash, event)->Ok_0.1;
            &&& heights_within(peg, block_height) ==> heights_within(next, block_height)
            &&& next.deposit_blocks == peg.deposit_blocks
            &&& next.event_blocks == peg.event_blocks
        }),
{
    let next = bundle_event(ledger, peg, block_height, event_block_hash, event)->Ok_0.1;
    assert forall|m6id: M6id, i: int| #[trigger]
        next.bundles.dom().contains(m6id) && heights_within(peg, block_height) && 0 <= i
            < next.bundles[m6id].status.len() implies #[trigger] next.bundles[m6id].status[i].height
        <= block_height by {
        if peg.bundles.dom().contains(m6id) && i < peg.bundles[m6id].status.len() {
            assert(peg.bundles[m6id].status[i].height <= block_height);
        }
    }
}

proof fn lemma_connect_events_keep(
    at: PegProgress,
    block_height: u32,
    event_block_hash: MainBlockHash,
    events: Seq<BlockEvent>,
)
    requires
        connect_events(at, block_height, event_block_hash, events) is Ok,
    ensures
        ({
            let next = connect_events(at, block_height, event_block_hash, events)->Ok_0.peg;
            &&& heights_within(at.peg, block_height) ==> heights_within(next, block_height)
            &&& next.deposit_blocks == at.peg.deposit_blocks
            &&& next.event_blocks == at.peg.event_blocks
        }),
    decreases events.len(),
{
    if events.len() > 0 {
        lemma_connect_events_keep(at, block_height, event_block_hash, events.drop_last());
        let mid = connect_events(at, block_height, event_block_hash, events.drop_last())->Ok_0;
        match events.last() {
            BlockEvent::Deposit(_) => {},
            BlockEvent::WithdrawalBundle(e) => {
                lemma_bundle_event_keeps(mid.ledger, mid.peg, block_height, event_block_hash, e);
            },
        }
    }
}

proof fn lemma_connect_blocks_keep(
    at: PegProgress,
    block_height: u32,
    blocks: Seq<EventBlock>,
)
    requires
        connect_blocks(at, block_height, blocks) is Ok,
    ensures
        ({
            let next = connect_blocks(at, block_height, blocks)->Ok_0.peg;
            &&& heights_within(at.peg, block_height) ==> heights_within(next, block_height)
            &&& next.deposit_blocks == at.peg.deposit_blocks
            &&& next.event_blocks == at.peg.event_blocks
        }),
    decreases blocks.len(),
{
    if blocks.len() > 0 {
        lemma_connect_blocks_keep(at, block_height, blocks.drop_last());
        let mid = connect_blocks(at, block_height, blocks.drop_last())->Ok_0;
        lemma_connect_events_keep(mid, block_height, blocks.last().block_hash, blocks.last().events@);
    }
}

proof fn lemma_failed_height_within(status: StatusHistory, block_height: u32)
    requires
        forall|i: int| 0 <= i < status.len() ==> (#[trigger] status[i]).height <= block_height,
    ensures
        match failed_height(status) {
            Some(h) => h <= block_height,
            None => true,
        },
    decreases status.len(),
{
    if status.len() > 0 {
        assert(status[status.len() - 1].height <= block_height);
        assert forall|i: int| 0 <= i < status.drop_last().len() implies (
        #[trigger] status.drop_last()[i]).height <= block_height by {
            assert(status.drop_last()[i] == status[i]);
        }
        lemma_failed_height_within(status.drop_last(), block_height);
    }
}

/// No bundle failed above a height that no bundle's state is above.
pub proof fn failure_is_within(peg: PegView, block_height: u32)
    requires
        heights_within(peg, block_height),
    ensures
        peg.failure_height() <= block_height,
{
    match peg.latest_failed {
        None => {},
        Some(history) => {
            let m6id = history.last().value;
            if peg.bundles.dom().contains(m6id) {
                assert forall|i: int| 0 <= i < peg.bundles[m6id].status.len() implies (
                #[trigger] peg.bundles[m6id].status[i]).height <= block_height by {}
                lemma_failed_height_within(peg.bundles[m6id].status, block_height);
            }
        },
    }
}

/// Where no bundle's state is above a height, what the mainchain says at that
/// height leaves no failure above it, coming or going.
pub proof fn failures_stay_within(
    ledger: LedgerView,
    peg: PegView,
    block_height: u32,
    data: TwoWayPegData,
)
    requires
        heights_within(peg, block_height),
    ensures
        connects_within(ledger, peg, block_height, data),
        disconnects_within(ledger, peg, block_height, data),
{
    let start = PegProgress { ledger, peg, deposit_block: None, event_block: None };
    let blocks = data.blocks@;
    if connect_blocks(start, block_height, blocks) is Ok {
        lemma_connect_blocks_keep(start, block_height, blocks);
        failure_is_within(connect_blocks(start, block_height, blocks)->Ok_0.peg, block_height);
    }
    if disconnect_blocks(start, block_height, blocks) is Ok {
        lemma_disconnect_blocks_keep(start, block_height, blocks);
        failure_is_within(disconnect_blocks(start, block_height, blocks)->Ok_0.peg, block_height);
    }
}

/// Lets what the mainchain says take effect. Says whether a new bundle is
/// wanted; see [`connect_pending_bundle`].
pub fn connect(
    ledger: &mut Ledger,
    peg: &mut Peg,
    height: Option<u32>,
    two_way_peg_data: &TwoWayPegData,
) -> (r: Result<bool, Error>)
    requires
        height is Some ==> connects_within(
            old(ledger)@,
            old(peg)@,
            height->0,
            *two_way_peg_data,
        ),
        has_room(old(peg)@),
    ensures
        match height {
            None => r == Err::<bool, Error>(Error::NoTip),
            Some(block_height) => match connected(
                old(ledger)@,
                old(peg)@,
                block_height,
                *two_way_peg_data,
            ) {
                Err(e) => r == Err::<bool, Error>(e),
                Ok((next_ledger, next_peg)) => match next_peg.latest_failure() {
                    Err(e) => r == Err::<bool, Error>(e),
                    Ok(_) => {
                        &&& r == Ok::<bool, Error>(bundle_wanted(next_peg, block_height))
                        &&& final(ledger)@ == next_ledger
                        &&& final(peg)@ == next_peg
                        &&& heights_within(old(peg)@, block_height) ==> heights_within(
                            next_peg,
                            block_height,
                        )
                    },
                },
            },
        },
{
    let block_height: u32 = match height {
        None => return Err(Error::NoTip),
        Some(h) => h,
    };
    let mut last = LastBlocks { deposit_block: None, event_block: None };
    let ghost start = PegProgress {
        ledger: ledger@,
        peg: peg@,
        deposit_block: None,
        event_block: None,
    };
    let blocks = &two_way_peg_data.blocks;
    let mut i: usize = 0;
    assert(start == progress(ledger@, peg@, last));
    while i < blocks.len()
        invariant
            i <= blocks@.len(),
            start == (PegProgress {
                ledger: old(ledger)@,
                peg: old(peg)@,
                deposit_block: None,
                event_block: None,
            }),
            blocks@ == two_way_peg_data.blocks@,
            height == Some(block_height),
            connect_blocks(start, block_height, blocks@.subrange(0, i as int)) == Ok::<
                PegProgress,
                Error,
            >(progress(ledger@, peg@, last)),
        decreases blocks@.len() - i,
    {
        proof {
            assert(blocks@.subrange(0, i + 1).drop_last() =~= blocks@.subrange(0, i as int));
        }
        let block = &blocks[i];
        match connect_event_block(
            ledger,
            peg,
            &mut last,
            block_height,
            block.block_hash,
            &block.events,
        ) {
            Ok(()) => {},
            Err(e) => {
                proof {
                    lemma_connect_blocks_prefix(start, block_height, blocks@, i + 1);
                }
                return Err(e);
            },
        }
        i += 1;
    }
    proof {
        assert(blocks@.subrange(0, i as int) =~= blocks@);
        lemma_connect_blocks_keep(start, block_height, blocks@);
    }
    match last.deposit_block {
        Some(hash) => {
            let idx: u32 = match last_of(&peg.deposit_blocks) {
                Some(row) => row.0 + 1,
                None => 0,
            };
            peg.deposit_blocks.put(idx, (hash, block_height));
        },
        None => {},
    }
    match last.event_block {
        Some(hash) => {
            let idx: u32 = match last_of(&peg.withdrawal_bundle_event_blocks) {
                Some(row) => row.0 + 1,
                None => 0,
            };
            peg.withdrawal_bundle_event_blocks.put(idx, (hash, block_height));
        },
        None => {},
    }
    let failure_height: u32 = match peg.get_latest_failed_withdrawal_bundle() {
        Err(e) => return Err(e),
        Ok(Some((h, _))) => h,
        Ok(None) => 0,
    };
    proof {
        let at = connect_blocks(start, block_height, blocks@)->Ok_0;
        assert(peg@.latest_failure() == at.peg.latest_failure());
    }
    Ok(
        block_height - failure_height >= WITHDRAWAL_BUNDLE_FAILURE_GAP
            && peg.pending_withdrawal_bundle.is_none(),
    )
}

/// A new bundle waits for submission.
pub open spec fn pending_stored(
    peg: PegView,
    block_height: u32,
    bundle: WithdrawalBundle,
) -> Result<PegView, Error> {
    let m6id = bundle.m6id;
    let pending = HeightStamped {
        value: WithdrawalBundleStatus::Pending,
        height: block_height,
    };
    if peg.bundles.dom().contains(m6id) && block_height < peg.bundles[m6id].status.last().height {
        Err(Error::DatabaseError(Reason::Text("failed to push pending bundle status")))
    } else {
        Ok(
            PegView {
                pending: Some(m6id),
                bundles: peg.bundles.insert(
                    m6id,
                    BundleRowView {
                        info: InfoView::Known(bundle),
                        status: if peg.bundles.dom().contains(m6id) {
                            peg.bundles[m6id].status.push(pending)
                        } else {
                            seq![pending]
                        },
                    },
                ),
                ..peg
            },
        )
    }
}

/// Stores a new bundle, which then waits for submission.
pub fn connect_pending_bundle(peg: &mut Peg, block_height: u32, bundle: WithdrawalBundle) -> (r:
    Result<(), Error>)
    ensures
        match r {
            Ok(()) => pending_stored(old(peg)@, block_height, bundle) == Ok::<PegView, Error>(
                final(peg)@,
            ),
            Err(e) => {
                &&& pending_stored(old(peg)@, block_height, bundle) == Err::<PegView, Error>(e)
                &&& *final(peg) == *old(peg)
            },
        },
{
    let m6id = bundle.m6id;
    let ghost m = peg.withdrawal_bundles@;
    let status = match peg.withdrawal_bundles.get(&m6id) {
        Some(row) => {
            let mut status = row.status.duplicate();
            assert(old(peg)@.bundles[m6id].status == status@);
            if status.push(WithdrawalBundleStatus::Pending, block_height).is_err() {
                return Err(
                    Error::DatabaseError(Reason::Text("failed to push pending bundle status")),
                );
            }
            status
        },
        None => RollBack::new(WithdrawalBundleStatus::Pending, block_height),
    };
    let row = BundleRow { info: WithdrawalBundleInfo::Known(bundle), status };
    proof {
        lemma_bundles_view(m, m6id, row);
    }
    peg.withdrawal_bundles.put(m6id, row);
    peg.pending_withdrawal_bundle = Some(m6id);
    Ok(())
}

/// A bundle goes back to the state before its present one; it is forgotten if
/// there is none.
pub open spec fn without_status(
    bundles: Map<M6id, BundleRowView>,
    m6id: M6id,
    info: InfoView,
) -> Map<M6id, BundleRowView> {
    let status = bundles[m6id].status;
    if status.len() > 1 {
        bundles.insert(m6id, BundleRowView { info, status: status.drop_last() })
    } else {
        bundles.remove(m6id)
    }
}

/// A bundle is in a state that it is submitted in.
pub open spec fn is_submitted(value: WithdrawalBundleStatus) -> bool {
    value is Submitted || value is SubmittedUnexpected
}

fn pop_status(peg: &mut Peg, m6id: M6id, forget_outputs: bool)
    requires
        old(peg)@.bundles.dom().contains(m6id),
    ensures
        final(peg)@ == (PegView {
            bundles: without_status(
                old(peg)@.bundles,
                m6id,
                if forget_outputs {
                    InfoView::Unknown
                } else {
                    old(peg)@.bundles[m6id].info
                },
            ),
            ..old(peg)@
        }),
{
    let ghost m = peg.withdrawal_bundles@;
    match peg.withdrawal_bundles.take(&m6id) {
        None => {},
        Some(row) => {
            assert(old(peg)@.bundles[m6id] == row@);
            let ghost before = row;
            let (rest, _) = row.status.pop();
            proof {
                lemma_bundles_view(m, m6id, before);
            }
            match rest {
                None => {},
                Some(status) => {
                    let info = if forget_outputs {
                        WithdrawalBundleInfo::Unknown
                    } else {
                        row.info
                    };
                    let next = BundleRow { info, status };
                    proof {
                        lemma_bundles_view(m, m6id, next);
                        assert(m.remove(m6id).insert(m6id, next) =~= m.insert(m6id, next));
                    }
                    peg.withdrawal_bundles.put(m6id, next);
                },
            }
        },
    }
}

/// The submission of a bundle is undone.
pub open spec fn unsubmitted(
    ledger: LedgerView,
    peg: PegView,
    block_height: u32,
    m6id: M6id,
) -> Result<(LedgerView, PegView), Error> {
    if !peg.bundles.dom().contains(m6id) {
        if peg.pending == Some(m6id) {
            Ok((ledger, peg))
        } else {
            Err(Error::UnknownWithdrawalBundle { m6id })
        }
    } else {
        let row = peg.bundles[m6id];
        let latest = row.status.last();
        let rest = row.status.drop_last();
        if !is_submitted(latest.value) {
            Err(Error::DatabaseError(Reason::ExpectedSubmitted(latest.value)))
        } else if latest.height != block_height {
            Err(
                Error::DatabaseError(
                    Reason::BundleHeight { bundle: latest.height, block: block_height },
                ),
            )
        } else {
            let bundles = without_status(peg.bundles, m6id, row.info);
            match row.info {
                InfoView::Known(bundle) => if rest.len() > 0 && rest.last().value is Pending {
                    match unwithdraw_all(ledger, bundle.spend_utxos@) {
                        Err(outpoint) => Err(Error::NoStxo { outpoint }),
                        Ok(next) => Ok((next, PegView { pending: Some(m6id), bundles, ..peg })),
                    }
                } else {
                    Ok((ledger, PegView { bundles, ..peg }))
                },
                _ => Ok((ledger, PegView { bundles, ..peg })),
            }
        }
    }
}

pub fn disconnect_withdrawal_bundle_submitted(
    ledger: &mut Ledger,
    peg: &mut Peg,
    block_height: u32,
    m6id: M6id,
) -> (r: Result<(), Error>)
    ensures
        match r {
            Ok(()) => unsubmitted(old(ledger)@, old(peg)@, block_height, m6id) == Ok::<
                (LedgerView, PegView),
                Error,
            >((final(ledger)@, final(peg)@)),
            Err(e) => unsubmitted(old(ledger)@, old(peg)@, block_height, m6id) == Err::<
                (LedgerView, PegView),
                Error,
            >(e),
        },
{
    let mut waits_again = false;
    match peg.withdrawal_bundles.get(&m6id) {
        None => {
            let is_pending = match peg.pending_withdrawal_bundle {
                Some(pending) => pending == m6id,
                None => false,
            };
            if is_pending {
                return Ok(());
            } else {
                return Err(Error::UnknownWithdrawalBundle { m6id });
            }
        },
        Some(row) => {
            assert(peg@.bundles[m6id] == row@);
            let latest = row.status.latest();
            if !matches!(
                latest.value,
                WithdrawalBundleStatus::Submitted | WithdrawalBundleStatus::SubmittedUnexpected
            ) {
                return Err(Error::DatabaseError(Reason::ExpectedSubmitted(latest.value)));
            }
            if latest.height != block_height {
                return Err(
                    Error::DatabaseError(
                        Reason::BundleHeight { bundle: latest.height, block: block_height },
                    ),
                );
            }
            match &row.info {
                WithdrawalBundleInfo::Known(bundle) => {
                    let n: usize = row.status.count_earlier();
                    if n > 0 && row.status.get(n - 1).value == WithdrawalBundleStatus::Pending {
                        match unwithdraw_coins(ledger, &bundle.spend_utxos) {
                            Ok(()) => {},
                            Err(outpoint) => return Err(Error::NoStxo { outpoint }),
                        }
                        waits_again = true;
                    }
                },
                _ => {},
            }
        },
    }
    if waits_again {
        peg.pending_withdrawal_bundle = Some(m6id);
    }
    pop_status(peg, m6id, false);
    Ok(())
}

/// The payment of a bundle is undone.
pub open spec fn unconfirmed(
    ledger: LedgerView,
    peg: PegView,
    block_height: u32,
    m6id: M6id,
) -> Result<(LedgerView, PegView), Error> {
    if !peg.bundles.dom().contains(m6id) {
        Err(Error::UnknownWithdrawalBundle { m6id })
    } else {
        let row = peg.bundles[m6id];
        let latest = row.status.last();
        let rest = row.status.drop_last();
        if is_submitted(latest.value) {
            Ok((ledger, peg))
        } else if !(latest.value is Confirmed) {
            Err(Error::DatabaseError(Reason::ExpectedConfirmed(latest.value)))
        } else if latest.height != block_height {
            Err(
                Error::DatabaseError(
                    Reason::BundleHeight { bundle: latest.height, block: block_height },
                ),
            )
        } else if rest.len() == 0 {
            Err(Error::DatabaseError(Reason::Text("confirmed bundle has no previous status")))
        } else if !is_submitted(rest.last().value) {
            Err(Error::DatabaseError(Reason::ExpectedSubmitted(rest.last().value)))
        } else {
            let (coins, info) = match row.info {
                InfoView::Known(bundle) => (
                    if rest.last().value is SubmittedUnexpected {
                        bundle.spend_utxos@
                    } else {
                        Seq::empty()
                    },
                    row.info,
                ),
                InfoView::UnknownConfirmed(coins) => (coins, InfoView::Unknown),
                InfoView::Unknown => (Seq::empty(), InfoView::Unknown),
            };
            match unconfirm_all(ledger, coins) {
                Err(outpoint) => Err(Error::NoStxo { outpoint }),
                Ok(next) => Ok(
                    (
                        next,
                        PegView { bundles: without_status(peg.bundles, m6id, info), ..peg },
                    ),
                ),
            }
        }
    }
}

pub fn disconnect_withdrawal_bundle_confirmed(
    ledger: &mut Ledger,
    peg: &mut Peg,
    block_height: u32,
    m6id: M6id,
) -> (r: Result<(), Error>)
    ensures
        match r {
            Ok(()) => unconfirmed(old(ledger)@, old(peg)@, block_height, m6id) == Ok::<
                (LedgerView, PegView),
                Error,
            >((final(ledger)@, final(peg)@)),
            Err(e) => unconfirmed(old(ledger)@, old(peg)@, block_height, m6id) == Err::<
                (LedgerView, PegView),
                Error,
            >(e),
        },
{
    let mut forget_outputs = false;
    match peg.withdrawal_bundles.get(&m6id) {
        None => return Err(Error::UnknownWithdrawalBundle { m6id }),
        Some(row) => {
            assert(peg@.bundles[m6id] == row@);
            let latest = row.status.latest();
            if matches!(
                latest.value,
                WithdrawalBundleStatus::Submitted | WithdrawalBundleStatus::SubmittedUnexpected
            ) {
                return Ok(());
            }
            if latest.value != WithdrawalBundleStatus::Confirmed {
                return Err(Error::DatabaseError(Reason::ExpectedConfirmed(latest.value)));
            }
            if latest.height != block_height {
                return Err(
                    Error::DatabaseError(
                        Reason::BundleHeight { bundle: latest.height, block: block_height },
                    ),
                );
            }
            let n: usize = row.status.count_earlier();
            if n == 0 {
                return Err(
                    Error::DatabaseError(Reason::Text("confirmed bundle has no previous status")),
                );
            }
            let before = row.status.get(n - 1).value;
            if !matches!(
                before,
                WithdrawalBundleStatus::Submitted | WithdrawalBundleStatus::SubmittedUnexpected
            ) {
                return Err(Error::DatabaseError(Reason::ExpectedSubmitted(before)));
            }
            match &row.info {
                WithdrawalBundleInfo::Known(bundle) => {
                    if before == WithdrawalBundleStatus::SubmittedUnexpected {
                        match unconfirm_coins(ledger, &bundle.spend_utxos) {
                            Ok(()) => {},
                            Err(outpoint) => return Err(Error::NoStxo { outpoint }),
                        }
                    }
                },
                WithdrawalBundleInfo::UnknownConfirmed { spend_utxos } => {
                    match unconfirm_coins(ledger, spend_utxos) {
                        Ok(()) => {},
                        Err(outpoint) => return Err(Error::NoStxo { outpoint }),
                    }
                    forget_outputs = true;
                },
                WithdrawalBundleInfo::Unknown => {},
            }
        },
    }
    pop_status(peg, m6id, forget_outputs);
    Ok(())
}

/// The history of failures without the last one.
pub open spec fn without_failure(history: Seq<HeightStamped<M6id>>) -> Option<
    Seq<HeightStamped<M6id>>,
> {
    if history.len() > 1 {
        Some(history.drop_last())
    } else {
        None
    }
}

/// The rejection of a bundle is undone.
pub open spec fn unfailed(
    ledger: LedgerView,
    peg: PegView,
    block_height: u32,
    m6id: M6id,
) -> Result<(LedgerView, PegView), Error> {
    if !peg.bundles.dom().contains(m6id) {
        Err(Error::UnknownWithdrawalBundle { m6id })
    } else {
        let row = peg.bundles[m6id];
        let latest = row.status.last();
        let rest = row.status.drop_last();
        let bundles = without_status(peg.bundles, m6id, row.info);
        if latest.value is Submitted {
            Ok((ledger, peg))
        } else if !(latest.value is Failed) {
            Err(Error::DatabaseError(Reason::ExpectedFailed(latest.value)))
        } else if latest.height != block_height {
            Err(
                Error::DatabaseError(
                    Reason::BundleHeight { bundle: latest.height, block: block_height },
                ),
            )
        } else if rest.len() == 0 {
            Err(Error::DatabaseError(Reason::Text("failed bundle has no previous status")))
        } else if !is_submitted(rest.last().value) {
            Err(Error::DatabaseError(Reason::ExpectedSubmitted(rest.last().value)))
        } else if !(row.info is Known && rest.last().value is Submitted) {
            Ok((ledger, PegView { bundles, ..peg }))
        } else {
            match respend_all(ledger, row.info->Known_0.spend_utxos@, m6id) {
                Err(outpoint) => Err(Error::NoUtxo { outpoint }),
                Ok(next) => match peg.latest_failed {
                    None => Err(
                        Error::DatabaseError(
                            Reason::Text("latest failed withdrawal bundle should exist"),
                        ),
                    ),
                    Some(history) => if history.last().value != m6id {
                        Err(
                            Error::DatabaseError(
                                Reason::FailedIdMismatch {
                                    latest: history.last().value,
                                    expected: m6id,
                                },
                            ),
                        )
                    } else if history.last().height != block_height {
                        Err(
                            Error::DatabaseError(
                                Reason::FailedHeightMismatch {
                                    latest: history.last().height,
                                    block: block_height,
                                },
                            ),
                        )
                    } else {
                        Ok(
                            (
                                next,
                                PegView {
                                    latest_failed: without_failure(history),
                                    bundles,
                                    ..peg
                                },
                            ),
                        )
                    },
                },
            }
        }
    }
}

/// Forgets the last failure, which must be that of a bundle at a height.
fn pop_failure(peg: &mut Peg, m6id: M6id, block_height: u32) -> (r: Result<(), Error>)
    ensures
        match old(peg)@.latest_failed {
            None => r == Err::<(), Error>(
                Error::DatabaseError(Reason::Text("latest failed withdrawal bundle should exist")),
            ),
            Some(history) => if history.last().value != m6id {
                r == Err::<(), Error>(
                    Error::DatabaseError(
                        Reason::FailedIdMismatch { latest: history.last().value, expected: m6id },
                    ),
                )
            } else if history.last().height != block_height {
                r == Err::<(), Error>(
                    Error::DatabaseError(
                        Reason::FailedHeightMismatch {
                            latest: history.last().height,
                            block: block_height,
                        },
                    ),
                )
            } else {
                r is Ok && final(peg)@ == (PegView {
                    latest_failed: without_failure(history),
                    ..old(peg)@
                })
            },
        },
{
    let mut history: Option<RollBack<M6id>> = None;
    core::mem::swap(&mut peg.latest_failed_withdrawal_bundle, &mut history);
    match history {
        None => Err(
            Error::DatabaseError(Reason::Text("latest failed withdrawal bundle should exist")),
        ),
        Some(h) => {
            let latest = h.latest();
            if latest.value != m6id {
                return Err(
                    Error::DatabaseError(
                        Reason::FailedIdMismatch { latest: latest.value, expected: m6id },
                    ),
                );
            }
            if latest.height != block_height {
                return Err(
                    Error::DatabaseError(
                        Reason::FailedHeightMismatch { latest: latest.height, block: block_height },
                    ),
                );
            }
            let (rest, _) = h.pop();
            peg.latest_failed_withdrawal_bundle = rest;
            Ok(())
        },
    }
}

pub fn disconnect_withdrawal_bundle_failed(
    ledger: &mut Ledger,
    peg: &mut Peg,
    block_height: u32,
    m6id: M6id,
) -> (r: Result<(), Error>)
    ensures
        match r {
            Ok(()) => unfailed(old(ledger)@, old(peg)@, block_height, m6id) == Ok::<
                (LedgerView, PegView),
                Error,
            >((final(ledger)@, final(peg)@)),
            Err(e) => unfailed(old(ledger)@, old(peg)@, block_height, m6id) == Err::<
                (LedgerView, PegView),
                Error,
            >(e),
        },
{
    let mut takes_back = false;
    match peg.withdrawal_bundles.get(&m6id) {
        None => return Err(Error::UnknownWithdrawalBundle { m6id }),
        Some(row) => {
            assert(peg@.bundles[m6id] == row@);
            let latest = row.status.latest();
            if latest.value == WithdrawalBundleStatus::Submitted {
                return Ok(());
            }
            if latest.value != WithdrawalBundleStatus::Failed {
                return Err(Error::DatabaseError(Reason::ExpectedFailed(latest.value)));
            }
            if latest.height != block_height {
                return Err(
                    Error::DatabaseError(
                        Reason::BundleHeight { bundle: latest.height, block: block_height },
                    ),
                );
            }
            let n: usize = row.status.count_earlier();
            if n == 0 {
                return Err(
                    Error::DatabaseError(Reason::Text("failed bundle has no previous status")),
                );
            }
            let before = row.status.get(n - 1).value;
            if !matches!(
                before,
                WithdrawalBundleStatus::Submitted | WithdrawalBundleStatus::SubmittedUnexpected
            ) {
                return Err(Error::DatabaseError(Reason::ExpectedSubmitted(before)));
            }
            match &row.info {
                WithdrawalBundleInfo::Known(bundle) => {
                    if before == WithdrawalBundleStatus::Submitted {
                        match respend_coins(ledger, &bundle.spend_utxos, m6id) {
                            Ok(()) => {},
                            Err(outpoint) => return Err(Error::NoUtxo { outpoint }),
                        }
                        takes_back = true;
                    }
                },
                _ => {},
            }
        },
    }
    if takes_back {
        match pop_failure(peg, m6id, block_height) {
            Ok(()) => {},
            Err(e) => return Err(e),
        }
    }
    pop_status(peg, m6id, false);
    Ok(())
}

/// What the mainchain said of a bundle is undone.
pub open spec fn undo_bundle_event(
    ledger: LedgerView,
    peg: PegView,
    block_height: u32,
    event: WithdrawalBundleEvent,
) -> Result<(LedgerView, PegView), Error> {
    match event.status {
        WithdrawalBundleEventStatus::Submitted => unsubmitted(
            ledger,
            peg,
            block_height,
            event.m6id,
        ),
        WithdrawalBundleEventStatus::Confirmed => unconfirmed(
            ledger,
            peg,
            block_height,
            event.m6id,
        ),
        WithdrawalBundleEventStatus::Failed => unfailed(ledger, peg, block_height, event.m6id),
    }
}

pub fn disconnect_withdrawal_bundle_event(
    ledger: &mut Ledger,
    peg: &mut Peg,
    block_height: u32,
    event: &WithdrawalBundleEvent,
) -> (r: Result<(), Error>)
    ensures
        match r {
            Ok(()) => undo_bundle_event(old(ledger)@, old(peg)@, block_height, *event) == Ok::<
                (LedgerView, PegView),
                Error,
            >((final(ledger)@, final(peg)@)),
            Err(e) => undo_bundle_event(old(ledger)@, old(peg)@, block_height, *event) == Err::<
                (LedgerView, PegView),
                Error,
            >(e),
        },
{
    match event.status {
        WithdrawalBundleEventStatus::Submitted => disconnect_withdrawal_bundle_submitted(
            ledger,
            peg,
            block_height,
            event.m6id,
        ),
        WithdrawalBundleEventStatus::Confirmed => disconnect_withdrawal_bundle_confirmed(
            ledger,
            peg,
            block_height,
            event.m6id,
        ),
        WithdrawalBundleEventStatus::Failed => disconnect_withdrawal_bundle_failed(
            ledger,
            peg,
            block_height,
            event.m6id,
        ),
    }
}

/// One hash if there is one, else another.
pub open spec fn or_else(a: Option<MainBlockHash>, b: Option<MainBlockHash>) -> Option<
    MainBlockHash,
> {
    match a {
        Some(_) => a,
        None => b,
    }
}

/// An event is undone. The block that is noted is the one whose events are
/// undone first, which is the last of them.
pub open spec fn disconnect_one(
    at: PegProgress,
    block_height: u32,
    event_block_hash: MainBlockHash,
    event: BlockEvent,
) -> Result<PegProgress, Error> {
    match event {
        BlockEvent::Deposit(deposit) => {
            let outpoint = OutPoint::Deposit(deposit.outpoint);
            if at.ledger.utxos.dom().contains(outpoint) {
                Ok(
                    PegProgress {
                        ledger: at.ledger.delete(outpoint),
                        deposit_block: or_else(at.deposit_block, Some(event_block_hash)),
                        ..at
                    },
                )
            } else {
                Err(Error::NoUtxo { outpoint })
            }
        },
        BlockEvent::WithdrawalBundle(e) => match undo_bundle_event(
            at.ledger,
            at.peg,
            block_height,
            e,
        ) {
            Err(e) => Err(e),
            Ok((ledger, peg)) => Ok(
                PegProgress {
                    ledger,
                    peg,
                    event_block: or_else(at.event_block, Some(event_block_hash)),
                    ..at
                },
            ),
        },
    }
}

/// The events of a mainchain block are undone, the last first.
pub open spec fn disconnect_events(
    at: PegProgress,
    block_height: u32,
    event_block_hash: MainBlockHash,
    events: Seq<BlockEvent>,
) -> Result<PegProgress, Error>
    decreases events.len(),
{
    if events.len() == 0 {
        Ok(at)
    } else {
        match disconnect_one(at, block_height, event_block_hash, events.last()) {
            Err(e) => Err(e),
            Ok(next) => disconnect_events(
                next,
                block_height,
                event_block_hash,
                events.drop_last(),
            ),
        }
    }
}

/// The events of mainchain blocks are undone, the last first.
pub open spec fn disconnect_blocks(
    at: PegProgress,
    block_height: u32,
    blocks: Seq<EventBlock>,
) -> Result<PegProgress, Error>
    decreases blocks.len(),
{
    if blocks.len() == 0 {
        Ok(at)
    } else {
        match disconnect_events(
            at,
            block_height,
            blocks.last().block_hash,
            blocks.last().events@,
        ) {
            Err(e) => Err(e),
            Ok(next) => disconnect_blocks(next, block_height, blocks.drop_last()),
        }
    }
}

pub fn disconnect_event(
    ledger: &mut Ledger,
    peg: &mut Peg,
    last: &mut LastBlocks,
    block_height: u32,
    event_block_hash: MainBlockHash,
    event: &BlockEvent,
) -> (r: Result<(), Error>)
    ensures
        match r {
            Ok(()) => disconnect_one(
                progress(old(ledger)@, old(peg)@, *old(last)),
                block_height,
                event_block_hash,
                *event,
            ) == Ok::<PegProgress, Error>(progress(final(ledger)@, final(peg)@, *final(last))),
            Err(e) => disconnect_one(
                progress(old(ledger)@, old(peg)@, *old(last)),
                block_height,
                event_block_hash,
                *event,
            ) == Err::<PegProgress, Error>(e),
        },
{
    match event {
        BlockEvent::Deposit(deposit) => {
            let outpoint = OutPoint::Deposit(deposit.outpoint);
            if !ledger.delete_utxo(&outpoint) {
                return Err(Error::NoUtxo { outpoint });
            }
            if last.deposit_block.is_none() {
                last.deposit_block = Some(event_block_hash);
            }
        },
        BlockEvent::WithdrawalBundle(e) => {
            match disconnect_withdrawal_bundle_event(ledger, peg, block_height, e) {
                Ok(()) => {},
                Err(e) => return Err(e),
            }
            if last.event_block.is_none() {
                last.event_block = Some(event_block_hash);
            }
        },
    }
    Ok(())
}

fn disconnect_event_block(
    ledger: &mut Ledger,
    peg: &mut Peg,
    last: &mut LastBlocks,
    block_height: u32,
    event_block_hash: MainBlockHash,
    events: &Box<[BlockEvent]>,
) -> (r: Result<(), Error>)
    ensures
        match r {
            Ok(()) => disconnect_events(
                progress(old(ledger)@, old(peg)@, *old(last)),
                block_height,
                event_block_hash,
                events@,
            ) == Ok::<PegProgress, Error>(progress(final(ledger)@, final(peg)@, *final(last))),
            Err(e) => disconnect_events(
                progress(old(ledger)@, old(peg)@, *old(last)),
                block_height,
                event_block_hash,
                events@,
            ) == Err::<PegProgress, Error>(e),
        },
{
    let ghost start = progress(ledger@, peg@, *last);
    let mut i: usize = events.len();
    assert(events@.subrange(0, i as int) =~= events@);
    while i > 0
        invariant
            i <= events@.len(),
            start == progress(old(ledger)@, old(peg)@, *old(last)),
            disconnect_events(start, block_height, event_block_hash, events@) == disconnect_events(
                progress(ledger@, peg@, *last),
                block_height,
                event_block_hash,
                events@.subrange(0, i as int),
            ),
        decreases i,
    {
        proof {
            assert(events@.subrange(0, i as int).drop_last() =~= events@.subrange(0, i - 1));
        }
        i -= 1;
        match disconnect_event(ledger, peg, last, block_height, event_block_hash, &events[i]) {
            Ok(()) => {},
            Err(e) => return Err(e),
        }
    }
    Ok(())
}

/// Whether rows are those of blocks with deposits, or with events of bundles.
#[derive(Clone, Copy, Debug, PartialEq, Eq, Structural)]
pub enum BlockRows {
    Deposits,
    Events,
}

/// The row of a mainchain block, which must be the last one, is removed.
pub open spec fn without_block(
    blocks: Map<u32, (MainBlockHash, u32)>,
    block: Option<MainBlockHash>,
    block_height: u32,
    rows: BlockRows,
) -> Result<Map<u32, (MainBlockHash, u32)>, Error> {
    match block {
        None => Ok(blocks),
        Some(hash) => match last_row(blocks) {
            None => Err(
                match rows {
                    BlockRows::Deposits => Error::NoDepositBlock,
                    BlockRows::Events => Error::NoWithdrawalBundleEventBlock,
                },
            ),
            Some(row) => if row.1.0 != hash {
                Err(
                    Error::DatabaseError(
                        match rows {
                            BlockRows::Deposits => Reason::DepositBlockMismatch {
                                block: hash,
                                last: row.1.0,
                            },
                            BlockRows::Events => Reason::EventBlockMismatch {
                                block: hash,
                                last: row.1.0,
                            },
                        },
                    ),
                )
            } else if row.1.1 != block_height {
                Err(
                    Error::DatabaseError(
                        match rows {
                            BlockRows::Deposits => Reason::DepositBlockHeight {
                                block: block_height,
                                last: row.1.1,
                            },
                            BlockRows::Events => Reason::EventBlockHeight {
                                block: block_height,
                                last: row.1.1,
                            },
                        },
                    ),
                )
            } else {
                Ok(blocks.remove(row.0))
            },
        },
    }
}

/// The bundle that was stored at a height no longer waits for submission.
pub open spec fn pending_removed(peg: PegView, block_height: u32) -> Result<PegView, Error> {
    match peg.latest_failure() {
        Err(e) => Err(e),
        Ok(_) => if block_height - peg.failure_height() >= WITHDRAWAL_BUNDLE_FAILURE_GAP
            && peg.pending is Some {
            let m6id = peg.pending->0;
            if !peg.bundles.dom().contains(m6id) {
                Err(Error::DatabaseError(Reason::PendingBundleUnknown(m6id)))
            } else if peg.bundles[m6id].status.last().height == block_height {
                Ok(
                    PegView {
                        pending: None,
                        bundles: without_status(peg.bundles, m6id, peg.bundles[m6id].info),
                        ..peg
                    },
                )
            } else {
                Ok(peg)
            }
        } else {
            Ok(peg)
        },
    }
}

pub open spec fn event_block_removed(at: PegProgress, block_height: u32) -> Result<PegView, Error> {
    match without_block(
        at.peg.event_blocks,
        at.event_block,
        block_height,
        BlockRows::Events,
    ) {
        Err(e) => Err(e),
        Ok(event_blocks) => Ok(PegView { event_blocks, ..at.peg }),
    }
}

pub open spec fn deposit_block_removed(
    peg: PegView,
    deposit_block: Option<MainBlockHash>,
    block_height: u32,
) -> Result<PegView, Error> {
    match without_block(
        peg.deposit_blocks,
        deposit_block,
        block_height,
        BlockRows::Deposits,
    ) {
        Err(e) => Err(e),
        Ok(deposit_blocks) => Ok(PegView { deposit_blocks, ..peg }),
    }
}

/// The events are undone, their mainchain blocks are no longer noted, and a
/// bundle that was stored with them no longer waits for submission.
pub open spec fn disconnected(
    ledger: LedgerView,
    peg: PegView,
    block_height: u32,
    data: TwoWayPegData,
) -> Result<(LedgerView, PegView), Error> {
    match disconnect_blocks(
        PegProgress { ledger, peg, deposit_block: None, event_block: None },
        block_height,
        data.blocks@,
    ) {
        Err(e) => Err(e),
        Ok(at) => match event_block_removed(at, block_height) {
            Err(e) => Err(e),
            Ok(one) => match pending_removed(one, block_height) {
                Err(e) => Err(e),
                Ok(two) => match deposit_block_removed(two, at.deposit_block, block_height) {
                    Err(e) => Err(e),
                    Ok(three) => Ok((at.ledger, three)),
                },
            },
        },
    }
}

proof fn lemma_undo_keeps(
    ledger: LedgerView,
    peg: PegView,
    block_height: u32,
    event: WithdrawalBundleEvent,
)
    requires
        heights_within(peg, block_height),
        undo_bundle_event(ledger, peg, block_height, event) is Ok,
    ensures
        heights_within(undo_bundle_event(ledger, peg, block_height, event)->Ok_0.1, block_height),
{
    let next = undo_bundle_event(ledger, peg, block_height, event)->Ok_0.1;
    assert forall|m6id: M6id, i: int| #[trigger]
        next.bundles.dom().contains(m6id) && 0 <= i
            < next.bundles[m6id].status.len() implies #[trigger] next.bundles[m6id].status[i].height
        <= block_height by {
        assert(peg.bundles.dom().contains(m6id));
        assert(peg.bundles[m6id].status[i].height <= block_height);
    }
}

proof fn lemma_disconnect_events_keep(
    at: PegProgress,
    block_height: u32,
    event_block_hash: MainBlockHash,
    events: Seq<BlockEvent>,
)
    requires
        heights_within(at.peg, block_height),
        disconnect_events(at, block_height, event_block_hash, events) is Ok,
    ensures
        heights_within(
            disconnect_events(at, block_height, event_block_hash, events)->Ok_0.peg,
            block_height,
        ),
    decreases events.len(),
{
    if events.len() > 0 {
        match events.last() {
            BlockEvent::Deposit(_) => {},
            BlockEvent::WithdrawalBundle(e) => {
                lemma_undo_keeps(at.ledger, at.peg, block_height, e);
            },
        }
        let next = disconnect_one(at, block_height, event_block_hash, events.last())->Ok_0;
        lemma_disconnect_events_keep(next, block_height, event_block_hash, events.drop_last());
    }
}

proof fn lemma_disconnect_blocks_keep(at: PegProgress, block_height: u32, blocks: Seq<EventBlock>)
    requires
        heights_within(at.peg, block_height),
        disconnect_blocks(at, block_height, blocks) is Ok,
    ensures
        heights_within(disconnect_blocks(at, block_height, blocks)->Ok_0.peg, block_height),
    decreases blocks.len(),
{
    if blocks.len() > 0 {
        lemma_disconnect_events_keep(
            at,
            block_height,
            blocks.last().block_hash,
            blocks.last().events@,
        );
        let next = disconnect_events(
            at,
            block_height,
            blocks.last().block_hash,
            blocks.last().events@,
        )->Ok_0;
        lemma_disconnect_blocks_keep(next, block_height, blocks.drop_last());
    }
}

/// Removes the last row of a table of mainchain blocks, which must be that of
/// a block at a height.
fn remove_block(
    table: &mut Table<u32, (MainBlockHash, u32)>,
    block: Option<MainBlockHash>,
    block_height: u32,
    rows: BlockRows,
) -> (r: Result<(), Error>)
    ensures
        match r {
            Ok(()) => without_block(old(table)@, block, block_height, rows) == Ok::<
                Map<u32, (MainBlockHash, u32)>,
                Error,
            >(final(table)@),
            Err(e) => without_block(old(table)@, block, block_height, rows) == Err::<
                Map<u32, (MainBlockHash, u32)>,
                Error,
            >(e),
        },
{
    let hash = match block {
        None => return Ok(()),
        Some(hash) => hash,
    };
    match last_of(table) {
        None => Err(
            match rows {
                BlockRows::Deposits => Error::NoDepositBlock,
                BlockRows::Events => Error::NoWithdrawalBundleEventBlock,
            },
        ),
        Some(row) => {
            let (last_hash, last_height) = row.1;
            if last_hash != hash {
                let reason = match rows {
                    BlockRows::Deposits => Reason::DepositBlockMismatch {
                        block: hash,
                        last: last_hash,
                    },
                    BlockRows::Events => Reason::EventBlockMismatch {
                        block: hash,
                        last: last_hash,
                    },
                };
                return Err(Error::DatabaseError(reason));
            }
            if last_height != block_height {
                let reason = match rows {
                    BlockRows::Deposits => Reason::DepositBlockHeight {
                        block: block_height,
                        last: last_height,
                    },
                    BlockRows::Events => Reason::EventBlockHeight {
                        block: block_height,
                        last: last_height,
                    },
                };
                return Err(Error::DatabaseError(reason));
            }
            let _ = table.delete(&row.0);
            Ok(())
        },
    }
}

fn remove_pending(peg: &mut Peg, block_height: u32) -> (r: Result<(), Error>)
    requires
        old(peg)@.failure_height() <= block_height,
    ensures
        match r {
            Ok(()) => pending_removed(old(peg)@, block_height) == Ok::<PegView, Error>(final(peg)@),
            Err(e) => pending_removed(old(peg)@, block_height) == Err::<PegView, Error>(e),
        },
{
    let failure_height: u32 = match peg.get_latest_failed_withdrawal_bundle() {
        Err(e) => return Err(e),
        Ok(Some((h, _))) => h,
        Ok(None) => 0,
    };
    if block_height - failure_height < WITHDRAWAL_BUNDLE_FAILURE_GAP {
        return Ok(());
    }
    let m6id = match peg.pending_withdrawal_bundle {
        None => return Ok(()),
        Some(m6id) => m6id,
    };
    match peg.withdrawal_bundles.get(&m6id) {
        None => return Err(
            Error::DatabaseError(Reason::PendingBundleUnknown(m6id)),
        ),
        Some(row) => {
            assert(peg@.bundles[m6id] == row@);
            if row.status.latest().height != block_height {
                return Ok(());
            }
        },
    }
    peg.pending_withdrawal_bundle = None;
    pop_status(peg, m6id, false);
    Ok(())
}

/// Undoes what the mainchain said.
pub fn disconnect(
    ledger: &mut Ledger,
    peg: &mut Peg,
    height: Option<u32>,
    two_way_peg_data: &TwoWayPegData,
) -> (r: Result<(), Error>)
    requires
        height is Some ==> disconnects_within(
            old(ledger)@,
            old(peg)@,
            height->0,
            *two_way_peg_data,
        ),
    ensures
        match height {
            None => r == Err::<(), Error>(Error::NoTip),
            Some(block_height) => match r {
                Ok(()) => disconnected(
                    old(ledger)@,
                    old(peg)@,
                    block_height,
                    *two_way_peg_data,
                ) == Ok::<(LedgerView, PegView), Error>((final(ledger)@, final(peg)@)),
                Err(e) => disconnected(
                    old(ledger)@,
                    old(peg)@,
                    block_height,
                    *two_way_peg_data,
                ) == Err::<(LedgerView, PegView), Error>(e),
            },
        },
{
    let block_height: u32 = match height {
        None => return Err(Error::NoTip),
        Some(h) => h,
    };
    let mut last = LastBlocks { deposit_block: None, event_block: None };
    let ghost start = PegProgress {
        ledger: ledger@,
        peg: peg@,
        deposit_block: None,
        event_block: None,
    };
    let blocks = &two_way_peg_data.blocks;
    let mut i: usize = blocks.len();
    assert(start == progress(ledger@, peg@, last));
    assert(blocks@.subrange(0, i as int) =~= blocks@);
    while i > 0
        invariant
            i <= blocks@.len(),
            start == (PegProgress {
                ledger: old(ledger)@,
                peg: old(peg)@,
                deposit_block: None,
                event_block: None,
            }),
            blocks@ == two_way_peg_data.blocks@,
            height == Some(block_height),
            disconnect_blocks(start, block_height, blocks@) == disconnect_blocks(
                progress(ledger@, peg@, last),
                block_height,
                blocks@.subrange(0, i as int),
            ),
        decreases i,
    {
        proof {
            assert(blocks@.subrange(0, i as int).drop_last() =~= blocks@.subrange(0, i - 1));
        }
        i -= 1;
        let block = &blocks[i];
        match disconnect_event_block(
            ledger,
            peg,
            &mut last,
            block_height,
            block.block_hash,
            &block.events,
        ) {
            Ok(()) => {},
            Err(e) => return Err(e),
        }
    }
    let ghost at = disconnect_blocks(start, block_height, blocks@)->Ok_0;
    assert(at == progress(ledger@, peg@, last));
    match remove_block(
        &mut peg.withdrawal_bundle_event_blocks,
        last.event_block,
        block_height,
        BlockRows::Events,
    ) {
        Ok(()) => {},
        Err(e) => return Err(e),
    }
    assert(peg@.latest_failure() == at.peg.latest_failure());
    match remove_pending(peg, block_height) {
        Ok(()) => {},
        Err(e) => return Err(e),
    }
    match remove_block(
        &mut peg.deposit_blocks,
        last.deposit_block,
        block_height,
        BlockRows::Deposits,
    ) {
        Ok(()) => {},
        Err(e) => return Err(e),
    }
    Ok(())
}

} // verus!
