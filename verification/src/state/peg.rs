//! What the state knows of the peg to the mainchain: withdrawal bundles, and
//! the mainchain blocks in which deposits and bundle events were seen.

use vstd::prelude::*;

use crate::bytes::{bytes_before_irreflexive, bytes_before_transitive};
use crate::state::rollback::{HeightStamped, RollBack};
use crate::state::{Error, Reason};
use crate::table::{is_last_key, Table};
use crate::types::transaction::output::FilledOutput;
use crate::types::transaction::OutPoint;
use crate::types::{M6id, MainBlockHash, MainOutPoint};

verus! {

/// The least number of blocks between the failure of a bundle and the next
/// bundle.
pub const WITHDRAWAL_BUNDLE_FAILURE_GAP: u32 = 4;

/// Where a withdrawal bundle stands.
#[derive(Clone, Copy, Debug, PartialEq, Eq, Structural)]
pub enum WithdrawalBundleStatus {
    Confirmed,
    Dropped,
    Failed,
    Pending,
    Submitted,
    /// Submitted although it was dropped, or had failed.
    SubmittedUnexpected,
}

/// What the mainchain says of a bundle.
#[derive(Clone, Copy, Debug, PartialEq, Eq, Structural)]
pub enum WithdrawalBundleEventStatus {
    Submitted,
    Confirmed,
    Failed,
}

#[derive(Clone, Copy, Debug)]
pub struct WithdrawalBundleEvent {
    pub m6id: M6id,
    pub status: WithdrawalBundleEventStatus,
}

#[derive(Debug)]
pub struct Deposit {
    pub outpoint: MainOutPoint,
    pub output: FilledOutput,
}

/// What a mainchain block holds for this chain.
#[derive(Debug)]
pub enum BlockEvent {
    Deposit(Deposit),
    WithdrawalBundle(WithdrawalBundleEvent),
}

#[derive(Debug)]
pub struct EventBlock {
    pub block_hash: MainBlockHash,
    pub events: Box<[BlockEvent]>,
}

/// The events of the mainchain blocks that a block of this chain covers, in
/// their order.
#[derive(Debug)]
pub struct TwoWayPegData {
    pub blocks: Box<[EventBlock]>,
}

/// An output of the mainchain transaction that pays a bundle.
#[derive(Debug)]
pub struct BundleOutput {
    pub value: u64,
    pub script_pubkey: Box<[u8]>,
}

/// Withdrawals that are paid together.
#[derive(Debug)]
pub struct WithdrawalBundle {
    pub m6id: M6id,
    pub block_height: u32,
    pub fee: u64,
    /// The withdrawal outputs that are paid, in the order of their outpoints.
    pub spend_utxos: Box<[(OutPoint, FilledOutput)]>,
    pub outputs: Box<[BundleOutput]>,
}

#[derive(Debug)]
pub enum WithdrawalBundleInfo {
    Known(WithdrawalBundle),
    Unknown,
    UnknownConfirmed { spend_utxos: Box<[(OutPoint, FilledOutput)]> },
}

/// A bundle, and the states that it went through.
#[derive(Debug)]
pub struct BundleRow {
    pub info: WithdrawalBundleInfo,
    pub status: RollBack<WithdrawalBundleStatus>,
}

pub type StatusHistory = Seq<HeightStamped<WithdrawalBundleStatus>>;

#[verifier::ext_equal]
pub enum InfoView {
    Known(WithdrawalBundle),
    Unknown,
    UnknownConfirmed(Seq<(OutPoint, FilledOutput)>),
}

#[verifier::ext_equal]
pub struct BundleRowView {
    pub info: InfoView,
    pub status: StatusHistory,
}

impl View for BundleRow {
    type V = BundleRowView;

    open spec fn view(&self) -> BundleRowView {
        BundleRowView {
            info: match self.info {
                WithdrawalBundleInfo::Known(bundle) => InfoView::Known(bundle),
                WithdrawalBundleInfo::Unknown => InfoView::Unknown,
                WithdrawalBundleInfo::UnknownConfirmed { spend_utxos } => {
                    InfoView::UnknownConfirmed(spend_utxos@)
                },
            },
            status: self.status@,
        }
    }
}

pub struct Peg {
    /// The bundle that waits for submission. It is in `withdrawal_bundles`.
    pub pending_withdrawal_bundle: Option<M6id>,
    pub latest_failed_withdrawal_bundle: Option<RollBack<M6id>>,
    pub withdrawal_bundles: Table<M6id, BundleRow>,
    pub deposit_blocks: Table<u32, (MainBlockHash, u32)>,
    pub withdrawal_bundle_event_blocks: Table<u32, (MainBlockHash, u32)>,
}

#[verifier::ext_equal]
pub struct PegView {
    pub pending: Option<M6id>,
    pub latest_failed: Option<Seq<HeightStamped<M6id>>>,
    pub bundles: Map<M6id, BundleRowView>,
    pub deposit_blocks: Map<u32, (MainBlockHash, u32)>,
    pub event_blocks: Map<u32, (MainBlockHash, u32)>,
}

/// What rows of bundles say.
pub open spec fn bundles_view(m: Map<M6id, BundleRow>) -> Map<M6id, BundleRowView> {
    m.map_values(|row: BundleRow| row@)
}

/// Setting and removing a row shows in what the rows say.
pub proof fn lemma_bundles_view(m: Map<M6id, BundleRow>, key: M6id, row: BundleRow)
    ensures
        bundles_view(m.insert(key, row)) == bundles_view(m).insert(key, row@),
        bundles_view(m.remove(key)) == bundles_view(m).remove(key),
{
    assert(bundles_view(m.insert(key, row)) =~= bundles_view(m).insert(key, row@));
    assert(bundles_view(m.remove(key)) =~= bundles_view(m).remove(key));
}

impl View for Peg {
    type V = PegView;

    open spec fn view(&self) -> PegView {
        PegView {
            pending: self.pending_withdrawal_bundle,
            latest_failed: match self.latest_failed_withdrawal_bundle {
                Some(r) => Some(r@),
                None => None,
            },
            bundles: bundles_view(self.withdrawal_bundles@),
            deposit_blocks: self.deposit_blocks@,
            event_blocks: self.withdrawal_bundle_event_blocks@,
        }
    }
}

/// The row that comes last, by the bytes of its key.
pub open spec fn last_row(
    m: Map<u32, (MainBlockHash, u32)>,
) -> Option<(u32, (MainBlockHash, u32))> {
    if exists|k: u32| is_last_key(m, k) {
        let k = choose|k: u32| is_last_key(m, k);
        Some((k, m[k]))
    } else {
        None
    }
}

/// There is one last key.
pub proof fn lemma_last_row(m: Map<u32, (MainBlockHash, u32)>, k: u32)
    requires
        is_last_key(m, k),
    ensures
        last_row(m) == Some((k, m[k])),
{
    let c = choose|c: u32| is_last_key(m, c);
    assert(is_last_key(m, c));
    if c != k {
        assert(m.dom().contains(c));
        bytes_before_transitive(
            crate::table::Key::key_bytes(&c),
            crate::table::Key::key_bytes(&k),
            crate::table::Key::key_bytes(&c),
        );
        bytes_before_irreflexive(crate::table::Key::key_bytes(&c));
    }
}

pub fn last_of(t: &Table<u32, (MainBlockHash, u32)>) -> (r: Option<(u32, (MainBlockHash, u32))>)
    ensures
        r == last_row(t@),
{
    match t.last() {
        Some(row) => {
            proof {
                lemma_last_row(t@, row.0);
            }
            Some(*row)
        },
        None => None,
    }
}

/// Where the next row goes: after the last one.
pub open spec fn next_seq_idx(m: Map<u32, (MainBlockHash, u32)>) -> int {
    match last_row(m) {
        Some(row) => row.0 + 1,
        None => 0,
    }
}

/// The last entry with which a bundle failed.
pub open spec fn failed_height(status: StatusHistory) -> Option<u32>
    decreases status.len(),
{
    if status.len() == 0 {
        None
    } else if status.last().value is Failed {
        Some(status.last().height)
    } else {
        failed_height(status.drop_last())
    }
}

impl PegView {
    /// The bundle that failed last, and the height at which it did.
    pub open spec fn latest_failure(self) -> Result<Option<(u32, M6id)>, Error> {
        match self.latest_failed {
            None => Ok(None),
            Some(history) => {
                let m6id = history.last().value;
                if !self.bundles.dom().contains(m6id) {
                    Err(
                        Error::DatabaseError(Reason::FailedBundleNotFound(m6id)),
                    )
                } else {
                    match failed_height(self.bundles[m6id].status) {
                        Some(height) => Ok(Some((height, m6id))),
                        None => Err(Error::DatabaseError(Reason::NoFailureStatus(m6id))),
                    }
                }
            },
        }
    }

    /// The height at which a bundle failed last, or zero.
    pub open spec fn failure_height(self) -> u32 {
        match self.latest_failure() {
            Ok(Some((height, _))) => height,
            _ => 0,
        }
    }
}

impl Peg {
    pub fn new() -> (r: Self)
        ensures
            r@ == (PegView {
                pending: None,
                latest_failed: None,
                bundles: Map::empty(),
                deposit_blocks: Map::empty(),
                event_blocks: Map::empty(),
            }),
    {
        let r = Peg {
            pending_withdrawal_bundle: None,
            latest_failed_withdrawal_bundle: None,
            withdrawal_bundles: Table::new(),
            deposit_blocks: Table::new(),
            withdrawal_bundle_event_blocks: Table::new(),
        };
        assert(r@.bundles =~= Map::empty());
        r
    }

    pub fn get_latest_failed_withdrawal_bundle(&self) -> (r: Result<Option<(u32, M6id)>, Error>)
        ensures
            r == self@.latest_failure(),
    {
        let m6id = match &self.latest_failed_withdrawal_bundle {
            None => return Ok(None),
            Some(history) => history.latest().value,
        };
        match self.withdrawal_bundles.get(&m6id) {
            None => Err(Error::DatabaseError(Reason::FailedBundleNotFound(m6id))),
            Some(row) => {
                let ghost status = row.status@;
                let n: usize = row.status.count_earlier();
                assert(self@.bundles[m6id].status == status);
                let latest = row.status.latest();
                if latest.value == WithdrawalBundleStatus::Failed {
                    return Ok(Some((latest.height, m6id)));
                }
                assert(failed_height(status) == failed_height(status.drop_last()));
                assert(status.drop_last() =~= status.subrange(0, n as int));
                let mut i: usize = n;
                while i > 0
                    invariant
                        i <= n,
                        n + 1 == status.len(),
                        status == row.status@,
                        self@.bundles.dom().contains(m6id),
                        self@.bundles[m6id].status == status,
                        self@.latest_failed is Some,
                        self@.latest_failed->0.last().value == m6id,
                        failed_height(status) == failed_height(status.subrange(0, i as int)),
                    decreases i,
                {
                    proof {
                        assert(status.subrange(0, i as int).drop_last() =~= status.subrange(
                            0,
                            i - 1,
                        ));
                    }
                    i -= 1;
                    let entry = row.status.get(i);
                    if entry.value == WithdrawalBundleStatus::Failed {
                        return Ok(Some((entry.height, m6id)));
                    }
                }
                Err(Error::DatabaseError(Reason::NoFailureStatus(m6id)))
            },
        }
    }

    /// The bundle that waits for submission, and the height at which it was
    /// stored.
    pub fn get_pending_withdrawal_bundle(&self) -> (r: Result<
        Option<(&WithdrawalBundle, u32)>,
        Error,
    >)
        ensures
            match self@.pending {
                None => r == Ok::<Option<(&WithdrawalBundle, u32)>, Error>(None),
                Some(m6id) => {
                    if !self@.bundles.dom().contains(m6id) {
                        r == Err::<Option<(&WithdrawalBundle, u32)>, Error>(
                            Error::DatabaseError(
                                Reason::PendingBundleUnknown(m6id),
                            ),
                        )
                    } else {
                        match self@.bundles[m6id].info {
                            InfoView::Known(bundle) => r == Ok::<
                                Option<(&WithdrawalBundle, u32)>,
                                Error,
                            >(Some((&bundle, self@.bundles[m6id].status.last().height))),
                            _ => r == Err::<Option<(&WithdrawalBundle, u32)>, Error>(
                                Error::DatabaseError(Reason::PendingBundleNotKnown(m6id)),
                            ),
                        }
                    }
                },
            },
    {
        let m6id = match self.pending_withdrawal_bundle {
            None => return Ok(None),
            Some(m6id) => m6id,
        };
        match self.withdrawal_bundles.get(&m6id) {
            None => Err(
                Error::DatabaseError(Reason::PendingBundleUnknown(m6id)),
            ),
            Some(row) => match &row.info {
                WithdrawalBundleInfo::Known(bundle) => Ok(
                    Some((bundle, row.status.latest().height)),
                ),
                _ => Err(Error::DatabaseError(Reason::PendingBundleNotKnown(m6id))),
            },
        }
    }

    /// The mainchain block of the last deposit.
    pub fn get_last_deposit_block_hash(&self) -> (r: Option<MainBlockHash>)
        ensures
            r == match last_row(self@.deposit_blocks) {
                Some(row) => Some(row.1.0),
                None => None,
            },
    {
        match last_of(&self.deposit_blocks) {
            Some(row) => Some(row.1.0),
            None => None,
        }
    }

    /// The mainchain block of the last bundle event.
    pub fn get_last_withdrawal_bundle_event_block_hash(&self) -> (r: Option<MainBlockHash>)
        ensures
            r == match last_row(self@.event_blocks) {
                Some(row) => Some(row.1.0),
                None => None,
            },
    {
        match last_of(&self.withdrawal_bundle_event_blocks) {
            Some(row) => Some(row.1.0),
            None => None,
        }
    }
}

} // verus!
