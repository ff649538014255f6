//! Gathering withdrawals into a bundle.

use vstd::prelude::*;

use crate::bytes::{boxed, boxed_copy, lemma_boxed_equal, same_slice};
use crate::state::peg::{BundleOutput, WithdrawalBundle};
use crate::state::Error;
use crate::table::Table;
use crate::types::transaction::order::{is_listing, list_coins};
use crate::types::transaction::output::{FilledContent, FilledOutput, MainAddress};
use crate::types::transaction::OutPoint;
use crate::types::{AmountOverflowError, Duplicate, M6id};

verus! {

/// The withdrawals to one mainchain address.
#[derive(Debug)]
pub struct AggregatedWithdrawal {
    pub main_address: MainAddress,
    pub value: u64,
    pub main_fee: u64,
    pub spend_utxos: Vec<(OutPoint, FilledOutput)>,
}

/// A row is a withdrawal to an address.
pub open spec fn withdraws_to(row: (OutPoint, FilledOutput), address: MainAddress) -> bool {
    match row.1.content {
        FilledContent::BitcoinWithdrawal(w) => w.main_address == address,
        _ => false,
    }
}

/// What the withdrawals to an address pay.
pub open spec fn value_to(rows: Seq<(OutPoint, FilledOutput)>, address: MainAddress) -> nat
    decreases rows.len(),
{
    if rows.len() == 0 {
        0
    } else {
        value_to(rows.drop_last(), address) + if withdraws_to(rows.last(), address) {
            rows.last().1.content->BitcoinWithdrawal_0.value as nat
        } else {
            0
        }
    }
}

/// What the withdrawals to an address pay to the mainchain miner.
pub open spec fn fee_to(rows: Seq<(OutPoint, FilledOutput)>, address: MainAddress) -> nat
    decreases rows.len(),
{
    if rows.len() == 0 {
        0
    } else {
        fee_to(rows.drop_last(), address) + if withdraws_to(rows.last(), address) {
            rows.last().1.content->BitcoinWithdrawal_0.main_fee as nat
        } else {
            0
        }
    }
}

/// The withdrawals to an address.
pub open spec fn rows_to(rows: Seq<(OutPoint, FilledOutput)>, address: MainAddress) -> Seq<
    (OutPoint, FilledOutput),
> {
    rows.filter(|row: (OutPoint, FilledOutput)| withdraws_to(row, address))
}

proof fn lemma_sums_grow(rows: Seq<(OutPoint, FilledOutput)>, address: MainAddress, n: int)
    requires
        0 <= n <= rows.len(),
    ensures
        value_to(rows.subrange(0, n), address) <= value_to(rows, address),
        fee_to(rows.subrange(0, n), address) <= fee_to(rows, address),
    decreases rows.len() - n,
{
    if n == rows.len() {
        assert(rows.subrange(0, n) =~= rows);
    } else {
        lemma_sums_grow(rows, address, n + 1);
        assert(rows.subrange(0, n + 1).drop_last() =~= rows.subrange(0, n));
    }
}

/// An aggregate holds what the rows say of its address.
pub open spec fn aggregates(a: AggregatedWithdrawal, rows: Seq<(OutPoint, FilledOutput)>) -> bool {
    &&& a.value == value_to(rows, a.main_address)
    &&& a.main_fee == fee_to(rows, a.main_address)
    &&& a.spend_utxos@ == rows_to(rows, a.main_address)
    &&& a.spend_utxos@.len() > 0
}

/// There is one aggregate for each address that rows withdraw to.
pub open spec fn is_aggregation(
    list: Seq<AggregatedWithdrawal>,
    rows: Seq<(OutPoint, FilledOutput)>,
) -> bool {
    &&& forall|i: int| 0 <= i < list.len() ==> aggregates(#[trigger] list[i], rows)
    &&& forall|i: int, j: int|
        0 <= i < j < list.len() ==> (#[trigger] list[i]).main_address != (
        #[trigger] list[j]).main_address
    &&& forall|k: int|
        0 <= k < rows.len() && (#[trigger] rows[k]).1.content is BitcoinWithdrawal ==> exists|
            i: int,
        |
            0 <= i < list.len() && (#[trigger] list[i]).main_address
                == rows[k].1.content->BitcoinWithdrawal_0.main_address
}

/// The sums for some address do not fit.
pub open spec fn sums_overflow(rows: Seq<(OutPoint, FilledOutput)>) -> bool {
    exists|address: MainAddress| #[trigger]
        value_to(rows, address) > u64::MAX || fee_to(rows, address) > u64::MAX
}

fn same_address(a: &MainAddress, b: &MainAddress) -> (r: bool)
    ensures
        r == (*a == *b),
{
    let r = same_slice(&a.script_pubkey, &b.script_pubkey);
    proof {
        lemma_boxed_equal(a.script_pubkey, b.script_pubkey);
    }
    r
}

proof fn lemma_other_address(
    rows: Seq<(OutPoint, FilledOutput)>,
    i: int,
    address: MainAddress,
)
    requires
        0 <= i < rows.len(),
        !withdraws_to(rows[i], address),
    ensures
        value_to(rows.subrange(0, i + 1), address) == value_to(rows.subrange(0, i), address),
        fee_to(rows.subrange(0, i + 1), address) == fee_to(rows.subrange(0, i), address),
        rows_to(rows.subrange(0, i + 1), address) == rows_to(rows.subrange(0, i), address),
{
    assert(rows.subrange(0, i + 1).drop_last() =~= rows.subrange(0, i));
    reveal(Seq::filter);
}

proof fn lemma_this_address(
    rows: Seq<(OutPoint, FilledOutput)>,
    i: int,
    address: MainAddress,
)
    requires
        0 <= i < rows.len(),
        withdraws_to(rows[i], address),
    ensures
        value_to(rows.subrange(0, i + 1), address) == value_to(rows.subrange(0, i), address)
            + rows[i].1.content->BitcoinWithdrawal_0.value,
        fee_to(rows.subrange(0, i + 1), address) == fee_to(rows.subrange(0, i), address)
            + rows[i].1.content->BitcoinWithdrawal_0.main_fee,
        rows_to(rows.subrange(0, i + 1), address) == rows_to(rows.subrange(0, i), address).push(
            rows[i],
        ),
{
    assert(rows.subrange(0, i + 1).drop_last() =~= rows.subrange(0, i));
    reveal(Seq::filter);
}

proof fn lemma_no_rows_to(rows: Seq<(OutPoint, FilledOutput)>, address: MainAddress)
    requires
        forall|k: int| 0 <= k < rows.len() ==> !withdraws_to(#[trigger] rows[k], address),
    ensures
        value_to(rows, address) == 0,
        fee_to(rows, address) == 0,
        rows_to(rows, address) == Seq::<(OutPoint, FilledOutput)>::empty(),
    decreases rows.len(),
{
    reveal(Seq::filter);
    if rows.len() > 0 {
        let head = rows.drop_last();
        assert forall|k: int| 0 <= k < head.len() implies !withdraws_to(
            #[trigger] head[k],
            address,
        ) by {
            assert(head[k] == rows[k]);
        }
        lemma_no_rows_to(head, address);
        assert(!withdraws_to(rows[rows.len() - 1], address));
    }
    assert(rows_to(rows, address) =~= Seq::empty());
}

fn find_address(list: &Vec<AggregatedWithdrawal>, address: &MainAddress) -> (r: Option<usize>)
    ensures
        match r {
            Some(i) => i < list@.len() && list@[i as int].main_address == *address,
            None => forall|i: int|
                0 <= i < list@.len() ==> (#[trigger] list@[i]).main_address != *address,
        },
{
    let mut i: usize = 0;
    while i < list.len()
        invariant
            i <= list@.len(),
            forall|j: int| 0 <= j < i ==> (#[trigger] list@[j]).main_address != *address,
        decreases list@.len() - i,
    {
        if same_address(&list[i].main_address, address) {
            return Some(i);
        }
        i += 1;
    }
    None
}

/// Adds a withdrawal to the aggregate of its address, or starts one.
fn add_withdrawal(
    list: &mut Vec<AggregatedWithdrawal>,
    rows: Ghost<Seq<(OutPoint, FilledOutput)>>,
    n: Ghost<int>,
    outpoint: OutPoint,
    output: &FilledOutput,
    value: u64,
    main_fee: u64,
    main_address: &MainAddress,
) -> (r: bool)
    requires
        0 <= n@ < rows@.len(),
        rows@[n@] == (outpoint, *output),
        output.content is BitcoinWithdrawal,
        output.content->BitcoinWithdrawal_0.value == value,
        output.content->BitcoinWithdrawal_0.main_fee == main_fee,
        output.content->BitcoinWithdrawal_0.main_address == *main_address,
        is_aggregation(old(list)@, rows@.subrange(0, n@)),
    ensures
        r ==> is_aggregation(final(list)@, rows@.subrange(0, n@ + 1)),
        !r ==> value_to(rows@.subrange(0, n@ + 1), *main_address) > u64::MAX || fee_to(
            rows@.subrange(0, n@ + 1),
            *main_address,
        ) > u64::MAX,
{
    let ghost head = rows@.subrange(0, n@);
    let ghost next = rows@.subrange(0, n@ + 1);
    let ghost before = list@;
    proof {
        lemma_this_address(rows@, n@, *main_address);
        assert forall|i: int|
            0 <= i < before.len() && (#[trigger] before[i]).main_address
                != *main_address implies aggregates(before[i], next) by {
            assert(aggregates(before[i], head));
            lemma_other_address(rows@, n@, before[i].main_address);
        }
    }
    match find_address(list, main_address) {
        Some(k) => {
            assert(aggregates(list@[k as int], head));
            let new_value: u64 = match list[k].value.checked_add(value) {
                Some(sum) => sum,
                None => return false,
            };
            let new_fee: u64 = match list[k].main_fee.checked_add(main_fee) {
                Some(sum) => sum,
                None => return false,
            };
            let mut entry = list.remove(k);
            entry.value = new_value;
            entry.main_fee = new_fee;
            entry.spend_utxos.push((outpoint, output.duplicate()));
            list.insert(k, entry);
            proof {
                assert(list@ =~= before.update(k as int, entry));
                assert(aggregates(entry, next));
                assert forall|i: int| 0 <= i < list@.len() implies aggregates(
                    #[trigger] list@[i],
                    next,
                ) by {
                    if i != k {
                        assert(list@[i] == before[i]);
                        if i < k {
                            assert(before[i].main_address != before[k as int].main_address);
                        } else {
                            assert(before[k as int].main_address != before[i].main_address);
                        }
                    }
                }
                assert forall|i: int, j: int| 0 <= i < j < list@.len() implies (
                #[trigger] list@[i]).main_address != (#[trigger] list@[j]).main_address by {
                    assert(before[i].main_address != before[j].main_address);
                }
                assert forall|m: int|
                    0 <= m < next.len() && (
                    #[trigger] next[m]).1.content is BitcoinWithdrawal implies exists|i: int|
                    0 <= i < list@.len() && (#[trigger] list@[i]).main_address
                        == next[m].1.content->BitcoinWithdrawal_0.main_address by {
                    if m < n@ {
                        assert(head[m] == next[m]);
                        let i = choose|i: int|
                            0 <= i < before.len() && (#[trigger] before[i]).main_address
                                == head[m].1.content->BitcoinWithdrawal_0.main_address;
                        assert(list@[i].main_address == before[i].main_address);
                    } else {
                        assert(list@[k as int].main_address == *main_address);
                    }
                }
            }
            true
        },
        None => {
            let mut spend_utxos: Vec<(OutPoint, FilledOutput)> = Vec::new();
            spend_utxos.push((outpoint, output.duplicate()));
            let entry = AggregatedWithdrawal {
                main_address: main_address.duplicate(),
                value,
                main_fee,
                spend_utxos,
            };
            proof {
                assert forall|m: int| 0 <= m < head.len() implies !withdraws_to(
                    #[trigger] head[m],
                    *main_address,
                ) by {
                    if withdraws_to(head[m], *main_address) {
                        let i = choose|i: int|
                            0 <= i < before.len() && (#[trigger] before[i]).main_address
                                == head[m].1.content->BitcoinWithdrawal_0.main_address;
                        assert(before[i].main_address == *main_address);
                    }
                }
                lemma_no_rows_to(head, *main_address);
                assert(entry.spend_utxos@ =~= rows_to(next, *main_address));
                assert(aggregates(entry, next));
            }
            list.push(entry);
            proof {
                assert forall|i: int| 0 <= i < list@.len() implies aggregates(
                    #[trigger] list@[i],
                    next,
                ) by {
                    if i < before.len() {
                        assert(list@[i] == before[i]);
                    }
                }
                assert forall|i: int, j: int| 0 <= i < j < list@.len() implies (
                #[trigger] list@[i]).main_address != (#[trigger] list@[j]).main_address by {
                    if j < before.len() {
                        assert(before[i].main_address != before[j].main_address);
                    }
                }
                assert forall|m: int|
                    0 <= m < next.len() && (
                    #[trigger] next[m]).1.content is BitcoinWithdrawal implies exists|i: int|
                    0 <= i < list@.len() && (#[trigger] list@[i]).main_address
                        == next[m].1.content->BitcoinWithdrawal_0.main_address by {
                    if m < n@ {
                        assert(head[m] == next[m]);
                        let i = choose|i: int|
                            0 <= i < before.len() && (#[trigger] before[i]).main_address
                                == head[m].1.content->BitcoinWithdrawal_0.main_address;
                        assert(list@[i].main_address == before[i].main_address);
                    } else {
                        assert(list@[before.len() as int].main_address == *main_address);
                    }
                }
            }
            true
        },
    }
}

/// Gathers the unspent withdrawals by mainchain address. There is no order
/// among the addresses.
pub fn aggregate_withdrawals(utxos: &Table<OutPoint, FilledOutput>) -> (r: Result<
    Vec<AggregatedWithdrawal>,
    Error,
>)
    ensures
        match r {
            Ok(list) => is_aggregation(list@, utxos.rows()) && !sums_overflow(utxos.rows()),
            Err(e) => sums_overflow(utxos.rows()) && e == Error::AmountOverflow(
                AmountOverflowError,
            ),
        },
{
    let mut list: Vec<AggregatedWithdrawal> = Vec::new();
    let ghost rows = utxos.rows();
    let mut i: usize = 0;
    assert(rows.subrange(0, 0) =~= Seq::empty());
    while i < utxos.len()
        invariant
            i <= rows.len(),
            rows == utxos.rows(),
            is_aggregation(list@, rows.subrange(0, i as int)),
        decreases rows.len() - i,
    {
        let row = utxos.row(i);
        match &row.1.content {
            FilledContent::BitcoinWithdrawal(w) => {
                if !add_withdrawal(
                    &mut list,
                    Ghost(rows),
                    Ghost(i as int),
                    row.0,
                    &row.1,
                    w.value,
                    w.main_fee,
                    &w.main_address,
                ) {
                    proof {
                        lemma_sums_grow(rows, w.main_address, i + 1);
                        assert(value_to(rows, w.main_address) > u64::MAX || fee_to(
                            rows,
                            w.main_address,
                        ) > u64::MAX);
                    }
                    return Err(Error::AmountOverflow(AmountOverflowError));
                }
            },
            _ => {
                proof {
                    let head = rows.subrange(0, i as int);
                    let next = rows.subrange(0, i + 1);
                    assert forall|k: int| 0 <= k < list@.len() implies aggregates(
                        #[trigger] list@[k],
                        next,
                    ) by {
                        assert(aggregates(list@[k], head));
                        lemma_other_address(rows, i as int, list@[k].main_address);
                    }
                    assert forall|m: int|
                        0 <= m < next.len() && (
                        #[trigger] next[m]).1.content is BitcoinWithdrawal implies exists|k: int|
                        0 <= k < list@.len() && (#[trigger] list@[k]).main_address
                            == next[m].1.content->BitcoinWithdrawal_0.main_address by {
                        assert(head[m] == next[m]);
                    }
                }
            },
        }
        i += 1;
    }
    proof {
        assert(rows.subrange(0, i as int) =~= rows);
        if sums_overflow(rows) {
            let address = choose|address: MainAddress| #[trigger]
                value_to(rows, address) > u64::MAX || fee_to(rows, address) > u64::MAX;
            if exists|k: int|
                0 <= k < list@.len() && (#[trigger] list@[k]).main_address == address {
                let k = choose|k: int|
                    0 <= k < list@.len() && (#[trigger] list@[k]).main_address == address;
                assert(aggregates(list@[k], rows));
            } else {
                assert forall|m: int| 0 <= m < rows.len() implies !withdraws_to(
                    #[trigger] rows[m],
                    address,
                ) by {
                    if withdraws_to(rows[m], address) {
                        let k = choose|k: int|
                            0 <= k < list@.len() && (#[trigger] list@[k]).main_address
                                == rows[m].1.content->BitcoinWithdrawal_0.main_address;
                        assert(list@[k].main_address == address);
                    }
                }
                lemma_no_rows_to(rows, address);
            }
        }
    }
    Ok(list)
}

/// The size of the outputs for the first withdrawals, where each withdrawal
/// has a size or is left out.
pub open spec fn size_of_first(sizes: Seq<Option<u32>>, n: int) -> nat
    decreases n,
{
    if n <= 0 {
        0
    } else {
        size_of_first(sizes, n - 1) + match sizes[n - 1] {
            Some(size) => size as nat,
            None => 0,
        }
    }
}

/// How many of the first withdrawals have a size.
pub open spec fn count_of_first(sizes: Seq<Option<u32>>, n: int) -> nat
    decreases n,
{
    if n <= 0 {
        0
    } else {
        count_of_first(sizes, n - 1) + if sizes[n - 1] is Some {
            1nat
        } else {
            0
        }
    }
}

/// Withdrawal `i` does not fit into the bundle: it would be too large or too
/// heavy.
pub open spec fn does_not_fit(sizes: Seq<Option<u32>>, too_heavy: Seq<bool>, i: int) -> bool {
    sizes[i] is Some && (size_of_first(sizes, i + 1) > u32::MAX || too_heavy[i])
}

/// How many withdrawals are tried: those before the first that does not fit.
pub open spec fn tried(sizes: Seq<Option<u32>>, too_heavy: Seq<bool>, n: int) -> bool {
    &&& 0 <= n <= sizes.len()
    &&& forall|i: int| 0 <= i < n ==> !#[trigger] does_not_fit(sizes, too_heavy, i)
    &&& n < sizes.len() ==> does_not_fit(sizes, too_heavy, n)
}

/// For each withdrawal the number and the size of the outputs of a bundle that
/// it would be the last of; none for one that is left out, and none after a
/// size that does not fit.
pub fn bundle_sizes(sizes: &Vec<Option<u32>>) -> (r: Vec<Option<(u32, u32)>>)
    requires
        sizes@.len() <= u32::MAX,
    ensures
        r@.len() == sizes@.len(),
        forall|i: int|
            0 <= i < sizes@.len() ==> #[trigger] r@[i] == if sizes@[i] is Some && size_of_first(
                sizes@,
                i + 1,
            ) <= u32::MAX {
                Some(
                    (
                        count_of_first(sizes@, i + 1) as u32,
                        size_of_first(sizes@, i + 1) as u32,
                    ),
                )
            } else {
                None
            },
{
    let mut r: Vec<Option<(u32, u32)>> = Vec::new();
    let mut total: u32 = 0;
    let mut count: u32 = 0;
    let mut full = false;
    let mut i: usize = 0;
    while i < sizes.len()
        invariant
            i <= sizes@.len(),
            sizes@.len() <= u32::MAX,
            r@.len() == i,
            count == count_of_first(sizes@, i as int),
            count <= i,
            !full ==> total == size_of_first(sizes@, i as int),
            full ==> size_of_first(sizes@, i as int) > u32::MAX,
            forall|j: int|
                0 <= j < i ==> #[trigger] r@[j] == if sizes@[j] is Some && size_of_first(
                    sizes@,
                    j + 1,
                ) <= u32::MAX {
                    Some(
                        (
                            count_of_first(sizes@, j + 1) as u32,
                            size_of_first(sizes@, j + 1) as u32,
                        ),
                    )
                } else {
                    None
                },
        decreases sizes@.len() - i,
    {
        match sizes[i] {
            None => {
                r.push(None);
            },
            Some(size) => {
                count += 1;
                if full {
                    r.push(None);
                } else {
                    match total.checked_add(size) {
                        Some(sum) => {
                            total = sum;
                            r.push(Some((count, total)));
                        },
                        None => {
                            full = true;
                            r.push(None);
                        },
                    }
                }
            },
        }
        i += 1;
    }
    r
}

/// What goes into a bundle.
#[derive(Debug)]
pub struct BundleDraft {
    pub fee: u64,
    /// The withdrawals that are paid, in the order of their outpoints.
    pub spend_utxos: Box<[(OutPoint, FilledOutput)]>,
    pub outputs: Vec<BundleOutput>,
}

/// The fees of the first withdrawals that have a size.
pub open spec fn fees_of_first(
    withdrawals: Seq<AggregatedWithdrawal>,
    sizes: Seq<Option<u32>>,
    n: int,
) -> nat
    decreases n,
{
    if n <= 0 {
        0
    } else {
        fees_of_first(withdrawals, sizes, n - 1) + if sizes[n - 1] is Some {
            withdrawals[n - 1].main_fee as nat
        } else {
            0
        }
    }
}

/// The outputs, as value and script, for the first withdrawals that have a
/// size.
pub open spec fn outputs_of_first(
    withdrawals: Seq<AggregatedWithdrawal>,
    sizes: Seq<Option<u32>>,
    n: int,
) -> Seq<(u64, Seq<u8>)>
    decreases n,
{
    if n <= 0 {
        Seq::empty()
    } else if sizes[n - 1] is Some {
        outputs_of_first(withdrawals, sizes, n - 1).push(
            (withdrawals[n - 1].value, withdrawals[n - 1].main_address.script_pubkey@),
        )
    } else {
        outputs_of_first(withdrawals, sizes, n - 1)
    }
}

/// The coins of the first withdrawals that have a size.
pub open spec fn coins_of_first(
    withdrawals: Seq<AggregatedWithdrawal>,
    sizes: Seq<Option<u32>>,
    n: int,
) -> Map<OutPoint, FilledOutput>
    decreases n,
{
    if n <= 0 {
        Map::empty()
    } else if sizes[n - 1] is Some {
        with_coins(coins_of_first(withdrawals, sizes, n - 1), withdrawals[n - 1].spend_utxos@)
    } else {
        coins_of_first(withdrawals, sizes, n - 1)
    }
}

/// A map with coins added, one after the other.
pub open spec fn with_coins(
    m: Map<OutPoint, FilledOutput>,
    coins: Seq<(OutPoint, FilledOutput)>,
) -> Map<OutPoint, FilledOutput>
    decreases coins.len(),
{
    if coins.len() == 0 {
        m
    } else {
        with_coins(m, coins.drop_last()).insert(coins.last().0, coins.last().1)
    }
}

fn add_coins(
    table: &mut Table<OutPoint, FilledOutput>,
    coins: &Vec<(OutPoint, FilledOutput)>,
)
    ensures
        final(table)@ == with_coins(old(table)@, coins@),
{
    let mut i: usize = 0;
    while i < coins.len()
        invariant
            i <= coins@.len(),
            table@ == with_coins(old(table)@, coins@.subrange(0, i as int)),
        decreases coins@.len() - i,
    {
        proof {
            assert(coins@.subrange(0, i + 1).drop_last() =~= coins@.subrange(0, i as int));
        }
        table.put(coins[i].0, coins[i].1.duplicate());
        i += 1;
    }
    assert(coins@.subrange(0, i as int) =~= coins@);
}

proof fn lemma_fees_grow(
    withdrawals: Seq<AggregatedWithdrawal>,
    sizes: Seq<Option<u32>>,
    n: int,
    m: int,
)
    requires
        n <= m,
    ensures
        fees_of_first(withdrawals, sizes, n) <= fees_of_first(withdrawals, sizes, m),
    decreases m - n,
{
    if n < m {
        lemma_fees_grow(withdrawals, sizes, n, m - 1);
    }
}

/// The fees of the withdrawals that are taken add up.
pub open spec fn fees_fit(
    withdrawals: Seq<AggregatedWithdrawal>,
    sizes: Seq<Option<u32>>,
    too_heavy: Seq<bool>,
) -> bool {
    forall|n: int| #[trigger]
        tried(sizes, too_heavy, n) ==> fees_of_first(withdrawals, sizes, n) <= u64::MAX
}

/// Where the first withdrawals fit, those that are tried begin with them.
proof fn lemma_tried_from(sizes: Seq<Option<u32>>, too_heavy: Seq<bool>, i: int) -> (n: int)
    requires
        0 <= i <= sizes.len(),
        forall|j: int| 0 <= j < i ==> !#[trigger] does_not_fit(sizes, too_heavy, j),
    ensures
        i <= n,
        tried(sizes, too_heavy, n),
    decreases sizes.len() - i,
{
    if i == sizes.len() || does_not_fit(sizes, too_heavy, i) {
        i
    } else {
        lemma_tried_from(sizes, too_heavy, i + 1)
    }
}

/// The fees of the withdrawals that [`select_withdrawals`] takes; none if they
/// do not add up.
pub fn taken_fees(
    withdrawals: &Vec<AggregatedWithdrawal>,
    sizes: &Vec<Option<u32>>,
    too_heavy: &Vec<bool>,
) -> (r: Option<u64>)
    requires
        sizes@.len() == withdrawals@.len(),
        too_heavy@.len() == withdrawals@.len(),
    ensures
        r is Some <==> fees_fit(withdrawals@, sizes@, too_heavy@),
        r is Some ==> forall|n: int| #[trigger]
            tried(sizes@, too_heavy@, n) ==> r->0 == fees_of_first(withdrawals@, sizes@, n),
{
    let mut fee: u64 = 0;
    let mut total: u32 = 0;
    let mut i: usize = 0;
    let mut full = false;
    while i < withdrawals.len() && !full
        invariant
            i <= withdrawals@.len(),
            sizes@.len() == withdrawals@.len(),
            too_heavy@.len() == withdrawals@.len(),
            forall|j: int| 0 <= j < i ==> !#[trigger] does_not_fit(sizes@, too_heavy@, j),
            total == size_of_first(sizes@, i as int),
            fee == fees_of_first(withdrawals@, sizes@, i as int),
            full ==> i < withdrawals@.len() && does_not_fit(sizes@, too_heavy@, i as int),
        decreases withdrawals@.len() - i + if full { 0int } else { 1int },
    {
        match sizes[i] {
            None => {
                i += 1;
            },
            Some(size) => {
                match total.checked_add(size) {
                    None => {
                        full = true;
                    },
                    Some(sum) => {
                        if too_heavy[i] {
                            full = true;
                        } else {
                            match fee.checked_add(withdrawals[i].main_fee) {
                                None => {
                                    proof {
                                        let n = lemma_tried_from(sizes@, too_heavy@, i + 1);
                                        lemma_fees_grow(withdrawals@, sizes@, i + 1, n);
                                    }
                                    return None;
                                },
                                Some(next) => {
                                    fee = next;
                                },
                            }
                            total = sum;
                            i += 1;
                        }
                    },
                }
            },
        }
    }
    proof {
        assert(tried(sizes@, too_heavy@, i as int));
        assert forall|n: int| #[trigger] tried(sizes@, too_heavy@, n) implies n == i by {
            if n < i {
                assert(does_not_fit(sizes@, too_heavy@, n));
            }
            if i < n {
                assert(does_not_fit(sizes@, too_heavy@, i as int));
            }
        }
    }
    Some(fee)
}

/// A bundle pays the first withdrawals, up to the one that does not fit: their
/// fees, an output for each, and their coins.
pub open spec fn is_selection(
    fee: u64,
    outputs: Seq<BundleOutput>,
    spend_utxos: Seq<(OutPoint, FilledOutput)>,
    withdrawals: Seq<AggregatedWithdrawal>,
    sizes: Seq<Option<u32>>,
    too_heavy: Seq<bool>,
) -> bool {
    exists|n: int|
        {
            &&& #[trigger] tried(sizes, too_heavy, n)
            &&& fee == fees_of_first(withdrawals, sizes, n)
            &&& outputs.map_values(|o: BundleOutput| (o.value, o.script_pubkey@))
                == outputs_of_first(withdrawals, sizes, n)
            &&& is_listing(spend_utxos, coins_of_first(withdrawals, sizes, n))
        }
}

/// Fills a bundle with withdrawals in the order given, up to the first that
/// does not fit. `sizes` holds the size of the output of each, if it has one,
/// and `too_heavy` whether a bundle that it is the last of is too heavy.
pub fn select_withdrawals(
    withdrawals: &Vec<AggregatedWithdrawal>,
    sizes: &Vec<Option<u32>>,
    too_heavy: &Vec<bool>,
) -> (r: BundleDraft)
    requires
        sizes@.len() == withdrawals@.len(),
        too_heavy@.len() == withdrawals@.len(),
        withdrawals@.len() < u32::MAX,
        fees_fit(withdrawals@, sizes@, too_heavy@),
    ensures
        is_selection(
            r.fee,
            r.outputs@,
            r.spend_utxos@,
            withdrawals@,
            sizes@,
            too_heavy@,
        ),
{
    let mut fee: u64 = 0;
    let mut outputs: Vec<BundleOutput> = Vec::new();
    let mut coins: Table<OutPoint, FilledOutput> = Table::new();
    let mut total: u32 = 0;
    let ghost plain = |o: BundleOutput| (o.value, o.script_pubkey@);
    let mut i: usize = 0;
    let mut full = false;
    assert(outputs@.map_values(plain) =~= Seq::empty());
    while i < withdrawals.len() && !full
        invariant
            i <= withdrawals@.len(),
            sizes@.len() == withdrawals@.len(),
            too_heavy@.len() == withdrawals@.len(),
            fees_fit(withdrawals@, sizes@, too_heavy@),
            plain == (|o: BundleOutput| (o.value, o.script_pubkey@)),
            forall|j: int| 0 <= j < i ==> !#[trigger] does_not_fit(sizes@, too_heavy@, j),
            total == size_of_first(sizes@, i as int),
            fee == fees_of_first(withdrawals@, sizes@, i as int),
            outputs@.map_values(plain) == outputs_of_first(withdrawals@, sizes@, i as int),
            coins@ == coins_of_first(withdrawals@, sizes@, i as int),
            full ==> i < withdrawals@.len() && does_not_fit(sizes@, too_heavy@, i as int),
        decreases withdrawals@.len() - i + if full { 0int } else { 1int },
    {
        match sizes[i] {
            None => {
                i += 1;
            },
            Some(size) => {
                match total.checked_add(size) {
                    None => {
                        full = true;
                    },
                    Some(sum) => {
                        if too_heavy[i] {
                            full = true;
                        } else {
                            let aggregated = &withdrawals[i];
                            let ghost before = outputs@;
                            proof {
                                let n = lemma_tried_from(sizes@, too_heavy@, i + 1);
                                lemma_fees_grow(withdrawals@, sizes@, i + 1, n);
                            }
                            total = sum;
                            add_coins(&mut coins, &aggregated.spend_utxos);
                            let output = BundleOutput {
                                value: aggregated.value,
                                script_pubkey: boxed_copy(&aggregated.main_address.script_pubkey),
                            };
                            proof {
                                assert(outputs@.push(output).map_values(plain)
                                    =~= outputs@.map_values(plain).push(plain(output)));
                            }
                            outputs.push(output);
                            fee = fee + aggregated.main_fee;
                            i += 1;
                        }
                    },
                }
            },
        }
    }
    let spend_utxos = list_coins(&coins);
    assert(tried(sizes@, too_heavy@, i as int));
    BundleDraft { fee, spend_utxos, outputs }
}

/// `bitcoin::policy::MAX_STANDARD_TX_WEIGHT`: the greatest weight with which a
/// mainchain transaction is relayed.
#[verifier::external_body]
pub(crate) fn max_standard_tx_weight() -> (r: u32)
    ensures
        r == 400_000,
{
    bitcoin::policy::MAX_STANDARD_TX_WEIGHT
}

/// Rejects a bundle whose transaction would not be relayed.
pub fn check_bundle_weight(weight: u64) -> (r: Result<(), Error>)
    ensures
        r == if weight > 400_000 {
            Err(Error::BundleTooHeavy { weight, max_weight: 400_000 })
        } else {
            Ok::<(), Error>(())
        },
{
    let max_weight: u64 = max_standard_tx_weight() as u64;
    if weight > max_weight {
        return Err(Error::BundleTooHeavy { weight, max_weight });
    }
    Ok(())
}

/// Makes a bundle of the withdrawals that [`select_withdrawals`] selects. `m6id`
/// and `weight` are those of the transaction that pays them. There is none where
/// nothing is withdrawn.
pub fn collect_withdrawal_bundle(
    withdrawals: &Vec<AggregatedWithdrawal>,
    sizes: &Vec<Option<u32>>,
    too_heavy: &Vec<bool>,
    block_height: u32,
    m6id: M6id,
    weight: u64,
) -> (r: Result<Option<WithdrawalBundle>, Error>)
    requires
        sizes@.len() == withdrawals@.len(),
        too_heavy@.len() == withdrawals@.len(),
        withdrawals@.len() < u32::MAX,
        fees_fit(withdrawals@, sizes@, too_heavy@),
    ensures
        if withdrawals@.len() == 0 {
            r == Ok::<Option<WithdrawalBundle>, Error>(None)
        } else if weight > 400_000 {
            r == Err::<Option<WithdrawalBundle>, Error>(
                Error::BundleTooHeavy { weight, max_weight: 400_000 },
            )
        } else {
            &&& r is Ok
            &&& r->Ok_0 is Some
            &&& r->Ok_0->Some_0.m6id == m6id
            &&& r->Ok_0->Some_0.block_height == block_height
            &&& is_selection(
                r->Ok_0->Some_0.fee,
                r->Ok_0->Some_0.outputs@,
                r->Ok_0->Some_0.spend_utxos@,
                withdrawals@,
                sizes@,
                too_heavy@,
            )
        },
{
    if withdrawals.len() == 0 {
        return Ok(None);
    }
    let draft = select_withdrawals(withdrawals, sizes, too_heavy);
    match check_bundle_weight(weight) {
        Err(e) => return Err(e),
        Ok(()) => {},
    }
    Ok(
        Some(
            WithdrawalBundle {
                m6id,
                block_height,
                fee: draft.fee,
                spend_utxos: draft.spend_utxos,
                outputs: boxed(draft.outputs),
            },
        ),
    )
}

} // verus!
