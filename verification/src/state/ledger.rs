//! The outputs that are unspent and those that are spent.

use vstd::prelude::*;

use crate::bytes::{append, boxed, lemma_array_equal, to_vec};
use crate::state::Error;
use crate::table::{has_key, row_has_key, Key, Table};
use crate::types::encoding::Encode;
use crate::types::transaction::output::{FilledOutput, GetBitcoinValue, SpentOutput};
use crate::types::transaction::{outpoint_key, outpoint_key_holds, Authorized};
use crate::types::transaction::{FilledTransaction, InPoint, OutPoint, Transaction};
use crate::types::{Address, AmountOverflowError, Duplicate};

verus! {

/// A row of the index of addresses.
#[derive(Clone, Copy, Debug)]
pub struct AddressOutPoint {
    pub address: Address,
    pub outpoint: OutPoint,
}

/// The row of an output in the index of addresses.
pub open spec fn at(address: Address, outpoint: OutPoint) -> AddressOutPoint {
    AddressOutPoint { address, outpoint }
}

impl Key for AddressOutPoint {
    open spec fn key_bytes(&self) -> Seq<u8> {
        self.address.0@ + outpoint_key(self.outpoint)
    }

    proof fn key_bytes_injective(a: Self, b: Self) {
        outpoint_key_holds(a.outpoint);
        outpoint_key_holds(b.outpoint);
        assert(a.key_bytes().subrange(0, 20) =~= a.address.0@);
        assert(b.key_bytes().subrange(0, 20) =~= b.address.0@);
        assert(a.key_bytes().subrange(20, 57) =~= outpoint_key(a.outpoint));
        assert(b.key_bytes().subrange(20, 57) =~= outpoint_key(b.outpoint));
        Address::key_bytes_injective(a.address, b.address);
        OutPoint::key_bytes_injective(a.outpoint, b.outpoint);
    }

    fn to_key_bytes(&self) -> (r: Vec<u8>) {
        let mut r = to_vec(self.address.0.as_slice());
        let tail = self.outpoint.to_key_bytes();
        append(&mut r, tail.as_slice());
        r
    }
}

/// What the ledger holds: the unspent outputs, the index of their addresses,
/// and the spent outputs.
pub struct LedgerView {
    pub utxos: Map<OutPoint, FilledOutput>,
    pub utxos_by_address: Map<AddressOutPoint, ()>,
    pub stxos: Map<OutPoint, SpentOutput>,
}

impl LedgerView {
    /// With an unspent output added.
    pub open spec fn insert(self, outpoint: OutPoint, output: FilledOutput) -> LedgerView {
        LedgerView {
            utxos: self.utxos.insert(outpoint, output),
            utxos_by_address: self.utxos_by_address.insert(at(output.address, outpoint), ()),
            ..self
        }
    }

    /// Without an unspent output.
    pub open spec fn delete(self, outpoint: OutPoint) -> LedgerView {
        if self.utxos.dom().contains(outpoint) {
            LedgerView {
                utxos: self.utxos.remove(outpoint),
                utxos_by_address: self.utxos_by_address.remove(
                    at(self.utxos[outpoint].address, outpoint),
                ),
                ..self
            }
        } else {
            self
        }
    }

    /// With an output noted as spent.
    pub open spec fn note_spent(self, outpoint: OutPoint, spent: SpentOutput) -> LedgerView {
        LedgerView { stxos: self.stxos.insert(outpoint, spent), ..self }
    }

    /// With an output no longer noted as spent.
    pub open spec fn forget_spent(self, outpoint: OutPoint) -> LedgerView {
        LedgerView { stxos: self.stxos.remove(outpoint), ..self }
    }

    /// The index has a row for each unspent output, and no other.
    pub open spec fn index_in_step(self) -> bool {
        forall|address: Address, outpoint: OutPoint| #[trigger]
            self.utxos_by_address.dom().contains(at(address, outpoint)) <==> {
                &&& self.utxos.dom().contains(outpoint)
                &&& self.utxos[outpoint].address == address
            }
    }
}

/// An output that is added under a new name, or under its old name and
/// address, keeps the index in step.
pub proof fn insert_keeps_index(ledger: LedgerView, outpoint: OutPoint, output: FilledOutput)
    requires
        ledger.index_in_step(),
        ledger.utxos.dom().contains(outpoint) ==> ledger.utxos[outpoint].address == output.address,
    ensures
        ledger.insert(outpoint, output).index_in_step(),
{
    let next = ledger.insert(outpoint, output);
    assert forall|a: Address, o: OutPoint| #[trigger]
        next.utxos_by_address.dom().contains(at(a, o)) <==> {
            &&& next.utxos.dom().contains(o)
            &&& next.utxos[o].address == a
        } by {
        assert(ledger.utxos_by_address.dom().contains(at(a, o)) <==> {
            &&& ledger.utxos.dom().contains(o)
            &&& ledger.utxos[o].address == a
        });
    }
}

/// Removing an output keeps the index in step.
pub proof fn delete_keeps_index(ledger: LedgerView, outpoint: OutPoint)
    requires
        ledger.index_in_step(),
    ensures
        ledger.delete(outpoint).index_in_step(),
{
    let next = ledger.delete(outpoint);
    assert forall|a: Address, o: OutPoint| #[trigger]
        next.utxos_by_address.dom().contains(at(a, o)) <==> {
            &&& next.utxos.dom().contains(o)
            &&& next.utxos[o].address == a
        } by {
        assert(ledger.utxos_by_address.dom().contains(at(a, o)) <==> {
            &&& ledger.utxos.dom().contains(o)
            &&& ledger.utxos[o].address == a
        });
    }
}

/// Removing an output that was just added under a new name undoes the
/// addition.
pub proof fn delete_undoes_insert(ledger: LedgerView, outpoint: OutPoint, output: FilledOutput)
    requires
        ledger.index_in_step(),
        !ledger.utxos.dom().contains(outpoint),
    ensures
        ledger.insert(outpoint, output).delete(outpoint) == ledger,
{
    let back = ledger.insert(outpoint, output).delete(outpoint);
    assert(!ledger.utxos_by_address.dom().contains(at(output.address, outpoint)));
    assert(back.utxos =~= ledger.utxos);
    assert(back.utxos_by_address =~= ledger.utxos_by_address);
}

/// Adding an output that was just removed undoes the removal.
pub proof fn insert_undoes_delete(ledger: LedgerView, outpoint: OutPoint)
    requires
        ledger.index_in_step(),
        ledger.utxos.dom().contains(outpoint),
    ensures
        ledger.delete(outpoint).insert(outpoint, ledger.utxos[outpoint]) == ledger,
{
    let output = ledger.utxos[outpoint];
    let back = ledger.delete(outpoint).insert(outpoint, output);
    assert(ledger.utxos_by_address.dom().contains(at(output.address, outpoint)));
    assert(back.utxos =~= ledger.utxos);
    assert(back.utxos_by_address =~= ledger.utxos_by_address);
}

/// What keeps unspent outputs.
pub trait UtxoManager: Sized {
    spec fn coins(&self) -> LedgerView;

    fn insert_utxo(&mut self, outpoint: &OutPoint, filled_output: &FilledOutput)
        ensures
            final(self).coins() == old(self).coins().insert(*outpoint, *filled_output),
    ;

    /// Says whether there was such an output.
    fn delete_utxo(&mut self, outpoint: &OutPoint) -> (r: bool)
        ensures
            r == old(self).coins().utxos.dom().contains(*outpoint),
            final(self).coins() == old(self).coins().delete(*outpoint),
    ;

    fn clear_utxos(&mut self)
        ensures
            final(self).coins() == (LedgerView {
                utxos: Map::empty(),
                utxos_by_address: Map::empty(),
                ..old(self).coins()
            }),
    ;
}

pub struct Ledger {
    pub utxos: Table<OutPoint, FilledOutput>,
    pub utxos_by_address: Table<AddressOutPoint, ()>,
    pub stxos: Table<OutPoint, SpentOutput>,
}

impl View for Ledger {
    type V = LedgerView;

    open spec fn view(&self) -> LedgerView {
        LedgerView {
            utxos: self.utxos@,
            utxos_by_address: self.utxos_by_address@,
            stxos: self.stxos@,
        }
    }
}

impl UtxoManager for Ledger {
    open spec fn coins(&self) -> LedgerView {
        self@
    }

    fn insert_utxo(&mut self, outpoint: &OutPoint, filled_output: &FilledOutput) {
        let address = filled_output.address;
        self.utxos.put(*outpoint, filled_output.duplicate());
        self.utxos_by_address.put(AddressOutPoint { address, outpoint: *outpoint }, ());
    }

    fn delete_utxo(&mut self, outpoint: &OutPoint) -> (r: bool) {
        match self.utxos.take(outpoint) {
            Some(output) => {
                let _ = self.utxos_by_address.delete(
                    &(AddressOutPoint { address: output.address, outpoint: *outpoint }),
                );
                true
            },
            None => {
                assert(self.utxos@ =~= old(self).utxos@);
                false
            },
        }
    }

    fn clear_utxos(&mut self) {
        self.utxos.clear();
        self.utxos_by_address.clear();
    }
}

/// The outputs that the first `n` outpoints name, or the first outpoint that
/// names none.
pub open spec fn outputs_named(
    utxos: Map<OutPoint, FilledOutput>,
    inputs: Seq<OutPoint>,
) -> Result<Seq<FilledOutput>, OutPoint>
    decreases inputs.len(),
{
    if inputs.len() == 0 {
        Ok(Seq::empty())
    } else {
        match outputs_named(utxos, inputs.drop_last()) {
            Err(o) => Err(o),
            Ok(outputs) => if utxos.dom().contains(inputs.last()) {
                Ok(outputs.push(utxos[inputs.last()]))
            } else {
                Err(inputs.last())
            },
        }
    }
}

/// A missing outpoint among the first is missing among all.
pub proof fn lemma_outputs_named_prefix(
    utxos: Map<OutPoint, FilledOutput>,
    inputs: Seq<OutPoint>,
    n: int,
)
    requires
        0 <= n <= inputs.len(),
        outputs_named(utxos, inputs.subrange(0, n)) is Err,
    ensures
        outputs_named(utxos, inputs) == outputs_named(utxos, inputs.subrange(0, n)),
    decreases inputs.len() - n,
{
    if n == inputs.len() {
        assert(inputs.subrange(0, n) =~= inputs);
    } else {
        assert(inputs.subrange(0, n + 1).drop_last() =~= inputs.subrange(0, n));
        lemma_outputs_named_prefix(utxos, inputs, n + 1);
    }
}

/// Where all outpoints name outputs, each output stands at the place of its
/// outpoint.
pub proof fn lemma_outputs_named_ok(utxos: Map<OutPoint, FilledOutput>, inputs: Seq<OutPoint>)
    requires
        outputs_named(utxos, inputs) is Ok,
    ensures
        outputs_named(utxos, inputs)->Ok_0.len() == inputs.len(),
        forall|i: int|
            0 <= i < inputs.len() ==> utxos.dom().contains(#[trigger] inputs[i]) && utxos[inputs[i]]
                == outputs_named(utxos, inputs)->Ok_0[i],
    decreases inputs.len(),
{
    if inputs.len() > 0 {
        lemma_outputs_named_ok(utxos, inputs.drop_last());
        assert forall|i: int| 0 <= i < inputs.len() implies utxos.dom().contains(
            #[trigger] inputs[i],
        ) && utxos[inputs[i]] == outputs_named(utxos, inputs)->Ok_0[i] by {
            if i < inputs.len() - 1 {
                assert(inputs.drop_last()[i] == inputs[i]);
            }
        }
    }
}

/// All inputs are noted as spent.
pub open spec fn all_spent(stxos: Map<OutPoint, SpentOutput>, inputs: Seq<OutPoint>) -> bool {
    forall|i: int| 0 <= i < inputs.len() ==> stxos.dom().contains(#[trigger] inputs[i])
}

/// Input `i` is the last one that is not noted as spent.
pub open spec fn last_unspent(
    stxos: Map<OutPoint, SpentOutput>,
    inputs: Seq<OutPoint>,
    i: int,
) -> bool {
    &&& 0 <= i < inputs.len()
    &&& !stxos.dom().contains(inputs[i])
    &&& forall|j: int| i < j < inputs.len() ==> stxos.dom().contains(#[trigger] inputs[j])
}

/// The outputs that the inputs spent.
pub open spec fn outputs_spent(
    stxos: Map<OutPoint, SpentOutput>,
    inputs: Seq<OutPoint>,
) -> Seq<FilledOutput> {
    Seq::new(inputs.len(), |i: int| stxos[inputs[i]].output)
}

/// Input `i` and those after it are noted as spent.
pub open spec fn spent_from(
    stxos: Map<OutPoint, SpentOutput>,
    inputs: Seq<OutPoint>,
    i: int,
) -> bool {
    forall|j: int| i <= j < inputs.len() ==> stxos.dom().contains(#[trigger] inputs[j])
}

/// Of the inputs, from the last one back to the first that is not noted as
/// spent, each is noted as spent by the transaction.
pub open spec fn spent_by(
    stxos: Map<OutPoint, SpentOutput>,
    inputs: Seq<OutPoint>,
    id: Seq<u8>,
) -> bool {
    forall|i: int|
        0 <= i < inputs.len() && #[trigger] spent_from(stxos, inputs, i)
            ==> match stxos[inputs[i]].inpoint {
            InPoint::Regular { txid, vin } => txid.0@ == id && vin == i as u32,
            _ => false,
        }
}

/// The sum of the values of the deposits among the rows.
pub open spec fn deposits_in(rows: Seq<(OutPoint, FilledOutput)>) -> nat
    decreases rows.len(),
{
    if rows.len() == 0 {
        0
    } else {
        deposits_in(rows.drop_last()) + if rows.last().0 is Deposit {
            rows.last().1.bitcoin_value() as nat
        } else {
            0
        }
    }
}

/// The sum of the values of the spent deposits among the rows.
pub open spec fn spent_deposits_in(rows: Seq<(OutPoint, SpentOutput)>) -> nat
    decreases rows.len(),
{
    if rows.len() == 0 {
        0
    } else {
        spent_deposits_in(rows.drop_last()) + if rows.last().0 is Deposit {
            rows.last().1.output.bitcoin_value() as nat
        } else {
            0
        }
    }
}

/// The sum of the values that were withdrawn among the rows.
pub open spec fn withdrawals_in(rows: Seq<(OutPoint, SpentOutput)>) -> nat
    decreases rows.len(),
{
    if rows.len() == 0 {
        0
    } else {
        withdrawals_in(rows.drop_last()) + if rows.last().1.inpoint is Withdrawal {
            rows.last().1.output.bitcoin_value() as nat
        } else {
            0
        }
    }
}

/// A sum, held at the largest amount.
pub open spec fn saturated(n: nat) -> u64 {
    if n <= u64::MAX {
        n as u64
    } else {
        u64::MAX
    }
}

fn saturating_sum(a: u64, b: u64) -> (r: u64)
    ensures
        r == saturated((a + b) as nat),
{
    match a.checked_add(b) {
        Some(sum) => sum,
        None => u64::MAX,
    }
}

pub fn contains_address(list: &Vec<Address>, address: &Address) -> (r: bool)
    ensures
        r == list@.contains(*address),
{
    let mut i: usize = 0;
    while i < list.len()
        invariant
            i <= list@.len(),
            forall|j: int| 0 <= j < i ==> list@[j] != *address,
        decreases list@.len() - i,
    {
        if list[i] == *address {
            assert(list@[i as int] == *address);
            return true;
        }
        i += 1;
    }
    false
}

impl Ledger {
    pub fn new() -> (r: Self)
        ensures
            r@ == (LedgerView {
                utxos: Map::empty(),
                utxos_by_address: Map::empty(),
                stxos: Map::empty(),
            }),
    {
        Ledger { utxos: Table::new(), utxos_by_address: Table::new(), stxos: Table::new() }
    }

    /// The spent outputs of some addresses.
    pub fn get_stxos_by_addresses(&self, addresses: &Vec<Address>) -> (r: Table<
        OutPoint,
        SpentOutput,
    >)
        ensures
            forall|o: OutPoint| #[trigger]
                r@.dom().contains(o) <==> self@.stxos.dom().contains(o) && addresses@.contains(
                    self@.stxos[o].output.address,
                ),
            forall|o: OutPoint| #[trigger]
                r@.dom().contains(o) ==> r@[o] == self@.stxos[o],
    {
        let mut r: Table<OutPoint, SpentOutput> = Table::new();
        let mut i: usize = 0;
        self.stxos.rows_facts();
        while i < self.stxos.len()
            invariant
                i <= self.stxos.rows().len(),
                forall|j: int|
                    0 <= j < self.stxos.rows().len() ==> self.stxos@.dom().contains(
                        (#[trigger] self.stxos.rows()[j]).0,
                    ) && self.stxos@[self.stxos.rows()[j].0] == self.stxos.rows()[j].1,
                forall|o: OutPoint| #[trigger]
                    r@.dom().contains(o) <==> exists|j: int|
                        0 <= j < i && (#[trigger] self.stxos.rows()[j]).0 == o
                            && addresses@.contains(self.stxos.rows()[j].1.output.address),
                forall|o: OutPoint| #[trigger]
                    r@.dom().contains(o) ==> self@.stxos.dom().contains(o) && r@[o]
                        == self@.stxos[o],
            decreases self.stxos.rows().len() - i,
        {
            let row = self.stxos.row(i);
            let ghost before = r@;
            if contains_address(addresses, &row.1.output.address) {
                r.put(row.0, row.1.duplicate());
            }
            proof {
                assert forall|o: OutPoint| #[trigger] r@.dom().contains(o) <==> exists|j: int|
                    0 <= j < i + 1 && (#[trigger] self.stxos.rows()[j]).0 == o
                        && addresses@.contains(self.stxos.rows()[j].1.output.address) by {
                    if before.dom().contains(o) {
                        let j = choose|j: int|
                            0 <= j < i && (#[trigger] self.stxos.rows()[j]).0 == o
                                && addresses@.contains(self.stxos.rows()[j].1.output.address);
                        assert(0 <= j < i + 1);
                    }
                    if o == row.0 && addresses@.contains(row.1.output.address) {
                        assert(self.stxos.rows()[i as int].0 == o);
                    }
                }
            }
            i += 1;
        }
        proof {
            assert forall|o: OutPoint| #[trigger] r@.dom().contains(o) <==> self@.stxos.dom().contains(
                o,
            ) && addresses@.contains(self@.stxos[o].output.address) by {
                if self@.stxos.dom().contains(o) {
                    let j = choose|j: int|
                        row_has_key(self.stxos.rows(), o, j);
                    assert(has_key(self.stxos.rows(), o));
                    assert(self.stxos.rows()[j].0 == o);
                }
            }
        }
        r
    }

    /// The unspent outputs of some addresses.
    pub fn get_utxos_by_addresses(&self, addresses: &Vec<Address>) -> (r: Table<
        OutPoint,
        FilledOutput,
    >)
        ensures
            forall|o: OutPoint| #[trigger]
                r@.dom().contains(o) <==> self@.utxos.dom().contains(o) && exists|a: Address|
                    addresses@.contains(a) && #[trigger] self@.utxos_by_address.dom().contains(at(a, o)),
            forall|o: OutPoint| #[trigger]
                r@.dom().contains(o) ==> r@[o] == self@.utxos[o],
    {
        let mut r: Table<OutPoint, FilledOutput> = Table::new();
        let mut i: usize = 0;
        let index = &self.utxos_by_address;
        index.rows_facts();
        while i < index.len()
            invariant
                i <= index.rows().len(),
                *index == self.utxos_by_address,
                forall|o: OutPoint| #[trigger]
                    r@.dom().contains(o) <==> self@.utxos.dom().contains(o) && exists|j: int|
                        0 <= j < i && (#[trigger] index.rows()[j]).0.outpoint == o && addresses@.contains(
                            index.rows()[j].0.address,
                        ),
                forall|o: OutPoint| #[trigger]
                    r@.dom().contains(o) ==> r@[o] == self@.utxos[o],
            decreases index.rows().len() - i,
        {
            let row = index.row(i);
            let address = row.0.address;
            let outpoint = row.0.outpoint;
            let ghost before = r@;
            if contains_address(addresses, &address) {
                match self.utxos.get(&outpoint) {
                    Some(output) => {
                        r.put(outpoint, output.duplicate());
                    },
                    None => {},
                }
            }
            proof {
                assert forall|o: OutPoint| #[trigger]
                    r@.dom().contains(o) <==> self@.utxos.dom().contains(o) && exists|j: int|
                    0 <= j < i + 1 && (#[trigger] index.rows()[j]).0.outpoint == o && addresses@.contains(
                        index.rows()[j].0.address,
                    ) by {
                    if before.dom().contains(o) {
                        let j = choose|j: int|
                            0 <= j < i && (#[trigger] index.rows()[j]).0.outpoint == o
                                && addresses@.contains(index.rows()[j].0.address);
                        assert(0 <= j < i + 1);
                    }
                    if o == outpoint && addresses@.contains(address) {
                        assert(index.rows()[i as int].0.outpoint == o);
                    }
                }
            }
            i += 1;
        }
        proof {
            assert forall|o: OutPoint| #[trigger]
                r@.dom().contains(o) <==> self@.utxos.dom().contains(o) && exists|a: Address|
                addresses@.contains(a) && #[trigger] self@.utxos_by_address.dom().contains(at(a, o)) by {
                if r@.dom().contains(o) {
                    let j = choose|j: int|
                        0 <= j < i && (#[trigger] index.rows()[j]).0.outpoint == o && addresses@.contains(
                            index.rows()[j].0.address,
                        );
                    let a = index.rows()[j].0.address;
                    assert(index.rows()[j].0 == at(a, o));
                    assert(self@.utxos_by_address.dom().contains(at(a, o)));
                }
                if self@.utxos.dom().contains(o) && exists|a: Address|
                    addresses@.contains(a) && #[trigger] self@.utxos_by_address.dom().contains(at(a, o)) {
                    let a = choose|a: Address|
                        addresses@.contains(a) && #[trigger] self@.utxos_by_address.dom().contains(at(a, o));
                    assert(has_key(index.rows(), at(a, o)));
                    let j = choose|j: int| row_has_key(index.rows(), at(a, o), j);
                    assert(index.rows()[j].0.outpoint == o);
                }
            }
        }
        r
    }

    /// The transaction with the outputs that it spends.
    pub fn fill_transaction(&self, transaction: &Transaction) -> (r: Result<
        FilledTransaction,
        Error,
    >)
        ensures
            match r {
                Ok(filled) => {
                    &&& filled.transaction == *transaction
                    &&& filled.actor_address is None
                    &&& outputs_named(self@.utxos, transaction.inputs@) == Ok::<
                        Seq<FilledOutput>,
                        OutPoint,
                    >(filled.spent_utxos@)
                },
                Err(e) => outputs_named(self@.utxos, transaction.inputs@) is Err && e
                    == (Error::NoUtxo {
                    outpoint: outputs_named(self@.utxos, transaction.inputs@)->Err_0,
                }),
            },
    {
        let mut spent_utxos: Vec<FilledOutput> = Vec::new();
        let ghost inputs = transaction.inputs@;
        let mut i: usize = 0;
        while i < transaction.inputs.len()
            invariant
                i <= inputs.len(),
                inputs == transaction.inputs@,
                outputs_named(self@.utxos, inputs.subrange(0, i as int)) == Ok::<
                    Seq<FilledOutput>,
                    OutPoint,
                >(spent_utxos@),
            decreases inputs.len() - i,
        {
            proof {
                assert(inputs.subrange(0, i + 1).drop_last() =~= inputs.subrange(0, i as int));
            }
            match self.utxos.get(&transaction.inputs[i]) {
                Some(output) => {
                    spent_utxos.push(output.duplicate());
                },
                None => {
                    proof {
                        lemma_outputs_named_prefix(self@.utxos, inputs, i + 1);
                    }
                    return Err(Error::NoUtxo { outpoint: transaction.inputs[i] });
                },
            }
            i += 1;
        }
        assert(inputs.subrange(0, i as int) =~= inputs);
        Ok(
            FilledTransaction {
                transaction: transaction.duplicate(),
                spent_utxos: boxed(spent_utxos),
                actor_address: None,
            },
        )
    }

    /// A transaction that was connected, with the outputs that it spent. The
    /// inputs are looked up from the last to the first.
    pub fn fill_transaction_from_stxos(&self, tx: Transaction) -> (r: Result<
        FilledTransaction,
        Error,
    >)
        requires
            tx.encodable(),
            spent_by(self@.stxos, tx.inputs@, tx.id_bytes()),
        ensures
            match r {
                Ok(filled) => {
                    &&& all_spent(self@.stxos, tx.inputs@)
                    &&& filled.transaction == tx
                    &&& filled.actor_address is None
                    &&& filled.spent_utxos@ == outputs_spent(self@.stxos, tx.inputs@)
                },
                Err(e) => exists|i: int| #[trigger]
                    last_unspent(self@.stxos, tx.inputs@, i) && e == (Error::NoStxo {
                        outpoint: tx.inputs@[i],
                    }),
            },
    {
        let n: usize = tx.inputs.len();
        let mut i: usize = n;
        while i > 0
            invariant
                i <= n,
                n == tx.inputs@.len(),
                forall|j: int|
                    i <= j < n ==> self@.stxos.dom().contains(#[trigger] tx.inputs@[j]),
            decreases i,
        {
            i -= 1;
            if !self.stxos.contains(&tx.inputs[i]) {
                assert(last_unspent(self@.stxos, tx.inputs@, i as int));
                return Err(Error::NoStxo { outpoint: tx.inputs[i] });
            }
        }
        let mut spent_utxos: Vec<FilledOutput> = Vec::new();
        let mut k: usize = 0;
        while k < n
            invariant
                k <= n,
                n == tx.inputs@.len(),
                all_spent(self@.stxos, tx.inputs@),
                spent_utxos@.len() == k,
                forall|j: int|
                    0 <= j < k ==> #[trigger] spent_utxos@[j] == self@.stxos[tx.inputs@[j]].output,
            decreases n - k,
        {
            assert(self@.stxos.dom().contains(tx.inputs@[k as int]));
            match self.stxos.get(&tx.inputs[k]) {
                Some(spent) => {
                    spent_utxos.push(spent.output.duplicate());
                },
                None => {},
            }
            k += 1;
        }
        assert(spent_utxos@ =~= outputs_spent(self@.stxos, tx.inputs@));
        Ok(
            FilledTransaction {
                transaction: tx,
                spent_utxos: boxed(spent_utxos),
                actor_address: None,
            },
        )
    }

    /// Whether the inputs of a transaction are noted as spent by it.
    pub fn is_spent_by(&self, tx: &Transaction) -> (r: bool)
        requires
            tx.encodable(),
        ensures
            r == spent_by(self@.stxos, tx.inputs@, tx.id_bytes()),
    {
        let txid = tx.txid();
        let ghost inputs = tx.inputs@;
        let ghost id = tx.id_bytes();
        let n: usize = tx.inputs.len();
        let mut i: usize = n;
        while i > 0
            invariant
                i <= n,
                n == inputs.len(),
                inputs == tx.inputs@,
                n <= u32::MAX,
                id == tx.id_bytes(),
                txid.0@ == id,
                spent_from(self@.stxos, inputs, i as int),
                forall|j: int|
                    i <= j < n && #[trigger] spent_from(self@.stxos, inputs, j)
                        ==> match self@.stxos[inputs[j]].inpoint {
                        InPoint::Regular { txid, vin } => txid.0@ == id && vin == j as u32,
                        _ => false,
                    },
            decreases i,
        {
            i -= 1;
            match self.stxos.get(&tx.inputs[i]) {
                None => {
                    assert forall|j: int|
                        0 <= j < n && #[trigger] spent_from(self@.stxos, inputs, j) implies i
                        < j by {
                        if j <= i {
                            assert(self@.stxos.dom().contains(inputs[i as int]));
                        }
                    }
                    return true;
                },
                Some(spent) => {
                    assert(spent_from(self@.stxos, inputs, i as int));
                    match spent.inpoint {
                        InPoint::Regular { txid: other, vin } => {
                            if other != txid || vin != i as u32 {
                                proof {
                                    if other.0@ == txid.0@ {
                                        lemma_array_equal(other.0, txid.0);
                                    }
                                }
                                return false;
                            }
                        },
                        _ => return false,
                    }
                },
            }
        }
        true
    }

    /// A transaction of the chain with the outputs that it spent, or nothing
    /// where its inputs are noted as spent by another one.
    pub fn find_spent_outputs(&self, tx: Transaction) -> (r: Option<
        Result<FilledTransaction, Error>,
    >)
        requires
            tx.encodable(),
        ensures
            match r {
                None => !spent_by(self@.stxos, tx.inputs@, tx.id_bytes()),
                Some(Ok(filled)) => {
                    &&& spent_by(self@.stxos, tx.inputs@, tx.id_bytes())
                    &&& all_spent(self@.stxos, tx.inputs@)
                    &&& filled.transaction == tx
                    &&& filled.actor_address is None
                    &&& filled.spent_utxos@ == outputs_spent(self@.stxos, tx.inputs@)
                },
                Some(Err(e)) => spent_by(self@.stxos, tx.inputs@, tx.id_bytes()) && exists|
                    i: int,
                | #[trigger]
                    last_unspent(self@.stxos, tx.inputs@, i) && e == (Error::NoStxo {
                        outpoint: tx.inputs@[i],
                    }),
            },
    {
        if self.is_spent_by(&tx) {
            Some(self.fill_transaction_from_stxos(tx))
        } else {
            None
        }
    }

    /// The signed transaction with the outputs that it spends.
    pub fn fill_authorized_transaction(&self, transaction: Authorized<Transaction>) -> (r: Result<
        Authorized<FilledTransaction>,
        Error,
    >)
        ensures
            match r {
                Ok(filled) => {
                    &&& filled.transaction.transaction == transaction.transaction
                    &&& filled.transaction.actor_address is None
                    &&& outputs_named(self@.utxos, transaction.transaction.inputs@) == Ok::<
                        Seq<FilledOutput>,
                        OutPoint,
                    >(filled.transaction.spent_utxos@)
                    &&& filled.authorizations == transaction.authorizations
                    &&& filled.actor_proof == transaction.actor_proof
                },
                Err(e) => outputs_named(self@.utxos, transaction.transaction.inputs@) is Err && e
                    == (Error::NoUtxo {
                    outpoint: outputs_named(
                        self@.utxos,
                        transaction.transaction.inputs@,
                    )->Err_0,
                }),
            },
    {
        match self.fill_transaction(&transaction.transaction) {
            Err(e) => Err(e),
            Ok(filled) => Ok(
                Authorized {
                    transaction: filled,
                    authorizations: transaction.authorizations,
                    actor_proof: transaction.actor_proof,
                },
            ),
        }
    }

    /// The value of all unspent deposits.
    pub fn compute_deposit_utxo_value(&self) -> (r: u64)
        ensures
            r == saturated(deposits_in(self.utxos.rows())),
    {
        let mut total: u64 = 0;
        let mut i: usize = 0;
        let ghost rows = self.utxos.rows();
        assert(deposits_in(rows.subrange(0, 0)) == 0);
        while i < self.utxos.len()
            invariant
                i <= rows.len(),
                rows == self.utxos.rows(),
                total == saturated(deposits_in(rows.subrange(0, i as int))),
            decreases rows.len() - i,
        {
            proof {
                assert(rows.subrange(0, i + 1).drop_last() =~= rows.subrange(0, i as int));
            }
            let row = self.utxos.row(i);
            if matches!(row.0, OutPoint::Deposit(_)) {
                total = saturating_sum(total, row.1.get_bitcoin_value());
            }
            i += 1;
        }
        assert(rows.subrange(0, i as int) =~= rows);
        total
    }

    /// The value of all spent deposits.
    pub fn compute_deposit_stxo_value(&self) -> (r: u64)
        ensures
            r == saturated(spent_deposits_in(self.stxos.rows())),
    {
        let mut total: u64 = 0;
        let mut i: usize = 0;
        let ghost rows = self.stxos.rows();
        assert(spent_deposits_in(rows.subrange(0, 0)) == 0);
        while i < self.stxos.len()
            invariant
                i <= rows.len(),
                rows == self.stxos.rows(),
                total == saturated(spent_deposits_in(rows.subrange(0, i as int))),
            decreases rows.len() - i,
        {
            proof {
                assert(rows.subrange(0, i + 1).drop_last() =~= rows.subrange(0, i as int));
            }
            let row = self.stxos.row(i);
            if matches!(row.0, OutPoint::Deposit(_)) {
                total = saturating_sum(total, row.1.output.get_bitcoin_value());
            }
            i += 1;
        }
        assert(rows.subrange(0, i as int) =~= rows);
        total
    }

    /// The value of all that was withdrawn.
    pub fn compute_withdrawal_stxo_value(&self) -> (r: u64)
        ensures
            r == saturated(withdrawals_in(self.stxos.rows())),
    {
        let mut total: u64 = 0;
        let mut i: usize = 0;
        let ghost rows = self.stxos.rows();
        assert(withdrawals_in(rows.subrange(0, 0)) == 0);
        while i < self.stxos.len()
            invariant
                i <= rows.len(),
                rows == self.stxos.rows(),
                total == saturated(withdrawals_in(rows.subrange(0, i as int))),
            decreases rows.len() - i,
        {
            proof {
                assert(rows.subrange(0, i + 1).drop_last() =~= rows.subrange(0, i as int));
            }
            let row = self.stxos.row(i);
            if matches!(row.1.inpoint, InPoint::Withdrawal { .. }) {
                total = saturating_sum(total, row.1.output.get_bitcoin_value());
            }
            i += 1;
        }
        assert(rows.subrange(0, i as int) =~= rows);
        total
    }

    /// What was deposited, spent or not, less what was withdrawn.
    pub fn sidechain_wealth(&self) -> (r: Result<u64, Error>)
        ensures
            ({
                let deposited = saturated(deposits_in(self.utxos.rows())) + saturated(
                    spent_deposits_in(self.stxos.rows()),
                );
                let withdrawn = saturated(withdrawals_in(self.stxos.rows()));
                if deposited <= u64::MAX && withdrawn <= deposited {
                    r == Ok::<u64, Error>((deposited - withdrawn) as u64)
                } else {
                    r == Err::<u64, Error>(Error::AmountOverflow(AmountOverflowError))
                }
            }),
    {
        let unspent: u64 = self.compute_deposit_utxo_value();
        let spent: u64 = self.compute_deposit_stxo_value();
        let withdrawn: u64 = self.compute_withdrawal_stxo_value();
        match unspent.checked_add(spent) {
            Some(deposited) => match deposited.checked_sub(withdrawn) {
                Some(wealth) => Ok(wealth),
                None => Err(Error::AmountOverflow(AmountOverflowError)),
            },
            None => Err(Error::AmountOverflow(AmountOverflowError)),
        }
    }
}

} // verus!
