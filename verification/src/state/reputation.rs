//! Who has what reputation.

use vstd::prelude::*;

use crate::state::decisions::types::zero;
use crate::table::{has_key, row_has_key, Table};
use crate::types::{Address, Real};

verus! {

/// A reputation above zero.
pub open spec fn positive(r: Real) -> bool {
    zero().less(r)
}

pub fn is_positive(r: Real) -> (b: bool)
    ensures
        b == positive(r),
{
    (Real { bits: 0 }).is_less(r)
}

/// A reputation at or below zero.
pub open spec fn not_above_zero(r: Real) -> bool {
    !r.is_nan() && r.rank() <= 0
}

fn is_not_above_zero(r: Real) -> (b: bool)
    ensures
        b == not_above_zero(r),
{
    !r.is_nan() && !(Real { bits: 0 }).is_less(r)
}

pub type Reputations = Map<Address, Real>;

/// The reputation of an address, zero if there is none.
pub open spec fn reputation_of(m: Reputations, address: Address) -> Real {
    if m.dom().contains(address) {
        m[address]
    } else {
        zero()
    }
}

/// With a reputation set; one at or below zero goes.
pub open spec fn with_reputation(m: Reputations, address: Address, r: Real) -> Reputations {
    if not_above_zero(r) {
        m.remove(address)
    } else {
        m.insert(address, r)
    }
}

/// The reputations above zero.
pub open spec fn positives(m: Reputations) -> Reputations {
    Map::new(|a: Address| m.dom().contains(a) && positive(m[a]), |a: Address| m[a])
}

pub struct ReputationDbs {
    pub reputation: Table<Address, Real>,
}

impl View for ReputationDbs {
    type V = Reputations;

    open spec fn view(&self) -> Reputations {
        self.reputation@
    }
}

/// Copies the rows whose reputation is above zero.
pub fn copy_positives(from: &Table<Address, Real>) -> (r: Table<Address, Real>)
    ensures
        r@ == positives(from@),
{
    from.rows_facts();
    let ghost rows = from.rows();
    let mut r: Table<Address, Real> = Table::new();
    let mut i: usize = 0;
    while i < from.len()
        invariant
            i <= rows.len(),
            rows == from.rows(),
            forall|j: int|
                0 <= j < rows.len() ==> from@.dom().contains((#[trigger] rows[j]).0)
                    && from@[rows[j].0] == rows[j].1,
            forall|a: Address| #[trigger]
                r@.dom().contains(a) <==> exists|j: int|
                    0 <= j < i && (#[trigger] rows[j]).0 == a && positive(rows[j].1),
            forall|a: Address| #[trigger]
                r@.dom().contains(a) ==> r@[a] == from@[a],
        decreases rows.len() - i,
    {
        let row = from.row(i);
        let ghost before = r@;
        if is_positive(row.1) {
            r.put(row.0, row.1);
        }
        proof {
            assert forall|a: Address| #[trigger] r@.dom().contains(a) <==> exists|j: int|
                0 <= j < i + 1 && (#[trigger] rows[j]).0 == a && positive(rows[j].1) by {
                if before.dom().contains(a) {
                    let j = choose|j: int|
                        0 <= j < i && (#[trigger] rows[j]).0 == a && positive(rows[j].1);
                    assert(0 <= j < i + 1);
                }
                if a == row.0 && positive(row.1) {
                    assert(rows[i as int].0 == a);
                }
            }
        }
        i += 1;
    }
    proof {
        assert forall|a: Address| r@.dom().contains(a) <==> positives(from@).dom().contains(a) by {
            if from@.dom().contains(a) && positive(from@[a]) {
                assert(has_key(rows, a));
                let j = choose|j: int| row_has_key(rows, a, j);
                assert(rows[j].0 == a);
            }
        }
        assert(r@ =~= positives(from@));
    }
    r
}

/// How many rows have a reputation above zero.
pub open spec fn holders(rows: Seq<(Address, Real)>) -> nat
    decreases rows.len(),
{
    if rows.len() == 0 {
        0
    } else {
        holders(rows.drop_last()) + if positive(rows.last().1) {
            1nat
        } else {
            0
        }
    }
}

impl ReputationDbs {
    pub fn new() -> (r: Self)
        ensures
            r@ == Map::<Address, Real>::empty(),
    {
        ReputationDbs { reputation: Table::new() }
    }

    pub fn get_reputation(&self, address: &Address) -> (r: Real)
        ensures
            r == reputation_of(self@, *address),
    {
        match self.reputation.get(address) {
            Some(r) => *r,
            None => Real { bits: 0 },
        }
    }

    pub fn get_all_reputations(&self) -> (r: Table<Address, Real>)
        ensures
            r@ == positives(self@),
    {
        copy_positives(&self.reputation)
    }

    pub fn set_reputation(&mut self, address: &Address, reputation: Real)
        ensures
            final(self)@ == with_reputation(old(self)@, *address, reputation),
    {
        if is_not_above_zero(reputation) {
            let _ = self.reputation.delete(address);
        } else {
            self.reputation.put(*address, reputation);
        }
    }

    pub fn delete_reputation(&mut self, address: &Address)
        ensures
            final(self)@ == old(self)@.remove(*address),
    {
        let _ = self.reputation.delete(address);
    }

    /// Sets all reputations to those of a snapshot.
    pub fn clear_and_restore(&mut self, snapshot: &Table<Address, Real>)
        ensures
            final(self)@ == positives(snapshot@),
    {
        self.reputation = copy_positives(snapshot);
    }

    pub fn count_holders(&self) -> (r: u64)
        ensures
            r == holders(self.reputation.rows()),
    {
        let ghost rows = self.reputation.rows();
        let mut count: u64 = 0;
        let mut i: usize = 0;
        assert(rows.subrange(0, 0) =~= Seq::empty());
        while i < self.reputation.len()
            invariant
                i <= rows.len(),
                rows == self.reputation.rows(),
                count <= i,
                count == holders(rows.subrange(0, i as int)),
            decreases rows.len() - i,
        {
            proof {
                assert(rows.subrange(0, i + 1).drop_last() =~= rows.subrange(0, i as int));
            }
            if is_positive(self.reputation.row(i).1) {
                count = count + 1;
            }
            i += 1;
        }
        assert(rows.subrange(0, i as int) =~= rows);
        count
    }
}

/// A snapshot of the reputations gives them back, where all are above zero.
pub proof fn restoring_gives_back_reputations(m: Reputations)
    requires
        forall|a: Address| #[trigger] m.dom().contains(a) ==> positive(m[a]),
    ensures
        positives(positives(m)) == m,
{
    assert(positives(positives(m)) =~= m);
}

} // verus!
