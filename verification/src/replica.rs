//! Copies of values.

use vstd::prelude::*;

use crate::table::{Key, Table};
use crate::types::transaction::output::{FilledOutput, SpentOutput};
use crate::types::transaction::{AuthorizedTransaction, InPoint, OutPoint};
use crate::types::{Duplicate, MainBlockHash, Real, Txid};

verus! {

/// A value of which a copy can be made that says the same.
pub trait Replica: Sized {
    /// The two say the same.
    spec fn same(self, other: Self) -> bool;

    fn replica(&self) -> (r: Self)
        ensures
            self.same(r),
    ;
}

impl Replica for () {
    open spec fn same(self, other: Self) -> bool {
        self == other
    }

    fn replica(&self) -> (r: Self) {
        ()
    }
}

impl Replica for u32 {
    open spec fn same(self, other: Self) -> bool {
        self == other
    }

    fn replica(&self) -> (r: Self) {
        *self
    }
}

impl Replica for i64 {
    open spec fn same(self, other: Self) -> bool {
        self == other
    }

    fn replica(&self) -> (r: Self) {
        *self
    }
}

impl Replica for Real {
    open spec fn same(self, other: Self) -> bool {
        self == other
    }

    fn replica(&self) -> (r: Self) {
        *self
    }
}

impl Replica for Txid {
    open spec fn same(self, other: Self) -> bool {
        self == other
    }

    fn replica(&self) -> (r: Self) {
        *self
    }
}

impl Replica for OutPoint {
    open spec fn same(self, other: Self) -> bool {
        self == other
    }

    fn replica(&self) -> (r: Self) {
        *self
    }
}

impl Replica for InPoint {
    open spec fn same(self, other: Self) -> bool {
        self == other
    }

    fn replica(&self) -> (r: Self) {
        *self
    }
}

impl Replica for (MainBlockHash, u32) {
    open spec fn same(self, other: Self) -> bool {
        self == other
    }

    fn replica(&self) -> (r: Self) {
        *self
    }
}

impl Replica for FilledOutput {
    open spec fn same(self, other: Self) -> bool {
        self == other
    }

    fn replica(&self) -> (r: Self) {
        self.duplicate()
    }
}

impl Replica for SpentOutput {
    open spec fn same(self, other: Self) -> bool {
        self == other
    }

    fn replica(&self) -> (r: Self) {
        self.duplicate()
    }
}

impl Replica for AuthorizedTransaction {
    open spec fn same(self, other: Self) -> bool {
        self == other
    }

    fn replica(&self) -> (r: Self) {
        self.duplicate()
    }
}

impl<T: Replica> Replica for Vec<T> {
    open spec fn same(self, other: Self) -> bool {
        &&& self@.len() == other@.len()
        &&& forall|i: int| 0 <= i < self@.len() ==> (#[trigger] self@[i]).same(other@[i])
    }

    fn replica(&self) -> (r: Self) {
        let mut r: Vec<T> = Vec::new();
        let mut i: usize = 0;
        while i < self.len()
            invariant
                i <= self@.len(),
                r@.len() == i,
                forall|j: int| 0 <= j < i ==> (#[trigger] self@[j]).same(r@[j]),
            decreases self@.len() - i,
        {
            r.push(self[i].replica());
            i += 1;
        }
        r
    }
}

impl<K: Key, V: Replica> Replica for Table<K, V> {
    open spec fn same(self, other: Self) -> bool {
        &&& self@.dom() == other@.dom()
        &&& forall|k: K| #[trigger] self@.dom().contains(k) ==> self@[k].same(other@[k])
    }

    fn replica(&self) -> (r: Self) {
        self.copied()
    }
}

} // verus!
