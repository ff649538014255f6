//! A key-value table whose rows stand in the byte order of their keys.

use vstd::prelude::*;

use crate::bytes::{
    bytes_before, bytes_before_irreflexive, bytes_before_total, bytes_before_transitive, is_before,
    same_slice,
};
use crate::replica::Replica;

verus! {

/// The key of a table: it is ordered by, and told apart by, its byte encoding.
pub trait Key: Sized + Copy {
    spec fn key_bytes(&self) -> Seq<u8>;

    /// Two keys with the same encoding are the same key.
    proof fn key_bytes_injective(a: Self, b: Self)
        requires
            a.key_bytes() == b.key_bytes(),
        ensures
            a == b,
    ;

    fn to_key_bytes(&self) -> (r: Vec<u8>)
        ensures
            r@ == self.key_bytes(),
    ;
}

/// The rows stand in strictly ascending byte order of their keys.
pub open spec fn ascending<K: Key, V>(rows: Seq<(K, V)>) -> bool {
    forall|i: int, j: int|
        0 <= i < j < rows.len() ==> #[trigger] bytes_before(
            rows[i].0.key_bytes(),
            rows[j].0.key_bytes(),
        )
}

/// Row `i` has the key `k`.
pub open spec fn row_has_key<K, V>(rows: Seq<(K, V)>, k: K, i: int) -> bool {
    0 <= i < rows.len() && rows[i].0 == k
}

pub open spec fn has_key<K, V>(rows: Seq<(K, V)>, k: K) -> bool {
    exists|i: int| row_has_key(rows, k, i)
}

/// What a list of rows says as a map.
pub open spec fn rows_map<K, V>(rows: Seq<(K, V)>) -> Map<K, V> {
    Map::new(|k: K| has_key(rows, k), |k: K| rows[choose|i: int| row_has_key(rows, k, i)].1)
}

/// The rows of a map, in the byte order of their keys.
pub open spec fn rows_of<K: Key, V>(m: Map<K, V>) -> Seq<(K, V)> {
    choose|rows: Seq<(K, V)>| is_rows_of(rows, m)
}

pub open spec fn is_rows_of<K: Key, V>(rows: Seq<(K, V)>, m: Map<K, V>) -> bool {
    ascending(rows) && rows_map(rows) == m
}

/// The rows with each value replaced.
pub open spec fn rows_mapped<K, V, W>(rows: Seq<(K, V)>, f: spec_fn(V) -> W) -> Seq<(K, W)> {
    Seq::new(rows.len(), |i: int| (rows[i].0, f(rows[i].1)))
}

/// The key of `m` that comes last in byte order.
pub open spec fn is_last_key<K: Key, V>(m: Map<K, V>, k: K) -> bool {
    &&& m.dom().contains(k)
    &&& forall|other: K| #[trigger] m.dom().contains(other) && other != k ==> bytes_before(
        other.key_bytes(),
        k.key_bytes(),
    )
}

pub struct Table<K: Key, V> {
    rows: Vec<(K, V)>,
}

impl<K: Key, V> View for Table<K, V> {
    type V = Map<K, V>;

    closed spec fn view(&self) -> Map<K, V> {
        rows_map(self.rows@)
    }
}

/// Rows in ascending order with distinct keys: a row is what the map holds at
/// its key.
pub proof fn lemma_row<K: Key, V>(rows: Seq<(K, V)>, i: int)
    requires
        ascending(rows),
        0 <= i < rows.len(),
    ensures
        rows_map(rows).dom().contains(rows[i].0),
        rows_map(rows)[rows[i].0] == rows[i].1,
{
    let k = rows[i].0;
    assert(row_has_key(rows, k, i));
    let j = choose|j: int| row_has_key(rows, k, j);
    if j < i {
        assert(bytes_before(rows[j].0.key_bytes(), rows[i].0.key_bytes()));
        bytes_before_irreflexive(k.key_bytes());
    } else if i < j {
        assert(bytes_before(rows[i].0.key_bytes(), rows[j].0.key_bytes()));
        bytes_before_irreflexive(k.key_bytes());
    }
}

/// A map has one list of rows in ascending order.
pub proof fn rows_are_determined<K: Key, V>(a: Seq<(K, V)>, b: Seq<(K, V)>)
    requires
        ascending(a),
        ascending(b),
        rows_map(a) == rows_map(b),
    ensures
        a == b,
    decreases a.len(),
{
    if a.len() == 0 {
        if b.len() > 0 {
            lemma_row(b, 0);
            let j = choose|j: int| row_has_key(a, b[0].0, j);
            assert(row_has_key(a, b[0].0, j));
        }
        assert(a =~= b);
    } else if b.len() == 0 {
        lemma_row(a, 0);
        let j = choose|j: int| row_has_key(b, a[0].0, j);
        assert(row_has_key(b, a[0].0, j));
    } else {
        let k = a.last().0;
        let l = b.last().0;
        lemma_row(a, a.len() - 1);
        lemma_row(b, b.len() - 1);
        if k != l {
            let j = choose|j: int| row_has_key(b, k, j);
            assert(row_has_key(b, k, j));
            assert(bytes_before(b[j].0.key_bytes(), b[b.len() - 1].0.key_bytes()));
            let i = choose|i: int| row_has_key(a, l, i);
            assert(row_has_key(a, l, i));
            assert(bytes_before(a[i].0.key_bytes(), a[a.len() - 1].0.key_bytes()));
            bytes_before_transitive(k.key_bytes(), l.key_bytes(), k.key_bytes());
            bytes_before_irreflexive(k.key_bytes());
        }
        lemma_rows_but_last(a);
        lemma_rows_but_last(b);
        rows_are_determined(a.drop_last(), b.drop_last());
        assert(a =~= a.drop_last().push(a.last()));
        assert(b =~= b.drop_last().push(b.last()));
    }
}

/// Without the last row, the map has no longer its key.
pub proof fn lemma_rows_but_last<K: Key, V>(rows: Seq<(K, V)>)
    requires
        ascending(rows),
        rows.len() > 0,
    ensures
        ascending(rows.drop_last()),
        rows_map(rows.drop_last()) == rows_map(rows).remove(rows.last().0),
{
    let front = rows.drop_last();
    let k = rows.last().0;
    assert forall|i: int, j: int| 0 <= i < j < front.len() implies #[trigger] bytes_before(
        front[i].0.key_bytes(),
        front[j].0.key_bytes(),
    ) by {
        assert(bytes_before(rows[i].0.key_bytes(), rows[j].0.key_bytes()));
    }
    let m = rows_map(front);
    let n = rows_map(rows).remove(k);
    assert forall|x: K| m.dom().contains(x) <==> n.dom().contains(x) by {
        if m.dom().contains(x) {
            let i = choose|i: int| row_has_key(front, x, i);
            assert(row_has_key(front, x, i));
            assert(row_has_key(rows, x, i));
            assert(bytes_before(rows[i].0.key_bytes(), rows[rows.len() - 1].0.key_bytes()));
            bytes_before_irreflexive(k.key_bytes());
        }
        if n.dom().contains(x) {
            let i = choose|i: int| row_has_key(rows, x, i);
            assert(row_has_key(rows, x, i));
            assert(row_has_key(front, x, i));
        }
    }
    assert forall|x: K| m.dom().contains(x) implies #[trigger] m[x] == n[x] by {
        let i = choose|i: int| row_has_key(front, x, i);
        assert(row_has_key(front, x, i));
        lemma_row(front, i);
        lemma_row(rows, i);
    }
    assert(m =~= n);
}

/// A map has as many keys as rows.
pub proof fn lemma_rows_count<K: Key, V>(rows: Seq<(K, V)>)
    requires
        ascending(rows),
    ensures
        rows_map(rows).dom().finite(),
        rows_map(rows).dom().len() == rows.len(),
    decreases rows.len(),
{
    if rows.len() == 0 {
        assert(rows_map(rows).dom() =~= Set::empty());
    } else {
        lemma_rows_but_last(rows);
        lemma_rows_count(rows.drop_last());
        lemma_row(rows, rows.len() - 1);
        let k = rows.last().0;
        assert(rows_map(rows).dom() =~= rows_map(rows.drop_last()).dom().insert(k));
    }
}

/// Replacing each value keeps the order, and the map has the new values.
pub proof fn lemma_rows_mapped<K: Key, V, W>(rows: Seq<(K, V)>, f: spec_fn(V) -> W)
    requires
        ascending(rows),
    ensures
        rows_of(rows_map(rows).map_values(f)) == rows_mapped(rows, f),
{
    let mapped = rows_mapped(rows, f);
    assert forall|i: int, j: int| 0 <= i < j < mapped.len() implies #[trigger] bytes_before(
        mapped[i].0.key_bytes(),
        mapped[j].0.key_bytes(),
    ) by {
        assert(bytes_before(rows[i].0.key_bytes(), rows[j].0.key_bytes()));
    }
    let m = rows_map(mapped);
    let n = rows_map(rows).map_values(f);
    assert forall|x: K| m.dom().contains(x) <==> n.dom().contains(x) by {
        if m.dom().contains(x) {
            let i = choose|i: int| row_has_key(mapped, x, i);
            assert(row_has_key(mapped, x, i));
            assert(row_has_key(rows, x, i));
        }
        if n.dom().contains(x) {
            let i = choose|i: int| row_has_key(rows, x, i);
            assert(row_has_key(rows, x, i));
            assert(row_has_key(mapped, x, i));
        }
    }
    assert forall|x: K| m.dom().contains(x) implies #[trigger] m[x] == n[x] by {
        let i = choose|i: int| row_has_key(mapped, x, i);
        assert(row_has_key(mapped, x, i));
        lemma_row(mapped, i);
        lemma_row(rows, i);
    }
    assert(m =~= n);
    assert(is_rows_of(mapped, n));
    rows_are_determined(rows_of(n), mapped);
}

/// Rows with the same keys, and with values that say the same.
proof fn lemma_copied<K: Key, V: Replica>(a: Seq<(K, V)>, b: Seq<(K, V)>)
    requires
        ascending(a),
        a.len() == b.len(),
        forall|j: int|
            0 <= j < a.len() ==> (#[trigger] b[j]).0 == a[j].0 && a[j].1.same(b[j].1),
    ensures
        ascending(b),
        rows_map(a).dom() == rows_map(b).dom(),
        forall|k: K| #[trigger]
            rows_map(a).dom().contains(k) ==> rows_map(a)[k].same(rows_map(b)[k]),
{
    assert forall|i: int, j: int| 0 <= i < j < b.len() implies bytes_before(
        (#[trigger] b[i]).0.key_bytes(),
        (#[trigger] b[j]).0.key_bytes(),
    ) by {
        assert(bytes_before(a[i].0.key_bytes(), a[j].0.key_bytes()));
    }
    assert forall|k: K| rows_map(a).dom().contains(k) <==> rows_map(b).dom().contains(k) by {
        if rows_map(a).dom().contains(k) {
            let i = choose|i: int| row_has_key(a, k, i);
            assert(row_has_key(b, k, i));
        }
        if rows_map(b).dom().contains(k) {
            let i = choose|i: int| row_has_key(b, k, i);
            assert(row_has_key(a, k, i));
        }
    }
    assert(rows_map(a).dom() =~= rows_map(b).dom());
    assert forall|k: K| #[trigger] rows_map(a).dom().contains(k) implies rows_map(a)[k].same(
        rows_map(b)[k],
    ) by {
        let i = choose|i: int| row_has_key(a, k, i);
        assert(row_has_key(a, k, i));
        lemma_row(a, i);
        lemma_row(b, i);
        assert(b[i].0 == k);
    }
}

impl<K: Key, V> Table<K, V> {
    /// The rows, in the byte order of their keys.
    pub closed spec fn rows(&self) -> Seq<(K, V)> {
        self.rows@
    }

    #[verifier::type_invariant]
    closed spec fn wf(&self) -> bool {
        ascending(self.rows@)
    }

    /// Tells a caller that the rows stand in order, and that the map is what
    /// they say.
    pub fn rows_facts(&self)
        ensures
            ascending(self.rows()),
            self@ == rows_map(self.rows()),
            self.rows() == rows_of(self@),
            self@.dom().finite(),
            self@.dom().len() == self.rows().len(),
            forall|i: int|
                0 <= i < self.rows().len() ==> self@.dom().contains((#[trigger] self.rows()[i]).0)
                    && self@[self.rows()[i].0] == self.rows()[i].1,
            forall|k: K| #[trigger] self@.dom().contains(k) ==> has_key(self.rows(), k),
    {
        proof {
            use_type_invariant(self);
            assert(is_rows_of(self.rows@, self@));
            rows_are_determined(rows_of(self@), self.rows@);
            lemma_rows_count(self.rows@);
            assert forall|i: int| 0 <= i < self.rows().len() implies self@.dom().contains(
                (#[trigger] self.rows()[i]).0,
            ) && self@[self.rows()[i].0] == self.rows()[i].1 by {
                lemma_row(self.rows@, i);
            }
        }
    }

    pub fn new() -> (r: Self)
        ensures
            r@ == Map::<K, V>::empty(),
            r.rows() == Seq::<(K, V)>::empty(),
    {
        let r = Table { rows: Vec::new() };
        assert(r@ =~= Map::<K, V>::empty());
        r
    }

    /// A table with the same keys, and with copies of the values.
    pub fn copied(&self) -> (r: Self) where V: Replica
        ensures
            self@.dom() == r@.dom(),
            forall|k: K| #[trigger] self@.dom().contains(k) ==> self@[k].same(r@[k]),
    {
        proof {
            use_type_invariant(self);
        }
        let mut rows: Vec<(K, V)> = Vec::new();
        let mut i: usize = 0;
        while i < self.rows.len()
            invariant
                i <= self.rows@.len(),
                rows@.len() == i,
                forall|j: int|
                    0 <= j < i ==> (#[trigger] rows@[j]).0 == self.rows@[j].0 && self.rows@[j].1.same(
                        rows@[j].1,
                    ),
            decreases self.rows@.len() - i,
        {
            rows.push((self.rows[i].0, self.rows[i].1.replica()));
            i += 1;
        }
        proof {
            lemma_copied(self.rows@, rows@);
        }
        Table { rows }
    }

    /// The place of the first row whose key is not before `key`.
    fn find(&self, key: &K) -> (r: (usize, bool))
        ensures
            r.0 <= self.rows@.len(),
            forall|i: int|
                0 <= i < r.0 ==> bytes_before(
                    (#[trigger] self.rows@[i]).0.key_bytes(),
                    key.key_bytes(),
                ),
            r.1 == self@.dom().contains(*key),
            r.1 ==> r.0 < self.rows@.len() && self.rows@[r.0 as int].0 == *key,
            !r.1 ==> forall|i: int|
                r.0 <= i < self.rows@.len() ==> bytes_before(
                    key.key_bytes(),
                    (#[trigger] self.rows@[i]).0.key_bytes(),
                ),
    {
        proof {
            use_type_invariant(self);
        }
        let wanted = key.to_key_bytes();
        let mut i: usize = 0;
        while i < self.rows.len()
            invariant
                i <= self.rows@.len(),
                ascending(self.rows@),
                wanted@ == key.key_bytes(),
                forall|j: int|
                    0 <= j < i ==> bytes_before(
                        (#[trigger] self.rows@[j]).0.key_bytes(),
                        key.key_bytes(),
                    ),
            decreases self.rows@.len() - i,
        {
            let here = self.rows[i].0.to_key_bytes();
            if is_before(here.as_slice(), wanted.as_slice()) {
                i += 1;
            } else if same_slice(here.as_slice(), wanted.as_slice()) {
                proof {
                    K::key_bytes_injective(self.rows@[i as int].0, *key);
                    assert(row_has_key(self.rows@, *key, i as int));
                }
                return (i, true);
            } else {
                proof {
                    bytes_before_total(here@, wanted@);
                    assert forall|j: int| i <= j < self.rows@.len() implies bytes_before(
                        key.key_bytes(),
                        (#[trigger] self.rows@[j]).0.key_bytes(),
                    ) by {
                        if i < j {
                            bytes_before_transitive(
                                key.key_bytes(),
                                self.rows@[i as int].0.key_bytes(),
                                self.rows@[j].0.key_bytes(),
                            );
                        }
                    }
                    self.lemma_absent(*key, i as int);
                }
                return (i, false);
            }
        }
        proof {
            self.lemma_absent(*key, i as int);
        }
        (i, false)
    }

    proof fn lemma_absent(&self, key: K, at: int)
        requires
            0 <= at <= self.rows@.len(),
            forall|j: int|
                0 <= j < at ==> bytes_before((#[trigger] self.rows@[j]).0.key_bytes(), key.key_bytes()),
            forall|j: int|
                at <= j < self.rows@.len() ==> bytes_before(
                    key.key_bytes(),
                    (#[trigger] self.rows@[j]).0.key_bytes(),
                ),
        ensures
            !self@.dom().contains(key),
    {
        if has_key(self.rows@, key) {
            let i = choose|i: int| row_has_key(self.rows@, key, i);
            assert(self.rows@[i].0 == key);
            bytes_before_irreflexive(key.key_bytes());
        }
    }

    pub fn contains(&self, key: &K) -> (r: bool)
        ensures
            r == self@.dom().contains(*key),
    {
        self.find(key).1
    }

    pub fn get(&self, key: &K) -> (r: Option<&V>)
        ensures
            match r {
                Some(v) => self@.dom().contains(*key) && *v == self@[*key],
                None => !self@.dom().contains(*key),
            },
    {
        let (i, found) = self.find(key);
        if found {
            proof {
                use_type_invariant(self);
                lemma_row(self.rows@, i as int);
            }
            Some(&self.rows[i].1)
        } else {
            None
        }
    }

    /// Sets the value at `key`.
    pub fn put(&mut self, key: K, value: V)
        ensures
            final(self)@ == old(self)@.insert(key, value),
    {
        proof {
            use_type_invariant(&*self);
        }
        let ghost before = self.rows@;
        let (i, found) = self.find(&key);
        let mut rows: Vec<(K, V)> = Vec::new();
        core::mem::swap(&mut self.rows, &mut rows);
        if found {
            rows[i] = (key, value);
            proof {
                lemma_replaced(before, i as int, key, value);
            }
        } else {
            rows.insert(i, (key, value));
            proof {
                lemma_inserted(before, i as int, key, value);
            }
        }
        self.rows = rows;
    }

    /// Removes the row of `key` and returns its value.
    pub fn take(&mut self, key: &K) -> (r: Option<V>)
        ensures
            final(self)@ == old(self)@.remove(*key),
            match r {
                Some(v) => old(self)@.dom().contains(*key) && v == old(self)@[*key],
                None => !old(self)@.dom().contains(*key),
            },
    {
        proof {
            use_type_invariant(&*self);
        }
        let ghost before = self.rows@;
        let (i, found) = self.find(key);
        if found {
            proof {
                lemma_row(before, i as int);
                lemma_removed(before, i as int, *key);
            }
            let mut rows: Vec<(K, V)> = Vec::new();
            core::mem::swap(&mut self.rows, &mut rows);
            let (_, v) = rows.remove(i);
            self.rows = rows;
            Some(v)
        } else {
            assert(self@.remove(*key) =~= self@);
            None
        }
    }

    /// Removes the row of `key`; says whether there was one.
    pub fn delete(&mut self, key: &K) -> (r: bool)
        ensures
            final(self)@ == old(self)@.remove(*key),
            r == old(self)@.dom().contains(*key),
    {
        self.take(key).is_some()
    }

    pub fn clear(&mut self)
        ensures
            final(self)@ == Map::<K, V>::empty(),
    {
        self.rows = Vec::new();
        assert(rows_map(self.rows@) =~= Map::<K, V>::empty());
    }

    pub fn len(&self) -> (r: usize)
        ensures
            r == self.rows().len(),
    {
        self.rows.len()
    }

    pub fn is_empty(&self) -> (r: bool)
        ensures
            r == (self.rows().len() == 0),
            r == (self@ == Map::<K, V>::empty()),
    {
        proof {
            use_type_invariant(self);
            if self.rows@.len() == 0 {
                assert(self@ =~= Map::<K, V>::empty());
            } else {
                lemma_row(self.rows@, 0);
            }
        }
        self.rows.len() == 0
    }

    pub fn row(&self, i: usize) -> (r: &(K, V))
        requires
            i < self.rows().len(),
        ensures
            *r == self.rows()[i as int],
            self@.dom().contains(r.0),
            self@[r.0] == r.1,
    {
        proof {
            use_type_invariant(self);
            lemma_row(self.rows@, i as int);
        }
        &self.rows[i]
    }

    /// The row that comes last in byte order.
    pub fn last(&self) -> (r: Option<&(K, V)>)
        ensures
            match r {
                Some(row) => {
                    &&& self.rows().len() > 0
                    &&& *row == self.rows().last()
                    &&& is_last_key(self@, row.0)
                    &&& self@[row.0] == row.1
                },
                None => self.rows().len() == 0 && self@ == Map::<K, V>::empty(),
            },
    {
        let n: usize = self.rows.len();
        if n == 0 {
            assert(self@ =~= Map::<K, V>::empty());
            None
        } else {
            proof {
                use_type_invariant(self);
                lemma_row(self.rows@, n - 1);
                let k = self.rows@[n - 1].0;
                assert forall|other: K| #[trigger]
                    self@.dom().contains(other) && other != k implies bytes_before(
                    other.key_bytes(),
                    k.key_bytes(),
                ) by {
                    let j = choose|j: int| row_has_key(self.rows@, other, j);
                    assert(row_has_key(self.rows@, other, j));
                }
            }
            Some(&self.rows[n - 1])
        }
    }
}

proof fn lemma_replaced<K: Key, V>(rows: Seq<(K, V)>, at: int, key: K, value: V)
    requires
        ascending(rows),
        0 <= at < rows.len(),
        rows[at].0 == key,
    ensures
        ascending(rows.update(at, (key, value))),
        rows_map(rows.update(at, (key, value))) == rows_map(rows).insert(key, value),
{
    let next = rows.update(at, (key, value));
    assert forall|i: int, j: int| 0 <= i < j < next.len() implies #[trigger] bytes_before(
        next[i].0.key_bytes(),
        next[j].0.key_bytes(),
    ) by {
        assert(bytes_before(rows[i].0.key_bytes(), rows[j].0.key_bytes()));
    }
    let a = rows_map(next);
    let b = rows_map(rows).insert(key, value);
    assert forall|k: K| a.dom().contains(k) <==> b.dom().contains(k) by {
        if a.dom().contains(k) {
            let i = choose|i: int| row_has_key(next, k, i);
            assert(row_has_key(rows, k, i));
        }
        if b.dom().contains(k) {
            if k == key {
                assert(row_has_key(next, k, at));
            } else {
                let i = choose|i: int| row_has_key(rows, k, i);
                assert(row_has_key(next, k, i));
            }
        }
    }
    assert forall|k: K| a.dom().contains(k) implies a[k] == b[k] by {
        let i = choose|i: int| row_has_key(next, k, i);
        assert(row_has_key(next, k, i));
        lemma_row(next, i);
        lemma_row(rows, i);
        if k == key {
            lemma_row(next, at);
        }
    }
    assert(a =~= b);
}

proof fn lemma_inserted<K: Key, V>(rows: Seq<(K, V)>, at: int, key: K, value: V)
    requires
        ascending(rows),
        0 <= at <= rows.len(),
        forall|j: int|
            0 <= j < at ==> bytes_before((#[trigger] rows[j]).0.key_bytes(), key.key_bytes()),
        forall|j: int|
            at <= j < rows.len() ==> bytes_before(
                key.key_bytes(),
                (#[trigger] rows[j]).0.key_bytes(),
            ),
    ensures
        ascending(rows.insert(at, (key, value))),
        rows_map(rows.insert(at, (key, value))) == rows_map(rows).insert(key, value),
{
    let next = rows.insert(at, (key, value));
    assert forall|i: int, j: int| 0 <= i < j < next.len() implies #[trigger] bytes_before(
        next[i].0.key_bytes(),
        next[j].0.key_bytes(),
    ) by {
        let i0 = if i < at { i } else { i - 1 };
        let j0 = if j < at { j } else { j - 1 };
        if i != at && j != at {
            assert(next[i] == rows[i0]);
            assert(next[j] == rows[j0]);
            assert(bytes_before(rows[i0].0.key_bytes(), rows[j0].0.key_bytes()));
        } else if i == at {
            assert(next[j] == rows[j0]);
        } else {
            assert(next[i] == rows[i0]);
        }
    }
    let a = rows_map(next);
    let b = rows_map(rows).insert(key, value);
    assert forall|k: K| a.dom().contains(k) <==> b.dom().contains(k) by {
        if a.dom().contains(k) {
            let i = choose|i: int| row_has_key(next, k, i);
            if i != at {
                let i0 = if i < at { i } else { i - 1 };
                assert(row_has_key(rows, k, i0));
            }
        }
        if b.dom().contains(k) {
            if k == key {
                assert(row_has_key(next, k, at));
            } else {
                let i0 = choose|i: int| row_has_key(rows, k, i);
                let i = if i0 < at { i0 } else { i0 + 1 };
                assert(row_has_key(next, k, i));
            }
        }
    }
    assert forall|k: K| a.dom().contains(k) implies a[k] == b[k] by {
        let i = choose|i: int| row_has_key(next, k, i);
        assert(row_has_key(next, k, i));
        lemma_row(next, i);
        lemma_row(next, at);
        if i != at {
            let i0 = if i < at { i } else { i - 1 };
            lemma_row(rows, i0);
            if k == key {
                bytes_before_irreflexive(k.key_bytes());
                assert(rows[i0].0 == k);
            }
        }
    }
    assert(a =~= b);
}

proof fn lemma_removed<K: Key, V>(rows: Seq<(K, V)>, at: int, key: K)
    requires
        ascending(rows),
        0 <= at < rows.len(),
        rows[at].0 == key,
    ensures
        ascending(rows.remove(at)),
        rows_map(rows.remove(at)) == rows_map(rows).remove(key),
{
    let next = rows.remove(at);
    assert forall|i: int, j: int| 0 <= i < j < next.len() implies #[trigger] bytes_before(
        next[i].0.key_bytes(),
        next[j].0.key_bytes(),
    ) by {
        let i0 = if i < at { i } else { i + 1 };
        let j0 = if j < at { j } else { j + 1 };
        assert(bytes_before(rows[i0].0.key_bytes(), rows[j0].0.key_bytes()));
    }
    let a = rows_map(next);
    let b = rows_map(rows).remove(key);
    assert forall|k: K| a.dom().contains(k) <==> b.dom().contains(k) by {
        if a.dom().contains(k) {
            let i = choose|i: int| row_has_key(next, k, i);
            let i0 = if i < at { i } else { i + 1 };
            assert(row_has_key(rows, k, i0));
            if k == key {
                bytes_before_irreflexive(k.key_bytes());
                if i0 < at {
                    assert(bytes_before(rows[i0].0.key_bytes(), rows[at].0.key_bytes()));
                } else {
                    assert(bytes_before(rows[at].0.key_bytes(), rows[i0].0.key_bytes()));
                }
            }
        }
        if b.dom().contains(k) {
            let i0 = choose|i: int| row_has_key(rows, k, i);
            let i = if i0 < at { i0 } else { i0 - 1 };
            assert(row_has_key(next, k, i));
        }
    }
    assert forall|k: K| a.dom().contains(k) implies a[k] == b[k] by {
        let i = choose|i: int| row_has_key(next, k, i);
        assert(row_has_key(next, k, i));
        let i0 = if i < at { i } else { i + 1 };
        lemma_row(next, i);
        lemma_row(rows, i0);
    }
    assert(a =~= b);
}

} // verus!
