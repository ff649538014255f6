//! Sums over the rows of a table.

use vstd::prelude::*;

use crate::bytes::{
    bytes_before, bytes_before_irreflexive, bytes_before_total, bytes_before_transitive,
};
use crate::table::{
    ascending, has_key, is_rows_of, lemma_row, row_has_key, rows_are_determined, rows_map, rows_of,
    Key,
};

verus! {

/// A map that a table can hold: it has rows.
pub open spec fn has_rows<K: Key, V>(m: Map<K, V>) -> bool {
    exists|rows: Seq<(K, V)>| is_rows_of(rows, m)
}

/// The sum of what each row counts for.
pub open spec fn sum_of<K, V>(rows: Seq<(K, V)>, g: spec_fn((K, V)) -> int) -> int
    decreases rows.len(),
{
    if rows.len() == 0 {
        0
    } else {
        sum_of(rows.drop_last(), g) + g(rows.last())
    }
}

/// The place of a key that no row has: the rows before it come before the key,
/// and the others after it.
proof fn lemma_place<K: Key, V>(rows: Seq<(K, V)>, k: K) -> (i: int)
    requires
        ascending(rows),
        !has_key(rows, k),
    ensures
        0 <= i <= rows.len(),
        forall|j: int|
            0 <= j < i ==> bytes_before((#[trigger] rows[j]).0.key_bytes(), k.key_bytes()),
        forall|j: int|
            i <= j < rows.len() ==> bytes_before(
                k.key_bytes(),
                (#[trigger] rows[j]).0.key_bytes(),
            ),
    decreases rows.len(),
{
    if rows.len() == 0 {
        0
    } else {
        let front = rows.drop_last();
        let last = rows.last().0;
        assert forall|i: int, j: int| 0 <= i < j < front.len() implies #[trigger] bytes_before(
            front[i].0.key_bytes(),
            front[j].0.key_bytes(),
        ) by {
            assert(bytes_before(rows[i].0.key_bytes(), rows[j].0.key_bytes()));
        }
        if has_key(front, k) {
            let i = choose|i: int| row_has_key(front, k, i);
            assert(row_has_key(rows, k, i));
        }
        if last.key_bytes() == k.key_bytes() {
            K::key_bytes_injective(last, k);
            assert(row_has_key(rows, k, rows.len() - 1));
        }
        bytes_before_total(last.key_bytes(), k.key_bytes());
        if bytes_before(last.key_bytes(), k.key_bytes()) {
            assert forall|j: int| 0 <= j < rows.len() implies bytes_before(
                (#[trigger] rows[j]).0.key_bytes(),
                k.key_bytes(),
            ) by {
                if j < rows.len() - 1 {
                    assert(bytes_before(
                        rows[j].0.key_bytes(),
                        rows[rows.len() - 1].0.key_bytes(),
                    ));
                    bytes_before_transitive(
                        rows[j].0.key_bytes(),
                        last.key_bytes(),
                        k.key_bytes(),
                    );
                }
            }
            rows.len() as int
        } else {
            let i = lemma_place(front, k);
            assert forall|j: int| 0 <= j < i implies bytes_before(
                (#[trigger] rows[j]).0.key_bytes(),
                k.key_bytes(),
            ) by {
                assert(front[j] == rows[j]);
            }
            assert forall|j: int| i <= j < rows.len() implies bytes_before(
                k.key_bytes(),
                (#[trigger] rows[j]).0.key_bytes(),
            ) by {
                if j < front.len() {
                    assert(front[j] == rows[j]);
                }
            }
            i
        }
    }
}

/// A new row adds what it counts for.
pub proof fn lemma_sum_insert<K: Key, V>(m: Map<K, V>, k: K, v: V, g: spec_fn((K, V)) -> int)
    requires
        has_rows(m),
        !m.dom().contains(k),
    ensures
        has_rows(m.insert(k, v)),
        sum_of(rows_of(m.insert(k, v)), g) == sum_of(rows_of(m), g) + g((k, v)),
{
    let rows = rows_of(m);
    assert(is_rows_of(rows, m));
    if has_key(rows, k) {
        assert(rows_map(rows).dom().contains(k));
    }
    let i = lemma_place(rows, k);
    let after = rows.insert(i, (k, v));
    assert forall|a: int, b: int| 0 <= a < b < after.len() implies #[trigger] bytes_before(
        after[a].0.key_bytes(),
        after[b].0.key_bytes(),
    ) by {
        let x = if a < i {
            a
        } else {
            a - 1
        };
        let y = if b < i {
            b
        } else {
            b - 1
        };
        if a != i {
            assert(after[a] == rows[x]);
        }
        if b != i {
            assert(after[b] == rows[y]);
        }
        if a != i && b != i {
            assert(bytes_before(rows[x].0.key_bytes(), rows[y].0.key_bytes()));
        }
    }
    assert(after.remove(i) =~= rows);
    lemma_without_row(after, i);
    lemma_sum_without(after, i, g);
    lemma_row(after, i);
    let n = m.insert(k, v);
    assert(rows_map(after).remove(k) == m);
    assert(rows_map(after) =~= n);
    assert(is_rows_of(after, n));
    assert(is_rows_of(rows_of(n), n));
    rows_are_determined(rows_of(n), after);
}

/// The rows without one of them.
proof fn lemma_without_row<K: Key, V>(rows: Seq<(K, V)>, i: int)
    requires
        ascending(rows),
        0 <= i < rows.len(),
    ensures
        is_rows_of(rows.remove(i), rows_map(rows).remove(rows[i].0)),
{
    let after = rows.remove(i);
    let k = rows[i].0;
    assert forall|a: int, b: int| 0 <= a < b < after.len() implies #[trigger] bytes_before(
        after[a].0.key_bytes(),
        after[b].0.key_bytes(),
    ) by {
        let x = if a < i {
            a
        } else {
            a + 1
        };
        let y = if b < i {
            b
        } else {
            b + 1
        };
        assert(after[a] == rows[x] && after[b] == rows[y]);
        assert(bytes_before(rows[x].0.key_bytes(), rows[y].0.key_bytes()));
    }
    let made = rows_map(after);
    let n = rows_map(rows).remove(k);
    assert forall|x: K| made.dom().contains(x) <==> n.dom().contains(x) by {
        if made.dom().contains(x) {
            let a = choose|a: int| row_has_key(after, x, a);
            assert(row_has_key(after, x, a));
            let y = if a < i {
                a
            } else {
                a + 1
            };
            assert(row_has_key(rows, x, y));
            if x == k {
                if y < i {
                    assert(bytes_before(rows[y].0.key_bytes(), rows[i].0.key_bytes()));
                } else {
                    assert(bytes_before(rows[i].0.key_bytes(), rows[y].0.key_bytes()));
                }
                bytes_before_irreflexive(k.key_bytes());
            }
        }
        if n.dom().contains(x) {
            let y = choose|y: int| row_has_key(rows, x, y);
            assert(row_has_key(rows, x, y));
            let a = if y < i {
                y
            } else {
                y - 1
            };
            assert(after[a] == rows[y]);
            assert(row_has_key(after, x, a));
        }
    }
    assert forall|x: K| made.dom().contains(x) implies #[trigger] made[x] == n[x] by {
        let a = choose|a: int| row_has_key(after, x, a);
        assert(row_has_key(after, x, a));
        lemma_row(after, a);
        let y = if a < i {
            a
        } else {
            a + 1
        };
        assert(after[a] == rows[y]);
        lemma_row(rows, y);
    }
    assert(made =~= n);
}

proof fn lemma_sum_without<K, V>(rows: Seq<(K, V)>, i: int, g: spec_fn((K, V)) -> int)
    requires
        0 <= i < rows.len(),
    ensures
        sum_of(rows.remove(i), g) + g(rows[i]) == sum_of(rows, g),
    decreases rows.len(),
{
    if i == rows.len() - 1 {
        assert(rows.remove(i) =~= rows.drop_last());
    } else {
        lemma_sum_without(rows.drop_last(), i, g);
        assert(rows.remove(i).drop_last() =~= rows.drop_last().remove(i));
        assert(rows.remove(i).last() == rows.last());
    }
}

/// A row that goes takes away what it counts for.
pub proof fn lemma_sum_remove<K: Key, V>(m: Map<K, V>, k: K, g: spec_fn((K, V)) -> int)
    requires
        has_rows(m),
        m.dom().contains(k),
    ensures
        has_rows(m.remove(k)),
        sum_of(rows_of(m.remove(k)), g) + g((k, m[k])) == sum_of(rows_of(m), g),
{
    let rows = rows_of(m);
    assert(is_rows_of(rows, m));
    assert(has_key(rows, k));
    let i = choose|i: int| row_has_key(rows, k, i);
    assert(row_has_key(rows, k, i));
    lemma_row(rows, i);
    assert(rows[i] == (k, m[k]));
    lemma_without_row(rows, i);
    lemma_sum_without(rows, i, g);
    let n = m.remove(k);
    assert(is_rows_of(rows.remove(i), n));
    assert(is_rows_of(rows_of(n), n));
    rows_are_determined(rows_of(n), rows.remove(i));
}

/// A row that is set counts for what it holds, in place of what it held.
pub proof fn lemma_sum_set<K: Key, V>(m: Map<K, V>, k: K, v: V, g: spec_fn((K, V)) -> int)
    requires
        has_rows(m),
    ensures
        has_rows(m.insert(k, v)),
        sum_of(rows_of(m.insert(k, v)), g) + if m.dom().contains(k) {
            g((k, m[k]))
        } else {
            0
        } == sum_of(rows_of(m), g) + g((k, v)),
{
    if m.dom().contains(k) {
        lemma_sum_remove(m, k, g);
        lemma_sum_insert(m.remove(k), k, v, g);
        assert(m.remove(k).insert(k, v) =~= m.insert(k, v));
    } else {
        lemma_sum_insert(m, k, v, g);
    }
}

} // verus!
