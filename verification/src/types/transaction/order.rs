//! The order of outpoints: by kind, then by what names the output, then by
//! its number.

use vstd::prelude::*;

use crate::bytes::{
    append, be32, be32_injective, boxed, bytes_before, bytes_before_irreflexive,
    bytes_before_transitive, lemma_array_equal, push_be32,
};
use crate::table::{has_key, row_has_key, Key, Table};
use crate::types::transaction::output::FilledOutput;
use crate::types::transaction::OutPoint;
use crate::types::Duplicate;

verus! {

/// An outpoint as a key that stands in the order of outpoints.
#[derive(Clone, Copy, Debug)]
pub struct Ordered(pub OutPoint);

/// Bytes whose order is the order of outpoints.
pub open spec fn order_bytes(op: OutPoint) -> Seq<u8> {
    match op {
        OutPoint::Regular { txid, vout } => seq![0u8] + txid.0@ + be32(vout),
        OutPoint::Coinbase { merkle_root, vout } => seq![1u8] + merkle_root.0@ + be32(vout),
        OutPoint::Deposit(outpoint) => seq![2u8] + outpoint.txid.0@ + be32(outpoint.vout),
        OutPoint::MarketFunds { market_id, block_height, is_fee } => seq![3u8] + market_id@
            + be32(block_height) + seq![if is_fee { 1u8 } else { 0u8 }],
        OutPoint::Payout { hash, vout } => seq![4u8] + hash.0@ + be32(vout),
    }
}

/// One outpoint comes before another.
pub open spec fn outpoint_before(a: OutPoint, b: OutPoint) -> bool {
    bytes_before(order_bytes(a), order_bytes(b))
}

proof fn lemma_named_bytes(tag: u8, a: [u8; 32], i: u32, b: [u8; 32], j: u32)
    requires
        seq![tag] + a@ + be32(i) == seq![tag] + b@ + be32(j),
    ensures
        a == b,
        i == j,
{
    let x = seq![tag] + a@ + be32(i);
    let y = seq![tag] + b@ + be32(j);
    assert(x.subrange(1, 33) =~= a@);
    assert(y.subrange(1, 33) =~= b@);
    assert(x.subrange(33, 37) =~= be32(i));
    assert(y.subrange(33, 37) =~= be32(j));
    lemma_array_equal(a, b);
    be32_injective(i, j);
}

/// Different outpoints have different bytes.
pub proof fn order_bytes_injective(a: OutPoint, b: OutPoint)
    requires
        order_bytes(a) == order_bytes(b),
    ensures
        a == b,
{
    let x = order_bytes(a);
    let y = order_bytes(b);
    assert(x[0] == y[0]);
    match (a, b) {
        (
            OutPoint::Regular { txid: p, vout: i },
            OutPoint::Regular { txid: q, vout: j },
        ) => {
            lemma_named_bytes(0, p.0, i, q.0, j);
        },
        (
            OutPoint::Coinbase { merkle_root: p, vout: i },
            OutPoint::Coinbase { merkle_root: q, vout: j },
        ) => {
            lemma_named_bytes(1, p.0, i, q.0, j);
        },
        (OutPoint::Deposit(p), OutPoint::Deposit(q)) => {
            lemma_named_bytes(2, p.txid.0, p.vout, q.txid.0, q.vout);
        },
        (
            OutPoint::MarketFunds { market_id: p, block_height: i, is_fee: f },
            OutPoint::MarketFunds { market_id: q, block_height: j, is_fee: g },
        ) => {
            assert(x.subrange(1, 7) =~= p@);
            assert(y.subrange(1, 7) =~= q@);
            assert(x.subrange(7, 11) =~= be32(i));
            assert(y.subrange(7, 11) =~= be32(j));
            assert(x[11] == y[11]);
            lemma_array_equal(p, q);
            be32_injective(i, j);
        },
        (OutPoint::Payout { hash: p, vout: i }, OutPoint::Payout { hash: q, vout: j }) => {
            lemma_named_bytes(4, p.0, i, q.0, j);
        },
        _ => {},
    }
}

impl Key for Ordered {
    open spec fn key_bytes(&self) -> Seq<u8> {
        order_bytes(self.0)
    }

    proof fn key_bytes_injective(a: Self, b: Self) {
        assert(a.key_bytes() == order_bytes(a.0) && b.key_bytes() == order_bytes(b.0));
        order_bytes_injective(a.0, b.0);
    }

    fn to_key_bytes(&self) -> (r: Vec<u8>) {
        let mut buf: Vec<u8> = Vec::new();
        match &self.0 {
            OutPoint::Regular { txid, vout } => {
                buf.push(0);
                append(&mut buf, txid.0.as_slice());
                push_be32(&mut buf, *vout);
            },
            OutPoint::Coinbase { merkle_root, vout } => {
                buf.push(1);
                append(&mut buf, merkle_root.0.as_slice());
                push_be32(&mut buf, *vout);
            },
            OutPoint::Deposit(outpoint) => {
                buf.push(2);
                append(&mut buf, outpoint.txid.0.as_slice());
                push_be32(&mut buf, outpoint.vout);
            },
            OutPoint::MarketFunds { market_id, block_height, is_fee } => {
                buf.push(3);
                append(&mut buf, market_id.as_slice());
                push_be32(&mut buf, *block_height);
                buf.push(if *is_fee { 1 } else { 0 });
            },
            OutPoint::Payout { hash, vout } => {
                buf.push(4);
                append(&mut buf, hash.0.as_slice());
                push_be32(&mut buf, *vout);
            },
        }
        assert(buf@ =~= order_bytes(self.0));
        buf
    }
}

/// A list of the rows of a map, in the order of outpoints.
pub open spec fn is_listing(
    list: Seq<(OutPoint, FilledOutput)>,
    m: Map<OutPoint, FilledOutput>,
) -> bool {
    &&& forall|i: int, j: int|
        0 <= i < j < list.len() ==> #[trigger] outpoint_before(list[i].0, list[j].0)
    &&& forall|i: int|
        0 <= i < list.len() ==> m.dom().contains((#[trigger] list[i]).0) && m[list[i].0]
            == list[i].1
    &&& forall|o: OutPoint| #[trigger] m.dom().contains(o) ==> has_key(list, o)
}

/// The list of the rows of a map, in the order of outpoints.
pub open spec fn listing(m: Map<OutPoint, FilledOutput>) -> Seq<(OutPoint, FilledOutput)> {
    choose|list: Seq<(OutPoint, FilledOutput)>| is_listing(list, m)
}

/// There is one such list.
pub proof fn lemma_listing_unique(
    a: Seq<(OutPoint, FilledOutput)>,
    b: Seq<(OutPoint, FilledOutput)>,
    m: Map<OutPoint, FilledOutput>,
)
    requires
        is_listing(a, m),
        is_listing(b, m),
    ensures
        a == b,
    decreases a.len(),
{
    if a.len() == 0 {
        if b.len() > 0 {
            assert(m.dom().contains(b[0].0));
            assert(has_key(a, b[0].0));
        }
        assert(a =~= b);
    } else {
        assert(m.dom().contains(a[0].0));
        assert(has_key(b, a[0].0));
        let j = choose|j: int| row_has_key(b, a[0].0, j);
        assert(b[j].0 == a[0].0);
        assert(m.dom().contains(b[0].0));
        assert(has_key(a, b[0].0));
        let i = choose|i: int| row_has_key(a, b[0].0, i);
        assert(a[i].0 == b[0].0);
        if j > 0 {
            assert(outpoint_before(b[0].0, b[j].0));
            if i > 0 {
                assert(outpoint_before(a[0].0, a[i].0));
                bytes_before_transitive(
                    order_bytes(a[0].0),
                    order_bytes(b[0].0),
                    order_bytes(a[0].0),
                );
            }
            bytes_before_irreflexive(order_bytes(a[0].0));
        }
        assert(a[0].0 == b[0].0);
        assert(a[0].1 == b[0].1);
        let rest = m.remove(a[0].0);
        let ta = a.skip(1);
        let tb = b.skip(1);
        lemma_tail_listing(a, m);
        lemma_tail_listing(b, m);
        lemma_listing_unique(ta, tb, rest);
        assert(a =~= seq![a[0]] + ta);
        assert(b =~= seq![b[0]] + tb);
    }
}

proof fn lemma_tail_listing(a: Seq<(OutPoint, FilledOutput)>, m: Map<OutPoint, FilledOutput>)
    requires
        is_listing(a, m),
        a.len() > 0,
    ensures
        is_listing(a.skip(1), m.remove(a[0].0)),
{
    let t = a.skip(1);
    let rest = m.remove(a[0].0);
    assert forall|i: int, j: int| 0 <= i < j < t.len() implies #[trigger] outpoint_before(
        t[i].0,
        t[j].0,
    ) by {
        assert(outpoint_before(a[i + 1].0, a[j + 1].0));
    }
    assert forall|i: int| 0 <= i < t.len() implies rest.dom().contains((#[trigger] t[i]).0)
        && rest[t[i].0] == t[i].1 by {
        assert(t[i] == a[i + 1]);
        assert(outpoint_before(a[0].0, a[i + 1].0));
        bytes_before_irreflexive(order_bytes(a[0].0));
    }
    assert forall|o: OutPoint| #[trigger] rest.dom().contains(o) implies has_key(t, o) by {
        assert(m.dom().contains(o));
        assert(has_key(a, o));
        let i = choose|i: int| row_has_key(a, o, i);
        assert(i > 0);
        assert(row_has_key(t, o, i - 1));
    }
}

/// Lists the rows of a table in the order of outpoints.
pub fn list_coins(table: &Table<OutPoint, FilledOutput>) -> (r: Box<[(OutPoint, FilledOutput)]>)
    ensures
        is_listing(r@, table@),
        r@ == listing(table@),
{
    let mut sorted: Table<Ordered, FilledOutput> = Table::new();
    let mut i: usize = 0;
    table.rows_facts();
    let ghost rows = table.rows();
    while i < table.len()
        invariant
            i <= rows.len(),
            rows == table.rows(),
            forall|j: int|
                0 <= j < rows.len() ==> table@.dom().contains((#[trigger] rows[j]).0)
                    && table@[rows[j].0] == rows[j].1,
            forall|o: Ordered| #[trigger]
                sorted@.dom().contains(o) <==> exists|j: int|
                    0 <= j < i && (#[trigger] rows[j]).0 == o.0,
            forall|o: Ordered| #[trigger]
                sorted@.dom().contains(o) ==> sorted@[o] == table@[o.0],
        decreases rows.len() - i,
    {
        let row = table.row(i);
        let ghost before = sorted@;
        sorted.put(Ordered(row.0), row.1.duplicate());
        proof {
            assert forall|o: Ordered| #[trigger] sorted@.dom().contains(o) <==> exists|j: int|
                0 <= j < i + 1 && (#[trigger] rows[j]).0 == o.0 by {
                if before.dom().contains(o) {
                    let j = choose|j: int| 0 <= j < i && (#[trigger] rows[j]).0 == o.0;
                    assert(0 <= j < i + 1);
                }
                if o.0 == row.0 {
                    assert(rows[i as int].0 == o.0);
                }
                if exists|j: int| 0 <= j < i + 1 && (#[trigger] rows[j]).0 == o.0 {
                    let j = choose|j: int| 0 <= j < i + 1 && (#[trigger] rows[j]).0 == o.0;
                    if j == i {
                        assert(o == Ordered(row.0));
                    }
                }
            }
        }
        i += 1;
    }
    sorted.rows_facts();
    let mut list: Vec<(OutPoint, FilledOutput)> = Vec::new();
    let mut k: usize = 0;
    while k < sorted.len()
        invariant
            k <= sorted.rows().len(),
            list@.len() == k,
            forall|j: int|
                0 <= j < k ==> (#[trigger] list@[j]).0 == sorted.rows()[j].0.0 && list@[j].1
                    == sorted.rows()[j].1,
        decreases sorted.rows().len() - k,
    {
        let row = sorted.row(k);
        list.push((row.0.0, row.1.duplicate()));
        k += 1;
    }
    proof {
        let l = list@;
        assert forall|i: int, j: int| 0 <= i < j < l.len() implies #[trigger] outpoint_before(
            l[i].0,
            l[j].0,
        ) by {
            assert(bytes_before(
                sorted.rows()[i].0.key_bytes(),
                sorted.rows()[j].0.key_bytes(),
            ));
        }
        assert forall|i: int| 0 <= i < l.len() implies table@.dom().contains((#[trigger] l[i]).0)
            && table@[l[i].0] == l[i].1 by {
            let o = sorted.rows()[i].0;
            assert(sorted@.dom().contains(o));
            let j = choose|j: int| 0 <= j < rows.len() && (#[trigger] rows[j]).0 == o.0;
            assert(rows[j].0 == o.0);
        }
        assert forall|o: OutPoint| #[trigger] table@.dom().contains(o) implies has_key(l, o) by {
            assert(has_key(rows, o));
            let j = choose|j: int| row_has_key(rows, o, j);
            assert(rows[j].0 == Ordered(o).0);
            assert(sorted@.dom().contains(Ordered(o)));
            assert(has_key(sorted.rows(), Ordered(o)));
            let i = choose|i: int| row_has_key(sorted.rows(), Ordered(o), i);
            assert(l[i].0 == o);
            assert(row_has_key(l, o, i));
        }
        assert(is_listing(l, table@));
        lemma_listing_unique(l, listing(table@), table@);
    }
    boxed(list)
}

} // verus!
