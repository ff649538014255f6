//! Byte strings: equality, the byte order, and boxed slices.
//!
//! A boxed slice is equal to another exactly when the elements are, so values
//! that are kept in tables hold their variable-length parts as boxed slices.

use vstd::prelude::*;

verus! {

/// `Vec::into_boxed_slice`: the boxed slice holds the elements of the vector,
/// in their order.
#[verifier::external_body]
pub(crate) fn into_boxed_slice<T>(vec: Vec<T>) -> (boxed: Box<[T]>)
    ensures
        boxed@ == vec@,
{
    vec.into_boxed_slice()
}

/// Two boxed slices with the same elements are the same value.
pub proof fn lemma_boxed_equal<T>(a: Box<[T]>, b: Box<[T]>)
    ensures
        a@ == b@ ==> a == b,
{
    if a@ == b@ {
        assert(a =~= b);
    }
}

/// The boxed slice without elements.
pub open spec fn empty_boxed<T>() -> Box<[T]> {
    choose|b: Box<[T]>| b@.len() == 0
}

pub proof fn lemma_empty_boxed<T>(b: Box<[T]>)
    requires
        b@.len() == 0,
    ensures
        b == empty_boxed::<T>(),
{
    assert(b@ =~= empty_boxed::<T>()@);
    lemma_boxed_equal(b, empty_boxed::<T>());
}

/// A boxed slice of the elements of `vec`; any boxed slice with these elements
/// is equal to it.
pub fn boxed<T>(vec: Vec<T>) -> (r: Box<[T]>)
    ensures
        r@ == vec@,
        forall|b: Box<[T]>| b@ == vec@ ==> #[trigger] b@ == r@ && b == r,
{
    let r = into_boxed_slice(vec);
    proof {
        assert forall|b: Box<[T]>| b@ == vec@ implies #[trigger] b@ == r@ && b == r by {
            lemma_boxed_equal(b, r);
        }
    }
    r
}

/// A copy of a boxed slice of plain values.
pub fn boxed_copy<T: Copy>(b: &Box<[T]>) -> (r: Box<[T]>)
    ensures
        r == *b,
{
    let mut v: Vec<T> = Vec::new();
    let mut i: usize = 0;
    while i < b.len()
        invariant
            i <= b@.len(),
            v@ == b@.subrange(0, i as int),
        decreases b@.len() - i,
    {
        v.push(b[i]);
        i += 1;
        assert(v@ =~= b@.subrange(0, i as int));
    }
    assert(v@ =~= b@);
    let r = into_boxed_slice(v);
    proof {
        lemma_boxed_equal(r, *b);
    }
    r
}

/// The elements of a boxed slice as a vector.
pub fn to_vec<T: Copy>(s: &[T]) -> (r: Vec<T>)
    ensures
        r@ == s@,
{
    let mut v: Vec<T> = Vec::new();
    let mut i: usize = 0;
    while i < s.len()
        invariant
            i <= s@.len(),
            v@ == s@.subrange(0, i as int),
        decreases s@.len() - i,
    {
        v.push(s[i]);
        i += 1;
        assert(v@ =~= s@.subrange(0, i as int));
    }
    assert(v@ =~= s@);
    v
}

/// Appends the elements of `tail` to `buf`.
pub fn append<T: Copy>(buf: &mut Vec<T>, tail: &[T])
    ensures
        final(buf)@ == old(buf)@ + tail@,
{
    let mut i: usize = 0;
    while i < tail.len()
        invariant
            i <= tail@.len(),
            buf@ == old(buf)@ + tail@.subrange(0, i as int),
        decreases tail@.len() - i,
    {
        buf.push(tail[i]);
        i += 1;
        assert(buf@ =~= old(buf)@ + tail@.subrange(0, i as int));
    }
    assert(tail@.subrange(0, tail@.len() as int) =~= tail@);
}

/// Two arrays with the same elements are the same value.
pub proof fn lemma_array_equal<T, const N: usize>(a: [T; N], b: [T; N])
    ensures
        a@ == b@ ==> a == b,
{
    if a@ == b@ {
        assert forall|i: int| 0 <= i < N implies a[i] == b[i] by {
            assert(a@[i] == b@[i]);
        }
        assert(a =~= b);
    }
}

/// Equality of two byte arrays.
pub fn same_bytes<const N: usize>(a: &[u8; N], b: &[u8; N]) -> (r: bool)
    ensures
        r == (*a == *b),
{
    let mut i: usize = 0;
    while i < N
        invariant
            i <= N,
            forall|j: int| 0 <= j < i ==> a[j] == b[j],
        decreases N - i,
    {
        if a[i] != b[i] {
            return false;
        }
        i += 1;
    }
    assert(*a =~= *b);
    true
}

/// Equality of two byte strings.
pub fn same_slice(a: &[u8], b: &[u8]) -> (r: bool)
    ensures
        r == (a@ == b@),
{
    if a.len() != b.len() {
        return false;
    }
    let mut i: usize = 0;
    while i < a.len()
        invariant
            i <= a.len(),
            a.len() == b.len(),
            forall|j: int| 0 <= j < i ==> a@[j] == b@[j],
        decreases a.len() - i,
    {
        if a[i] != b[i] {
            return false;
        }
        i += 1;
    }
    assert(a@ =~= b@);
    true
}

/// The byte order: the first differing byte decides, and a proper prefix comes
/// before what it is a prefix of.
pub open spec fn bytes_before(a: Seq<u8>, b: Seq<u8>) -> bool
    decreases a.len(),
{
    if b.len() == 0 {
        false
    } else if a.len() == 0 {
        true
    } else if a[0] != b[0] {
        a[0] < b[0]
    } else {
        bytes_before(a.skip(1), b.skip(1))
    }
}

/// Nothing comes before itself.
pub proof fn bytes_before_irreflexive(a: Seq<u8>)
    ensures
        !bytes_before(a, a),
    decreases a.len(),
{
    if a.len() > 0 {
        bytes_before_irreflexive(a.skip(1));
    }
}

/// The byte order is transitive.
pub proof fn bytes_before_transitive(a: Seq<u8>, b: Seq<u8>, c: Seq<u8>)
    requires
        bytes_before(a, b),
        bytes_before(b, c),
    ensures
        bytes_before(a, c),
    decreases a.len(),
{
    if a.len() > 0 && a[0] == b[0] && b[0] == c[0] {
        bytes_before_transitive(a.skip(1), b.skip(1), c.skip(1));
    }
}

/// Of two different byte strings one comes before the other.
pub proof fn bytes_before_total(a: Seq<u8>, b: Seq<u8>)
    ensures
        a == b || bytes_before(a, b) || bytes_before(b, a),
    decreases a.len(),
{
    if a.len() > 0 && b.len() > 0 && a[0] == b[0] {
        bytes_before_total(a.skip(1), b.skip(1));
        if a.skip(1) == b.skip(1) {
            assert(a =~= seq![a[0]] + a.skip(1));
            assert(b =~= seq![b[0]] + b.skip(1));
        }
    } else if a.len() == 0 && b.len() == 0 {
        assert(a =~= b);
    }
}

/// Decides the byte order.
pub fn is_before(a: &[u8], b: &[u8]) -> (r: bool)
    ensures
        r == bytes_before(a@, b@),
{
    let mut i: usize = 0;
    assert(a@.skip(0) =~= a@);
    assert(b@.skip(0) =~= b@);
    while i < a.len() && i < b.len()
        invariant
            i <= a@.len(),
            i <= b@.len(),
            bytes_before(a@, b@) == bytes_before(a@.skip(i as int), b@.skip(i as int)),
        decreases a.len() - i,
    {
        if a[i] != b[i] {
            return a[i] < b[i];
        }
        assert(a@.skip(i as int).skip(1) =~= a@.skip(i + 1));
        assert(b@.skip(i as int).skip(1) =~= b@.skip(i + 1));
        i += 1;
    }
    i < b.len()
}

/// The four bytes of `x`, the lowest first.
pub open spec fn le32(x: u32) -> Seq<u8> {
    seq![
        (x % 256) as u8,
        ((x / 256) % 256) as u8,
        ((x / 65536) % 256) as u8,
        ((x / 16777216) % 256) as u8,
    ]
}

/// The number whose four bytes, the lowest first, stand at `at` in `s`.
pub open spec fn from_le32(s: Seq<u8>, at: int) -> int {
    s[at] + 256 * s[at + 1] + 65536 * s[at + 2] + 16777216 * s[at + 3]
}

/// The four bytes of `x`, the highest first: the byte order of these is the
/// order of the numbers.
pub open spec fn be32(x: u32) -> Seq<u8> {
    le32(x).reverse()
}

/// Different numbers have different bytes.
pub proof fn be32_injective(x: u32, y: u32)
    requires
        be32(x) == be32(y),
    ensures
        x == y,
{
    assert(le32(x) =~= be32(x).reverse());
    assert(le32(y) =~= be32(y).reverse());
    le32_injective(x, y);
}

/// Appends the four bytes of `x`, the highest first.
pub fn push_be32(buf: &mut Vec<u8>, x: u32)
    ensures
        final(buf)@ == old(buf)@ + be32(x),
{
    buf.push(((x / 16777216) % 256) as u8);
    buf.push(((x / 65536) % 256) as u8);
    buf.push(((x / 256) % 256) as u8);
    buf.push((x % 256) as u8);
    assert(buf@ =~= old(buf)@ + be32(x));
}

/// Equal starts do not matter to the byte order, and different ones of the same
/// length decide it.
pub proof fn bytes_before_by_start(a: Seq<u8>, b: Seq<u8>, s: Seq<u8>, t: Seq<u8>)
    requires
        a.len() == b.len(),
    ensures
        a == b ==> bytes_before(a + s, b + t) == bytes_before(s, t),
        a != b ==> bytes_before(a + s, b + t) == bytes_before(a, b),
    decreases a.len(),
{
    if a.len() == 0 {
        assert(a =~= b);
        assert(a + s =~= s);
        assert(b + t =~= t);
    } else {
        assert((a + s).skip(1) =~= a.skip(1) + s);
        assert((b + t).skip(1) =~= b.skip(1) + t);
        bytes_before_by_start(a.skip(1), b.skip(1), s, t);
        if a[0] == b[0] && a.skip(1) == b.skip(1) {
            assert(a =~= seq![a[0]] + a.skip(1));
            assert(b =~= seq![b[0]] + b.skip(1));
        }
    }
}

/// The byte order of numbers with the highest byte first is their order.
pub proof fn be32_order(x: u32, y: u32)
    ensures
        bytes_before(be32(x), be32(y)) <==> x < y,
{
    from_le32_of_le32(x);
    from_le32_of_le32(y);
    let a = be32(x);
    let b = be32(y);
    assert(a[0] == le32(x)[3] && a[1] == le32(x)[2] && a[2] == le32(x)[1] && a[3] == le32(x)[0]);
    assert(b[0] == le32(y)[3] && b[1] == le32(y)[2] && b[2] == le32(y)[1] && b[3] == le32(y)[0]);
    reveal_with_fuel(bytes_before, 5);
    assert(a.skip(1)[0] == a[1] && b.skip(1)[0] == b[1]);
    assert(a.skip(1).skip(1)[0] == a[2] && b.skip(1).skip(1)[0] == b[2]);
    assert(a.skip(1).skip(1).skip(1)[0] == a[3] && b.skip(1).skip(1).skip(1)[0] == b[3]);
}

/// The eight bytes of `x`, the highest first.
pub open spec fn be64(x: u64) -> Seq<u8> {
    be32((x / 0x1_0000_0000) as u32) + be32((x % 0x1_0000_0000) as u32)
}

/// The byte order of numbers with the highest byte first is their order.
pub proof fn be64_order(x: u64, y: u64)
    ensures
        bytes_before(be64(x), be64(y)) <==> x < y,
{
    let a = (x / 0x1_0000_0000) as u32;
    let b = (y / 0x1_0000_0000) as u32;
    let c = (x % 0x1_0000_0000) as u32;
    let d = (y % 0x1_0000_0000) as u32;
    bytes_before_by_start(be32(a), be32(b), be32(c), be32(d));
    be32_order(a, b);
    be32_order(c, d);
    if be32(a) == be32(b) {
        be32_injective(a, b);
    }
    assert(x == 0x1_0000_0000 * (x / 0x1_0000_0000) + x % 0x1_0000_0000);
    assert(y == 0x1_0000_0000 * (y / 0x1_0000_0000) + y % 0x1_0000_0000);
}

/// Different numbers have different bytes.
pub proof fn be64_injective(x: u64, y: u64)
    requires
        be64(x) == be64(y),
    ensures
        x == y,
{
    be64_order(x, y);
    be64_order(y, x);
    bytes_before_irreflexive(be64(x));
}

/// Appends the eight bytes of `x`, the highest first.
pub fn push_be64(buf: &mut Vec<u8>, x: u64)
    ensures
        final(buf)@ == old(buf)@ + be64(x),
{
    push_be32(buf, (x / 0x1_0000_0000) as u32);
    push_be32(buf, (x % 0x1_0000_0000) as u32);
    assert(buf@ =~= old(buf)@ + be64(x));
}

/// The eight bytes of `x`, the lowest first.
pub open spec fn le64(x: u64) -> Seq<u8> {
    le32((x % 0x1_0000_0000) as u32) + le32((x / 0x1_0000_0000) as u32)
}

/// The bytes of a number give the number back.
pub proof fn from_le32_of_le32(x: u32)
    ensures
        from_le32(le32(x), 0) == x,
{
    let a = x as int;
    assert(a / 256 / 256 == a / 65536) by (nonlinear_arith);
    assert(a / 65536 / 256 == a / 16777216) by (nonlinear_arith);
    assert(a == 256 * (a / 256) + a % 256);
    assert(a / 256 == 256 * (a / 65536) + (a / 256) % 256);
    assert(a / 65536 == 256 * (a / 16777216) + (a / 65536) % 256);
    assert((a / 16777216) % 256 == a / 16777216);
}

/// Different numbers have different bytes.
pub proof fn le32_injective(x: u32, y: u32)
    requires
        le32(x) == le32(y),
    ensures
        x == y,
{
    from_le32_of_le32(x);
    from_le32_of_le32(y);
}

/// Appends the four bytes of `x`.
pub fn push_le32(buf: &mut Vec<u8>, x: u32)
    ensures
        final(buf)@ == old(buf)@ + le32(x),
{
    buf.push((x % 256) as u8);
    buf.push(((x / 256) % 256) as u8);
    buf.push(((x / 65536) % 256) as u8);
    buf.push(((x / 16777216) % 256) as u8);
    assert(buf@ =~= old(buf)@ + le32(x));
}

/// Appends the eight bytes of `x`.
pub fn push_le64(buf: &mut Vec<u8>, x: u64)
    ensures
        final(buf)@ == old(buf)@ + le64(x),
{
    push_le32(buf, (x % 0x1_0000_0000) as u32);
    push_le32(buf, (x / 0x1_0000_0000) as u32);
    assert(buf@ =~= old(buf)@ + le64(x));
}

/// Reads the number whose four bytes stand at `at`.
pub fn read_le32(s: &[u8], at: usize) -> (x: u32)
    requires
        at + 4 <= s@.len(),
    ensures
        x == from_le32(s@, at as int),
{
    (s[at] as u32) + 256 * (s[at + 1] as u32) + 65536 * (s[at + 2] as u32) + 16777216 * (s[at + 3] as u32)
}

} // verus!
