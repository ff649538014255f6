//! The order of the entries of a decision, and the entries themselves.
//!
//! Two values of a kind are ranked by a number: under zero where the first comes
//! before the second, zero where neither does, and over zero otherwise.

use vstd::prelude::*;
use vstd::utf8::encode_utf8;

use crate::bytes::{bytes_before, is_before};
use crate::state::decisions::types::{Decision, DecisionEntry, DecisionType};
use crate::types::{Duplicate, Real};

verus! {

/// By bytes, as a dictionary has it.
pub open spec fn bytes_rank(a: Seq<u8>, b: Seq<u8>) -> int {
    if bytes_before(a, b) {
        -1
    } else if bytes_before(b, a) {
        1
    } else {
        0
    }
}

/// By one thing, and where it does not tell by another.
pub open spec fn first_of(a: int, b: int) -> int {
    if a != 0 {
        a
    } else {
        b
    }
}

pub open spec fn text_rank(a: String, b: String) -> int {
    bytes_rank(encode_utf8(a@), encode_utf8(b@))
}

/// No text comes before every text.
pub open spec fn label_rank(a: Option<String>, b: Option<String>) -> int {
    match (a, b) {
        (None, None) => 0,
        (None, Some(_)) => -1,
        (Some(_), None) => 1,
        (Some(a), Some(b)) => text_rank(a, b),
    }
}

/// By the texts of two lists from a place on; the shorter list comes first.
pub open spec fn texts_rank(a: Seq<String>, b: Seq<String>, i: int) -> int
    decreases a.len() - i,
{
    if i >= a.len() || i >= b.len() {
        if a.len() < b.len() {
            -1
        } else if a.len() > b.len() {
            1
        } else {
            0
        }
    } else {
        first_of(text_rank(a[i], b[i]), texts_rank(a, b, i + 1))
    }
}

/// The place of a number among all numbers: negative ones come before positive
/// ones, and what is not a number comes at either end.
pub open spec fn place_of(x: Real) -> int {
    if x.bits >= 0x8000_0000_0000_0000 {
        0xffff_ffff_ffff_ffff - x.bits
    } else {
        x.bits + 0x8000_0000_0000_0000
    }
}

pub open spec fn real_rank(a: Real, b: Real) -> int {
    if place_of(a) < place_of(b) {
        -1
    } else if place_of(a) > place_of(b) {
        1
    } else {
        0
    }
}

/// Binary ones come before scaled ones, and these before categories.
pub open spec fn type_rank(a: DecisionType, b: DecisionType) -> int {
    match (a, b) {
        (DecisionType::Binary, DecisionType::Binary) => 0,
        (
            DecisionType::Scaled { min: a, max: b, increment: c },
            DecisionType::Scaled { min: d, max: e, increment: f },
        ) => first_of(real_rank(a, d), first_of(real_rank(b, e), real_rank(c, f))),
        (DecisionType::Category { options: a }, DecisionType::Category { options: b }) => texts_rank(
            a@,
            b@,
            0,
        ),
        (DecisionType::Binary, _) => -1,
        (_, DecisionType::Binary) => 1,
        (DecisionType::Scaled { .. }, _) => -1,
        (_, DecisionType::Scaled { .. }) => 1,
    }
}

/// By the parts of two decisions, one after the other.
pub open spec fn decision_rank(a: Decision, b: Decision) -> int {
    first_of(
        bytes_rank(a.market_maker_pubkey_hash@, b.market_maker_pubkey_hash@),
        first_of(
            type_rank(a.decision_type, b.decision_type),
            first_of(
                text_rank(a.header, b.header),
                first_of(
                    text_rank(a.description, b.description),
                    first_of(
                        label_rank(a.option_0_label, b.option_0_label),
                        first_of(
                            label_rank(a.option_1_label, b.option_1_label),
                            texts_rank(a.tags@, b.tags@, 0),
                        ),
                    ),
                ),
            ),
        ),
    )
}

/// The order of two entries of one decision: one without what was claimed comes
/// first, and then it goes by what was claimed and by the transaction.
pub open spec fn entry_rank(a: DecisionEntry, b: DecisionEntry) -> int {
    first_of(
        match (a.decision, b.decision) {
            (None, None) => 0,
            (None, Some(_)) => -1,
            (Some(_), None) => 1,
            (Some(a), Some(b)) => decision_rank(a, b),
        },
        bytes_rank(a.claiming_txid.0@, b.claiming_txid.0@),
    )
}

fn rank_bytes(a: &[u8], b: &[u8]) -> (r: i8)
    ensures
        r == bytes_rank(a@, b@),
{
    if is_before(a, b) {
        -1
    } else if is_before(b, a) {
        1
    } else {
        0
    }
}

fn rank_texts(a: &String, b: &String) -> (r: i8)
    ensures
        r == text_rank(*a, *b),
{
    rank_bytes(a.as_str().as_bytes(), b.as_str().as_bytes())
}

fn rank_labels(a: &Option<String>, b: &Option<String>) -> (r: i8)
    ensures
        r == label_rank(*a, *b),
{
    match (a, b) {
        (None, None) => 0,
        (None, Some(_)) => -1,
        (Some(_), None) => 1,
        (Some(a), Some(b)) => rank_texts(a, b),
    }
}

fn rank_lists(a: &Box<[String]>, b: &Box<[String]>) -> (r: i8)
    ensures
        r == texts_rank(a@, b@, 0),
{
    let mut i: usize = 0;
    while i < a.len() && i < b.len()
        invariant
            i <= a@.len(),
            i <= b@.len(),
            texts_rank(a@, b@, 0) == texts_rank(a@, b@, i as int),
        decreases a@.len() - i,
    {
        let rank: i8 = rank_texts(&a[i], &b[i]);
        if rank != 0 {
            return rank;
        }
        i += 1;
    }
    if a.len() < b.len() {
        -1
    } else if a.len() > b.len() {
        1
    } else {
        0
    }
}

fn find_place(x: Real) -> (r: u64)
    ensures
        r == place_of(x),
{
    if x.bits >= 0x8000_0000_0000_0000 {
        0xffff_ffff_ffff_ffff - x.bits
    } else {
        x.bits + 0x8000_0000_0000_0000
    }
}

fn rank_reals(a: Real, b: Real) -> (r: i8)
    ensures
        r == real_rank(a, b),
{
    let x: u64 = find_place(a);
    let y: u64 = find_place(b);
    if x < y {
        -1
    } else if x > y {
        1
    } else {
        0
    }
}

/// The order of two types of decisions.
pub fn rank_types(a: &DecisionType, b: &DecisionType) -> (r: i8)
    ensures
        r == type_rank(*a, *b),
{
    match (a, b) {
        (DecisionType::Binary, DecisionType::Binary) => 0,
        (
            DecisionType::Scaled { min: a, max: b, increment: c },
            DecisionType::Scaled { min: d, max: e, increment: f },
        ) => {
            let by_min: i8 = rank_reals(*a, *d);
            if by_min != 0 {
                return by_min;
            }
            let by_max: i8 = rank_reals(*b, *e);
            if by_max != 0 {
                return by_max;
            }
            rank_reals(*c, *f)
        },
        (DecisionType::Category { options: a }, DecisionType::Category { options: b }) => rank_lists(
            a,
            b,
        ),
        (DecisionType::Binary, _) => -1,
        (_, DecisionType::Binary) => 1,
        (DecisionType::Scaled { .. }, _) => -1,
        (_, DecisionType::Scaled { .. }) => 1,
    }
}

/// The order of two decisions.
pub fn rank_decisions(a: &Decision, b: &Decision) -> (r: i8)
    ensures
        r == decision_rank(*a, *b),
{
    let by_maker: i8 = rank_bytes(
        a.market_maker_pubkey_hash.as_slice(),
        b.market_maker_pubkey_hash.as_slice(),
    );
    if by_maker != 0 {
        return by_maker;
    }
    let by_type: i8 = rank_types(&a.decision_type, &b.decision_type);
    if by_type != 0 {
        return by_type;
    }
    let by_header: i8 = rank_texts(&a.header, &b.header);
    if by_header != 0 {
        return by_header;
    }
    let by_description: i8 = rank_texts(&a.description, &b.description);
    if by_description != 0 {
        return by_description;
    }
    let by_first: i8 = rank_labels(&a.option_0_label, &b.option_0_label);
    if by_first != 0 {
        return by_first;
    }
    let by_second: i8 = rank_labels(&a.option_1_label, &b.option_1_label);
    if by_second != 0 {
        return by_second;
    }
    rank_lists(&a.tags, &b.tags)
}

fn rank_entries(a: &DecisionEntry, b: &DecisionEntry) -> (r: i8)
    ensures
        r == entry_rank(*a, *b),
{
    let by_decision: i8 = match (&a.decision, &b.decision) {
        (None, None) => 0,
        (None, Some(_)) => -1,
        (Some(_), None) => 1,
        (Some(a), Some(b)) => rank_decisions(a, b),
    };
    if by_decision != 0 {
        return by_decision;
    }
    rank_bytes(a.claiming_txid.0.as_slice(), b.claiming_txid.0.as_slice())
}

/// The entries of one decision, at least one, in their order. A decision has more
/// than one where it was claimed again.
#[derive(Debug)]
pub struct Claims {
    /// The entry that a search finds.
    pub first: DecisionEntry,
    pub more: Vec<DecisionEntry>,
}

impl View for Claims {
    type V = Seq<DecisionEntry>;

    open spec fn view(&self) -> Seq<DecisionEntry> {
        seq![self.first] + self.more@
    }
}

/// Entries with one more in its place. One that is there already is not there
/// twice.
pub open spec fn with_claim(list: Seq<DecisionEntry>, entry: DecisionEntry) -> Seq<DecisionEntry>
    decreases list.len(),
{
    if list.len() == 0 {
        seq![entry]
    } else if entry_rank(entry, list.last()) < 0 {
        with_claim(list.drop_last(), entry).push(list.last())
    } else if entry_rank(entry, list.last()) == 0 {
        list
    } else {
        list.push(entry)
    }
}

/// Some entry says what was claimed.
pub open spec fn any_claimed(list: Seq<DecisionEntry>) -> bool {
    exists|i: int| 0 <= i < list.len() && (#[trigger] list[i]).decision is Some
}

/// The entries that say what was claimed.
pub open spec fn claimed_among(list: Seq<DecisionEntry>) -> Seq<DecisionEntry>
    decreases list.len(),
{
    if list.len() == 0 {
        Seq::empty()
    } else {
        let before = claimed_among(list.drop_last());
        if list.last().decision is Some {
            before.push(list.last())
        } else {
            before
        }
    }
}

proof fn lemma_with_claim(list: Seq<DecisionEntry>, entry: DecisionEntry, at: int)
    requires
        0 <= at <= list.len(),
        forall|i: int| at <= i < list.len() ==> entry_rank(entry, #[trigger] list[i]) < 0,
    ensures
        with_claim(list, entry) == with_claim(list.subrange(0, at), entry) + list.subrange(
            at,
            list.len() as int,
        ),
    decreases list.len() - at,
{
    if at == list.len() {
        assert(list.subrange(0, at) =~= list);
        assert(list.subrange(at, at) =~= Seq::empty());
        assert(with_claim(list, entry) + Seq::empty() =~= with_claim(list, entry));
    } else {
        let front = list.drop_last();
        assert(entry_rank(entry, list[list.len() - 1]) < 0);
        assert forall|i: int| at <= i < front.len() implies entry_rank(
            entry,
            #[trigger] front[i],
        ) < 0 by {
            assert(front[i] == list[i]);
        }
        lemma_with_claim(front, entry, at);
        assert(front.subrange(0, at) =~= list.subrange(0, at));
        assert((with_claim(list.subrange(0, at), entry) + front.subrange(
            at,
            front.len() as int,
        )).push(list.last()) =~= with_claim(list.subrange(0, at), entry) + list.subrange(
            at,
            list.len() as int,
        ));
    }
}

/// An entry that says what was claimed leaves one that does, itself or one that is
/// ranked with it.
pub proof fn lemma_with_claim_claims(list: Seq<DecisionEntry>, entry: DecisionEntry)
    requires
        entry.decision is Some,
    ensures
        any_claimed(with_claim(list, entry)),
    decreases list.len(),
{
    let after = with_claim(list, entry);
    if list.len() == 0 {
        assert(after[0].decision is Some);
    } else if entry_rank(entry, list.last()) < 0 {
        let front = with_claim(list.drop_last(), entry);
        lemma_with_claim_claims(list.drop_last(), entry);
        let i = choose|i: int| 0 <= i < front.len() && (#[trigger] front[i]).decision is Some;
        assert(after[i].decision is Some);
    } else if entry_rank(entry, list.last()) == 0 {
        assert(after[list.len() - 1].decision is Some);
    } else {
        assert(after[list.len() as int].decision is Some);
    }
}

impl Claims {
    pub fn new(entry: DecisionEntry) -> (r: Self)
        ensures
            r@ == seq![entry],
    {
        let r = Claims { first: entry, more: Vec::new() };
        assert(r@ =~= seq![entry]);
        r
    }

    /// Puts an entry into its place.
    pub fn put(&mut self, entry: DecisionEntry)
        ensures
            final(self)@ == with_claim(old(self)@, entry),
    {
        let ghost list = self@;
        let mut at: usize = self.more.len();
        while at > 0 && rank_entries(&entry, &self.more[at - 1]) < 0
            invariant
                at <= self.more@.len(),
                *self == *old(self),
                list == self@,
                forall|i: int|
                    at + 1 <= i < list.len() ==> entry_rank(entry, #[trigger] list[i]) < 0,
            decreases at,
        {
            assert(list[at as int] == self.more@[at - 1]);
            at -= 1;
        }
        proof {
            lemma_with_claim(list, entry, at + 1);
        }
        let ghost head = list.subrange(0, at + 1);
        let ghost tail = list.subrange(at + 1, list.len() as int);
        let rank: i8 = if at > 0 {
            assert(head.last() == self.more@[at - 1]);
            rank_entries(&entry, &self.more[at - 1])
        } else {
            assert(head.last() == self.first);
            rank_entries(&entry, &self.first)
        };
        if rank == 0 {
            assert(head + tail =~= list);
            return;
        }
        if rank > 0 {
            self.more.insert(at, entry);
            assert(self@ =~= head.push(entry) + tail);
            return;
        }
        // Only the first entry is left to come after the new one.
        assert(at == 0);
        let mut first = entry;
        core::mem::swap(&mut first, &mut self.first);
        self.more.insert(0, first);
        proof {
            assert(head.drop_last() =~= Seq::empty());
            assert(with_claim(head.drop_last(), entry) == seq![entry]);
            assert(with_claim(head, entry) == seq![entry].push(list[0]));
            assert(self@ =~= seq![entry].push(list[0]) + tail);
        }
    }

    /// Whether some entry says what was claimed.
    pub fn is_claimed(&self) -> (r: bool)
        ensures
            r == any_claimed(self@),
    {
        if self.first.decision.is_some() {
            assert(self@[0].decision is Some);
            return true;
        }
        let mut i: usize = 0;
        while i < self.more.len()
            invariant
                i <= self.more@.len(),
                forall|j: int| 0 <= j < i + 1 ==> (#[trigger] self@[j]).decision is None,
            decreases self.more@.len() - i,
        {
            assert(self@[i + 1] == self.more@[i as int]);
            if self.more[i].decision.is_some() {
                return true;
            }
            i += 1;
        }
        false
    }

    /// Without the first entry; nothing is left of a single one.
    pub fn without_first(self) -> (r: Option<Self>)
        ensures
            match r {
                Some(rest) => rest@ == self@.skip(1),
                None => self@.skip(1) == Seq::<DecisionEntry>::empty(),
            },
            r is None <==> self@.len() == 1,
    {
        let Claims { first: _, more } = self;
        let mut more = more;
        if more.len() == 0 {
            assert(self@.skip(1) =~= Seq::empty());
            return None;
        }
        let first = more.remove(0);
        let rest = Claims { first, more };
        assert(rest@ =~= self@.skip(1));
        Some(rest)
    }

    /// Appends copies of all entries to a list.
    pub fn push_all(&self, list: &mut Vec<DecisionEntry>)
        ensures
            final(list)@ == old(list)@ + self@,
    {
        list.push(self.first.duplicate());
        let mut i: usize = 0;
        assert(list@ =~= old(list)@ + self@.subrange(0, 1));
        while i < self.more.len()
            invariant
                i <= self.more@.len(),
                list@ == old(list)@ + self@.subrange(0, i + 1),
            decreases self.more@.len() - i,
        {
            list.push(self.more[i].duplicate());
            i += 1;
            assert(self@[i as int] == self.more@[i - 1]);
            assert(list@ =~= old(list)@ + self@.subrange(0, i + 1));
        }
        assert(self@.subrange(0, i + 1) =~= self@);
    }

    /// Appends copies of the entries that say what was claimed.
    pub fn push_claimed(&self, list: &mut Vec<DecisionEntry>)
        ensures
            final(list)@ == old(list)@ + claimed_among(self@),
    {
        let ghost all = self@;
        assert(all.subrange(0, 1).drop_last() =~= Seq::empty());
        assert(all.subrange(0, 1).last() == self.first);
        assert(claimed_among(Seq::<DecisionEntry>::empty()) =~= Seq::empty());
        if self.first.decision.is_some() {
            list.push(self.first.duplicate());
        }
        assert(list@ =~= old(list)@ + claimed_among(all.subrange(0, 1)));
        let mut i: usize = 0;
        while i < self.more.len()
            invariant
                i <= self.more@.len(),
                all == self@,
                list@ == old(list)@ + claimed_among(all.subrange(0, i + 1)),
            decreases self.more@.len() - i,
        {
            let ghost before = list@;
            assert(all.subrange(0, i + 2).drop_last() =~= all.subrange(0, i + 1));
            assert(all.subrange(0, i + 2).last() == self.more@[i as int]);
            if self.more[i].decision.is_some() {
                list.push(self.more[i].duplicate());
            }
            i += 1;
            assert(list@ =~= old(list)@ + claimed_among(all.subrange(0, i + 1)));
        }
        assert(all.subrange(0, i + 1) =~= all);
    }
}

} // verus!
