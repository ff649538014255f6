//! Markets, their states, their dimensions, and the shares of traders.

use vstd::prelude::*;
use vstd::std_specs::cmp::PartialEqSpecImpl;

use crate::bytes::{be32, be32_injective, lemma_array_equal, push_be32, same_bytes, to_vec};
use crate::hex::{all_hex, hex_bytes, without_prefix};
use crate::state::decisions::DecisionId;
use crate::table::{Key, Table};
use crate::types::{Address, Real};

verus! {

#[derive(Clone, Copy, Debug)]
pub enum MarketError {
    InvalidDimensions,
    TooManyStates(usize),
    InvalidOutcomeIndex(usize),
    InvalidStateTransition { from: MarketState, to: MarketState },
    MarketNotFound { id: MarketId },
    DecisionNotFound { decision_id: DecisionId },
    DecisionValidationFailed { decision_id: DecisionId },
    InvalidOutcomeCombination,
    DuplicateDecision { decision_id: DecisionId },
    DatabaseError(&'static str),
}

/// Where a market stands.
#[derive(Clone, Copy, Debug, PartialEq, Eq, Structural)]
pub enum MarketState {
    Trading,
    Cancelled,
    Invalid,
    Settled,
}

impl MarketState {
    /// A market may stay as it is. From `Trading` it may go anywhere, and from
    /// `Invalid` to `Settled`.
    pub open spec fn may_become(self, next: MarketState) -> bool {
        ||| self == next
        ||| self is Trading
        ||| self is Invalid && next is Settled
    }

    pub fn can_transition_to(&self, new_state: MarketState) -> (r: bool)
        ensures
            r == self.may_become(new_state),
    {
        match (self, new_state) {
            (MarketState::Trading, MarketState::Trading)
            | (MarketState::Cancelled, MarketState::Cancelled)
            | (MarketState::Invalid, MarketState::Invalid)
            | (MarketState::Settled, MarketState::Settled) => true,
            (
                MarketState::Trading,
                MarketState::Cancelled | MarketState::Invalid | MarketState::Settled,
            ) => true,
            (MarketState::Invalid, MarketState::Settled) => true,
            (
                MarketState::Cancelled,
                MarketState::Trading | MarketState::Invalid | MarketState::Settled,
            ) => false,
            (MarketState::Invalid, MarketState::Trading | MarketState::Cancelled) => false,
            (
                MarketState::Settled,
                MarketState::Trading | MarketState::Cancelled | MarketState::Invalid,
            ) => false,
        }
    }

    pub fn allows_trading(&self) -> (r: bool)
        ensures
            r == (*self is Trading),
    {
        matches!(self, MarketState::Trading)
    }
}

/// A market that is settled or cancelled stays so.
pub proof fn closed_markets_stay_closed(from: MarketState, to: MarketState)
    requires
        from is Settled || from is Cancelled,
        from.may_become(to),
    ensures
        to == from,
{
}

/// Nothing leads back to trading.
pub proof fn trading_does_not_resume(from: MarketState)
    requires
        from.may_become(MarketState::Trading),
    ensures
        from is Trading,
{
}

/// The id of a market.
#[derive(Clone, Copy, Debug, Eq, PartialOrd, Ord, Hash)]
pub struct MarketId(pub [u8; 6]);

impl PartialEq for MarketId {
    fn eq(&self, other: &Self) -> (r: bool) {
        same_bytes(&self.0, &other.0)
    }
}

impl PartialEqSpecImpl for MarketId {
    open spec fn obeys_eq_spec() -> bool {
        true
    }

    open spec fn eq_spec(&self, other: &Self) -> bool {
        *self == *other
    }
}

impl Default for MarketId {
    fn default() -> (r: Self)
        ensures
            r.0@ == Seq::new(6, |i: int| 0u8),
    {
        let bytes = [0u8; 6];
        assert(bytes@ =~= Seq::new(6, |i: int| 0u8));
        MarketId(bytes)
    }
}

impl Key for MarketId {
    open spec fn key_bytes(&self) -> Seq<u8> {
        self.0@
    }

    proof fn key_bytes_injective(a: Self, b: Self) {
        assert(a.key_bytes() == a.0@ && b.key_bytes() == b.0@);
        lemma_array_equal(a.0, b.0);
    }

    fn to_key_bytes(&self) -> (r: Vec<u8>) {
        to_vec(self.0.as_slice())
    }
}

impl MarketId {
    pub fn new(bytes: [u8; 6]) -> (r: Self)
        ensures
            r.0 == bytes,
    {
        MarketId(bytes)
    }

    pub fn as_bytes(&self) -> (r: &[u8; 6])
        ensures
            *r == self.0,
    {
        &self.0
    }
}


/// A dimension of a market: a decision with its own answers, or one whose
/// options are the outcomes.
#[derive(Clone, Copy, Debug, PartialEq, Eq)]
pub enum DimensionSpec {
    Single(DecisionId),
    Categorical(DecisionId),
}

impl DimensionSpec {
    pub open spec fn id(self) -> DecisionId {
        match self {
            DimensionSpec::Single(id) => id,
            DimensionSpec::Categorical(id) => id,
        }
    }

    /// The decision of the dimension.
    pub fn decision_id(&self) -> (r: DecisionId)
        ensures
            r == self.id(),
    {
        match self {
            DimensionSpec::Single(id) => *id,
            DimensionSpec::Categorical(id) => *id,
        }
    }
}

/// A character with the Unicode property `White_Space`.
pub open spec fn is_space(c: char) -> bool {
    let n = c as u32;
    ||| 0x9 <= n <= 0xd
    ||| n == 0x20
    ||| n == 0x85
    ||| n == 0xa0
    ||| n == 0x1680
    ||| 0x2000 <= n <= 0x200a
    ||| n == 0x2028
    ||| n == 0x2029
    ||| n == 0x202f
    ||| n == 0x205f
    ||| n == 0x3000
}

fn is_white(c: char) -> (r: bool)
    ensures
        r == is_space(c),
{
    let n: u32 = c as u32;
    (0x9 <= n && n <= 0xd) || n == 0x20 || n == 0x85 || n == 0xa0 || n == 0x1680 || (0x2000 <= n
        && n <= 0x200a) || n == 0x2028 || n == 0x2029 || n == 0x202f || n == 0x205f || n == 0x3000
}

/// A text without the white space that it starts with.
pub open spec fn trim_start(text: Seq<char>) -> Seq<char>
    decreases text.len(),
{
    if text.len() > 0 && is_space(text[0]) {
        trim_start(text.skip(1))
    } else {
        text
    }
}

/// A text without the white space that it ends with.
pub open spec fn trim_end(text: Seq<char>) -> Seq<char>
    decreases text.len(),
{
    if text.len() > 0 && is_space(text.last()) {
        trim_end(text.drop_last())
    } else {
        text
    }
}

/// A text without the white space around it.
pub open spec fn trimmed(text: Seq<char>) -> Seq<char> {
    trim_end(trim_start(text))
}

/// The decision whose id has some bytes.
pub open spec fn id_with(bytes: Seq<u8>) -> DecisionId {
    choose|id: DecisionId| id.0@ == bytes
}

/// The decision that a text names: its id in hexadecimal.
pub open spec fn named_decision(text: Seq<char>) -> Option<DecisionId> {
    let bytes = Seq::new(text.len(), |i: int| text[i] as u8);
    let digits = without_prefix(bytes);
    if (forall|i: int| 0 <= i < text.len() ==> (#[trigger] text[i] as u32) < 128) && all_hex(digits)
        && digits.len() == 6 {
        Some(id_with(hex_bytes(digits)))
    } else {
        None
    }
}

/// Where the white space and the commas from a place on end.
pub open spec fn after_separators(text: Seq<char>, i: int) -> int
    decreases text.len() - i,
{
    if 0 <= i < text.len() && (is_space(text[i]) || text[i] == ',') {
        after_separators(text, i + 1)
    } else {
        i
    }
}

/// Where the bracket closes that leaves `depth` brackets open at a place: the
/// place after it.
pub open spec fn after_bracket(text: Seq<char>, i: int, depth: int) -> Option<int>
    decreases text.len() - i,
{
    if depth <= 0 {
        Some(i)
    } else if 0 <= i < text.len() {
        after_bracket(
            text,
            i + 1,
            if text[i] == '[' {
                depth + 1
            } else if text[i] == ']' {
                depth - 1
            } else {
                depth
            },
        )
    } else {
        None
    }
}

/// Where a plain name ends: before a comma or an opening bracket.
pub open spec fn after_name(text: Seq<char>, i: int) -> int
    decreases text.len() - i,
{
    if 0 <= i < text.len() && text[i] != ',' && text[i] != '[' {
        after_name(text, i + 1)
    } else {
        i
    }
}

/// The dimensions that a text lists from a place on.
pub open spec fn dimensions_from(text: Seq<char>, at: int) -> Option<Seq<DimensionSpec>>
    decreases text.len() - at,
{
    let i = after_separators(text, at);
    if !(0 <= at <= i < text.len()) {
        Some(Seq::empty())
    } else if text[i] == '[' {
        match after_bracket(text, i + 1, 1) {
            Some(j) => if i + 1 < j <= text.len() {
                match (
                    named_decision(trimmed(text.subrange(i + 1, j - 1))),
                    dimensions_from(text, j),
                ) {
                    (Some(id), Some(rest)) => Some(seq![DimensionSpec::Categorical(id)] + rest),
                    _ => None,
                }
            } else {
                None
            },
            None => None,
        }
    } else {
        let j = after_name(text, i);
        if i < j <= text.len() {
            match (
                named_decision(trimmed(text.subrange(i, j))),
                dimensions_from(text, j),
            ) {
                (Some(id), Some(rest)) => Some(seq![DimensionSpec::Single(id)] + rest),
                _ => None,
            }
        } else {
            None
        }
    }
}

/// The dimensions that a text lists: it stands in brackets.
pub open spec fn dimensions_of(text: Seq<char>) -> Option<Seq<DimensionSpec>> {
    let outer = trimmed(text);
    if outer.len() >= 2 && outer[0] == '[' && outer.last() == ']' {
        dimensions_from(outer.subrange(1, outer.len() - 1), 0)
    } else {
        None
    }
}

fn trim(text: &Vec<char>, from: usize, to: usize) -> (r: (usize, usize))
    requires
        from <= to <= text@.len(),
    ensures
        from <= r.0 <= r.1 <= to,
        text@.subrange(r.0 as int, r.1 as int) == trimmed(text@.subrange(from as int, to as int)),
{
    let ghost all = text@.subrange(from as int, to as int);
    let mut a: usize = from;
    while a < to && is_white(text[a])
        invariant
            from <= a <= to <= text@.len(),
            all == text@.subrange(from as int, to as int),
            trim_start(all) == trim_start(text@.subrange(a as int, to as int)),
        decreases to - a,
    {
        proof {
            let here = text@.subrange(a as int, to as int);
            assert(here.skip(1) =~= text@.subrange(a + 1, to as int));
        }
        a += 1;
    }
    let ghost start = text@.subrange(a as int, to as int);
    assert(trim_start(all) == start);
    let mut b: usize = to;
    while a < b && is_white(text[b - 1])
        invariant
            from <= a <= b <= to <= text@.len(),
            start == text@.subrange(a as int, to as int),
            trim_end(start) == trim_end(text@.subrange(a as int, b as int)),
        decreases b - a,
    {
        proof {
            let here = text@.subrange(a as int, b as int);
            assert(here.drop_last() =~= text@.subrange(a as int, b - 1));
        }
        b -= 1;
    }
    assert(trim_end(text@.subrange(a as int, b as int)) == text@.subrange(a as int, b as int));
    (a, b)
}

fn parse_single_decision(text: &Vec<char>, from: usize, to: usize) -> (r: Result<
    DecisionId,
    MarketError,
>)
    requires
        from <= to <= text@.len(),
    ensures
        match r {
            Ok(id) => named_decision(text@.subrange(from as int, to as int)) == Some(id),
            Err(e) => named_decision(text@.subrange(from as int, to as int)) is None && e
                is InvalidDimensions,
        },
{
    let ghost piece = text@.subrange(from as int, to as int);
    let mut bytes: Vec<u8> = Vec::new();
    let mut i: usize = from;
    while i < to
        invariant
            from <= i <= to <= text@.len(),
            piece == text@.subrange(from as int, to as int),
            bytes@.len() == i - from,
            forall|j: int|
                0 <= j < i - from ==> (#[trigger] piece[j] as u32) < 128 && bytes@[j]
                    == piece[j] as u8,
        decreases to - i,
    {
        let c: char = text[i];
        assert(piece[i - from] == c);
        if c as u32 >= 128 {
            return Err(MarketError::InvalidDimensions);
        }
        bytes.push(c as u8);
        i += 1;
    }
    assert(bytes@ =~= Seq::new(piece.len(), |i: int| piece[i] as u8));
    match crate::hex::decode(bytes.as_slice()) {
        Err(_) => Err(MarketError::InvalidDimensions),
        Ok(decoded) => {
            if decoded.len() != 3 {
                return Err(MarketError::InvalidDimensions);
            }
            let id_bytes = [decoded[0], decoded[1], decoded[2]];
            assert(id_bytes@ =~= decoded@);
            match DecisionId::from_bytes(id_bytes) {
                Err(_) => Err(MarketError::InvalidDimensions),
                Ok(id) => {
                    proof {
                        let c = id_with(decoded@);
                        assert(id.0@ == decoded@);
                        lemma_array_equal(id.0, c.0);
                    }
                    Ok(id)
                },
            }
        },
    }
}

/// Parses the dimensions of a market: ids in brackets, with commas between
/// them, where an id in brackets of its own is a categorical dimension.
pub fn parse_dimensions(dimensions_str: &str) -> (r: Result<Vec<DimensionSpec>, MarketError>)
    ensures
        match r {
            Ok(list) => dimensions_of(dimensions_str@) == Some(list@),
            Err(e) => dimensions_of(dimensions_str@) is None && e is InvalidDimensions,
        },
{
    let mut all: Vec<char> = Vec::new();
    for c in it: dimensions_str.chars()
        invariant
            all@ == it.seq().subrange(0, it.index() as int),
            it.seq() == dimensions_str@,
    {
        all.push(c);
        assert(all@ =~= it.seq().subrange(0, it.index() as int + 1));
    }
    assert(all@ =~= dimensions_str@);
    let (from, to) = trim(&all, 0, all.len());
    assert(all@.subrange(0, all@.len() as int) =~= all@);
    let ghost outer = trimmed(dimensions_str@);
    if to - from < 2 || all[from] != '[' || all[to - 1] != ']' {
        return Err(MarketError::InvalidDimensions);
    }
    let mut text: Vec<char> = Vec::new();
    let mut k: usize = from + 1;
    while k < to - 1
        invariant
            from + 1 <= k <= to - 1,
            to <= all@.len(),
            text@ == all@.subrange(from + 1, k as int),
        decreases to - k,
    {
        text.push(all[k]);
        k += 1;
        assert(text@ =~= all@.subrange(from + 1, k as int));
    }
    assert(text@ =~= outer.subrange(1, outer.len() - 1));
    let mut dimensions: Vec<DimensionSpec> = Vec::new();
    let mut i: usize = 0;
    let ghost inner = text@;
    while i < text.len()
        invariant
            i <= text@.len(),
            inner == text@,
            dimensions_of(dimensions_str@) == dimensions_from(inner, 0),
            match dimensions_from(inner, i as int) {
                Some(rest) => dimensions_from(inner, 0) == Some(dimensions@ + rest),
                None => dimensions_from(inner, 0) is None,
            },
        decreases text@.len() - i,
    {
        let ghost at = i as int;
        while i < text.len() && (is_white(text[i]) || text[i] == ',')
            invariant
                at <= i <= text@.len(),
                inner == text@,
                after_separators(inner, at) == after_separators(inner, i as int),
            decreases text@.len() - i,
        {
            i += 1;
        }
        assert(after_separators(inner, at) == i);
        if i < text.len() {
            if text[i] == '[' {
                let start: usize = i + 1;
                let ghost target = after_bracket(inner, start as int, 1);
                let mut depth: usize = 1;
                i += 1;
                while i < text.len() && depth > 0
                    invariant
                        1 <= start <= i <= text@.len() <= usize::MAX,
                        inner == text@,
                        depth <= i - start + 1,
                        depth == 0 ==> start < i,
                        target == after_bracket(inner, i as int, depth as int),
                    decreases text@.len() - i,
                {
                    if text[i] == '[' {
                        depth += 1;
                    } else if text[i] == ']' {
                        depth -= 1;
                    }
                    i += 1;
                }
                if depth != 0 {
                    return Err(MarketError::InvalidDimensions);
                }
                let (a, b) = trim(&text, start, i - 1);
                match parse_single_decision(&text, a, b) {
                    Err(e) => return Err(e),
                    Ok(id) => {
                        let spec = DimensionSpec::Categorical(id);
                        let ghost before = dimensions@;
                        dimensions.push(spec);
                        proof {
                            lemma_prepend(inner, i as int, before, spec);
                        }
                    },
                }
            } else {
                let start: usize = i;
                while i < text.len() && text[i] != ',' && text[i] != '['
                    invariant
                        start <= i <= text@.len(),
                        inner == text@,
                        after_name(inner, start as int) == after_name(inner, i as int),
                    decreases text@.len() - i,
                {
                    i += 1;
                }
                assert(after_name(inner, start as int) == i);
                let (a, b) = trim(&text, start, i);
                match parse_single_decision(&text, a, b) {
                    Err(e) => return Err(e),
                    Ok(id) => {
                        let spec = DimensionSpec::Single(id);
                        let ghost before = dimensions@;
                        dimensions.push(spec);
                        proof {
                            lemma_prepend(inner, i as int, before, spec);
                        }
                    },
                }
            }
        } else {
            assert(dimensions_from(inner, at) == Some(Seq::<DimensionSpec>::empty()));
            assert(dimensions_from(inner, i as int) == Some(Seq::<DimensionSpec>::empty()));
        }
    }
    assert(dimensions@ + Seq::<DimensionSpec>::empty() =~= dimensions@);
    Ok(dimensions)
}

proof fn lemma_prepend(
    inner: Seq<char>,
    i: int,
    before: Seq<DimensionSpec>,
    spec: DimensionSpec,
)
    ensures
        dimensions_from(inner, i) is Some ==> before + (seq![spec] + dimensions_from(inner, i)->0)
            == before.push(spec) + dimensions_from(inner, i)->0,
{
    if dimensions_from(inner, i) is Some {
        let rest = dimensions_from(inner, i)->0;
        assert(before + (seq![spec] + rest) =~= before.push(spec) + rest);
    }
}

/// A position: an outcome of a market.
#[derive(Clone, Copy, Debug, PartialEq, Eq, PartialOrd, Ord, Hash)]
pub struct Position {
    pub market_id: MarketId,
    pub outcome_index: u32,
}

pub open spec fn position(market_id: MarketId, outcome_index: u32) -> Position {
    Position { market_id, outcome_index }
}

impl Key for Position {
    /// Positions stand in the order of markets, then of outcomes.
    open spec fn key_bytes(&self) -> Seq<u8> {
        self.market_id.0@ + be32(self.outcome_index)
    }

    proof fn key_bytes_injective(a: Self, b: Self) {
        assert(a.key_bytes().subrange(0, 6) =~= a.market_id.0@);
        assert(b.key_bytes().subrange(0, 6) =~= b.market_id.0@);
        assert(a.key_bytes().subrange(6, 10) =~= be32(a.outcome_index));
        assert(b.key_bytes().subrange(6, 10) =~= be32(b.outcome_index));
        lemma_array_equal(a.market_id.0, b.market_id.0);
        be32_injective(a.outcome_index, b.outcome_index);
    }

    fn to_key_bytes(&self) -> (r: Vec<u8>) {
        let mut r = to_vec(self.market_id.0.as_slice());
        push_be32(&mut r, self.outcome_index);
        r
    }
}

/// The shares of a trader.
pub struct ShareAccount {
    pub positions: Table<Position, i64>,
    pub last_updated_height: u32,
}

#[verifier::ext_equal]
pub struct ShareAccountView {
    pub positions: Map<Position, i64>,
    pub last_updated_height: u32,
}

impl View for ShareAccount {
    type V = ShareAccountView;

    open spec fn view(&self) -> ShareAccountView {
        ShareAccountView {
            positions: self.positions@,
            last_updated_height: self.last_updated_height,
        }
    }
}

impl ShareAccountView {
    pub open spec fn empty() -> ShareAccountView {
        ShareAccountView { positions: Map::empty(), last_updated_height: 0 }
    }

    /// The shares in a position.
    pub open spec fn shares(self, p: Position) -> i64 {
        if self.positions.dom().contains(p) {
            self.positions[p]
        } else {
            0
        }
    }

    pub open spec fn added(self, p: Position, shares: i64, height: u32) -> ShareAccountView {
        ShareAccountView {
            positions: self.positions.insert(p, (self.shares(p) + shares) as i64),
            last_updated_height: height,
        }
    }

    /// A position that is sold out goes.
    pub open spec fn removed(self, p: Position, shares: i64, height: u32) -> Result<
        ShareAccountView,
        MarketError,
    > {
        if shares > self.shares(p) {
            Err(MarketError::InvalidOutcomeCombination)
        } else {
            let rest = self.shares(p) - shares;
            Ok(
                ShareAccountView {
                    positions: if rest > 0 {
                        self.positions.insert(p, rest as i64)
                    } else {
                        self.positions.remove(p)
                    },
                    last_updated_height: height,
                },
            )
        }
    }
}

impl ShareAccount {
    pub fn new() -> (r: Self)
        ensures
            r@ == ShareAccountView::empty(),
    {
        ShareAccount { positions: Table::new(), last_updated_height: 0 }
    }

    pub fn get_position(&self, market_id: &MarketId, outcome_index: u32) -> (r: i64)
        ensures
            r == self@.shares(position(*market_id, outcome_index)),
    {
        match self.positions.get(&(Position { market_id: *market_id, outcome_index })) {
            Some(shares) => *shares,
            None => 0,
        }
    }

    pub fn add_shares(&mut self, market_id: MarketId, outcome_index: u32, shares: i64, height: u32)
        requires
            i64::MIN <= old(self)@.shares(position(market_id, outcome_index)) + shares <= i64::MAX,
        ensures
            final(self)@ == old(self)@.added(position(market_id, outcome_index), shares, height),
    {
        let current: i64 = self.get_position(&market_id, outcome_index);
        self.positions.put(Position { market_id, outcome_index }, current + shares);
        self.last_updated_height = height;
    }

    pub fn remove_shares(
        &mut self,
        market_id: &MarketId,
        outcome_index: u32,
        shares: i64,
        height: u32,
    ) -> (r: Result<(), MarketError>)
        requires
            old(self)@.shares(position(*market_id, outcome_index)) - shares <= i64::MAX,
        ensures
            match r {
                Ok(()) => old(self)@.removed(position(*market_id, outcome_index), shares, height)
                    == Ok::<ShareAccountView, MarketError>(final(self)@),
                Err(e) => {
                    &&& old(self)@.removed(position(*market_id, outcome_index), shares, height)
                        == Err::<ShareAccountView, MarketError>(e)
                    &&& *final(self) == *old(self)
                },
            },
    {
        let key = Position { market_id: *market_id, outcome_index };
        let current: i64 = self.get_position(market_id, outcome_index);
        if shares > current {
            return Err(MarketError::InvalidOutcomeCombination);
        }
        let new_amount: i64 = current - shares;
        if new_amount > 0 {
            self.positions.put(key, new_amount);
        } else {
            let _ = self.positions.delete(&key);
        }
        self.last_updated_height = height;
        Ok(())
    }

    pub fn get_all_positions(&self) -> (r: &Table<Position, i64>)
        ensures
            *r == self.positions,
    {
        &self.positions
    }
}

/// Selling what was bought leaves the positions as they were, where no
/// position was held at zero or less.
pub proof fn removing_undoes_adding(
    account: ShareAccountView,
    p: Position,
    shares: i64,
    height: u32,
)
    requires
        shares > 0,
        account.shares(p) + shares <= i64::MAX,
        account.positions.dom().contains(p) ==> account.positions[p] > 0,
    ensures
        account.added(p, shares, height).removed(p, shares, height) is Ok,
        account.added(p, shares, height).removed(p, shares, height)->Ok_0.positions
            == account.positions,
{
    let back = account.added(p, shares, height).removed(p, shares, height)->Ok_0;
    assert(back.positions =~= account.positions);
}

/// What a shareholder gets when a market is settled.
#[derive(Clone, Copy, Debug)]
pub struct SharePayoutRecord {
    pub market_id: MarketId,
    pub address: Address,
    pub outcome_index: u32,
    pub shares_redeemed: i64,
    pub final_price: Real,
    pub payout_sats: u64,
}

/// Why someone gets a share of the fees of a market.
#[derive(Clone, Copy, Debug, PartialEq, Eq, Structural)]
pub enum FeeRole {
    CorrectVoter,
    DecisionAuthor,
    MarketAuthor,
}

#[derive(Clone, Copy, Debug)]
pub struct FeePayoutRecord {
    pub address: Address,
    pub amount_sats: u64,
    pub fee_role: FeeRole,
}

#[derive(Clone, Copy, Debug)]
pub struct CreatorRefund {
    pub address: Address,
    pub amount_sats: u64,
}

/// What was paid out when a market was settled.
#[derive(Debug)]
pub struct MarketPayoutSummary {
    pub market_id: MarketId,
    pub treasury_distributed: u64,
    pub total_fees_distributed: u64,
    pub shareholder_count: u32,
    pub payouts: Vec<SharePayoutRecord>,
    pub fee_payouts: Vec<FeePayoutRecord>,
    pub creator_refund: Option<CreatorRefund>,
    pub block_height: u32,
}

} // verus!
