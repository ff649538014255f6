//! What holds of a vote among options.

use vstd::prelude::*;

use crate::state::voting::plurality::{count_for, is_plurality};

verus! {

/// Each vote counts once, for the option that it names.
pub proof fn votes_count_for_their_option(votes: Seq<Option<u16>>, vote: Option<u16>, option: u16)
    ensures
        count_for(Seq::<Option<u16>>::empty(), option) == 0,
        count_for(votes.push(vote), option) == count_for(votes, option) + if vote is Some
            && vote->0 == option {
            1nat
        } else {
            0
        },
{
    assert(votes.push(vote).drop_last() =~= votes);
}

/// An option that wins has more votes than every other.
pub proof fn winners_have_the_most_votes(
    votes: Seq<Option<u16>>,
    option_count: u16,
    winner: u16,
    other: u16,
)
    requires
        is_plurality(votes, option_count, Some(winner)),
        winner < option_count,
        other <= option_count,
        other != winner,
    ensures
        count_for(votes, other) < count_for(votes, winner),
{
}

/// An option with more votes than every other wins.
pub proof fn the_most_votes_win(
    votes: Seq<Option<u16>>,
    option_count: u16,
    option: u16,
    winner: Option<u16>,
)
    requires
        is_plurality(votes, option_count, winner),
        option < option_count,
        count_for(votes, option) > 0,
        forall|other: u16|
            other <= option_count && other != option ==> #[trigger] count_for(votes, other)
                < count_for(votes, option),
    ensures
        winner == Some(option),
{
    lemma_some_cast(votes, option);
    assert(crate::state::voting::plurality::wins(votes, option_count, option));
    if winner is Some && winner->0 < option_count && winner->0 != option {
        assert(count_for(votes, winner->0) < count_for(votes, option));
        assert(count_for(votes, option) < count_for(votes, winner->0));
    }
}

proof fn lemma_some_cast(votes: Seq<Option<u16>>, option: u16)
    requires
        count_for(votes, option) > 0,
    ensures
        exists|i: int| 0 <= i < votes.len() && #[trigger] votes[i] is Some,
    decreases votes.len(),
{
    if votes.last() == Some(option) {
        assert(votes[votes.len() - 1] is Some);
    } else {
        let front = votes.drop_last();
        lemma_some_cast(front, option);
        let i = choose|i: int| 0 <= i < front.len() && #[trigger] front[i] is Some;
        assert(votes[i] is Some);
    }
}

/// Without a vote nothing wins, and with a draw at the top the decision is void.
pub proof fn draws_are_void(
    votes: Seq<Option<u16>>,
    option_count: u16,
    winner: Option<u16>,
    a: u16,
    b: u16,
)
    requires
        is_plurality(votes, option_count, winner),
        a < b <= option_count,
        count_for(votes, a) == count_for(votes, b),
        forall|other: u16|
            other <= option_count ==> #[trigger] count_for(votes, other) <= count_for(votes, a),
    ensures
        (forall|i: int| 0 <= i < votes.len() ==> #[trigger] votes[i] is None) <==> winner is None,
        winner is Some ==> winner->0 == option_count,
{
    if winner is Some && winner->0 < option_count {
        let w = winner->0;
        assert(count_for(votes, w) <= count_for(votes, a));
        if w != a {
            assert(count_for(votes, a) < count_for(votes, w));
        } else {
            assert(count_for(votes, b) < count_for(votes, w));
        }
    }
}

} // verus!
