//! The option that most voters choose.

use vstd::prelude::*;

verus! {

/// How many votes are for an option.
pub open spec fn count_for(votes: Seq<Option<u16>>, option: u16) -> nat
    decreases votes.len(),
{
    if votes.len() == 0 {
        0
    } else {
        count_for(votes.drop_last(), option) + if votes.last() == Some(option) {
            1nat
        } else {
            0
        }
    }
}

/// Someone voted, be it for a number past the last option.
pub open spec fn any_cast(votes: Seq<Option<u16>>) -> bool {
    exists|i: int| 0 <= i < votes.len() && #[trigger] votes[i] is Some
}

/// An option has more votes than every other, none of them included.
pub open spec fn wins(votes: Seq<Option<u16>>, option_count: u16, option: u16) -> bool {
    &&& option < option_count
    &&& count_for(votes, option) > 0
    &&& forall|other: u16|
        other <= option_count && other != option ==> #[trigger] count_for(votes, other) < count_for(
            votes,
            option,
        )
}

/// The option that wins. Where none has most votes, the vote is inconclusive,
/// which is one past the last option; only where no vote was cast at all there is
/// no result.
pub open spec fn is_plurality(votes: Seq<Option<u16>>, option_count: u16, winner: Option<u16>)
    -> bool {
    match winner {
        None => forall|i: int| 0 <= i < votes.len() ==> #[trigger] votes[i] is None,
        Some(option) => {
            &&& any_cast(votes)
            &&& if option < option_count {
                wins(votes, option_count, option)
            } else {
                option == option_count && forall|other: u16| !wins(votes, option_count, other)
            }
        },
    }
}

/// Two options cannot both win.
pub proof fn plurality_is_unique(votes: Seq<Option<u16>>, option_count: u16, a: u16, b: u16)
    requires
        wins(votes, option_count, a),
        wins(votes, option_count, b),
    ensures
        a == b,
{
    if a != b {
        assert(count_for(votes, b) < count_for(votes, a));
        assert(count_for(votes, a) < count_for(votes, b));
    }
}

fn count_votes(votes: &Vec<Option<u16>>, option: u16) -> (r: usize)
    ensures
        r == count_for(votes@, option),
{
    let mut n: usize = 0;
    let mut i: usize = 0;
    assert(votes@.subrange(0, 0) =~= Seq::empty());
    while i < votes.len()
        invariant
            i <= votes@.len(),
            n == count_for(votes@.subrange(0, i as int), option),
            n <= i,
        decreases votes@.len() - i,
    {
        assert(votes@.subrange(0, i + 1).drop_last() =~= votes@.subrange(0, i as int));
        match votes[i] {
            Some(vote) => if vote == option {
                n += 1;
            },
            None => {},
        }
        i += 1;
    }
    assert(votes@.subrange(0, i as int) =~= votes@);
    n
}

fn is_any_cast(votes: &Vec<Option<u16>>) -> (r: bool)
    ensures
        r == any_cast(votes@),
{
    let mut i: usize = 0;
    while i < votes.len()
        invariant
            i <= votes@.len(),
            forall|j: int| 0 <= j < i ==> #[trigger] votes@[j] is None,
        decreases votes@.len() - i,
    {
        if votes[i].is_some() {
            assert(votes@[i as int] is Some);
            return true;
        }
        i += 1;
    }
    false
}

/// The option that most voters choose among so many options. A vote for the
/// number one past the last option is for none of them. Votes past that count for
/// no option, but they are cast.
pub fn plurality_winner(votes: &Vec<Option<u16>>, option_count: u16) -> (r: Option<u16>)
    ensures
        is_plurality(votes@, option_count, r),
{
    if !is_any_cast(votes) {
        return None;
    }
    let mut best: usize = 0;
    let mut leader: u16 = 0;
    let mut tied = false;
    let mut option: u16 = 0;
    loop
        invariant_except_break
            option <= option_count,
            forall|o: u16| o < option ==> #[trigger] count_for(votes@, o) <= best,
            best > 0 ==> leader < option && count_for(votes@, leader) == best,
            best > 0 && !tied ==> forall|o: u16|
                o < option && o != leader ==> #[trigger] count_for(votes@, o) < best,
            best > 0 && tied ==> exists|o: u16|
                o < option && o != leader && #[trigger] count_for(votes@, o) == best,
            best == 0 ==> !tied,
        ensures
            forall|o: u16| o <= option_count ==> #[trigger] count_for(votes@, o) <= best,
            best > 0 ==> leader <= option_count && count_for(votes@, leader) == best,
            best > 0 && !tied ==> forall|o: u16|
                o <= option_count && o != leader ==> #[trigger] count_for(votes@, o) < best,
            best > 0 && tied ==> exists|o: u16|
                o <= option_count && o != leader && #[trigger] count_for(votes@, o) == best,
        decreases option_count - option,
    {
        let n: usize = count_votes(votes, option);
        if n > best {
            best = n;
            leader = option;
            tied = false;
        } else if n == best && n > 0 {
            tied = true;
            assert(option != leader && count_for(votes@, option) == best);
        }
        if option == option_count {
            break;
        }
        option += 1;
    }
    if best > 0 && !tied && leader < option_count {
        Some(leader)
    } else {
        proof {
            assert forall|o: u16| !wins(votes@, option_count, o) by {
                if wins(votes@, option_count, o) {
                    if o != leader {
                        assert(count_for(votes@, leader) < count_for(votes@, o));
                        assert(count_for(votes@, o) <= best);
                    } else if tied {
                        let other = choose|other: u16|
                            other <= option_count && other != leader && #[trigger] count_for(
                                votes@,
                                other,
                            ) == best;
                        assert(count_for(votes@, other) < count_for(votes@, o));
                    }
                }
            }
        }
        Some(option_count)
    }
}

/// Which voters agree with the winner; those who abstain are left out.
pub fn agreement(votes: &Vec<Option<u16>>, winner: u16) -> (r: Vec<Option<bool>>)
    ensures
        r@.len() == votes@.len(),
        forall|i: int|
            0 <= i < votes@.len() ==> #[trigger] r@[i] == match votes@[i] {
                Some(vote) => Some(vote == winner),
                None => None,
            },
{
    let mut r: Vec<Option<bool>> = Vec::new();
    let mut i: usize = 0;
    while i < votes.len()
        invariant
            i <= votes@.len(),
            r@.len() == i,
            forall|j: int|
                0 <= j < i ==> #[trigger] r@[j] == match votes@[j] {
                    Some(vote) => Some(vote == winner),
                    None => None,
                },
        decreases votes@.len() - i,
    {
        r.push(
            match votes[i] {
                Some(vote) => Some(vote == winner),
                None => None,
            },
        );
        i += 1;
    }
    r
}

} // verus!
