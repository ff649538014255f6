//! What holds of markets and of the shares in them.

use vstd::prelude::*;

use crate::state::markets::database::{account_of, held, share_problem, MarketsView};
use crate::state::markets::types::{position, MarketState, Position, ShareAccountView};
use crate::state::markets::MarketId;
use crate::table::rows_of;
use crate::types::Address;

verus! {

/// A market that trades may come to any end, and an invalid one may be settled. A market
/// that is settled or cancelled stays so.
pub proof fn markets_come_to_an_end(from: MarketState, to: MarketState)
    ensures
        from is Trading ==> from.may_become(to),
        from is Settled ==> (from.may_become(to) <==> to is Settled),
        from is Cancelled ==> (from.may_become(to) <==> to is Cancelled),
        from is Invalid ==> (from.may_become(to) <==> to is Settled || to is Invalid),
{
}

/// What all accounts hold of an outcome adds up.
pub proof fn holdings_add_up(
    rows: Seq<(Address, ShareAccountView)>,
    holder: Address,
    account: ShareAccountView,
    p: Position,
)
    ensures
        held(Seq::<(Address, ShareAccountView)>::empty(), p) == 0,
        held(rows.push((holder, account)), p) == held(rows, p) + if account.positions.dom().contains(
            p,
        ) {
            account.positions[p] as int
        } else {
            0
        },
{
    assert(rows.push((holder, account)).drop_last() =~= rows);
}

/// A market is in order where it is there and each of its outcomes has as many shares as
/// the accounts hold of it together.
pub proof fn markets_have_the_shares_that_are_held(view: MarketsView, m: MarketId)
    requires
        view.markets[m].shares.len() <= u32::MAX,
    ensures
        share_problem(view, m) is None <==> {
            &&& view.markets.dom().contains(m)
            &&& forall|o: int|
                0 <= o < view.markets[m].shares.len() ==> #[trigger] view.markets[m].shares[o]
                    == held(rows_of(view.accounts), position(m, o as u32))
        },
{
}

/// Shares that are added to an account are held on top, those that are taken out are
/// held no longer, and no more can be taken out than are held.
pub proof fn accounts_keep_count(
    account: ShareAccountView,
    p: Position,
    q: Position,
    shares: i64,
    height: u32,
)
    requires
        0 < shares,
    ensures
        account.shares(p) + shares <= i64::MAX ==> account.added(p, shares, height).shares(q)
            == account.shares(q) + if q == p {
            shares as int
        } else {
            0
        },
        account.removed(p, shares, height) is Ok <==> shares <= account.shares(p),
        shares <= account.shares(p) ==> account.removed(p, shares, height)->Ok_0.shares(q)
            == account.shares(q) - if q == p {
            shares as int
        } else {
            0
        },
{
}

/// Who has no account holds nothing.
pub proof fn strangers_hold_nothing(view: MarketsView, address: Address, p: Position)
    requires
        !view.accounts.dom().contains(address),
    ensures
        account_of(view.accounts, address).shares(p) == 0,
{
}

} // verus!
