//! Questions about coins, transactions and blocks.

use vstd::prelude::*;

use crate::node::Node;
use crate::state::{Error, Reason};
use crate::types::block::Body;
use crate::types::transaction::output::SpentOutput;
use crate::types::transaction::{InPoint, OutPoint, Transaction};
use crate::types::{BlockHash, Duplicate, Txid};

verus! {

/// Of some coins, those that are spent, each with what spent it.
pub open spec fn spent_among(stxos: Map<OutPoint, SpentOutput>, outpoints: Seq<OutPoint>) -> Seq<
    (OutPoint, SpentOutput),
>
    decreases outpoints.len(),
{
    if outpoints.len() == 0 {
        Seq::empty()
    } else {
        let before = spent_among(stxos, outpoints.drop_last());
        if stxos.dom().contains(outpoints.last()) {
            before.push((outpoints.last(), stxos[outpoints.last()]))
        } else {
            before
        }
    }
}

/// Of some coins, those that a waiting transaction spends, each with what
/// spends it.
pub open spec fn waiting_among(spent: Map<OutPoint, InPoint>, outpoints: Seq<OutPoint>) -> Seq<
    (OutPoint, InPoint),
>
    decreases outpoints.len(),
{
    if outpoints.len() == 0 {
        Seq::empty()
    } else {
        let before = waiting_among(spent, outpoints.drop_last());
        if spent.dom().contains(outpoints.last()) {
            before.push((outpoints.last(), spent[outpoints.last()]))
        } else {
            before
        }
    }
}

impl Node {
    pub fn get_spent_utxos(&self, outpoints: &Vec<OutPoint>) -> (r: Vec<
        (OutPoint, SpentOutput),
    >)
        ensures
            r@ == spent_among(self.state.ledger@.stxos, outpoints@),
    {
        let mut r: Vec<(OutPoint, SpentOutput)> = Vec::new();
        let mut i: usize = 0;
        assert(outpoints@.subrange(0, 0) =~= Seq::empty());
        while i < outpoints.len()
            invariant
                i <= outpoints@.len(),
                r@ == spent_among(self.state.ledger@.stxos, outpoints@.subrange(0, i as int)),
            decreases outpoints@.len() - i,
        {
            assert(outpoints@.subrange(0, i + 1).drop_last() =~= outpoints@.subrange(0, i as int));
            match self.state.ledger.stxos.get(&outpoints[i]) {
                Some(spent) => r.push((outpoints[i], spent.duplicate())),
                None => {},
            }
            i += 1;
        }
        assert(outpoints@.subrange(0, i as int) =~= outpoints@);
        r
    }

    pub fn get_unconfirmed_spent_utxos(&self, outpoints: &Vec<OutPoint>) -> (r: Vec<
        (OutPoint, InPoint),
    >)
        ensures
            r@ == waiting_among(self.mempool@.spent, outpoints@),
    {
        let mut r: Vec<(OutPoint, InPoint)> = Vec::new();
        let mut i: usize = 0;
        assert(outpoints@.subrange(0, 0) =~= Seq::empty());
        while i < outpoints.len()
            invariant
                i <= outpoints@.len(),
                r@ == waiting_among(self.mempool@.spent, outpoints@.subrange(0, i as int)),
            decreases outpoints@.len() - i,
        {
            assert(outpoints@.subrange(0, i + 1).drop_last() =~= outpoints@.subrange(0, i as int));
            match self.mempool.spent_utxos.get(&outpoints[i]) {
                Some(inpoint) => r.push((outpoints[i], *inpoint)),
                None => {},
            }
            i += 1;
        }
        assert(outpoints@.subrange(0, i as int) =~= outpoints@);
        r
    }

    /// The block of the current chain at a height. `ancestors` is the tip, its
    /// parent, and so on.
    pub fn try_get_block_hash(&self, ancestors: &Vec<BlockHash>, height: u32) -> (r: Option<
        BlockHash,
    >)
        ensures
            r == match (self.state.tip, self.state.height) {
                (Some(_), Some(tip_height)) => if tip_height >= height && tip_height - height
                    < ancestors@.len() {
                    Some(ancestors@[tip_height - height])
                } else {
                    None
                },
                _ => None,
            },
    {
        match (self.state.tip, self.state.height) {
            (Some(_), Some(tip_height)) => {
                if tip_height >= height && ((tip_height - height) as usize) < ancestors.len() {
                    Some(ancestors[(tip_height - height) as usize])
                } else {
                    None
                }
            },
            _ => None,
        }
    }

    /// Whether a block is the one of the current chain at its height. What is kept
    /// by height is kept for this block alone.
    pub fn is_in_current_chain(
        &self,
        ancestors: &Vec<BlockHash>,
        block_hash: &BlockHash,
        height: u32,
    ) -> (r: bool)
        ensures
            r == match (self.state.tip, self.state.height) {
                (Some(_), Some(tip_height)) => tip_height >= height && tip_height - height
                    < ancestors@.len() && ancestors@[tip_height - height] == *block_hash,
                _ => false,
            },
    {
        match self.try_get_block_hash(ancestors, height) {
            Some(hash) => hash == *block_hash,
            None => false,
        }
    }

    /// A transaction: the one at its place in the block that includes it, or the
    /// one that waits for a block.
    pub fn try_get_transaction(
        &self,
        inclusion: Option<(BlockHash, &Body, u32)>,
        txid: &Txid,
    ) -> (r: Result<Option<Transaction>, Error>)
        ensures
            match inclusion {
                Some((block_hash, body, index)) => if index < body.transactions@.len() {
                    r == Ok::<Option<Transaction>, Error>(Some(body.transactions@[index as int]))
                } else {
                    r == Err::<Option<Transaction>, Error>(
                        Error::InvalidTransaction {
                            reason: Reason::TxIndexOutOfBounds { index, block_hash },
                        },
                    )
                },
                None => r == Ok::<Option<Transaction>, Error>(
                    if self.mempool@.txs.dom().contains(*txid) {
                        Some(self.mempool@.txs[*txid].transaction)
                    } else {
                        None
                    },
                ),
            },
    {
        match inclusion {
            Some((block_hash, body, index)) => {
                if (index as usize) < body.transactions.len() {
                    Ok(Some(body.transactions[index as usize].duplicate()))
                } else {
                    Err(
                        Error::InvalidTransaction {
                            reason: Reason::TxIndexOutOfBounds { index, block_hash },
                        },
                    )
                }
            },
            None => match self.mempool.transactions.get(txid) {
                Some(tx) => Ok(Some(tx.transaction.duplicate())),
                None => Ok(None),
            },
        }
    }
}

} // verus!
