//! What to ask the mainchain for.

use vstd::prelude::*;

use crate::bytes::append;
use crate::types::MainBlockHash;

verus! {

/// How many headers are asked for at once, with the one that is named.
pub const BATCH_REQUEST_SIZE: u32 = 20_000;

/// A header of the mainchain.
#[derive(Clone, Copy, Debug)]
pub struct MainHeaderInfo {
    pub block_hash: MainBlockHash,
    pub prev_block_hash: MainBlockHash,
    pub height: u32,
}

/// The hash that stands for no block.
pub open spec fn is_no_block(hash: MainBlockHash) -> bool {
    forall|i: int| 0 <= i < 32 ==> #[trigger] hash.0@[i] == 0
}

fn names_no_block(hash: &MainBlockHash) -> (r: bool)
    ensures
        r == is_no_block(*hash),
{
    let mut i: usize = 0;
    while i < 32
        invariant
            i <= 32,
            forall|j: int| 0 <= j < i ==> #[trigger] hash.0@[j] == 0,
        decreases 32 - i,
    {
        if hash.0[i] != 0 {
            assert(hash.0@[i as int] != 0);
            return false;
        }
        i += 1;
    }
    true
}

/// What is to be done next to know a block of the mainchain and all its
/// ancestors.
#[derive(Clone, Copy, Debug)]
pub enum AncestorStep {
    /// Ask for a header and so many of its ancestors.
    Ask { block_hash: MainBlockHash, max_ancestors: u32 },
    /// Look whether a header is known.
    LookUp { block_hash: MainBlockHash },
    /// Store what was gathered.
    Store,
    /// The block is there, or it is not.
    Done { available: bool },
}

/// The headers that were gathered on the way back from a block, the latest
/// first.
pub struct AncestorWalk {
    pub infos: Vec<MainHeaderInfo>,
    pub step: AncestorStep,
}

pub open spec fn ask(block_hash: MainBlockHash) -> AncestorStep {
    AncestorStep::Ask { block_hash, max_ancestors: (BATCH_REQUEST_SIZE - 1) as u32 }
}

impl AncestorWalk {
    /// Starts with a block. `known` says whether its header is known.
    pub fn new(block_hash: MainBlockHash, known: bool) -> (r: Self)
        ensures
            r.infos@.len() == 0,
            r.step == if is_no_block(block_hash) || known {
                AncestorStep::Done { available: true }
            } else {
                ask(block_hash)
            },
    {
        let step = if names_no_block(&block_hash) || known {
            AncestorStep::Done { available: true }
        } else {
            AncestorStep::Ask { block_hash, max_ancestors: BATCH_REQUEST_SIZE - 1 }
        };
        AncestorWalk { infos: Vec::new(), step }
    }

    /// Takes the answer to a question: headers, the one that was asked for
    /// first and each with its parent behind it, or nothing if the mainchain
    /// does not have the block.
    pub fn answer(&mut self, infos: &Option<Vec<MainHeaderInfo>>)
        requires
            *infos matches Some(list) ==> list@.len() > 0,
        ensures
            match *infos {
                None => {
                    &&& final(self).step == (AncestorStep::Done { available: false })
                    &&& final(self).infos@ == old(self).infos@
                },
                Some(list) => {
                    let prev = list@.last().prev_block_hash;
                    &&& final(self).infos@ == old(self).infos@ + list@
                    &&& final(self).step == if is_no_block(prev) {
                        AncestorStep::Store
                    } else {
                        AncestorStep::LookUp { block_hash: prev }
                    }
                },
            },
    {
        match infos {
            None => {
                self.step = AncestorStep::Done { available: false };
            },
            Some(list) => {
                let n: usize = list.len();
                let prev = list[n - 1].prev_block_hash;
                append(&mut self.infos, list.as_slice());
                self.step = if names_no_block(&prev) {
                    AncestorStep::Store
                } else {
                    AncestorStep::LookUp { block_hash: prev }
                };
            },
        }
    }

    /// Takes the answer to a look-up: where the header is not known, it is
    /// asked for.
    pub fn looked_up(&mut self, known: bool)
        ensures
            final(self).infos == old(self).infos,
            final(self).step == match old(self).step {
                AncestorStep::LookUp { block_hash } => if known {
                    AncestorStep::Store
                } else {
                    ask(block_hash)
                },
                other => other,
            },
    {
        match self.step {
            AncestorStep::LookUp { block_hash } => {
                self.step = if known {
                    AncestorStep::Store
                } else {
                    AncestorStep::Ask { block_hash, max_ancestors: BATCH_REQUEST_SIZE - 1 }
                };
            },
            _ => {},
        }
    }

    /// What is to be stored, the earliest header first.
    pub fn into_stored(self) -> (r: Vec<MainHeaderInfo>)
        ensures
            r@ == self.infos@.reverse(),
    {
        let n: usize = self.infos.len();
        let mut r: Vec<MainHeaderInfo> = Vec::new();
        let mut i: usize = n;
        while i > 0
            invariant
                i <= n == self.infos@.len(),
                r@ == self.infos@.reverse().subrange(0, n - i),
            decreases i,
        {
            i -= 1;
            r.push(self.infos[i]);
            assert(r@ =~= self.infos@.reverse().subrange(0, n - i));
        }
        assert(self.infos@.reverse().subrange(0, n as int) =~= self.infos@.reverse());
        r
    }
}

/// Each header is the parent of the one before it.
pub open spec fn is_chain(infos: Seq<MainHeaderInfo>) -> bool {
    forall|i: int|
        0 <= i < infos.len() - 1 ==> (#[trigger] infos[i]).prev_block_hash == infos[i + 1].block_hash
}

/// Headers are stored after their parents: where answers are chains that start
/// at the header asked for, what is gathered is a chain, and it is stored from
/// its end.
pub proof fn parents_are_stored_first(infos: Seq<MainHeaderInfo>, more: Seq<MainHeaderInfo>)
    requires
        is_chain(infos),
        is_chain(more),
        more.len() > 0,
        infos.len() > 0 ==> more[0].block_hash == infos.last().prev_block_hash,
    ensures
        is_chain(infos + more),
        forall|i: int|
            0 < i < (infos + more).len() ==> (#[trigger] (infos + more).reverse()[i]).prev_block_hash
                == (infos + more).reverse()[i - 1].block_hash,
{
    let all = infos + more;
    assert forall|i: int| 0 <= i < all.len() - 1 implies (#[trigger] all[i]).prev_block_hash
        == all[i + 1].block_hash by {
        if i + 1 < infos.len() {
            assert(infos[i].prev_block_hash == infos[i + 1].block_hash);
        } else if i + 1 == infos.len() {
            assert(all[i] == infos.last());
            assert(all[i + 1] == more[0]);
        } else {
            let j = i - infos.len();
            assert(more[j].prev_block_hash == more[j + 1].block_hash);
            assert(all[i] == more[j] && all[i + 1] == more[j + 1]);
        }
    }
    let stored = all.reverse();
    assert forall|i: int| 0 < i < all.len() implies (#[trigger] stored[i]).prev_block_hash
        == stored[i - 1].block_hash by {
        let j = all.len() - 1 - i;
        assert(stored[i] == all[j] && stored[i - 1] == all[j + 1]);
        assert(all[j].prev_block_hash == all[j + 1].block_hash);
    }
}

} // verus!
