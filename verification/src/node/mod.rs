//! What a node decides: which transactions go into a block, what becomes of a
//! submitted transaction or block, and what to ask the mainchain for.

use vstd::prelude::*;

use crate::mempool::MemPool;
use crate::state::State;

pub mod block_laws;
pub mod blocks;
pub mod lookup;
pub mod lookup_laws;
pub mod mainchain;
pub mod queries;
pub mod submit;
pub mod submit_laws;
pub mod template;
pub mod template_laws;

verus! {

pub struct Node {
    pub state: State,
    pub mempool: MemPool,
}

} // verus!
