//! What holds of blocks that are submitted to a node.

use vstd::prelude::*;

use crate::node::blocks::{step_after, SubmitEvent, SubmitStep};
use crate::node::mainchain::{ask, AncestorStep};
use crate::types::{BlockHash, MainBlockHash};

verus! {

/// A block whose parent is known, whose mainchain block is there and commits to it, and
/// of which no more than its own body is missing becomes the tip, step by step.
pub proof fn good_blocks_go_through(block_hash: BlockHash, bodies: Vec<BlockHash>)
    ensures
        step_after(
            SubmitStep::CheckParent,
            SubmitEvent::Parent { has_parent: true, known: true },
            block_hash,
        ) == SubmitStep::RequestAncestors,
        step_after(
            SubmitStep::CheckParent,
            SubmitEvent::Parent { has_parent: false, known: false },
            block_hash,
        ) == SubmitStep::RequestAncestors,
        step_after(
            SubmitStep::RequestAncestors,
            SubmitEvent::Ancestors { available: true },
            block_hash,
        ) == SubmitStep::StoreHeader,
        step_after(
            SubmitStep::StoreHeader,
            SubmitEvent::Committed { verified: true },
            block_hash,
        ) == SubmitStep::CheckBodies,
        bodies@.len() == 0 ==> step_after(
            SubmitStep::CheckBodies,
            SubmitEvent::MissingBodies(bodies),
            block_hash,
        ) == SubmitStep::NewTip,
        bodies@.len() == 1 && bodies@[0] == block_hash ==> step_after(
            SubmitStep::CheckBodies,
            SubmitEvent::MissingBodies(bodies),
            block_hash,
        ) == SubmitStep::StoreBody,
        step_after(SubmitStep::StoreBody, SubmitEvent::BodyStored, block_hash)
            == SubmitStep::NewTip,
        step_after(SubmitStep::NewTip, SubmitEvent::TipSet { accepted: true }, block_hash)
            == SubmitStep::Accepted,
{
}

/// A block is refused where one of these is not so.
pub proof fn bad_blocks_are_refused(block_hash: BlockHash, bodies: Vec<BlockHash>)
    ensures
        step_after(
            SubmitStep::CheckParent,
            SubmitEvent::Parent { has_parent: true, known: false },
            block_hash,
        ) == SubmitStep::Rejected,
        step_after(
            SubmitStep::RequestAncestors,
            SubmitEvent::Ancestors { available: false },
            block_hash,
        ) == SubmitStep::Rejected,
        step_after(
            SubmitStep::StoreHeader,
            SubmitEvent::Committed { verified: false },
            block_hash,
        ) == SubmitStep::Rejected,
        bodies@.len() > 1 ==> step_after(
            SubmitStep::CheckBodies,
            SubmitEvent::MissingBodies(bodies),
            block_hash,
        ) == SubmitStep::Rejected,
        bodies@.len() == 1 && bodies@[0] != block_hash ==> step_after(
            SubmitStep::CheckBodies,
            SubmitEvent::MissingBodies(bodies),
            block_hash,
        ) == SubmitStep::Rejected,
        step_after(SubmitStep::NewTip, SubmitEvent::TipSet { accepted: false }, block_hash)
            == SubmitStep::Rejected,
{
}

/// Headers are asked for twenty thousand at a time, with the one that was asked for.
pub proof fn headers_are_asked_for_in_batches(hash: MainBlockHash)
    ensures
        ask(hash) == (AncestorStep::Ask { block_hash: hash, max_ancestors: 19_999 }),
{
}

} // verus!
