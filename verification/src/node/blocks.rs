//! What becomes of a submitted block.

use vstd::prelude::*;

use crate::types::BlockHash;

verus! {

/// Where a submitted block stands.
#[derive(Clone, Copy, Debug, PartialEq, Eq, Structural)]
pub enum SubmitStep {
    /// Look whether the header of its parent is known.
    CheckParent,
    /// Ask for the ancestors of the mainchain block that commits to it.
    RequestAncestors,
    /// Store its header, if the mainchain block commits to it.
    StoreHeader,
    /// List the bodies that are missing back to the current chain.
    CheckBodies,
    /// Store its body.
    StoreBody,
    /// Make it the tip.
    NewTip,
    Accepted,
    Rejected,
}

/// What a node learns about a submitted block.
#[derive(Debug)]
pub enum SubmitEvent {
    /// The header of the parent is known; a first block has no parent.
    Parent { has_parent: bool, known: bool },
    /// The mainchain block and its ancestors are there.
    Ancestors { available: bool },
    /// The mainchain block commits to the block.
    Committed { verified: bool },
    MissingBodies(Vec<BlockHash>),
    BodyStored,
    /// The block has become the tip.
    TipSet { accepted: bool },
}

/// The block after which none is missing is the block itself.
pub open spec fn only_itself(missing: Seq<BlockHash>, block_hash: BlockHash) -> bool {
    missing.len() == 1 && missing[0] == block_hash
}

/// The next step of a block. What is learned out of turn changes nothing.
pub open spec fn step_after(step: SubmitStep, event: SubmitEvent, block_hash: BlockHash)
    -> SubmitStep {
    match (step, event) {
        (SubmitStep::CheckParent, SubmitEvent::Parent { has_parent, known }) => if has_parent
            && !known {
            SubmitStep::Rejected
        } else {
            SubmitStep::RequestAncestors
        },
        (SubmitStep::RequestAncestors, SubmitEvent::Ancestors { available }) => if available {
            SubmitStep::StoreHeader
        } else {
            SubmitStep::Rejected
        },
        (SubmitStep::StoreHeader, SubmitEvent::Committed { verified }) => if verified {
            SubmitStep::CheckBodies
        } else {
            SubmitStep::Rejected
        },
        (SubmitStep::CheckBodies, SubmitEvent::MissingBodies(missing)) => if missing@.len() == 0 {
            SubmitStep::NewTip
        } else if only_itself(missing@, block_hash) {
            SubmitStep::StoreBody
        } else {
            SubmitStep::Rejected
        },
        (SubmitStep::StoreBody, SubmitEvent::BodyStored) => SubmitStep::NewTip,
        (SubmitStep::NewTip, SubmitEvent::TipSet { accepted }) => if accepted {
            SubmitStep::Accepted
        } else {
            SubmitStep::Rejected
        },
        (step, _) => step,
    }
}

/// Takes what is learned about a submitted block.
pub fn next_step(step: SubmitStep, event: &SubmitEvent, block_hash: &BlockHash) -> (r: SubmitStep)
    ensures
        r == step_after(step, *event, *block_hash),
{
    match (step, event) {
        (SubmitStep::CheckParent, SubmitEvent::Parent { has_parent, known }) => if *has_parent
            && !*known {
            SubmitStep::Rejected
        } else {
            SubmitStep::RequestAncestors
        },
        (SubmitStep::RequestAncestors, SubmitEvent::Ancestors { available }) => if *available {
            SubmitStep::StoreHeader
        } else {
            SubmitStep::Rejected
        },
        (SubmitStep::StoreHeader, SubmitEvent::Committed { verified }) => if *verified {
            SubmitStep::CheckBodies
        } else {
            SubmitStep::Rejected
        },
        (SubmitStep::CheckBodies, SubmitEvent::MissingBodies(missing)) => if missing.len() == 0 {
            SubmitStep::NewTip
        } else if missing.len() == 1 && missing[0] == *block_hash {
            SubmitStep::StoreBody
        } else {
            SubmitStep::Rejected
        },
        (SubmitStep::StoreBody, SubmitEvent::BodyStored) => SubmitStep::NewTip,
        (SubmitStep::NewTip, SubmitEvent::TipSet { accepted }) => if *accepted {
            SubmitStep::Accepted
        } else {
            SubmitStep::Rejected
        },
        (step, _) => step,
    }
}

/// A block that is decided stays decided.
pub proof fn decided_blocks_stay_decided(
    step: SubmitStep,
    event: SubmitEvent,
    block_hash: BlockHash,
)
    requires
        step is Accepted || step is Rejected,
    ensures
        step_after(step, event, block_hash) == step,
{
}

/// A block becomes the tip only when it is made so, after its header was stored
/// because the mainchain commits to it.
pub proof fn accepted_blocks_were_checked(
    step: SubmitStep,
    event: SubmitEvent,
    block_hash: BlockHash,
)
    ensures
        step_after(step, event, block_hash) is Accepted && !(step is Accepted) ==> step is NewTip
            && event == (SubmitEvent::TipSet { accepted: true }),
        step_after(step, event, block_hash) is CheckBodies && !(step is CheckBodies) ==> step
            is StoreHeader && event == (SubmitEvent::Committed { verified: true }),
{
}

} // verus!
