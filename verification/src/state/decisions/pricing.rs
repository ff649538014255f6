//! What it costs to claim a decision in a period.

use vstd::prelude::*;

verus! {

/// How many tiers of decisions a period has.
pub const TIER_COUNT: u64 = 5;

/// How many decisions a tier of a period can have.
pub const SLOTS_PER_TIER: u64 = 100;

/// How many decisions of a tier each mint unlocks.
pub const SLOTS_PER_TIER_PER_MINT: u64 = 5;

/// The pricing of a period.
#[derive(Clone, Copy, Debug, PartialEq, Eq, Structural)]
pub struct PeriodPricing {
    pub p_period: u64,
    pub p_floor: u64,
    pub mints: u64,
    pub claimed: u64,
    pub last_reprice_block: u32,
    pub window_open_claimed: u64,
    pub window_open_mints: u64,
}

/// A new period at a price, with some mints.
pub open spec fn fresh_pricing(p_period: u64, mints: u64, block_height: u32) -> PeriodPricing {
    PeriodPricing {
        p_period,
        p_floor: p_period / 16,
        mints,
        claimed: 0,
        last_reprice_block: block_height,
        window_open_claimed: 0,
        window_open_mints: mints,
    }
}

impl PeriodPricing {
    pub fn fresh(p_period: u64, mints: u64, block_height: u32) -> (r: Self)
        ensures
            r == fresh_pricing(p_period, mints, block_height),
    {
        PeriodPricing {
            p_period,
            p_floor: p_period / 16,
            mints,
            claimed: 0,
            last_reprice_block: block_height,
            window_open_claimed: 0,
            window_open_mints: mints,
        }
    }

    /// A period that has just come into sight: it has one mint.
    pub fn new_seeded(p_seed: u64, block_height: u32) -> (r: Self)
        ensures
            r == fresh_pricing(p_seed, 1, block_height),
    {
        PeriodPricing::fresh(p_seed, 1, block_height)
    }
}

/// A decision's place in its tier is unlocked by the mints.
pub open spec fn unlocked(decision_index: u32, mints: u64) -> bool {
    &&& (decision_index as int) / (SLOTS_PER_TIER as int) < TIER_COUNT
    &&& (decision_index as int) % (SLOTS_PER_TIER as int) < mints * SLOTS_PER_TIER_PER_MINT
}

pub fn slot_unlocked(decision_index: u32, mints: u64) -> (r: bool)
    ensures
        r == unlocked(decision_index, mints),
{
    let index: u64 = decision_index as u64;
    index / SLOTS_PER_TIER < TIER_COUNT && (index % SLOTS_PER_TIER) / SLOTS_PER_TIER_PER_MINT
        < mints
}

} // verus!
