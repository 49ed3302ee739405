//! The integer decisions of the path integrator: when a path stops
//! bouncing, when Russian roulette may cut it, and which entries of the
//! cumulative light-weight table describe the light that was drawn.

use vstd::prelude::*;

verus! {

/// The depth at which a path stops bouncing and contributes nothing more.
pub const MAX_DEPTH: u32 = 50;

/// The deepest bounce that Russian roulette never cuts.
pub const ROULETTE_FREE_DEPTH: u32 = 2;

/// What a path does at a given bounce depth.
#[derive(Clone, Copy, Debug, PartialEq, Eq)]
pub enum BouncePlan {
    /// The path is too deep: it contributes no light.
    Stop,
    /// The path is traced; if `roulette` holds, Russian roulette may end it
    /// after this hit, and a further bounce is traced at `next_depth`.
    Continue { roulette: bool, next_depth: u32 },
}

/// The plan for a path at `depth`: stop at `MAX_DEPTH` and beyond, else
/// trace, with Russian roulette only past `ROULETTE_FREE_DEPTH`, and bounce
/// one level deeper.
pub open spec fn bounce_plan(depth: u32) -> BouncePlan {
    if depth >= MAX_DEPTH {
        BouncePlan::Stop
    } else {
        BouncePlan::Continue { roulette: depth > ROULETTE_FREE_DEPTH, next_depth: (depth + 1) as u32 }
    }
}

/// Decides what a path at `depth` does.
pub fn plan_bounce(depth: u32) -> (plan: BouncePlan)
    ensures
        plan == bounce_plan(depth),
        plan is Stop <==> depth >= 50,
        plan matches BouncePlan::Continue { roulette, next_depth }
            ==> roulette == (depth > 2) && next_depth == depth + 1,
{
    if depth >= MAX_DEPTH {
        BouncePlan::Stop
    } else {
        BouncePlan::Continue { roulette: depth > ROULETTE_FREE_DEPTH, next_depth: depth + 1 }
    }
}

/// The number of hits that a path starting at `depth` is traced through
/// when no hit ends it early, following `bounce_plan`.
pub open spec fn traced_hits(depth: u32) -> nat
    decreases MAX_DEPTH - depth,
{
    match bounce_plan(depth) {
        BouncePlan::Stop => 0,
        BouncePlan::Continue { next_depth, .. } => {
            if next_depth > depth { 1 + traced_hits(next_depth) } else { 0 }
        },
    }
}

/// The number of those hits after which Russian roulette may end the path.
pub open spec fn roulette_hits(depth: u32) -> nat
    decreases MAX_DEPTH - depth,
{
    match bounce_plan(depth) {
        BouncePlan::Stop => 0,
        BouncePlan::Continue { roulette, next_depth } => {
            if next_depth > depth {
                (if roulette { 1nat } else { 0nat }) + roulette_hits(next_depth)
            } else {
                0
            }
        },
    }
}

/// Every bounce goes one level deeper, so a path is traced through at most
/// `MAX_DEPTH - depth` hits: a camera path, from depth 0, through at most 50,
/// of which the first three are never cut by Russian roulette.
pub proof fn lemma_paths_are_bounded(depth: u32)
    ensures
        bounce_plan(depth) matches BouncePlan::Continue { next_depth, .. } ==> next_depth == depth + 1,
        traced_hits(depth) == if depth >= MAX_DEPTH { 0 } else { (MAX_DEPTH - depth) as nat },
        roulette_hits(depth) == if depth >= MAX_DEPTH {
            0
        } else if depth > ROULETTE_FREE_DEPTH {
            (MAX_DEPTH - depth) as nat
        } else {
            (MAX_DEPTH - ROULETTE_FREE_DEPTH - 1) as nat
        },
    decreases MAX_DEPTH - depth,
{
    if depth < MAX_DEPTH {
        lemma_paths_are_bounded((depth + 1) as u32);
    }
}

/// The entries of the cumulative light-weight table that belong to the
/// light drawn: the light's own slot, and the slot before it, whose
/// cumulative weight is subtracted to get the light's weight (none for the
/// first light, whose weight is its own entry).
#[derive(Clone, Copy, Debug, PartialEq, Eq)]
pub struct LightSlot {
    pub slot: usize,
    pub previous: Option<usize>,
}

/// The slot of the light drawn when the search of the cumulative table
/// stopped at `found` among `light_count` lights: `found`, or the last
/// slot when the search ran past the end.
pub fn light_slot(found: usize, light_count: usize) -> (chosen: LightSlot)
    requires
        light_count > 0,
    ensures
        chosen.slot == if found < light_count { found } else { (light_count - 1) as usize },
        chosen.slot < light_count,
        chosen.previous == if chosen.slot == 0 { None } else { Some((chosen.slot - 1) as usize) },
{
    let slot = if found < light_count - 1 { found } else { light_count - 1 };
    let previous = if slot == 0 { None } else { Some(slot - 1) };
    LightSlot { slot, previous }
}

} // verus!
