use vstd::prelude::*;

verus! {

/// Depth at which a light path is cut off: no bounce is traced from a vertex
/// at this depth or deeper.
pub const MAX_DEPTH: i32 = 50;

/// What the scene reported for the ray traced at one path vertex.
#[derive(Debug, Clone, Copy, PartialEq, Eq)]
pub enum Interaction {
    /// The ray left the scene.
    Miss,
    /// The ray hit a surface that gave no scattered ray.
    Absorbed,
    /// The ray hit a surface whose material scattered it.
    Scattered,
}

/// What the integrator does with one path vertex.
#[derive(Debug, Clone, Copy, PartialEq, Eq)]
pub enum PathStep {
    /// End the path with the sky colour.
    Background,
    /// End the path with the surface's own emission.
    Emit,
    /// Add the emission to the attenuated colour of the scattered ray, traced
    /// at the given depth.
    Bounce { depth: i32 },
}

/// Whether a material is asked to scatter at this depth.
pub open spec fn spec_may_scatter(depth: int) -> bool {
    depth < MAX_DEPTH
}

pub open spec fn spec_next_step(depth: int, event: Interaction) -> PathStep {
    match event {
        Interaction::Miss => PathStep::Background,
        Interaction::Absorbed => PathStep::Emit,
        Interaction::Scattered => if spec_may_scatter(depth) {
            PathStep::Bounce { depth: (depth + 1) as i32 }
        } else {
            PathStep::Emit
        },
    }
}

/// Whether the material at a vertex of this depth is asked to scatter; past
/// the limit its scattered ray would be ignored anyway.
pub fn may_scatter(depth: i32) -> (r: bool)
    ensures
        r == spec_may_scatter(depth as int),
{
    depth < MAX_DEPTH
}

/// The integrator's decision at a vertex of the given depth: a hard,
/// unweighted cut-off, no Russian roulette.
pub fn next_step(depth: i32, event: Interaction) -> (r: PathStep)
    ensures
        r == spec_next_step(depth as int, event),
        r matches PathStep::Bounce { depth: d } ==> d == depth + 1 && d <= MAX_DEPTH,
{
    match event {
        Interaction::Miss => PathStep::Background,
        Interaction::Absorbed => PathStep::Emit,
        Interaction::Scattered => {
            if may_scatter(depth) {
                PathStep::Bounce { depth: depth + 1 }
            } else {
                PathStep::Emit
            }
        },
    }
}

/// At or beyond the depth limit a path never bounces again: whatever the
/// scene reports, the vertex ends the path with the background or with the
/// surface's own emission alone.
pub proof fn lemma_depth_cutoff(depth: int, event: Interaction)
    requires
        depth >= MAX_DEPTH,
    ensures
        !(spec_next_step(depth, event) is Bounce),
        event != Interaction::Miss ==> spec_next_step(depth, event) == PathStep::Emit,
{
}

} // verus!
