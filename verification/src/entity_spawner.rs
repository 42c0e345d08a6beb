//! How an entity spawner follows its list of items: the entity at each
//! position is reused for the item at that position, entities are spawned
//! for added items and despawned for removed ones.
use vstd::prelude::*;

verus! {

/// What to do with the spawner's entities, by position.
#[derive(Debug, Clone, Copy, PartialEq, Eq, Structural)]
pub struct EntitySyncPlan {
    /// Positions `0..update` keep their entity, updated for the item there.
    pub update: usize,
    /// Positions `spawn_from..spawn_to` get a new entity.
    pub spawn_from: usize,
    pub spawn_to: usize,
    /// The entities at positions `despawn_from..despawn_to` are despawned.
    pub despawn_from: usize,
    pub despawn_to: usize,
}

/// The plan for `existing` entities and `target` items.
pub fn entity_sync_plan(existing: usize, target: usize) -> (plan: EntitySyncPlan)
    ensures
        plan.update == if existing < target { existing } else { target },
        plan.spawn_from == existing,
        plan.spawn_to == if existing < target { target } else { existing },
        plan.despawn_from == if existing < target { existing } else { target },
        plan.despawn_to == existing,
        // every item has exactly one entity afterwards
        plan.update + (plan.spawn_to - plan.spawn_from) == target,
        existing - (plan.despawn_to - plan.despawn_from) == plan.update,
{
    if existing < target {
        EntitySyncPlan { update: existing, spawn_from: existing, spawn_to: target, despawn_from: existing, despawn_to: existing }
    } else {
        EntitySyncPlan { update: target, spawn_from: existing, spawn_to: existing, despawn_from: target, despawn_to: existing }
    }
}

} // verus!
