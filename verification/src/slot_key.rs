//! The per-scene key every pooled GPU resource lives under.
//!
//! Entity ids restart at 1 in every fresh world, so the entity id alone is not a key:
//! two scenes rendered in the same frame would share slots and evict each other's.
//! Pairing it with the scene's identity makes the key globally unique, and the rule for
//! which slots a prune may drop is one named predicate shared by every pool.

use vstd::prelude::*;
use std::collections::HashSet;

verus! {

broadcast use vstd::std_specs::hash::group_hash_axioms;

/// Identity of a scene whose entities own pooled slots.
#[derive(Clone, Copy, Debug, PartialEq, Eq, Hash, Structural)]
pub struct SceneId(pub u64);

/// What a pooled slot belongs to: an entity *within a scene*.
#[derive(Clone, Copy, Debug, PartialEq, Eq, Hash, Structural)]
pub struct SlotKey {
    pub scene: SceneId,
    pub entity: u32,
}

/// A slot under `key` survives a prune of `scene` against the `live` entity set: another
/// scene's slots always survive, this scene's survive only while their entity is live.
pub open spec fn survives(key: SlotKey, scene: SceneId, live: Set<u32>) -> bool {
    key.scene != scene || live.contains(key.entity)
}

impl SlotKey {
    pub fn new(scene: SceneId, entity: u32) -> (key: Self)
        ensures
            key.scene == scene,
            key.entity == entity,
    {
        Self { scene, entity }
    }

    /// Whether a slot under this key survives a prune of `scene` against its `live`
    /// entity set.
    pub fn survives_prune(&self, scene: SceneId, live: &HashSet<u32>) -> (r: bool)
        ensures
            r == survives(*self, scene, live@),
    {
        self.scene != scene || live.contains(&self.entity)
    }
}

/// A prune of one scene never touches another scene's slots, whatever its live set.
pub proof fn lemma_prune_spares_other_scenes(key: SlotKey, scene: SceneId, live: Set<u32>)
    requires
        key.scene != scene,
    ensures
        survives(key, scene, live),
{
}

/// Within the pruned scene a slot survives exactly while its entity is live.
pub proof fn lemma_prune_keeps_exactly_live(key: SlotKey, scene: SceneId, live: Set<u32>)
    requires
        key.scene == scene,
    ensures
        survives(key, scene, live) <==> live.contains(key.entity),
{
}

/// Keys are equal exactly when both the scene and the entity id agree, so the same
/// entity id in two scenes names two different slots.
pub proof fn lemma_key_identity(s1: SceneId, e1: u32, s2: SceneId, e2: u32)
    ensures
        (SlotKey { scene: s1, entity: e1 } == SlotKey { scene: s2, entity: e2 }) <==> (s1 == s2 && e1 == e2),
{
}

} // verus!
