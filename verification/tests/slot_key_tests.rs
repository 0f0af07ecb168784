use std::collections::HashSet;

use rusty_render::slot_key::{SceneId, SlotKey};

/// The prune rule, without a GPU: this scene's live entities stay and dead ones go;
/// another scene's slots survive regardless — including one whose entity id collides
/// with a dead id of this scene.
#[test]
fn a_prune_of_one_scene_never_touches_another() {
    let (mine, theirs) = (SceneId(1), SceneId(2));
    let live: HashSet<u32> = [1, 2].into_iter().collect();

    // My scene: live entities stay, dead ones go.
    assert!(SlotKey::new(mine, 1).survives_prune(mine, &live));
    assert!(!SlotKey::new(mine, 9).survives_prune(mine, &live));

    // Another scene's slots survive regardless.
    assert!(SlotKey::new(theirs, 9).survives_prune(mine, &live));
    assert!(SlotKey::new(theirs, 1).survives_prune(mine, &live));
}

#[test]
fn the_key_distinguishes_the_same_entity_id_in_two_scenes() {
    let (a, b) = (SceneId(1), SceneId(2));
    assert_ne!(SlotKey::new(a, 1), SlotKey::new(b, 1));
    assert_eq!(SlotKey::new(a, 1), SlotKey::new(a, 1));
}
