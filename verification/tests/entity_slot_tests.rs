use std::collections::HashSet;

use rusty_render::entity_slots::{
    active_material_map_paths, bone_palette, material_signature, resolved_key, same_signature,
    EntityMaterial, SlotSync, SlotTable, MAX_BONES,
};
use rusty_render::slot_key::{SceneId, SlotKey};

fn s(text: &str) -> String {
    text.to_string()
}

fn sig(paths: [&str; 5]) -> [String; 5] {
    paths.map(|p| p.to_string())
}

#[test]
fn a_map_resolves_to_its_path_only_once_resident() {
    let resident = vec![s("tex/albedo.png"), s("tex/normal.png")];
    assert_eq!(resolved_key(&Some(s("tex/albedo.png")), &resident), "tex/albedo.png");
    assert_eq!(resolved_key(&Some(s("tex/rough.png")), &resident), "");
    assert_eq!(resolved_key(&None, &resident), "");
}

#[test]
fn signature_keeps_map_order() {
    let resident = vec![s("a.png"), s("e.png")];
    let maps = [Some(s("a.png")), None, Some(s("r.png")), None, Some(s("e.png"))];
    let got = material_signature(&maps, &resident);
    assert_eq!(got, sig(["a.png", "", "", "", "e.png"]));
    assert!(same_signature(&got, &sig(["a.png", "", "", "", "e.png"])));
    assert!(!same_signature(&got, &sig(["a.png", "", "r.png", "", "e.png"])));
}

#[test]
fn second_frame_reuses_every_slot() {
    let scene = SceneId(1);
    let mut table = SlotTable::new();
    let plain = sig(["", "", "", "", ""]);
    assert_eq!(table.sync(SlotKey::new(scene, 1), plain.clone()), SlotSync::Create);
    assert_eq!(table.sync(SlotKey::new(scene, 2), plain.clone()), SlotSync::Create);
    // The next frame: same entities, same maps.
    assert_eq!(
        table.sync(SlotKey::new(scene, 1), plain.clone()),
        SlotSync::Refresh { rebuild_material: false }
    );
    assert_eq!(
        table.sync(SlotKey::new(scene, 2), plain),
        SlotSync::Refresh { rebuild_material: false }
    );
    assert!(table.contains(SlotKey::new(scene, 1)));
    assert!(!table.contains(SlotKey::new(scene, 3)));
}

#[test]
fn late_loaded_texture_rebuilds_the_material() {
    let key = SlotKey::new(SceneId(4), 7);
    let maps = [Some(s("wood.png")), None, None, None, None];
    let mut table = SlotTable::new();
    let before = material_signature(&maps, &vec![]);
    assert_eq!(table.sync(key, before), SlotSync::Create);
    let after = material_signature(&maps, &vec![s("wood.png")]);
    assert_eq!(table.sync(key, after.clone()), SlotSync::Refresh { rebuild_material: true });
    assert_eq!(table.sync(key, after), SlotSync::Refresh { rebuild_material: false });
}

#[test]
fn prune_drops_only_dead_entities_of_the_pruned_scene() {
    let (mine, theirs) = (SceneId(1), SceneId(2));
    let plain = sig(["", "", "", "", ""]);
    let mut table = SlotTable::new();
    for key in [SlotKey::new(mine, 1), SlotKey::new(mine, 2), SlotKey::new(theirs, 2)] {
        table.sync(key, plain.clone());
    }
    let live: HashSet<u32> = [1].into_iter().collect();
    let dropped = table.prune(mine, &live);
    assert_eq!(dropped, vec![SlotKey::new(mine, 2)]);
    assert!(table.contains(SlotKey::new(mine, 1)));
    assert!(!table.contains(SlotKey::new(mine, 2)));
    assert!(table.contains(SlotKey::new(theirs, 2)));
    // The dropped entity comes back as a fresh slot.
    assert_eq!(table.sync(SlotKey::new(mine, 2), plain), SlotSync::Create);
}

#[test]
fn material_paths_of_active_entities_in_order() {
    let entities = vec![
        EntityMaterial {
            active: true,
            maps: Some([Some(s("a.png")), None, Some(s("r.png")), None, None]),
        },
        EntityMaterial {
            active: false,
            maps: Some([Some(s("hidden.png")), None, None, None, None]),
        },
        EntityMaterial { active: true, maps: None },
        EntityMaterial {
            active: true,
            maps: Some([None, None, None, Some(s("n.png")), Some(s("e.png"))]),
        },
    ];
    assert_eq!(
        active_material_map_paths(&entities),
        vec![s("a.png"), s("r.png"), s("n.png"), s("e.png")]
    );
}

#[test]
fn palette_is_padded_with_identity_and_capped() {
    let bones = bone_palette(&[7u32, 8, 9], 1u32);
    assert_eq!(bones.len(), MAX_BONES);
    assert_eq!(&bones[..4], &[7, 8, 9, 1]);
    assert!(bones[3..].iter().all(|&b| b == 1));
    let long: Vec<u32> = (0..100).collect();
    let capped = bone_palette(&long, 1u32);
    assert_eq!(capped, (0..64).collect::<Vec<u32>>());
}
