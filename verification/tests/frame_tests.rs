use rusty_render::entity_uniform::{entity_flags, is_transparent, MaterialShape, RenderMode};
use rusty_render::frame_state::{
    draws_outline, plan_scene_pass, shadow_casters, split_solids, sync_reflection_cube, sync_skybox,
    take_global_rebuild, ReflectionAction, SelectionSlot, ShadowCandidate, SkyDraw, SkyboxAction, SolidCandidate,
};
use rusty_render::pipeline_specs::{
    pipeline_spec, Blend, Cull, DepthCompare, ForwardPipeline, Topology,
};
use rusty_render::particle_batches::{
    emitting_entities, group_particle_batches, instance_ranges, BatchKey, EmitterSlot, ParticleBlend,
};
use rusty_render::pass_clear::ClearFlags;
use rusty_render::particle_batches::ParticleBlend::{Additive, Alpha};

#[test]
fn skybox_loads_once_then_keeps_then_clears() {
    let mut loaded = String::new();
    let mut dirty = false;
    let sky = "sky/day.png".to_string();
    assert_eq!(
        sync_skybox(&mut loaded, &sky, false, &mut dirty),
        SkyboxAction::Load(sky.clone())
    );
    assert_eq!(loaded, sky);
    assert!(take_global_rebuild(&mut dirty));
    assert!(!dirty);
    // Same path next frame: nothing to do, no rebuild.
    assert_eq!(sync_skybox(&mut loaded, &sky, true, &mut dirty), SkyboxAction::Keep);
    assert!(!take_global_rebuild(&mut dirty));
    // The scene drops its panorama.
    assert_eq!(
        sync_skybox(&mut loaded, &String::new(), true, &mut dirty),
        SkyboxAction::Clear
    );
    assert_eq!(loaded, "");
    assert!(dirty);
    // Nothing bound and nothing named: keep.
    let mut clean = false;
    assert_eq!(
        sync_skybox(&mut loaded, &String::new(), false, &mut clean),
        SkyboxAction::Keep
    );
    assert!(!clean);
}

#[test]
fn reflection_cube_swaps_only_on_path_change() {
    let mut active = String::new();
    let mut dirty = false;
    let cube = "probes/hall.ktx2".to_string();
    assert_eq!(
        sync_reflection_cube(&mut active, &cube, &mut dirty),
        ReflectionAction::Load(cube.clone())
    );
    assert!(dirty);
    dirty = false;
    assert_eq!(sync_reflection_cube(&mut active, &cube, &mut dirty), ReflectionAction::Keep);
    assert!(!dirty);
    assert_eq!(
        sync_reflection_cube(&mut active, &String::new(), &mut dirty),
        ReflectionAction::Clear
    );
    assert!(dirty);
    assert_eq!(active, "");
}

#[test]
fn only_skybox_cameras_paint_the_backdrop() {
    let plan = plan_scene_pass(ClearFlags::Skybox, true, true, false);
    assert_eq!(plan.sky, SkyDraw::Panorama);
    assert!(plan.editor_overlays);
    assert!(plan.render_static_shadows);
    let plan = plan_scene_pass(ClearFlags::Skybox, false, false, true);
    assert_eq!(plan.sky, SkyDraw::Gradient);
    assert!(!plan.editor_overlays);
    assert!(!plan.render_static_shadows);
    assert_eq!(plan_scene_pass(ClearFlags::DepthOnly, true, false, true).sky, SkyDraw::Nothing);
    assert_eq!(plan_scene_pass(ClearFlags::SolidColor, true, false, true).sky, SkyDraw::Nothing);
}

fn cand(active: bool, is_static: bool, in_mask: bool, resident: bool, transparent: bool) -> SolidCandidate {
    SolidCandidate {
        active,
        is_static,
        in_culling_mask: in_mask,
        mesh_resident: resident,
        transparent,
    }
}

#[test]
fn solids_split_into_opaque_and_transparent() {
    let cs = vec![
        cand(true, true, true, true, false),
        cand(true, false, true, true, true),
        cand(false, true, true, true, false),
        cand(true, true, false, true, false),
        cand(true, true, true, false, false),
        cand(true, false, true, true, false),
    ];
    let split = split_solids(&cs, false);
    assert_eq!(split.opaque, vec![0, 5]);
    assert_eq!(split.transparent, vec![1]);
    // A static capture keeps dynamic actors out.
    let capture = split_solids(&cs, true);
    assert_eq!(capture.opaque, vec![0]);
    assert!(capture.transparent.is_empty());
}

fn emitter(active: bool, has: bool, live: usize, blend: ParticleBlend, sprite: u64) -> EmitterSlot {
    EmitterSlot {
        entity_active: active,
        has_emitter: has,
        live_particles: live,
        key: BatchKey { blend, sprite },
    }
}

#[test]
fn emitters_with_live_particles_in_scene_order() {
    let es = vec![
        emitter(true, true, 3, Alpha, 0),
        emitter(true, true, 0, Alpha, 0),
        emitter(false, true, 9, Alpha, 0),
        emitter(true, false, 0, Alpha, 0),
        emitter(true, true, 5, Alpha, 0),
    ];
    assert_eq!(emitting_entities(&es), vec![0, 4]);
}

#[test]
fn emitters_sharing_blend_and_sprite_share_a_batch() {
    let es = vec![
        emitter(true, true, 3, Additive, 7),
        emitter(true, true, 2, Alpha, 7),
        emitter(true, true, 4, Additive, 7),
        emitter(false, true, 9, Additive, 1),
        emitter(true, true, 1, Alpha, 0),
        emitter(true, true, 0, Alpha, 5),
    ];
    let g = group_particle_batches(&es);
    assert_eq!(
        g.keys,
        vec![
            BatchKey { blend: Additive, sprite: 7 },
            BatchKey { blend: Alpha, sprite: 7 },
            BatchKey { blend: Alpha, sprite: 0 },
        ]
    );
    assert_eq!(g.batch_of, vec![Some(0), Some(1), Some(0), None, Some(2), None]);
    assert!(group_particle_batches(&vec![]).keys.is_empty());
}

#[test]
fn outline_only_for_an_active_resident_selection_in_the_editor() {
    let sel = SelectionSlot { active: true, has_mesh: true, mesh_resident: true };
    assert!(draws_outline(true, Some(sel)));
    assert!(!draws_outline(false, Some(sel)));
    assert!(!draws_outline(true, None));
    assert!(!draws_outline(true, Some(SelectionSlot { active: false, ..sel })));
    assert!(!draws_outline(true, Some(SelectionSlot { mesh_resident: false, ..sel })));
    assert!(!draws_outline(true, Some(SelectionSlot { has_mesh: false, ..sel })));
}

#[test]
fn instance_ranges_lay_batches_end_to_end() {
    assert_eq!(instance_ranges(&vec![3, 5, 2]), vec![(0, 3), (3, 5), (8, 2)]);
    assert!(instance_ranges(&vec![]).is_empty());
}

fn caster(active: bool, is_static: bool, resident: bool, skinned: bool, in_volume: bool) -> ShadowCandidate {
    ShadowCandidate { active, is_static, mesh_resident: resident, skinned, in_light_volume: in_volume }
}

#[test]
fn shadow_casters_cull_against_the_light_but_keep_skinned() {
    let cs = vec![
        caster(true, false, true, false, true),
        caster(true, false, true, false, false),
        caster(true, false, true, true, false),
        caster(true, true, true, false, true),
        caster(false, false, true, true, true),
        caster(true, false, false, true, true),
    ];
    assert_eq!(shadow_casters(&cs, false), vec![0, 2]);
    assert_eq!(shadow_casters(&cs, true), vec![3]);
}

#[test]
fn uniform_flags_follow_the_material() {
    let cutout = MaterialShape { maps: [true, false, true, false, true], render_mode: RenderMode::Cutout };
    let f = entity_flags(false, Some(cutout));
    assert_eq!(
        (f.use_texture, f.use_metallic_map, f.use_roughness_map, f.use_normal_map, f.use_emissive_map),
        (1, 0, 1, 0, 1)
    );
    assert_eq!(f.is_lit, 1);
    assert_eq!(f.use_cutout, 1);
    assert!(!is_transparent(Some(cutout)));
    let glass = MaterialShape { maps: [false; 5], render_mode: RenderMode::Transparent };
    assert!(is_transparent(Some(glass)));
    assert_eq!(entity_flags(false, Some(glass)).use_cutout, 0);
    // A light source is drawn unlit; no material samples nothing.
    let lamp = entity_flags(true, None);
    assert_eq!(lamp.is_lit, 0);
    assert_eq!(lamp.use_texture + lamp.use_cutout + lamp.use_normal_map, 0);
    assert!(!is_transparent(None));
}

#[test]
fn forward_target_pipelines_differ_only_in_their_knobs() {
    let forward = pipeline_spec(ForwardPipeline::Forward);
    assert_eq!((forward.topology, forward.cull, forward.blend), (Topology::TriangleList, Cull::Nothing, Blend::Replace));
    assert!(forward.depth_write);
    assert_eq!(forward.depth_compare, DepthCompare::Less);
    let glass = pipeline_spec(ForwardPipeline::Transparent);
    assert_eq!(glass.blend, Blend::AlphaBlending);
    assert!(!glass.depth_write);
    assert_eq!(glass.depth_compare, DepthCompare::Less);
    let line = pipeline_spec(ForwardPipeline::Line);
    assert_eq!((line.topology, line.depth_compare), (Topology::LineList, DepthCompare::LessEqual));
    assert!(!line.depth_write);
    let outline = pipeline_spec(ForwardPipeline::Outline);
    assert_eq!((outline.cull, outline.blend), (Cull::FrontFaces, Blend::Replace));
    assert!(outline.depth_write);
    assert_eq!(outline.depth_compare, DepthCompare::LessEqual);
}
