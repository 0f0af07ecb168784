//! Per-frame renderer state decisions: when the skybox panorama and the reflection
//! cubemap are (re)loaded or dropped, when the global bind group must be rebuilt, and
//! what each camera's scene pass draws. Loading textures, building bind groups and
//! recording passes happen outside; these functions decide what is done.

use vstd::prelude::*;
use crate::pass_clear::ClearFlags;

verus! {

/// What to do with the skybox panorama this frame.
#[derive(Clone, Debug, PartialEq, Eq)]
pub enum SkyboxAction {
    /// Load the panorama at this path and bind it.
    Load(String),
    /// Drop the bound panorama: the scene no longer names one.
    Clear,
    /// Nothing changed.
    Keep,
}

/// The skybox step: load the scene's panorama when the scene names one that differs
/// from the loaded path; drop the bound panorama when the scene names none; otherwise
/// keep what is bound.
pub open spec fn skybox_step(loaded_path: Seq<char>, scene_path: Seq<char>, has_texture: bool) -> Option<
    Option<Seq<char>>,
> {
    if scene_path.len() != 0 && loaded_path != scene_path {
        Some(Some(scene_path))
    } else if scene_path.len() == 0 && has_texture {
        Some(None)
    } else {
        None
    }
}

/// The skybox step by situation: a non-empty scene panorama that differs from the loaded
/// one is loaded, whether or not a panorama is bound; a scene without a panorama drops
/// the bound one; in every other case (the same panorama again, or nothing named and
/// nothing bound) nothing happens.
pub proof fn lemma_skybox_step_cases(loaded_path: Seq<char>, scene_path: Seq<char>, has_texture: bool)
    ensures
        scene_path.len() != 0 && scene_path != loaded_path ==> skybox_step(loaded_path, scene_path, has_texture)
            == Some(Some(scene_path)),
        scene_path.len() == 0 && has_texture ==> skybox_step(loaded_path, scene_path, has_texture) == Some(
            None::<Seq<char>>,
        ),
        scene_path == loaded_path ==> skybox_step(loaded_path, scene_path, has_texture) is None || (scene_path.len()
            == 0 && has_texture),
        scene_path.len() == 0 && !has_texture ==> skybox_step(loaded_path, scene_path, has_texture) is None,
{
}

/// Update the loaded skybox path for this frame and say what to do with the bound
/// panorama. Any change marks the global bind group dirty.
pub fn sync_skybox(loaded_path: &mut String, scene_path: &String, has_texture: bool, global_dirty: &mut bool) -> (action: SkyboxAction)
    ensures
        match action {
            SkyboxAction::Load(p) => skybox_step(old(loaded_path)@, scene_path@, has_texture) == Some(Some(p@)),
            SkyboxAction::Clear => skybox_step(old(loaded_path)@, scene_path@, has_texture) == Some(
                None::<Seq<char>>,
            ),
            SkyboxAction::Keep => skybox_step(old(loaded_path)@, scene_path@, has_texture) is None,
        },
        final(loaded_path)@ == (match skybox_step(old(loaded_path)@, scene_path@, has_texture) {
            Some(Some(p)) => p,
            Some(None) => Seq::empty(),
            None => old(loaded_path)@,
        }),
        *final(global_dirty) == (*old(global_dirty) || skybox_step(old(loaded_path)@, scene_path@, has_texture) is Some),
        scene_path@.len() != 0 && scene_path@ != old(loaded_path)@ ==> (action matches SkyboxAction::Load(p) && p@
            == scene_path@) && final(loaded_path)@ == scene_path@ && *final(global_dirty),
        scene_path@.len() == 0 && has_texture ==> action == SkyboxAction::Clear && final(loaded_path)@.len() == 0
            && *final(global_dirty),
        !(scene_path@.len() != 0 && scene_path@ != old(loaded_path)@) && !(scene_path@.len() == 0 && has_texture)
            ==> action == SkyboxAction::Keep && final(loaded_path)@ == old(loaded_path)@ && *final(global_dirty)
            == *old(global_dirty),
{
    if !scene_path.as_str().is_empty() && *loaded_path != *scene_path {
        *loaded_path = scene_path.clone();
        *global_dirty = true;
        SkyboxAction::Load(scene_path.clone())
    } else if scene_path.as_str().is_empty() && has_texture {
        *loaded_path = String::new();
        *global_dirty = true;
        SkyboxAction::Clear
    } else {
        SkyboxAction::Keep
    }
}

/// What to do with the reflection cubemap this frame.
#[derive(Clone, Debug, PartialEq, Eq)]
pub enum ReflectionAction {
    /// Load the baked cube at this path (a failed load falls back to the skybox).
    Load(String),
    /// Drop the bound cube: no probe with a baked cube covers the camera.
    Clear,
    /// The active path is unchanged.
    Keep,
}

/// Update the active reflection-cube path (the covering probe's baked path, or empty)
/// and say what to do: nothing when it is unchanged, else load the new cube or drop it,
/// marking the global bind group dirty.
pub fn sync_reflection_cube(active_path: &mut String, probe_path: &String, global_dirty: &mut bool) -> (action: ReflectionAction)
    ensures
        final(active_path)@ == probe_path@,
        probe_path@ == old(active_path)@ ==> action == ReflectionAction::Keep && *final(global_dirty) == *old(
            global_dirty,
        ),
        probe_path@ != old(active_path)@ ==> *final(global_dirty),
        probe_path@ != old(active_path)@ && probe_path@.len() == 0 ==> action == ReflectionAction::Clear,
        probe_path@ != old(active_path)@ && probe_path@.len() != 0 ==> (action matches ReflectionAction::Load(p)
            && p@ == probe_path@),
{
    if *probe_path == *active_path {
        return ReflectionAction::Keep;
    }
    *active_path = probe_path.clone();
    *global_dirty = true;
    if probe_path.as_str().is_empty() {
        ReflectionAction::Clear
    } else {
        ReflectionAction::Load(probe_path.clone())
    }
}

/// Rebuild the global bind group only when something it binds changed; the rebuild
/// clears the flag. Returns whether to rebuild.
pub fn take_global_rebuild(global_dirty: &mut bool) -> (rebuild: bool)
    ensures
        rebuild == *old(global_dirty),
        !*final(global_dirty),
{
    let rebuild = *global_dirty;
    *global_dirty = false;
    rebuild
}

/// What the backdrop of a scene pass is.
#[derive(Clone, Copy, Debug, PartialEq, Eq, Structural)]
pub enum SkyDraw {
    /// Nothing: the camera is not a skybox camera.
    Nothing,
    /// The bound panorama.
    Panorama,
    /// The procedural sky-to-ground gradient, when no panorama is bound.
    Gradient,
}

/// What one camera's scene pass draws besides the solids.
#[derive(Clone, Copy, Debug, PartialEq, Eq, Structural)]
pub struct ScenePassPlan {
    /// Only a `Skybox` camera paints the backdrop; a `DepthOnly`/`SolidColor` overlay
    /// must not overwrite the world below it.
    pub sky: SkyDraw,
    /// Editor-only selection outline, grid, collider boxes, axis arrows and probe gizmos.
    pub editor_overlays: bool,
    /// The static shadow map has to be (re)rendered before the dynamic casters.
    pub render_static_shadows: bool,
}

/// Plan a scene pass: the backdrop by the camera's clear flags and whether a panorama
/// is bound, the overlays in editor mode only, the static shadow sweep only while the
/// cached static shadow map is missing.
pub fn plan_scene_pass(flags: ClearFlags, has_panorama: bool, editor_mode: bool, static_shadows_cached: bool) -> (plan: ScenePassPlan)
    ensures
        plan.sky == (if flags != ClearFlags::Skybox {
            SkyDraw::Nothing
        } else if has_panorama {
            SkyDraw::Panorama
        } else {
            SkyDraw::Gradient
        }),
        plan.editor_overlays == editor_mode,
        plan.render_static_shadows == !static_shadows_cached,
{
    let sky = match flags {
        ClearFlags::Skybox => if has_panorama { SkyDraw::Panorama } else { SkyDraw::Gradient },
        _ => SkyDraw::Nothing,
    };
    ScenePassPlan { sky, editor_overlays: editor_mode, render_static_shadows: !static_shadows_cached }
}

/// What the selection outline reads of the selected entity.
#[derive(Clone, Copy, Debug, PartialEq, Eq, Structural)]
pub struct SelectionSlot {
    pub active: bool,
    /// It carries a mesh.
    pub has_mesh: bool,
    /// That mesh's geometry is resident on the GPU.
    pub mesh_resident: bool,
}

/// Whether the selection outline (the inverted hull around the selected entity) is
/// drawn: only in editor mode, for a selected entity that is active and has resident
/// geometry. No selection, or a selected id that names no entity, draws none.
pub fn draws_outline(editor_mode: bool, selected: Option<SelectionSlot>) -> (draw: bool)
    ensures
        draw == (editor_mode && (selected matches Some(s) && s.active && s.has_mesh && s.mesh_resident)),
{
    if !editor_mode {
        return false;
    }
    match selected {
        Some(s) => s.active && s.has_mesh && s.mesh_resident,
        None => false,
    }
}

/// What the solid pass reads of one scene entity.
#[derive(Clone, Copy, Debug, PartialEq, Eq, Structural)]
pub struct SolidCandidate {
    pub active: bool,
    pub is_static: bool,
    /// Its layer is in the camera's culling mask.
    pub in_culling_mask: bool,
    /// It has a mesh whose geometry is resident on the GPU.
    pub mesh_resident: bool,
    /// Its material is transparent.
    pub transparent: bool,
}

/// An entity is drawn by the solid passes when it is active, in the camera's culling
/// mask and has resident geometry; during a static capture only static entities are,
/// so dynamic actors never bake into a probe or reflection.
pub open spec fn draws_solid(c: SolidCandidate, static_capture: bool) -> bool {
    c.active && (!static_capture || c.is_static) && c.in_culling_mask && c.mesh_resident
}

/// The drawn entities among the first `n`, in scene order, whose transparency is
/// `transparent`.
pub open spec fn solid_split(cs: Seq<SolidCandidate>, n: int, static_capture: bool, transparent: bool) -> Seq<usize>
    decreases n,
{
    if n <= 0 {
        Seq::empty()
    } else {
        let before = solid_split(cs, n - 1, static_capture, transparent);
        if draws_solid(cs[n - 1], static_capture) && cs[n - 1].transparent == transparent {
            before.push((n - 1) as usize)
        } else {
            before
        }
    }
}

/// The solids of one camera pass split in two: opaque and cutout ride the depth-writing
/// solid pass, transparent ones the sorted alpha-blended pass after it (indices into
/// the scene's entity list).
pub struct SolidSplit {
    pub opaque: Vec<usize>,
    pub transparent: Vec<usize>,
}

/// Split the scene's entities into the opaque and the transparent draws of a pass.
pub fn split_solids(cs: &Vec<SolidCandidate>, static_capture: bool) -> (split: SolidSplit)
    ensures
        split.opaque@ == solid_split(cs@, cs@.len() as int, static_capture, false),
        split.transparent@ == solid_split(cs@, cs@.len() as int, static_capture, true),
        forall|i: usize|
            #[trigger] split.opaque@.contains(i) <==> (i < cs@.len() && cs@[i as int].active && (!static_capture
                || cs@[i as int].is_static) && cs@[i as int].in_culling_mask && cs@[i as int].mesh_resident
                && !cs@[i as int].transparent),
        forall|i: usize|
            #[trigger] split.transparent@.contains(i) <==> (i < cs@.len() && cs@[i as int].active && (
            !static_capture || cs@[i as int].is_static) && cs@[i as int].in_culling_mask
                && cs@[i as int].mesh_resident && cs@[i as int].transparent),
        forall|a: int, b: int| 0 <= a < b < split.opaque@.len() ==> split.opaque@[a] < split.opaque@[b],
        forall|a: int, b: int| 0 <= a < b < split.transparent@.len() ==> split.transparent@[a] < split.transparent@[b],
{
    let mut split = SolidSplit { opaque: Vec::new(), transparent: Vec::new() };
    let n = cs.len();
    let mut k: usize = 0;
    while k < n
        invariant
            n == cs@.len(),
            k <= n,
            split.opaque@ == solid_split(cs@, k as int, static_capture, false),
            split.transparent@ == solid_split(cs@, k as int, static_capture, true),
        decreases n - k,
    {
        let c = cs[k];
        if c.active && (!static_capture || c.is_static) && c.in_culling_mask && c.mesh_resident {
            if c.transparent {
                split.transparent.push(k);
            } else {
                split.opaque.push(k);
            }
        }
        k = k + 1;
    }
    proof {
        assert forall|i: usize| #[trigger] split.opaque@.contains(i) <==> (i < cs@.len() && cs@[i as int].active && (
        !static_capture || cs@[i as int].is_static) && cs@[i as int].in_culling_mask && cs@[i as int].mesh_resident
            && !cs@[i as int].transparent) by {
            lemma_solid_split_members(cs@, n as int, static_capture, false, i);
        }
        assert forall|i: usize| #[trigger] split.transparent@.contains(i) <==> (i < cs@.len() && cs@[i as int].active
            && (!static_capture || cs@[i as int].is_static) && cs@[i as int].in_culling_mask
            && cs@[i as int].mesh_resident && cs@[i as int].transparent) by {
            lemma_solid_split_members(cs@, n as int, static_capture, true, i);
        }
        lemma_solid_split_increasing(cs@, n as int, static_capture, false);
        lemma_solid_split_increasing(cs@, n as int, static_capture, true);
    }
    split
}

proof fn lemma_solid_split_increasing(cs: Seq<SolidCandidate>, n: int, static_capture: bool, transparent: bool)
    requires
        0 <= n <= cs.len(),
        cs.len() <= usize::MAX,
    ensures
        forall|a: int, b: int|
            0 <= a < b < solid_split(cs, n, static_capture, transparent).len() ==> solid_split(
                cs,
                n,
                static_capture,
                transparent,
            )[a] < solid_split(cs, n, static_capture, transparent)[b],
    decreases n,
{
    if n > 0 {
        lemma_solid_split_increasing(cs, n - 1, static_capture, transparent);
        lemma_solid_split_members(cs, n - 1, static_capture, transparent, 0);
        let before = solid_split(cs, n - 1, static_capture, transparent);
        if draws_solid(cs[n - 1], static_capture) && cs[n - 1].transparent == transparent {
            let after = before.push((n - 1) as usize);
            assert((n - 1) as usize == n - 1);
            assert forall|a: int, b: int| 0 <= a < b < after.len() implies after[a] < after[b] by {
                assert(after[a] == before[a]);
                if b < before.len() {
                    assert(after[b] == before[b]);
                } else {
                    assert(before[a] < n - 1);
                }
            }
        }
    }
}

/// An entity whose layer the camera's culling mask excludes is drawn by neither pass,
/// opaque or transparent, whatever else holds of it.
pub proof fn lemma_culled_layers_never_drawn(cs: Seq<SolidCandidate>, static_capture: bool, i: usize)
    requires
        cs.len() <= usize::MAX,
        i < cs.len(),
        !cs[i as int].in_culling_mask,
    ensures
        !solid_split(cs, cs.len() as int, static_capture, false).contains(i),
        !solid_split(cs, cs.len() as int, static_capture, true).contains(i),
{
    lemma_solid_split_members(cs, cs.len() as int, static_capture, false, i);
    lemma_solid_split_members(cs, cs.len() as int, static_capture, true, i);
}

proof fn lemma_solid_split_members(cs: Seq<SolidCandidate>, n: int, static_capture: bool, transparent: bool, i: usize)
    requires
        0 <= n <= cs.len(),
        cs.len() <= usize::MAX,
    ensures
        solid_split(cs, n, static_capture, transparent).contains(i) <==> (i < n && draws_solid(cs[i as int], static_capture)
            && cs[i as int].transparent == transparent),
        forall|j: int|
            0 <= j < solid_split(cs, n, static_capture, transparent).len() ==> #[trigger] solid_split(
                cs,
                n,
                static_capture,
                transparent,
            )[j] < n,
    decreases n,
{
    if n > 0 {
        lemma_solid_split_members(cs, n - 1, static_capture, transparent, i);
        let before = solid_split(cs, n - 1, static_capture, transparent);
        if draws_solid(cs[n - 1], static_capture) && cs[n - 1].transparent == transparent {
            let after = before.push((n - 1) as usize);
            assert((n - 1) as usize == n - 1);
            assert(after[before.len() as int] == (n - 1) as usize);
            if after.contains(i) && i != n - 1 {
                let j = choose|j: int| 0 <= j < after.len() && after[j] == i;
                assert(j != before.len());
                assert(before[j] == i);
            }
            if i < n - 1 && before.contains(i) {
                let j = choose|j: int| 0 <= j < before.len() && before[j] == i;
                assert(after[j] == i);
            }
        } else if before.contains(i) {
            let j = choose|j: int| 0 <= j < before.len() && before[j] == i;
            assert(before[j] < n - 1);
        }
    }
}

/// Every drawn entity lands in exactly one of the two passes, and no entity that is not
/// drawn lands in either: the opaque and the transparent draws partition the drawn
/// solids.
pub proof fn lemma_solids_partition(cs: Seq<SolidCandidate>, static_capture: bool, i: usize)
    requires
        i < cs.len(),
        cs.len() <= usize::MAX,
    ensures
        solid_split(cs, cs.len() as int, static_capture, false).contains(i) || solid_split(
            cs,
            cs.len() as int,
            static_capture,
            true,
        ).contains(i) <==> draws_solid(cs[i as int], static_capture),
        !(solid_split(cs, cs.len() as int, static_capture, false).contains(i) && solid_split(
            cs,
            cs.len() as int,
            static_capture,
            true,
        ).contains(i)),
{
    lemma_solid_split_members(cs, cs.len() as int, static_capture, false, i);
    lemma_solid_split_members(cs, cs.len() as int, static_capture, true, i);
}

/// What a shadow sweep reads of one entity with a mesh.
#[derive(Clone, Copy, Debug, PartialEq, Eq, Structural)]
pub struct ShadowCandidate {
    pub active: bool,
    pub is_static: bool,
    /// Its geometry is resident on the GPU.
    pub mesh_resident: bool,
    /// It is skinned: its bounds are the rest pose, which an animation can exceed.
    pub skinned: bool,
    /// Its world bounds meet the light's volume.
    pub in_light_volume: bool,
}

/// An entity casts in the sweep for `want_static` (the cached static map, or the
/// per-frame dynamic one) when it is active, of that kind and resident; casters are
/// culled against the light's volume, never the camera's, and skinned ones not at all.
pub open spec fn casts_shadow(c: ShadowCandidate, want_static: bool) -> bool {
    c.active && c.is_static == want_static && c.mesh_resident && (c.skinned || c.in_light_volume)
}

/// The casters among the first `n` entities, in scene order.
pub open spec fn casters(cs: Seq<ShadowCandidate>, n: int, want_static: bool) -> Seq<usize>
    decreases n,
{
    if n <= 0 {
        Seq::empty()
    } else if casts_shadow(cs[n - 1], want_static) {
        casters(cs, n - 1, want_static).push((n - 1) as usize)
    } else {
        casters(cs, n - 1, want_static)
    }
}

/// The entities drawn into one shadow sweep.
pub fn shadow_casters(cs: &Vec<ShadowCandidate>, want_static: bool) -> (ids: Vec<usize>)
    ensures
        ids@ == casters(cs@, cs@.len() as int, want_static),
        forall|i: usize|
            #[trigger] ids@.contains(i) <==> (i < cs@.len() && cs@[i as int].active && cs@[i as int].is_static
                == want_static && cs@[i as int].mesh_resident && (cs@[i as int].skinned
                || cs@[i as int].in_light_volume)),
        forall|a: int, b: int| 0 <= a < b < ids@.len() ==> ids@[a] < ids@[b],
{
    let mut ids: Vec<usize> = Vec::new();
    let n = cs.len();
    let mut k: usize = 0;
    while k < n
        invariant
            n == cs@.len(),
            k <= n,
            ids@ == casters(cs@, k as int, want_static),
        decreases n - k,
    {
        let c = cs[k];
        if c.active && c.is_static == want_static && c.mesh_resident && (c.skinned || c.in_light_volume) {
            ids.push(k);
        }
        k = k + 1;
    }
    proof {
        assert forall|i: usize| #[trigger] ids@.contains(i) <==> (i < cs@.len() && cs@[i as int].active
            && cs@[i as int].is_static == want_static && cs@[i as int].mesh_resident && (cs@[i as int].skinned
            || cs@[i as int].in_light_volume)) by {
            lemma_casters_members(cs@, n as int, want_static, i);
        }
        lemma_casters_members(cs@, n as int, want_static, 0);
    }
    ids
}

proof fn lemma_casters_members(cs: Seq<ShadowCandidate>, n: int, want_static: bool, i: usize)
    requires
        0 <= n <= cs.len(),
        cs.len() <= usize::MAX,
    ensures
        casters(cs, n, want_static).contains(i) <==> (i < n && casts_shadow(cs[i as int], want_static)),
        forall|j: int| 0 <= j < casters(cs, n, want_static).len() ==> #[trigger] casters(cs, n, want_static)[j] < n,
        forall|a: int, b: int|
            0 <= a < b < casters(cs, n, want_static).len() ==> casters(cs, n, want_static)[a] < casters(
                cs,
                n,
                want_static,
            )[b],
    decreases n,
{
    if n > 0 {
        lemma_casters_members(cs, n - 1, want_static, i);
        let before = casters(cs, n - 1, want_static);
        if casts_shadow(cs[n - 1], want_static) {
            let after = before.push((n - 1) as usize);
            assert((n - 1) as usize == n - 1);
            assert(after[before.len() as int] == (n - 1) as usize);
            if after.contains(i) && i != n - 1 {
                let j = choose|j: int| 0 <= j < after.len() && after[j] == i;
                assert(j != before.len());
                assert(before[j] == i);
            }
            if i < n - 1 && before.contains(i) {
                let j = choose|j: int| 0 <= j < before.len() && before[j] == i;
                assert(after[j] == i);
            }
            assert forall|a: int, b: int| 0 <= a < b < after.len() implies after[a] < after[b] by {
                assert(after[a] == before[a]);
                if b < before.len() {
                    assert(after[b] == before[b]);
                } else {
                    assert(before[a] < n - 1);
                }
            }
        } else if before.contains(i) {
            let j = choose|j: int| 0 <= j < before.len() && before[j] == i;
            assert(before[j] < n - 1);
        }
    }
}

proof fn lemma_casters_contain(cs: Seq<ShadowCandidate>, n: int, want_static: bool, i: int)
    requires
        0 <= i < n <= cs.len(),
        cs.len() <= usize::MAX,
        casts_shadow(cs[i], want_static),
    ensures
        casters(cs, n, want_static).contains(i as usize),
    decreases n,
{
    if i < n - 1 {
        lemma_casters_contain(cs, n - 1, want_static, i);
        let before = casters(cs, n - 1, want_static);
        let j = choose|j: int| 0 <= j < before.len() && before[j] == i as usize;
        if casts_shadow(cs[n - 1], want_static) {
            assert(before.push((n - 1) as usize)[j] == i as usize);
        }
    } else {
        let before = casters(cs, n - 1, want_static);
        assert(before.push((n - 1) as usize)[before.len() as int] == i as usize);
    }
}

/// A skinned caster that is active, resident and of the sweep's kind always casts,
/// wherever its rest-pose bounds lie: an animated shadow is never dropped by culling.
pub proof fn lemma_skinned_casters_never_culled(cs: Seq<ShadowCandidate>, want_static: bool, i: int)
    requires
        0 <= i < cs.len(),
        cs.len() <= usize::MAX,
        cs[i].active,
        cs[i].is_static == want_static,
        cs[i].mesh_resident,
        cs[i].skinned,
    ensures
        casters(cs, cs.len() as int, want_static).contains(i as usize),
{
    lemma_casters_contain(cs, cs.len() as int, want_static, i);
}

} // verus!
