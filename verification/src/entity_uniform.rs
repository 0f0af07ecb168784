//! The integer switches of a solid entity's forward-pass uniform: whether it is lit,
//! which material maps the shader samples, and whether it alpha-tests. The colour,
//! PBR factors and matrices that ride beside them are filled in outside.

use vstd::prelude::*;

verus! {

/// How a material's surface composites.
#[derive(Clone, Copy, Debug, PartialEq, Eq, Structural)]
pub enum RenderMode {
    Opaque,
    /// Alpha-tested: fragments under the cutoff are discarded.
    Cutout,
    /// Alpha-blended in the sorted transparent pass.
    Transparent,
}

/// What the switches read of an entity's resolved material.
#[derive(Clone, Copy, Debug)]
pub struct MaterialShape {
    /// Which of the five maps (albedo, metallic, roughness, normal, emissive) the
    /// material names.
    pub maps: [bool; 5],
    pub render_mode: RenderMode,
}

/// The switches of one entity's uniform, as the shader reads them (0 or 1).
#[derive(Clone, Copy, Debug, PartialEq, Eq, Structural)]
pub struct EntityFlags {
    pub use_texture: u32,
    pub is_lit: u32,
    pub use_metallic_map: u32,
    pub use_roughness_map: u32,
    pub use_normal_map: u32,
    pub use_emissive_map: u32,
    pub use_cutout: u32,
}

pub open spec fn flag(b: bool) -> u32 {
    if b {
        1
    } else {
        0
    }
}

/// Whether map `i` of the entity's material is sampled.
pub open spec fn samples_map(material: Option<MaterialShape>, i: int) -> bool {
    match material {
        Some(m) => m.maps@[i],
        None => false,
    }
}

/// Whether a material composites in the transparent pass.
pub fn is_transparent(material: Option<MaterialShape>) -> (t: bool)
    ensures
        t == (material matches Some(m) && m.render_mode == RenderMode::Transparent),
{
    match material {
        Some(m) => match m.render_mode {
            RenderMode::Transparent => true,
            _ => false,
        },
        None => false,
    }
}

/// The uniform switches of a solid entity: a light source itself is drawn unlit; each
/// map is sampled exactly when the material names it; only a cutout material
/// alpha-tests. With no material nothing is sampled and nothing is discarded.
pub fn entity_flags(has_light: bool, material: Option<MaterialShape>) -> (f: EntityFlags)
    ensures
        f.is_lit == flag(!has_light),
        f.use_texture == flag(samples_map(material, 0)),
        f.use_metallic_map == flag(samples_map(material, 1)),
        f.use_roughness_map == flag(samples_map(material, 2)),
        f.use_normal_map == flag(samples_map(material, 3)),
        f.use_emissive_map == flag(samples_map(material, 4)),
        f.use_cutout == flag(material matches Some(m) && m.render_mode == RenderMode::Cutout),
{
    let is_lit: u32 = if has_light { 0 } else { 1 };
    match material {
        Some(m) => EntityFlags {
            use_texture: if m.maps[0] { 1 } else { 0 },
            is_lit,
            use_metallic_map: if m.maps[1] { 1 } else { 0 },
            use_roughness_map: if m.maps[2] { 1 } else { 0 },
            use_normal_map: if m.maps[3] { 1 } else { 0 },
            use_emissive_map: if m.maps[4] { 1 } else { 0 },
            use_cutout: match m.render_mode {
                RenderMode::Cutout => 1,
                _ => 0,
            },
        },
        None => EntityFlags {
            use_texture: 0,
            is_lit,
            use_metallic_map: 0,
            use_roughness_map: 0,
            use_normal_map: 0,
            use_emissive_map: 0,
            use_cutout: 0,
        },
    }
}

} // verus!
