//! The post-process chain's sizing and per-frame gating decisions: the render-target
//! sizes a framebuffer and quality tier imply, which visual-correction volume drives the
//! frame, and which passes the tier lets it run.

use vstd::prelude::*;
use crate::quality::QualityPreset;

verus! {

/// Which optional passes run this frame.
#[derive(Clone, Copy, Debug, PartialEq, Eq, Structural)]
pub struct PostPasses {
    /// Run the bright-pass + blur that feed the composite's bloom add.
    pub bloom: bool,
    /// Run the final anti-aliasing pass.
    pub fxaa: bool,
}

/// Full-resolution and bloom target sizes.
#[derive(Clone, Copy, Debug, PartialEq, Eq, Structural)]
pub struct TargetSizes {
    pub full_width: u32,
    pub full_height: u32,
    pub bloom_width: u32,
    pub bloom_height: u32,
}

pub open spec fn at_least_one(v: int) -> int {
    if v < 1 { 1 } else { v }
}

/// The HDR scene target's size (the framebuffer, never below 1×1) and the bloom
/// ping-pong targets' size (that divided by the tier's divisor, never below 1×1).
pub fn target_sizes(width: u32, height: u32, bloom_divisor: u32) -> (s: TargetSizes)
    requires
        bloom_divisor > 0,
    ensures
        s.full_width == at_least_one(width as int),
        s.full_height == at_least_one(height as int),
        s.bloom_width == at_least_one((s.full_width / bloom_divisor) as int),
        s.bloom_height == at_least_one((s.full_height / bloom_divisor) as int),
{
    let w = if width < 1 { 1 } else { width };
    let h = if height < 1 { 1 } else { height };
    let bw0 = w / bloom_divisor;
    let bh0 = h / bloom_divisor;
    let bw = if bw0 < 1 { 1 } else { bw0 };
    let bh = if bh0 < 1 { 1 } else { bh0 };
    TargetSizes { full_width: w, full_height: h, bloom_width: bw, bloom_height: bh }
}

/// What the post chain reads of one entity carrying a visual-correction volume.
#[derive(Clone, Copy, Debug, PartialEq, Eq, Structural)]
pub struct VolumeSlot {
    /// The entity is active.
    pub entity_active: bool,
    /// The entity carries a visual-correction component.
    pub has_volume: bool,
    /// That component is active.
    pub volume_active: bool,
}

pub open spec fn drives_post(v: VolumeSlot) -> bool {
    v.entity_active && v.has_volume && v.volume_active
}

/// The volume that drives the frame's post chain: the first active volume on an active
/// entity; `None` leaves the neutral pass-through.
pub fn driving_volume(volumes: &Vec<VolumeSlot>) -> (chosen: Option<usize>)
    ensures
        match chosen {
            Some(i) => i < volumes@.len() && drives_post(volumes@[i as int]) && forall|j: int|
                0 <= j < i ==> !drives_post(volumes@[j]),
            None => forall|j: int| 0 <= j < volumes@.len() ==> !drives_post(volumes@[j]),
        },
{
    let n = volumes.len();
    let mut k: usize = 0;
    while k < n
        invariant
            n == volumes@.len(),
            k <= n,
            forall|j: int| 0 <= j < k ==> !drives_post(volumes@[j]),
        decreases n - k,
    {
        let v = volumes[k];
        if v.entity_active && v.has_volume && v.volume_active {
            return Some(k);
        }
        k = k + 1;
    }
    None
}

/// The camera motion-blur request on the driving volume's entity.
#[derive(Clone, Copy, Debug, PartialEq, Eq, Structural)]
pub struct MotionBlurRequest {
    pub active: bool,
    pub samples: u32,
}

/// What the tier lets the driving volume run.
#[derive(Clone, Copy, Debug, PartialEq, Eq, Structural)]
pub struct PostGates {
    /// The bright-pass + blur run.
    pub bloom: bool,
    /// SSR mode: 0 off, 2 real screen-space.
    pub ssr_mode: u32,
    /// Camera motion blur runs.
    pub motion_blur: bool,
    /// Motion-blur samples (0 when motion blur is off).
    pub motion_blur_samples: u32,
}

pub open spec fn clamp_samples(s: u32) -> u32 {
    if s < 2 { 2 } else if s > 32 { 32 } else { s }
}

/// Gate the driving volume's passes by the tier: bloom as the volume asks; real SSR only
/// on a tier that runs it; motion blur only when the entity's camera asks for it and the
/// tier runs it, its sample count clamped to 2..=32.
pub fn post_gates(
    quality: QualityPreset,
    bloom_active: bool,
    ssr_active: bool,
    camera: Option<MotionBlurRequest>,
) -> (g: PostGates)
    ensures
        g.bloom == bloom_active,
        g.ssr_mode == (if ssr_active && quality == QualityPreset::High { 2u32 } else { 0u32 }),
        g.motion_blur == (camera matches Some(c) && c.active && quality != QualityPreset::Low),
        g.motion_blur_samples == (match camera {
            Some(c) => if c.active && quality != QualityPreset::Low { clamp_samples(c.samples) } else { 0 },
            None => 0,
        }),
{
    // Real screen-space SSR runs on the High tier only; Low/Medium keep the forward
    // shader's cubemap reflection.
    let ssr_mode = if ssr_active && quality.screen_space_ssr() { 2 } else { 0 };
    // Motion blur is gated by the camera component AND the preset.
    let (motion_blur, motion_blur_samples) = match camera {
        Some(c) if c.active && quality.motion_blur() => {
            let s = if c.samples < 2 { 2 } else if c.samples > 32 { 32 } else { c.samples };
            (true, s)
        },
        _ => (false, 0),
    };
    PostGates { bloom: bloom_active, ssr_mode, motion_blur, motion_blur_samples }
}

} // verus!
