//! Scalability tiers gating the post-process chain, and the buffer sizes they imply.

use vstd::prelude::*;

verus! {

/// Scalability tier. Gates SSR + motion blur and the bloom buffer size.
#[derive(Clone, Copy, Debug, PartialEq, Eq, Structural)]
pub enum QualityPreset {
    /// iGPU floor: SSR off (cubemap only), motion blur off, quarter-res bloom.
    Low,
    /// Balanced: cubemap reflection, motion blur on, half-res bloom.
    Medium,
    /// Discrete GPU: real screen-space reflections, motion blur, half-res bloom.
    High,
}

impl Default for QualityPreset {
    /// The balanced tier.
    fn default() -> (q: Self)
        ensures
            q == QualityPreset::Medium,
    {
        QualityPreset::Medium
    }
}

impl QualityPreset {
    /// Does this tier run the real screen-space-reflection pass?
    pub fn screen_space_ssr(self) -> (r: bool)
        ensures
            r == (self == QualityPreset::High),
    {
        matches!(self, QualityPreset::High)
    }

    /// Does this tier run the camera motion-blur pass?
    pub fn motion_blur(self) -> (r: bool)
        ensures
            r == (self != QualityPreset::Low),
    {
        !matches!(self, QualityPreset::Low)
    }

    /// Divisor applied to the bloom buffer resolution (smaller = cheaper).
    pub fn bloom_divisor(self) -> (d: u32)
        ensures
            d == (if self == QualityPreset::Low { 4u32 } else { 2u32 }),
    {
        match self {
            QualityPreset::Low => 4,
            QualityPreset::Medium | QualityPreset::High => 2,
        }
    }
}

} // verus!
