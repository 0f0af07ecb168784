//! A cubemap with its roughness mip chain: the shape a reflection bake hands to the
//! KTX2 writer.

use vstd::prelude::*;
use vstd::arithmetic::power2::pow2;
use vstd::bits::lemma_u32_shr_is_div;

verus! {

/// A cubemap with a mip chain. `mips[level][face]` is one face of one level, LDR
/// RGBA8, tightly packed; faces are in `CubemapFace::ALL` order and level 0 is the
/// largest (`base_size` on an edge).
pub struct PrefilteredCubemap {
    pub mips: Vec<[Vec<u8>; 6]>,
    pub base_size: u32,
}

/// Edge length of mip `level` for a chain whose base edge is `base`: the base halved
/// `level` times (rounding down), never below 1.
pub open spec fn mip_edge(base: u32, level: int) -> u32 {
    if level >= 32 {
        1
    } else {
        let s = base as nat / pow2(level as nat);
        if s == 0 { 1 } else { s as u32 }
    }
}

/// The first `n` faces of a level, concatenated in slot order.
pub open spec fn faces_prefix(faces: [Vec<u8>; 6], n: int) -> Seq<u8>
    decreases n,
{
    if n <= 0 {
        Seq::empty()
    } else {
        faces_prefix(faces, n - 1) + faces[n - 1]@
    }
}

/// One level's bytes: its six faces back to back in slot order.
pub open spec fn level_data(faces: [Vec<u8>; 6]) -> Seq<u8> {
    faces_prefix(faces, 6)
}

/// The first `n` levels' bytes, largest level first.
pub open spec fn data_prefix(mips: Seq<[Vec<u8>; 6]>, n: int) -> Seq<u8>
    decreases n,
{
    if n <= 0 {
        Seq::empty()
    } else {
        data_prefix(mips, n - 1) + level_data(mips[n - 1])
    }
}

/// Level data only grows as more levels are taken.
pub proof fn lemma_data_prefix_monotone(mips: Seq<[Vec<u8>; 6]>, i: int, j: int)
    requires
        0 <= i <= j,
    ensures
        data_prefix(mips, i).len() <= data_prefix(mips, j).len(),
    decreases j - i,
{
    if i < j {
        lemma_data_prefix_monotone(mips, i, j - 1);
    }
}

/// Edge length of level `level` (`u32` shift semantics: halving `level` times).
pub fn mip_edge_of(base: u32, level: usize) -> (edge: u32)
    ensures
        edge == mip_edge(base, level as int),
        edge >= 1,
{
    if level >= 32 {
        1
    } else {
        let s = base >> (level as u32);
        proof {
            lemma_u32_shr_is_div(base, level as u32);
        }
        if s == 0 { 1 } else { s }
    }
}

impl PrefilteredCubemap {
    /// Number of mip levels in the chain.
    pub fn level_count(&self) -> (n: usize)
        ensures
            n == self.mips@.len(),
    {
        self.mips.len()
    }

    /// Edge length in pixels of mip `level`.
    pub fn level_size(&self, level: usize) -> (edge: u32)
        ensures
            edge == mip_edge(self.base_size, level as int),
    {
        mip_edge_of(self.base_size, level)
    }
}

} // verus!
