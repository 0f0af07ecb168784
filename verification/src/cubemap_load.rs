//! Decoding a baked KTX2 reflection cubemap into CPU-side RGBA8 faces.
//!
//! Graceful absence is a first-class requirement: bytes that are not a usable LDR
//! RGBA8 cubemap yield `None` (the caller falls back to the global skybox), never a
//! panic. Only LDR RGBA8 (UNORM / SRGB) is accepted, matching the bake's output format.

use vstd::prelude::*;
use vstd::slice::{slice_subrange, slice_to_vec};
use crate::ktx2_reader::{
    index_count, index_is_readable, index_readable, level_bytes, level_length, level_offset, levels_in_bounds,
    rd32, read_index_count, read_ktx2, read_level_length, read_u32, reader_yields,
};
use crate::prefiltered::{mip_edge, mip_edge_of};

verus! {

/// `VK_FORMAT_R8G8B8A8_UNORM`.
pub const VK_FORMAT_R8G8B8A8_UNORM: u32 = 37;
/// `VK_FORMAT_R8G8B8A8_SRGB`.
pub const VK_FORMAT_R8G8B8A8_SRGB_RAW: u32 = 43;

/// A decoded LDR cubemap on the CPU: a square edge length plus the six faces' RGBA8
/// pixels in KTX2 face order (+X, -X, +Y, -Y, +Z, -Z), each `size * size * 4` bytes.
pub struct CubemapData {
    pub size: u32,
    /// The six faces concatenated in face order — `6 * size * size * 4` bytes total,
    /// exactly the layout a `depth_or_array_layers = 6` upload expects.
    pub faces_rgba8: Vec<u8>,
}

/// A decoded LDR cubemap WITH its roughness mip chain. `mips[0]` is the base level
/// (`size`); each later mip halves the edge length. Every level is the six faces packed
/// back-to-back, the same layout `CubemapData::faces_rgba8` uses.
pub struct CubemapMips {
    pub size: u32,
    pub mips: Vec<Vec<u8>>,
}

/// The LDR RGBA8 formats a reflection bake emits (UNORM or SRGB).
pub open spec fn rgba8_format(vk_format: u32) -> bool {
    vk_format == VK_FORMAT_R8G8B8A8_UNORM || vk_format == VK_FORMAT_R8G8B8A8_SRGB_RAW
}

/// True for the LDR RGBA8 formats a reflection bake emits (UNORM or SRGB).
pub fn is_rgba8(vk_format: u32) -> (r: bool)
    ensures
        r == rgba8_format(vk_format),
{
    vk_format == VK_FORMAT_R8G8B8A8_UNORM || vk_format == VK_FORMAT_R8G8B8A8_SRGB_RAW
}

/// The header describes a square RGBA8 cubemap: six faces, a single array layer,
/// an LDR RGBA8 format, a nonzero width equal to the height.
pub open spec fn cube_header(b: Seq<u8>) -> bool {
    &&& rd32(b, 36) == 6
    &&& rd32(b, 32) <= 1
    &&& rgba8_format(rd32(b, 12))
    &&& rd32(b, 20) != 0
    &&& rd32(b, 24) == rd32(b, 20)
}

/// Bytes of one full level (six RGBA8 faces) whose edge is mip `level` of `base`.
pub open spec fn level_expected(base: u32, level: int) -> int {
    mip_edge(base, level) * mip_edge(base, level) * 24
}

/// The base level's six faces, or `None` when the blob is not a usable LDR cubemap.
pub open spec fn parsed_cubemap(b: Seq<u8>) -> Option<(u32, Seq<u8>)> {
    let size = rd32(b, 20);
    let expected = size * size * 24;
    if reader_yields(b, 1) && cube_header(b) && level_bytes(b, 0).len() >= expected {
        Some((size, level_bytes(b, 0).take(expected)))
    } else {
        None
    }
}

/// Level `i` is too short for a full level of mip `i` of `base`.
pub open spec fn level_short(b: Seq<u8>, base: u32, i: int) -> bool {
    level_length(b, i) < level_expected(base, i)
}

/// The first level from `i` on that is short, or the level count when none is.
pub open spec fn first_short(b: Seq<u8>, base: u32, i: int) -> int
    decreases index_count(b) - i,
{
    if i < 0 || i >= index_count(b) {
        index_count(b)
    } else if level_short(b, base, i) {
        i
    } else {
        first_short(b, base, i + 1)
    }
}

/// How many levels the mip parse slices out of the blob: up to and including the
/// first short one.
pub open spec fn mips_sliced(b: Seq<u8>, base: u32) -> int {
    let k = first_short(b, base, 0);
    if k < index_count(b) { k + 1 } else { index_count(b) }
}

/// The mip chain from level `i` on: each level trimmed to its expected size, stopping
/// at the first level that is short for its expected size (or at the last level).
pub open spec fn mip_chain(b: Seq<u8>, base: u32, i: int) -> Seq<Seq<u8>>
    decreases index_count(b) - i,
{
    if i < 0 || i >= index_count(b) || level_short(b, base, i) {
        Seq::empty()
    } else {
        seq![level_bytes(b, i).take(level_expected(base, i))] + mip_chain(b, base, i + 1)
    }
}

/// The mip chain, or `None` when the blob is not a usable LDR cubemap or its base
/// level is already short.
pub open spec fn parsed_mips(b: Seq<u8>) -> Option<(u32, Seq<Seq<u8>>)> {
    let size = rd32(b, 20);
    if reader_yields(b, mips_sliced(b, size)) && cube_header(b) && mip_chain(b, size, 0).len() > 0 {
        Some((size, mip_chain(b, size, 0)))
    } else {
        None
    }
}

/// `first_short` is the first short level at or after `i`.
pub proof fn lemma_first_short(b: Seq<u8>, base: u32, i: int)
    requires
        0 <= i <= index_count(b),
    ensures
        i <= first_short(b, base, i) <= index_count(b),
        forall|j: int| i <= j < first_short(b, base, i) ==> !level_short(b, base, j),
        first_short(b, base, i) < index_count(b) ==> level_short(b, base, first_short(b, base, i)),
    decreases index_count(b) - i,
{
    if i < index_count(b) && !level_short(b, base, i) {
        lemma_first_short(b, base, i + 1);
    }
}

/// Byte size of one level of six RGBA8 faces with edge `edge`.
fn level_bytes_for(edge: u32) -> (n: u128)
    ensures
        n == edge * edge * 24,
{
    proof {
        assert(edge * edge <= u32::MAX * u32::MAX) by (nonlinear_arith);
    }
    (edge as u128) * (edge as u128) * 24
}

/// Parse a KTX2 byte blob into an LDR RGBA8 cubemap, or `None` when the bytes are not a
/// usable LDR cubemap (bad/garbage data, non-cube, non-RGBA8, or a size mismatch).
pub fn parse_ktx2_cubemap(bytes: &[u8]) -> (res: Option<CubemapData>)
    ensures
        match res {
            Some(cube) => parsed_cubemap(bytes@) == Some((cube.size, cube.faces_rgba8@)),
            None => parsed_cubemap(bytes@) is None,
        },
{
    let image = match read_ktx2(bytes, 1) {
        Some(image) => image,
        None => return None,
    };
    // Must be a square cubemap (6 faces, single array layer) in an RGBA8 LDR format.
    if image.face_count != 6 || image.layer_count > 1 {
        return None;
    }
    if !is_rgba8(image.vk_format) {
        return None;
    }
    let size = image.pixel_width;
    if size == 0 || image.pixel_height != size {
        return None;
    }
    // Level 0 holds all six faces packed back-to-back; later mips are not needed here.
    assert(image.levels@[0]@ == level_bytes(bytes@, 0));
    let level0 = image.levels[0].as_slice();
    let expected = level_bytes_for(size);
    if (level0.len() as u128) < expected {
        return None;
    }
    let faces_rgba8 = slice_to_vec(slice_subrange(level0, 0, expected as usize));
    proof {
        assert(faces_rgba8@ =~= level_bytes(bytes@, 0).take(size * size * 24));
    }
    Some(CubemapData { size, faces_rgba8 })
}

/// Parse a KTX2 blob into an LDR RGBA8 cubemap WITH its full roughness mip chain, or
/// `None` when it is not a usable LDR cubemap. Level 0 is the base; each later level is
/// expected to halve the edge length. A level whose byte length is short for its
/// expected size truncates the chain there rather than failing.
pub fn parse_ktx2_cubemap_mips(bytes: &[u8]) -> (res: Option<CubemapMips>)
    ensures
        match res {
            Some(m) => parsed_mips(bytes@) == Some((m.size, m.mips@.map_values(|v: Vec<u8>| v@))),
            None => parsed_mips(bytes@) is None,
        },
{
    let ghost b = bytes@;
    let sliced = if index_is_readable(bytes) {
        mip_levels_sliced(bytes, read_u32(bytes, 20))
    } else {
        0
    };
    let image = match read_ktx2(bytes, sliced) {
        Some(image) => image,
        None => return None,
    };
    if image.face_count != 6 || image.layer_count > 1 || !is_rgba8(image.vk_format) {
        return None;
    }
    let size = image.pixel_width;
    if size == 0 || image.pixel_height != size {
        return None;
    }
    proof {
        lemma_first_short(b, size, 0);
    }
    let count = image.levels.len();
    let mut mips: Vec<Vec<u8>> = Vec::new();
    let mut level: usize = 0;
    while level < count
        invariant
            count == image.levels@.len() == mips_sliced(b, size),
            mips_sliced(b, size) <= index_count(b),
            levels_in_bounds(b, count as int),
            forall|i: int| 0 <= i < count ==> #[trigger] image.levels@[i]@ == level_bytes(b, i),
            forall|j: int| 0 <= j < first_short(b, size, 0) ==> !level_short(b, size, j),
            first_short(b, size, 0) < index_count(b) ==> level_short(b, size, first_short(b, size, 0)),
            level <= count,
            forall|j: int| 0 <= j < level ==> !level_short(b, size, j),
            mips@.map_values(|v: Vec<u8>| v@) + mip_chain(b, size, level as int) == mip_chain(b, size, 0),
            level == count ==> mip_chain(b, size, level as int) == Seq::<Seq<u8>>::empty(),
        ensures
            mips@.map_values(|v: Vec<u8>| v@) == mip_chain(b, size, 0),
        decreases count - level,
    {
        let data = image.levels[level].as_slice();
        assert(data@ == level_bytes(b, level as int));
        assert(level_offset(b, level as int) + level_length(b, level as int) <= b.len());
        assert(data@.len() == level_length(b, level as int));
        let level_size = mip_edge_of(size, level);
        let expected = level_bytes_for(level_size);
        if (data.len() as u128) < expected {
            proof {
                assert(mip_chain(b, size, level as int) =~= Seq::<Seq<u8>>::empty());
                assert(mips@.map_values(|v: Vec<u8>| v@) =~= mip_chain(b, size, 0));
            }
            break;
        }
        let ghost before = mips@.map_values(|v: Vec<u8>| v@);
        mips.push(slice_to_vec(slice_subrange(data, 0, expected as usize)));
        level = level + 1;
        proof {
            let piece = level_bytes(b, level - 1).take(level_expected(size, level - 1));
            assert(mip_chain(b, size, level - 1) == seq![piece] + mip_chain(b, size, level as int));
            assert(mips@.map_values(|v: Vec<u8>| v@) =~= before.push(piece));
            assert(mips@.map_values(|v: Vec<u8>| v@) + mip_chain(b, size, level as int)
                =~= before + mip_chain(b, size, level - 1));
            if level == count {
                if count < index_count(b) {
                    assert(first_short(b, size, 0) == count - 1);
                    assert(!level_short(b, size, count - 1));
                    assert(false);
                } else {
                    assert(mip_chain(b, size, level as int) =~= Seq::<Seq<u8>>::empty());
                }
            }
        }
    }
    if mips.len() == 0 {
        return None;
    }
    Some(CubemapMips { size, mips })
}

/// How many levels the mip parse slices: levels are taken in order up to and including
/// the first one too short for its expected size.
fn mip_levels_sliced(b: &[u8], base: u32) -> (n: usize)
    requires
        index_readable(b@),
    ensures
        n == mips_sliced(b@, base),
{
    proof {
        lemma_first_short(b@, base, 0);
    }
    let count = read_index_count(b) as usize;
    let mut i: usize = 0;
    while i < count
        invariant
            index_readable(b@),
            count == index_count(b@),
            i <= count,
            forall|j: int| 0 <= j < i ==> !level_short(b@, base, j),
            0 <= first_short(b@, base, 0) <= count,
            forall|j: int| 0 <= j < first_short(b@, base, 0) ==> !level_short(b@, base, j),
            first_short(b@, base, 0) < count ==> level_short(b@, base, first_short(b@, base, 0)),
        decreases count - i,
    {
        let expected = level_bytes_for(mip_edge_of(base, i));
        if (read_level_length(b, i) as u128) < expected {
            assert(level_short(b@, base, i as int));
            assert(first_short(b@, base, 0) == i);
            return i + 1;
        }
        i = i + 1;
    }
    count
}

} // verus!
