//! The KTX2 container as `ktx2::Reader` sees it: which byte blobs it accepts, which it
//! cannot be handed without panicking, and the header fields and mip levels it reads.

use vstd::prelude::*;
use vstd::bytes::{spec_u32_from_le_bytes, spec_u64_from_le_bytes, u32_from_le_bytes, u64_from_le_bytes};
use vstd::slice::slice_subrange;
use crate::ktx2_encode::ktx2_magic;

verus! {

/// Length of the fixed KTX2 header.
pub const KTX2_HEADER_LEN: usize = 80;
/// Length of one level-index entry.
pub const KTX2_INDEX_ENTRY_LEN: usize = 24;

/// The little-endian `u32` stored at `at`.
pub open spec fn rd32(b: Seq<u8>, at: int) -> u32 {
    spec_u32_from_le_bytes(b.subrange(at, at + 4))
}

/// The little-endian `u64` stored at `at`.
pub open spec fn rd64(b: Seq<u8>, at: int) -> u64 {
    spec_u64_from_le_bytes(b.subrange(at, at + 8))
}

/// Number of level-index entries: the header's level count, at least one.
pub open spec fn index_count(b: Seq<u8>) -> int {
    if rd32(b, 40) == 0 { 1 } else { rd32(b, 40) as int }
}

/// End of the level index.
pub open spec fn index_end(b: Seq<u8>) -> int {
    KTX2_HEADER_LEN + index_count(b) * KTX2_INDEX_ENTRY_LEN
}

/// Byte offset of level `i`'s data, from its level-index entry.
pub open spec fn level_offset(b: Seq<u8>, i: int) -> int {
    rd64(b, KTX2_HEADER_LEN + i * KTX2_INDEX_ENTRY_LEN) as int
}

/// Byte length of level `i`'s data, from its level-index entry.
pub open spec fn level_length(b: Seq<u8>, i: int) -> int {
    rd64(b, KTX2_HEADER_LEN + i * KTX2_INDEX_ENTRY_LEN + 8) as int
}

/// End of the DFD as the header declares it (`dfdByteOffset + dfdByteLength`).
pub open spec fn dfd_end(b: Seq<u8>) -> int {
    rd32(b, 48) as int + rd32(b, 52) as int
}

/// The last of the first `n` levels whose offset is largest (the "trailing" level
/// whose end the reader checks against the input length).
pub open spec fn trailing_level(b: Seq<u8>, n: int) -> int
    decreases n,
{
    if n <= 1 {
        0
    } else {
        let t = trailing_level(b, n - 1);
        if level_offset(b, n - 1) >= level_offset(b, t) { n - 1 } else { t }
    }
}

/// End of the trailing level's data.
pub open spec fn trailing_end(b: Seq<u8>) -> int {
    let t = trailing_level(b, index_count(b));
    level_offset(b, t) + level_length(b, t)
}

/// Long enough for a header, correct magic, nonzero width and face count.
pub open spec fn header_valid(b: Seq<u8>) -> bool {
    &&& b.len() >= KTX2_HEADER_LEN
    &&& b.take(12) == ktx2_magic()
    &&& rd32(b, 20) != 0
    &&& rd32(b, 36) != 0
}

/// The blobs `ktx2::Reader::new` accepts.
pub open spec fn reader_accepts(b: Seq<u8>) -> bool {
    &&& header_valid(b)
    &&& dfd_end(b) < b.len()
    &&& index_end(b) <= b.len()
    &&& trailing_end(b) <= b.len()
}

/// The first `n` levels' data lie inside the blob.
pub open spec fn levels_in_bounds(b: Seq<u8>, n: int) -> bool {
    forall|i: int| 0 <= i < n ==> level_offset(b, i) + level_length(b, i) <= b.len()
}

/// The blobs on which `Reader::new` runs without an arithmetic overflow.
pub open spec fn reader_new_safe(b: Seq<u8>) -> bool {
    &&& header_valid(b) ==> dfd_end(b) <= u32::MAX
    &&& header_valid(b) && dfd_end(b) < b.len() ==> index_end(b) <= usize::MAX
    &&& header_valid(b) && dfd_end(b) < b.len() && index_end(b) <= b.len() ==> trailing_end(b) <= u64::MAX
}

/// The level index lies inside the blob, so its entries can be read.
pub open spec fn index_readable(b: Seq<u8>) -> bool {
    b.len() >= KTX2_HEADER_LEN && index_end(b) <= b.len()
}

/// How many levels are taken when at most `max_levels` are asked for.
pub open spec fn levels_taken(b: Seq<u8>, max_levels: int) -> int {
    if max_levels < index_count(b) { max_levels } else { index_count(b) }
}

/// The blobs the reader accepts and whose first `max_levels` levels it can slice out
/// without an out-of-range slice, having been built without an overflow.
pub open spec fn reader_yields(b: Seq<u8>, max_levels: int) -> bool {
    &&& reader_new_safe(b)
    &&& reader_accepts(b)
    &&& levels_in_bounds(b, levels_taken(b, max_levels))
}

/// Level `i`'s data as the reader slices it out of the blob.
pub open spec fn level_bytes(b: Seq<u8>, i: int) -> Seq<u8> {
    b.subrange(level_offset(b, i), level_offset(b, i) + level_length(b, i))
}

/// The header fields and level data of an accepted KTX2 blob, as plain values.
pub struct Ktx2Image {
    /// Raw `vkFormat` (0 when undefined).
    pub vk_format: u32,
    pub pixel_width: u32,
    pub pixel_height: u32,
    pub layer_count: u32,
    pub face_count: u32,
    /// Every level's data, level 0 first.
    pub levels: Vec<Vec<u8>>,
}

/// `img` holds exactly what the reader reads from `b`.
pub open spec fn image_matches(img: Ktx2Image, b: Seq<u8>) -> bool {
    &&& img.vk_format == rd32(b, 12)
    &&& img.pixel_width == rd32(b, 20)
    &&& img.pixel_height == rd32(b, 24)
    &&& img.layer_count == rd32(b, 32)
    &&& img.face_count == rd32(b, 36)
    &&& img.levels@.len() <= index_count(b)
    &&& forall|i: int| 0 <= i < img.levels@.len() ==> #[trigger] img.levels@[i]@ == level_bytes(b, i)
}

/// `ktx2::Reader::new(bytes)` (ktx2 0.3.0), then the accepted reader's `header()` and
/// the first `max_levels` items of its `levels()`, converted to plain values. The
/// contract restates what that crate's source does: `new` accepts exactly the blobs of
/// [`reader_accepts`]; `header()` decodes the little-endian fields at fixed header
/// offsets (`format` is `None` exactly when the raw value is 0, which is kept here as
/// the raw value); `levels()` yields, for each of the `max(1, levelCount)` index
/// entries in order, the slice `offset..offset + length`. The caller must rule out the
/// blobs on which the crate's unchecked additions overflow or a taken level's slice is
/// out of range.
#[verifier::external_body]
fn ktx2_read(bytes: &[u8], max_levels: usize) -> (res: Option<Ktx2Image>)
    requires
        reader_new_safe(bytes@),
        reader_accepts(bytes@) ==> levels_in_bounds(bytes@, levels_taken(bytes@, max_levels as int)),
    ensures
        res.is_some() == reader_accepts(bytes@),
        res matches Some(img) ==> image_matches(img, bytes@) && img.levels@.len() == levels_taken(
            bytes@,
            max_levels as int,
        ),
{
    let reader = match ktx2::Reader::new(bytes) {
        Ok(r) => r,
        Err(_) => return None,
    };
    let h = reader.header();
    let vk_format = match h.format {
        Some(f) => f.0.get(),
        None => 0,
    };
    let mut levels = Vec::new();
    for level in reader.levels().take(max_levels) {
        levels.push(level.to_vec());
    }
    Some(Ktx2Image { vk_format, pixel_width: h.pixel_width, pixel_height: h.pixel_height, layer_count: h.layer_count, face_count: h.face_count, levels })
}

/// The little-endian `u32` at `at`.
pub fn read_u32(b: &[u8], at: usize) -> (v: u32)
    requires
        at + 4 <= b@.len(),
    ensures
        v == rd32(b@, at as int),
{
    let n = b.len();
    u32_from_le_bytes(slice_subrange(b, at, at + 4))
}

/// The little-endian `u64` at `at`.
fn read_u64(b: &[u8], at: usize) -> (v: u64)
    requires
        at + 8 <= b@.len(),
    ensures
        v == rd64(b@, at as int),
{
    let n = b.len();
    u64_from_le_bytes(slice_subrange(b, at, at + 8))
}

/// Whether the blob opens with the KTX2 identifier.
fn has_magic(b: &[u8]) -> (ok: bool)
    requires
        b@.len() >= 12,
    ensures
        ok == (b@.take(12) == ktx2_magic()),
{
    let magic: [u8; 12] = [0xAB, 0x4B, 0x54, 0x58, 0x20, 0x32, 0x30, 0xBB, 0x0D, 0x0A, 0x1A, 0x0A];
    let mut i: usize = 0;
    while i < 12
        invariant
            b@.len() >= 12,
            i <= 12,
            magic@ == ktx2_magic(),
            forall|k: int| 0 <= k < i ==> b@[k] == ktx2_magic()[k],
        decreases 12 - i,
    {
        if b[i] != magic[i] {
            assert(b@.take(12)[i as int] != ktx2_magic()[i as int]);
            return false;
        }
        i = i + 1;
    }
    assert(b@.take(12) =~= ktx2_magic());
    true
}

/// Number of level-index entries, read from the header.
pub fn read_index_count(b: &[u8]) -> (n: u64)
    requires
        b@.len() >= KTX2_HEADER_LEN,
    ensures
        n == index_count(b@),
{
    let raw_count = read_u32(b, 40);
    if raw_count == 0 { 1 } else { raw_count as u64 }
}

/// Whether `ktx2::Reader::new` can be handed `b` without an arithmetic overflow.
pub fn reader_new_is_safe(b: &[u8]) -> (ok: bool)
    ensures
        ok == reader_new_safe(b@),
{
    let len = b.len();
    if len < KTX2_HEADER_LEN || !has_magic(b) || read_u32(b, 20) == 0 || read_u32(b, 36) == 0 {
        return true;
    }
    assert(header_valid(b@));
    let dfd_end = read_u32(b, 48) as u64 + read_u32(b, 52) as u64;
    if dfd_end > u32::MAX as u64 {
        return false;
    }
    if dfd_end >= len as u64 {
        return true;
    }
    let count = read_index_count(b);
    let end: u64 = 80 + count * 24;
    if end > usize::MAX as u64 {
        return false;
    }
    if end > len as u64 {
        return true;
    }
    let count = count as usize;
    // The trailing (last largest-offset) level.
    let mut t: usize = 0;
    let mut i: usize = 1;
    while i < count
        invariant
            len == b@.len(),
            count == index_count(b@),
            KTX2_HEADER_LEN + count * KTX2_INDEX_ENTRY_LEN <= len,
            1 <= i <= count,
            t == trailing_level(b@, i as int),
            t < i,
        decreases count - i,
    {
        if read_u64(b, 80 + i * 24) >= read_u64(b, 80 + t * 24) {
            t = i;
        }
        i = i + 1;
    }
    let trailing = read_u64(b, 80 + t * 24) as u128 + read_u64(b, 80 + t * 24 + 8) as u128;
    trailing <= u64::MAX as u128
}

/// Whether the level index lies inside the blob.
pub fn index_is_readable(b: &[u8]) -> (ok: bool)
    ensures
        ok == index_readable(b@),
{
    if b.len() < KTX2_HEADER_LEN {
        return false;
    }
    let count = read_index_count(b);
    (80 + count as u128 * 24) <= b.len() as u128
}

/// Byte offset of level `i`'s data.
pub fn read_level_offset(b: &[u8], i: usize) -> (v: u64)
    requires
        index_readable(b@),
        i < index_count(b@),
    ensures
        v == level_offset(b@, i as int),
{
    let n = b.len();
    read_u64(b, 80 + i * 24)
}

/// Byte length of level `i`'s data.
pub fn read_level_length(b: &[u8], i: usize) -> (v: u64)
    requires
        index_readable(b@),
        i < index_count(b@),
    ensures
        v == level_length(b@, i as int),
{
    let n = b.len();
    read_u64(b, 80 + i * 24 + 8)
}

/// Whether the first `n` levels' data lie inside the blob.
fn levels_within(b: &[u8], n: usize) -> (ok: bool)
    requires
        index_readable(b@),
        n <= index_count(b@),
    ensures
        ok == levels_in_bounds(b@, n as int),
{
    let len = b.len();
    let mut j: usize = 0;
    while j < n
        invariant
            len == b@.len(),
            index_readable(b@),
            n <= index_count(b@),
            j <= n,
            forall|k: int| 0 <= k < j ==> level_offset(b@, k) + level_length(b@, k) <= len,
        decreases n - j,
    {
        let level_end = read_level_offset(b, j) as u128 + read_level_length(b, j) as u128;
        if level_end > len as u128 {
            assert(level_offset(b@, j as int) + level_length(b@, j as int) > len);
            return false;
        }
        j = j + 1;
    }
    true
}

/// Read a blob through `ktx2::Reader`, taking at most `max_levels` of its levels, or
/// `None` when the reader rejects it — or would panic on it (an overflowing header
/// sum, or a taken level lying outside the blob).
pub fn read_ktx2(bytes: &[u8], max_levels: usize) -> (res: Option<Ktx2Image>)
    ensures
        res.is_some() == reader_yields(bytes@, max_levels as int),
        res matches Some(img) ==> image_matches(img, bytes@) && img.levels@.len() == levels_taken(
            bytes@,
            max_levels as int,
        ),
{
    if !reader_new_is_safe(bytes) {
        return None;
    }
    if index_is_readable(bytes) {
        let count = read_index_count(bytes) as usize;
        let taken = if max_levels < count { max_levels } else { count };
        if !levels_within(bytes, taken) {
            return None;
        }
    }
    ktx2_read(bytes, max_levels)
}

} // verus!
