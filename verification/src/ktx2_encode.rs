//! KTX2 writer for baked cubemaps: a fixed 80-byte header, a level index (one 24-byte
//! entry per mip, largest first), a Basic Data Format Descriptor, then the level data,
//! for an LDR `R8G8B8A8_SRGB` cubemap with a full mip chain.

use vstd::prelude::*;
use vstd::bytes::{
    lemma_auto_spec_u32_to_from_le_bytes, lemma_auto_spec_u64_to_from_le_bytes, spec_u32_to_le_bytes,
    spec_u64_to_le_bytes,
};
use crate::byte_io::{append_bytes, push_u32, put_bytes, put_u32_after, put_u64_after, splice, lemma_splice_after_prefix};
use crate::prefiltered::{data_prefix, faces_prefix, lemma_data_prefix_monotone, level_data, PrefilteredCubemap};
use crate::ktx2_reader::{rd32, rd64};

verus! {

/// Length of the fixed KTX2 header.
pub const HEADER_LEN: usize = 80;
/// Length of one level-index entry (offset, length, uncompressed length).
pub const LEVEL_INDEX_ENTRY_LEN: usize = 24;
/// Length of the data format descriptor the writer emits.
pub const DFD_LEN: usize = 28;
/// `VK_FORMAT_R8G8B8A8_SRGB` — the LDR sRGB format the bake emits and the loader accepts.
pub const VK_FORMAT_R8G8B8A8_SRGB: u32 = 43;

/// The twelve identifier bytes every KTX2 file starts with.
pub open spec fn ktx2_magic() -> Seq<u8> {
    seq![0xABu8, 0x4Bu8, 0x54u8, 0x58u8, 0x20u8, 0x32u8, 0x30u8, 0xBBu8, 0x0Du8, 0x0Au8, 0x1Au8, 0x0Au8]
}

pub open spec fn le32(v: u32) -> Seq<u8> {
    spec_u32_to_le_bytes(v)
}

pub open spec fn le64(v: u64) -> Seq<u8> {
    spec_u64_to_le_bytes(v)
}

/// The 80-byte header of a `size × size` RGBA8 sRGB cubemap (`faceCount = 6`, no array
/// layers, no supercompression) with `levels` mips and its DFD at
/// `dfd_offset..dfd_offset + dfd_len`.
pub open spec fn header_bytes(size: u32, levels: u32, dfd_offset: u32, dfd_len: u32) -> Seq<u8> {
    ktx2_magic() + le32(VK_FORMAT_R8G8B8A8_SRGB) + le32(1) + le32(size) + le32(size) + le32(0)
        + le32(0) + le32(6) + le32(levels) + le32(0) + le32(dfd_offset) + le32(dfd_len) + le32(0)
        + le32(0) + le64(0) + le64(0)
}

/// What a reader finds in the header of `b`: the KTX2 identifier; an `R8G8B8A8_SRGB`
/// format of one-byte channels; a `size × size` 2D image (depth 0) that is no array
/// (layer count 0) but a cubemap (six faces); `levels` mips; no supercompression, so the
/// level data is stored raw; the DFD at `dfd_offset` of `dfd_len` bytes; and no
/// key/value or supercompression global data.
pub open spec fn header_reads(b: Seq<u8>, size: u32, levels: u32, dfd_offset: u32, dfd_len: u32) -> bool {
    &&& b.len() >= HEADER_LEN
    &&& b.take(12) == ktx2_magic()
    &&& rd32(b, 12) == VK_FORMAT_R8G8B8A8_SRGB
    &&& rd32(b, 16) == 1
    &&& rd32(b, 20) == size
    &&& rd32(b, 24) == size
    &&& rd32(b, 28) == 0
    &&& rd32(b, 32) == 0
    &&& rd32(b, 36) == 6
    &&& rd32(b, 40) == levels
    &&& rd32(b, 44) == 0
    &&& rd32(b, 48) == dfd_offset
    &&& rd32(b, 52) == dfd_len
    &&& rd32(b, 56) == 0
    &&& rd32(b, 60) == 0
    &&& rd64(b, 64) == 0
    &&& rd64(b, 72) == 0
}

/// Whatever follows it, the header reads back as the fields it was built from.
pub proof fn lemma_header_reads(size: u32, levels: u32, dfd_offset: u32, dfd_len: u32, rest: Seq<u8>)
    ensures
        header_reads(header_bytes(size, levels, dfd_offset, dfd_len) + rest, size, levels, dfd_offset, dfd_len),
{
    lemma_auto_spec_u32_to_from_le_bytes();
    lemma_auto_spec_u64_to_from_le_bytes();
    lemma_header_len(size, levels, dfd_offset, dfd_len);
    let h = header_bytes(size, levels, dfd_offset, dfd_len);
    let b = h + rest;
    assert(ktx2_magic().len() == 12);
    assert(b.take(12) =~= ktx2_magic());
    assert(b.subrange(12, 16) =~= le32(VK_FORMAT_R8G8B8A8_SRGB));
    assert(b.subrange(16, 20) =~= le32(1));
    assert(b.subrange(20, 24) =~= le32(size));
    assert(b.subrange(24, 28) =~= le32(size));
    assert(b.subrange(28, 32) =~= le32(0));
    assert(b.subrange(32, 36) =~= le32(0));
    assert(b.subrange(36, 40) =~= le32(6));
    assert(b.subrange(40, 44) =~= le32(levels));
    assert(b.subrange(44, 48) =~= le32(0));
    assert(b.subrange(48, 52) =~= le32(dfd_offset));
    assert(b.subrange(52, 56) =~= le32(dfd_len));
    assert(b.subrange(56, 60) =~= le32(0));
    assert(b.subrange(60, 64) =~= le32(0));
    assert(b.subrange(64, 72) =~= le64(0));
    assert(b.subrange(72, 80) =~= le64(0));
}

/// The encoding of any cube starts with the header a reader expects of it: its base
/// size on both sides, six faces, one level per mip, no supercompression (the levels
/// are raw RGBA8 bytes), the DFD right after the level index.
pub proof fn lemma_encoding_header(base_size: u32, mips: Seq<[Vec<u8>; 6]>)
    ensures
        header_reads(
            encoded_cubemap(base_size, mips),
            base_size,
            mips.len() as u32,
            dfd_offset_for(mips.len() as int) as u32,
            DFD_LEN as u32,
        ),
        rd32(encoded_cubemap(base_size, mips), 44) == 0,
        rd32(encoded_cubemap(base_size, mips), 36) == 6,
{
    let levels = mips.len() as int;
    let dfd_offset = dfd_offset_for(levels);
    let h = header_bytes(base_size, levels as u32, dfd_offset as u32, DFD_LEN as u32);
    let rest = index_bytes(level_entries(mips, dfd_offset + DFD_LEN, levels)) + dfd_bytes() + data_prefix(mips, levels);
    assert(encoded_cubemap(base_size, mips) =~= h + rest);
    lemma_header_reads(base_size, levels as u32, dfd_offset as u32, DFD_LEN as u32, rest);
}

/// The header is exactly [`HEADER_LEN`] bytes.
pub proof fn lemma_header_len(size: u32, levels: u32, dfd_offset: u32, dfd_len: u32)
    ensures
        header_bytes(size, levels, dfd_offset, dfd_len).len() == HEADER_LEN,
{
    lemma_auto_spec_u32_to_from_le_bytes();
    lemma_auto_spec_u64_to_from_le_bytes();
    assert(le32(VK_FORMAT_R8G8B8A8_SRGB).len() == 4);
    assert(le32(1).len() == 4);
    assert(le32(size).len() == 4);
    assert(le32(0).len() == 4);
    assert(le32(6).len() == 4);
    assert(le32(levels).len() == 4);
    assert(le32(dfd_offset).len() == 4);
    assert(le32(dfd_len).len() == 4);
    assert(le64(0).len() == 8);
}

/// Each level-index entry is [`LEVEL_INDEX_ENTRY_LEN`] bytes, so the index of `n`
/// entries is `24 * n` bytes.
pub proof fn lemma_index_len(entries: Seq<(u64, u64)>)
    ensures
        index_bytes(entries).len() == entries.len() * LEVEL_INDEX_ENTRY_LEN,
    decreases entries.len(),
{
    lemma_auto_spec_u64_to_from_le_bytes();
    if entries.len() > 0 {
        lemma_index_len(entries.drop_last());
        let e = entries.last();
        assert(le64(e.0).len() == 8);
        assert(le64(e.1).len() == 8);
    }
}

/// One level-index entry: offset, length, and an uncompressed length equal to the length.
pub open spec fn index_entry(e: (u64, u64)) -> Seq<u8> {
    le64(e.0) + le64(e.1) + le64(e.1)
}

/// The level index for `entries`, first entry first.
pub open spec fn index_bytes(entries: Seq<(u64, u64)>) -> Seq<u8>
    decreases entries.len(),
{
    if entries.len() == 0 {
        Seq::empty()
    } else {
        index_bytes(entries.drop_last()) + index_entry(entries.last())
    }
}

/// The minimal Basic Data Format Descriptor: total size 28, then a basic block header
/// (vendor 0, type 0, version 2, block size 24) and sixteen zero bytes.
pub open spec fn dfd_bytes() -> Seq<u8> {
    le32(28) + le32(0) + le32(1572866) + Seq::new(16, |i: int| 0u8)
}

/// The (offset, length) entry of each of the first `n` levels when the level data
/// starts at byte `data_offset`.
pub open spec fn level_entries(mips: Seq<[Vec<u8>; 6]>, data_offset: int, n: int) -> Seq<(u64, u64)> {
    Seq::new(
        n as nat,
        |l: int| ((data_offset + data_prefix(mips, l).len()) as u64, level_data(mips[l]).len() as u64),
    )
}

/// Where the DFD starts for a chain of `levels` mips.
pub open spec fn dfd_offset_for(levels: int) -> int {
    HEADER_LEN + levels * LEVEL_INDEX_ENTRY_LEN
}

/// The complete KTX2 encoding of a prefiltered cube.
pub open spec fn encoded_cubemap(base_size: u32, mips: Seq<[Vec<u8>; 6]>) -> Seq<u8> {
    let levels = mips.len() as int;
    let dfd_offset = dfd_offset_for(levels);
    header_bytes(base_size, levels as u32, dfd_offset as u32, DFD_LEN as u32)
        + index_bytes(level_entries(mips, dfd_offset + DFD_LEN, levels)) + dfd_bytes()
        + data_prefix(mips, levels)
}

/// The cube fits the format's 32-bit header fields and its encoding fits in memory.
pub open spec fn encodable(mips: Seq<[Vec<u8>; 6]>) -> bool {
    &&& dfd_offset_for(mips.len() as int) + DFD_LEN <= u32::MAX
    &&& dfd_offset_for(mips.len() as int) + DFD_LEN + data_prefix(mips, mips.len() as int).len() <= usize::MAX
}

/// Encode a prefiltered cubemap into KTX2 bytes: an `R8G8B8A8_SRGB` cubemap with one level
/// per roughness mip (largest first), each level holding the six faces packed in
/// `CubemapFace::ALL` order.
pub fn encode_cubemap(cube: &PrefilteredCubemap) -> (bytes: Vec<u8>)
    requires
        encodable(cube.mips@),
    ensures
        bytes@ == encoded_cubemap(cube.base_size, cube.mips@),
        header_reads(
            bytes@,
            cube.base_size,
            cube.mips@.len() as u32,
            dfd_offset_for(cube.mips@.len() as int) as u32,
            DFD_LEN as u32,
        ),
        rd32(bytes@, 44) == 0,
{
    let ghost mips = cube.mips@;
    let levels = cube.level_count();
    let dfd = build_dfd();
    let dfd_offset = HEADER_LEN + levels * LEVEL_INDEX_ENTRY_LEN;
    let level_data_offset = dfd_offset + dfd.len();

    // Lay out level data largest mip first; record each level's (offset, length).
    let mut level_bytes: Vec<u8> = Vec::new();
    let mut index: Vec<(u64, u64)> = Vec::with_capacity(levels);
    let mut level: usize = 0;
    while level < levels
        invariant
            mips == cube.mips@,
            levels == mips.len(),
            encodable(mips),
            level_data_offset == dfd_offset_for(levels as int) + DFD_LEN,
            level <= levels,
            level_bytes@ == data_prefix(mips, level as int),
            index@ == level_entries(mips, level_data_offset as int, level as int),
        decreases levels - level,
    {
        proof {
            lemma_data_prefix_monotone(mips, level as int, levels as int);
            lemma_data_prefix_monotone(mips, level + 1, levels as int);
        }
        let offset = level_data_offset as u64 + level_bytes.len() as u64;
        let start = level_bytes.len();
        let mut face: usize = 0;
        while face < 6
            invariant
                mips == cube.mips@,
                level < levels == mips.len(),
                start == data_prefix(mips, level as int).len(),
                face <= 6,
                level_bytes@ == data_prefix(mips, level as int) + faces_prefix(mips[level as int], face as int),
            decreases 6 - face,
        {
            append_bytes(&mut level_bytes, cube.mips[level][face].as_slice());
            face = face + 1;
            proof {
                assert(level_bytes@ =~= data_prefix(mips, level as int) + faces_prefix(mips[level as int], face as int));
            }
        }
        index.push((offset, (level_bytes.len() - start) as u64));
        level = level + 1;
        proof {
            assert(index@ =~= level_entries(mips, level_data_offset as int, level as int));
        }
    }

    let mut buf = vec![0u8; level_data_offset];
    let ghost zeros = buf@;
    let ghost hdr = header_bytes(cube.base_size, levels as u32, dfd_offset as u32, DFD_LEN as u32);
    let ghost idx = index_bytes(level_entries(mips, level_data_offset as int, levels as int));
    proof {
        lemma_header_len(cube.base_size, levels as u32, dfd_offset as u32, DFD_LEN as u32);
        lemma_index_len(index@);
    }
    write_header(&mut buf, cube.base_size, levels as u32, dfd_offset, dfd.len());
    assert(buf@ == hdr + zeros.skip(HEADER_LEN as int));
    write_level_index(&mut buf, &index);
    proof {
        assert((hdr + zeros.skip(HEADER_LEN as int)).take(HEADER_LEN as int) =~= hdr);
        assert((hdr + zeros.skip(HEADER_LEN as int)).skip(dfd_offset as int) =~= zeros.skip(dfd_offset as int));
        assert(buf@ == hdr + idx + zeros.skip(dfd_offset as int));
        assert(buf@.len() == level_data_offset);
    }
    put_bytes(&mut buf, dfd_offset, dfd.as_slice());
    proof {
        assert(buf@ =~= hdr + idx + dfd_bytes());
    }
    append_bytes(&mut buf, level_bytes.as_slice());
    proof {
        assert(buf@ =~= encoded_cubemap(cube.base_size, mips));
        lemma_encoding_header(cube.base_size, mips);
    }
    buf
}

/// Write the 80-byte KTX2 header for a `size × size` RGBA8 SRGB cubemap (`face_count = 6`,
/// no array layers, no supercompression) with `levels` mips and the given DFD location.
fn write_header(buf: &mut Vec<u8>, size: u32, levels: u32, dfd_offset: usize, dfd_len: usize)
    requires
        old(buf)@.len() >= HEADER_LEN,
        dfd_offset <= u32::MAX,
        dfd_len <= u32::MAX,
    ensures
        final(buf)@ == header_bytes(size, levels, dfd_offset as u32, dfd_len as u32) + old(buf)@.skip(HEADER_LEN as int),
        final(buf)@.len() == old(buf)@.len(),
        header_reads(final(buf)@, size, levels, dfd_offset as u32, dfd_len as u32),
        rd32(final(buf)@, 44) == 0,
{
    proof {
        lemma_auto_spec_u32_to_from_le_bytes();
        lemma_auto_spec_u64_to_from_le_bytes();
    }
    let ghost orig = buf@;
    let magic: [u8; 12] = [0xAB, 0x4B, 0x54, 0x58, 0x20, 0x32, 0x30, 0xBB, 0x0D, 0x0A, 0x1A, 0x0A];
    put_bytes(buf, 0, magic.as_slice());
    proof {
        assert(magic@ =~= ktx2_magic());
        assert(buf@ =~= ktx2_magic() + orig.skip(12));
    }
    let ghost p = ktx2_magic();
    put_u32_after(buf, Ghost(p), Ghost(orig), 12, VK_FORMAT_R8G8B8A8_SRGB); // vkFormat
    let ghost p = p + le32(VK_FORMAT_R8G8B8A8_SRGB);
    put_u32_after(buf, Ghost(p), Ghost(orig), 16, 1); // typeSize (1 byte per channel)
    let ghost p = p + le32(1);
    put_u32_after(buf, Ghost(p), Ghost(orig), 20, size); // pixelWidth
    let ghost p = p + le32(size);
    put_u32_after(buf, Ghost(p), Ghost(orig), 24, size); // pixelHeight
    let ghost p = p + le32(size);
    put_u32_after(buf, Ghost(p), Ghost(orig), 28, 0); // pixelDepth (2D)
    let ghost p = p + le32(0);
    put_u32_after(buf, Ghost(p), Ghost(orig), 32, 0); // layerCount (not an array)
    let ghost p = p + le32(0);
    put_u32_after(buf, Ghost(p), Ghost(orig), 36, 6); // faceCount (cubemap)
    let ghost p = p + le32(6);
    put_u32_after(buf, Ghost(p), Ghost(orig), 40, levels); // levelCount
    let ghost p = p + le32(levels);
    put_u32_after(buf, Ghost(p), Ghost(orig), 44, 0); // supercompressionScheme (none)
    let ghost p = p + le32(0);
    put_u32_after(buf, Ghost(p), Ghost(orig), 48, dfd_offset as u32); // dfdByteOffset
    let ghost p = p + le32(dfd_offset as u32);
    put_u32_after(buf, Ghost(p), Ghost(orig), 52, dfd_len as u32); // dfdByteLength
    let ghost p = p + le32(dfd_len as u32);
    put_u32_after(buf, Ghost(p), Ghost(orig), 56, 0); // kvdByteOffset (none)
    let ghost p = p + le32(0);
    put_u32_after(buf, Ghost(p), Ghost(orig), 60, 0); // kvdByteLength
    let ghost p = p + le32(0);
    put_u64_after(buf, Ghost(p), Ghost(orig), 64, 0); // sgdByteOffset (none)
    let ghost p = p + le64(0);
    put_u64_after(buf, Ghost(p), Ghost(orig), 72, 0); // sgdByteLength
    proof {
        lemma_header_len(size, levels, dfd_offset as u32, dfd_len as u32);
        lemma_header_reads(size, levels, dfd_offset as u32, dfd_len as u32, orig.skip(HEADER_LEN as int));
    }
}

/// Write the level index: one 24-byte entry per mip (offset, length, uncompressed length;
/// uncompressed == length, no supercompression). Entry 0 is the largest mip.
fn write_level_index(buf: &mut Vec<u8>, index: &Vec<(u64, u64)>)
    requires
        old(buf)@.len() >= HEADER_LEN + index@.len() * LEVEL_INDEX_ENTRY_LEN,
    ensures
        final(buf)@ == old(buf)@.take(HEADER_LEN as int) + index_bytes(index@)
            + old(buf)@.skip(HEADER_LEN + index@.len() * LEVEL_INDEX_ENTRY_LEN),
{
    proof {
        lemma_auto_spec_u64_to_from_le_bytes();
    }
    let ghost orig = buf@;
    let len = buf.len();
    let n = index.len();
    let mut i: usize = 0;
    proof {
        assert(index@.take(0) =~= Seq::<(u64, u64)>::empty());
        assert(orig =~= orig.take(HEADER_LEN as int) + index_bytes(index@.take(0)) + orig.skip(HEADER_LEN as int));
    }
    while i < n
        invariant
            n == index@.len(),
            i <= n,
            orig.len() >= HEADER_LEN + n * LEVEL_INDEX_ENTRY_LEN,
            len == orig.len(),
            index_bytes(index@.take(i as int)).len() == i * LEVEL_INDEX_ENTRY_LEN,
            buf@ == orig.take(HEADER_LEN as int) + index_bytes(index@.take(i as int))
                + orig.skip(HEADER_LEN + i * LEVEL_INDEX_ENTRY_LEN),
        decreases n - i,
    {
        proof {
            lemma_auto_spec_u64_to_from_le_bytes();
        }
        let (offset, length) = index[i];
        let at = HEADER_LEN + i * LEVEL_INDEX_ENTRY_LEN;
        let ghost p0 = orig.take(HEADER_LEN as int) + index_bytes(index@.take(i as int));
        proof {
            assert(orig.skip(p0.len() as int) =~= orig.skip(HEADER_LEN + i * LEVEL_INDEX_ENTRY_LEN));
        }
        put_u64_after(buf, Ghost(p0), Ghost(orig), at, offset);
        let ghost p1 = p0 + le64(offset);
        assert(le64(offset).len() == 8);
        assert(le64(length).len() == 8);
        put_u64_after(buf, Ghost(p1), Ghost(orig), at + 8, length);
        let ghost p2 = p1 + le64(length);
        put_u64_after(buf, Ghost(p2), Ghost(orig), at + 16, length);
        i = i + 1;
        proof {
            let t = index@.take(i as int);
            assert(t.drop_last() =~= index@.take(i - 1));
            assert(t.last() == (offset, length));
            assert(index_bytes(t) == index_bytes(index@.take(i - 1)) + index_entry((offset, length)));
            assert(index_bytes(t).len() == i * LEVEL_INDEX_ENTRY_LEN);
            assert(buf@ =~= orig.take(HEADER_LEN as int) + index_bytes(index@.take(i as int))
                + orig.skip(HEADER_LEN + i * LEVEL_INDEX_ENTRY_LEN));
        }
    }
    proof {
        assert(index@.take(n as int) =~= index@);
    }
}

/// A minimal Basic Data Format Descriptor for `R8G8B8A8_SRGB`: the 4-byte total-size word
/// followed by a 24-byte basic-descriptor block header. The loader only checks the format
/// enum (from the header) and the DFD's presence/bounds, so a compact-but-valid block —
/// total size word + an empty basic block — satisfies the reader's integrity check.
fn build_dfd() -> (dfd: Vec<u8>)
    ensures
        dfd@ == dfd_bytes(),
        dfd@.len() == DFD_LEN,
{
    proof {
        lemma_auto_spec_u32_to_from_le_bytes();
    }
    // descriptorType=0 (basic), vendorId=0, versionNumber=2, descriptorBlockSize=24.
    let block_size: u32 = 24;
    let total: u32 = 4 + block_size;
    let mut dfd: Vec<u8> = Vec::with_capacity(total as usize);
    push_u32(&mut dfd, total); // dfdTotalSize
    // descriptorBlock word 0: vendorId(17) | descriptorType(15)
    push_u32(&mut dfd, 0);
    // word 1: versionNumber(16) | descriptorBlockSize(16)
    push_u32(&mut dfd, block_size * 65536 + 2);
    // words 2..6: colorModel/primaries/transfer/flags, texel block dims, bytesPlanes —
    // zeroed; the loader doesn't read them. Pads the block to descriptorBlockSize bytes.
    let pad: [u8; 16] = [0; 16];
    append_bytes(&mut dfd, pad.as_slice());
    proof {
        assert(pad@ =~= Seq::new(16, |i: int| 0u8));
        assert(dfd@ =~= dfd_bytes());
    }
    dfd
}

} // verus!
