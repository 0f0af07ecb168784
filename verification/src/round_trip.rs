//! What the KTX2 writer encodes, the cubemap loader parses back: the base level's six
//! faces and the whole mip chain come back byte for byte.

use vstd::prelude::*;
use vstd::bytes::{
    lemma_auto_spec_u32_to_from_le_bytes, lemma_auto_spec_u64_to_from_le_bytes, spec_u32_from_le_bytes,
    spec_u64_from_le_bytes,
};
use crate::ktx2_encode::{
    dfd_bytes, dfd_offset_for, encodable, encoded_cubemap, header_bytes, index_bytes, index_entry,
    ktx2_magic, le32, le64, lemma_header_len, lemma_index_len, level_entries, DFD_LEN,
    VK_FORMAT_R8G8B8A8_SRGB,
};
use crate::ktx2_reader::{
    dfd_end, header_valid, index_count, index_end, level_bytes, level_length, level_offset,
    levels_in_bounds, rd32, rd64, reader_accepts, reader_new_safe, reader_yields, trailing_end,
    trailing_level,
};
use crate::cubemap_load::{
    cube_header, first_short, level_expected, level_short, mip_chain, mips_sliced, parsed_cubemap,
    parsed_mips,
};
use crate::prefiltered::{data_prefix, lemma_data_prefix_monotone, level_data, mip_edge};

verus! {

/// The header's fields sit at their fixed offsets.
proof fn lemma_header_fields(size: u32, levels: u32, dfd_offset: u32, dfd_len: u32)
    ensures
        ({
            let h = header_bytes(size, levels, dfd_offset, dfd_len);
            &&& h.len() == 80
            &&& h.take(12) == ktx2_magic()
            &&& h.subrange(12, 16) == le32(VK_FORMAT_R8G8B8A8_SRGB)
            &&& h.subrange(20, 24) == le32(size)
            &&& h.subrange(24, 28) == le32(size)
            &&& h.subrange(32, 36) == le32(0)
            &&& h.subrange(36, 40) == le32(6)
            &&& h.subrange(40, 44) == le32(levels)
            &&& h.subrange(48, 52) == le32(dfd_offset)
            &&& h.subrange(52, 56) == le32(dfd_len)
        }),
{
    lemma_auto_spec_u32_to_from_le_bytes();
    lemma_auto_spec_u64_to_from_le_bytes();
    lemma_header_len(size, levels, dfd_offset, dfd_len);
    let h = header_bytes(size, levels, dfd_offset, dfd_len);
    assert(ktx2_magic().len() == 12);
    assert(h.take(12) =~= ktx2_magic());
    assert(h.subrange(12, 16) =~= le32(VK_FORMAT_R8G8B8A8_SRGB));
    assert(h.subrange(20, 24) =~= le32(size));
    assert(h.subrange(24, 28) =~= le32(size));
    assert(h.subrange(32, 36) =~= le32(0));
    assert(h.subrange(36, 40) =~= le32(6));
    assert(h.subrange(40, 44) =~= le32(levels));
    assert(h.subrange(48, 52) =~= le32(dfd_offset));
    assert(h.subrange(52, 56) =~= le32(dfd_len));
}

/// Entry `l` of a level index holds that entry's offset and length.
proof fn lemma_index_entry_at(e: Seq<(u64, u64)>, l: int)
    requires
        0 <= l < e.len(),
    ensures
        index_bytes(e).subrange(24 * l, 24 * l + 8) == le64(e[l].0),
        index_bytes(e).subrange(24 * l + 8, 24 * l + 16) == le64(e[l].1),
    decreases e.len(),
{
    lemma_auto_spec_u64_to_from_le_bytes();
    lemma_index_len(e.drop_last());
    let front = index_bytes(e.drop_last());
    let last = index_entry(e.last());
    assert(index_bytes(e) == front + last);
    if l == e.len() - 1 {
        assert(index_bytes(e).subrange(24 * l, 24 * l + 8) =~= last.subrange(0, 8));
        assert(last.subrange(0, 8) =~= le64(e[l].0));
        assert(index_bytes(e).subrange(24 * l + 8, 24 * l + 16) =~= last.subrange(8, 16));
        assert(last.subrange(8, 16) =~= le64(e[l].1));
    } else {
        lemma_index_entry_at(e.drop_last(), l);
        assert(index_bytes(e).subrange(24 * l, 24 * l + 8) =~= front.subrange(24 * l, 24 * l + 8));
        assert(index_bytes(e).subrange(24 * l + 8, 24 * l + 16) =~= front.subrange(24 * l + 8, 24 * l + 16));
    }
}

/// Level `l`'s bytes sit in the concatenated level data right after the levels before it.
proof fn lemma_level_in_data(mips: Seq<[Vec<u8>; 6]>, n: int, l: int)
    requires
        0 <= l < n,
    ensures
        data_prefix(mips, n).subrange(
            data_prefix(mips, l).len() as int,
            (data_prefix(mips, l).len() + level_data(mips[l]).len()) as int,
        ) == level_data(mips[l]),
    decreases n,
{
    let p = data_prefix(mips, n - 1);
    assert(data_prefix(mips, n) == p + level_data(mips[n - 1]));
    if l == n - 1 {
        assert(data_prefix(mips, n).subrange(p.len() as int, (p.len() + level_data(mips[l]).len()) as int)
            =~= level_data(mips[l]));
    } else {
        lemma_level_in_data(mips, n - 1, l);
        lemma_data_prefix_monotone(mips, l + 1, n - 1);
        assert(data_prefix(mips, l + 1) == data_prefix(mips, l) + level_data(mips[l]));
        let a = data_prefix(mips, l).len() as int;
        let c = a + level_data(mips[l]).len();
        assert(data_prefix(mips, n).subrange(a, c) =~= p.subrange(a, c));
    }
}

/// The trailing level is one of the levels.
proof fn lemma_trailing_in_range(b: Seq<u8>, n: int)
    requires
        n >= 1,
    ensures
        0 <= trailing_level(b, n) < n,
    decreases n,
{
    if n > 1 {
        lemma_trailing_in_range(b, n - 1);
    }
}

/// The cube shape the round trip is stated for: a nonzero base edge and a chain of at
/// least one level that fits the format.
pub open spec fn round_trippable(base_size: u32, mips: Seq<[Vec<u8>; 6]>) -> bool {
    &&& encodable(mips)
    &&& base_size >= 1
    &&& mips.len() >= 1
    &&& level_data(mips[0]).len() == base_size * base_size * 24
}

/// The encoding's header fields, read back the way the reader reads them.
proof fn lemma_encoded_header(base_size: u32, mips: Seq<[Vec<u8>; 6]>)
    requires
        round_trippable(base_size, mips),
    ensures
        ({
            let b = encoded_cubemap(base_size, mips);
            let levels = mips.len() as int;
            &&& b.len() == dfd_offset_for(levels) + DFD_LEN + data_prefix(mips, levels).len()
            &&& b.take(12) == ktx2_magic()
            &&& rd32(b, 12) == VK_FORMAT_R8G8B8A8_SRGB
            &&& rd32(b, 20) == base_size
            &&& rd32(b, 24) == base_size
            &&& rd32(b, 32) == 0
            &&& rd32(b, 36) == 6
            &&& rd32(b, 40) == levels
            &&& rd32(b, 48) == dfd_offset_for(levels)
            &&& rd32(b, 52) == DFD_LEN
            &&& index_count(b) == levels
        }),
{
    lemma_auto_spec_u32_to_from_le_bytes();
    lemma_auto_spec_u64_to_from_le_bytes();
    let levels = mips.len() as int;
    let dfd_offset = dfd_offset_for(levels);
    let h = header_bytes(base_size, levels as u32, dfd_offset as u32, DFD_LEN as u32);
    let entries = level_entries(mips, dfd_offset + DFD_LEN, levels);
    let i = index_bytes(entries);
    let rest = i + dfd_bytes() + data_prefix(mips, levels);
    let b = encoded_cubemap(base_size, mips);
    lemma_header_fields(base_size, levels as u32, dfd_offset as u32, DFD_LEN as u32);
    lemma_index_len(entries);
    assert(dfd_bytes().len() == DFD_LEN);
    assert(b =~= h + rest);
    assert(b.take(12) =~= h.take(12));
    assert(b.subrange(12, 16) =~= h.subrange(12, 16));
    assert(b.subrange(20, 24) =~= h.subrange(20, 24));
    assert(b.subrange(24, 28) =~= h.subrange(24, 28));
    assert(b.subrange(32, 36) =~= h.subrange(32, 36));
    assert(b.subrange(36, 40) =~= h.subrange(36, 40));
    assert(b.subrange(40, 44) =~= h.subrange(40, 44));
    assert(b.subrange(48, 52) =~= h.subrange(48, 52));
    assert(b.subrange(52, 56) =~= h.subrange(52, 56));
    assert(spec_u32_from_le_bytes(le32(levels as u32)) == levels as u32);
}

/// Level `l` of the encoding, read back through its level-index entry, is level `l`
/// of the cube.
proof fn lemma_encoded_level(base_size: u32, mips: Seq<[Vec<u8>; 6]>, l: int)
    requires
        round_trippable(base_size, mips),
        0 <= l < mips.len(),
    ensures
        ({
            let b = encoded_cubemap(base_size, mips);
            let levels = mips.len() as int;
            let data_offset = dfd_offset_for(levels) + DFD_LEN;
            &&& level_offset(b, l) == data_offset + data_prefix(mips, l).len()
            &&& level_length(b, l) == level_data(mips[l]).len()
            &&& level_offset(b, l) + level_length(b, l) <= b.len()
            &&& level_bytes(b, l) == level_data(mips[l])
        }),
{
    lemma_auto_spec_u32_to_from_le_bytes();
    lemma_auto_spec_u64_to_from_le_bytes();
    lemma_encoded_header(base_size, mips);
    let levels = mips.len() as int;
    let dfd_offset = dfd_offset_for(levels);
    let data_offset = dfd_offset + DFD_LEN;
    let h = header_bytes(base_size, levels as u32, dfd_offset as u32, DFD_LEN as u32);
    let entries = level_entries(mips, data_offset, levels);
    let i = index_bytes(entries);
    let d = data_prefix(mips, levels);
    let b = encoded_cubemap(base_size, mips);
    lemma_header_len(base_size, levels as u32, dfd_offset as u32, DFD_LEN as u32);
    lemma_index_len(entries);
    assert(dfd_bytes().len() == DFD_LEN);
    lemma_index_entry_at(entries, l);
    lemma_data_prefix_monotone(mips, l + 1, levels);
    assert(data_prefix(mips, l + 1) == data_prefix(mips, l) + level_data(mips[l]));
    let at = 80 + 24 * l;
    assert(b.subrange(at, at + 8) =~= i.subrange(24 * l, 24 * l + 8));
    assert(b.subrange(at + 8, at + 16) =~= i.subrange(24 * l + 8, 24 * l + 16));
    let off = data_offset + data_prefix(mips, l).len();
    let len = level_data(mips[l]).len();
    assert(entries[l] == (off as u64, len as u64));
    assert(level_offset(b, l) == off);
    assert(level_length(b, l) == len);
    lemma_level_in_data(mips, levels, l);
    assert(b.subrange(off, off + len) =~= d.subrange(off - data_offset, off - data_offset + len));
}

/// Encoding then decoding the base level gives back the base edge and the base level's
/// six faces, in face order.
pub proof fn lemma_encode_then_parse(base_size: u32, mips: Seq<[Vec<u8>; 6]>)
    requires
        round_trippable(base_size, mips),
    ensures
        parsed_cubemap(encoded_cubemap(base_size, mips)) == Some((base_size, level_data(mips[0]))),
{
    let b = encoded_cubemap(base_size, mips);
    let levels = mips.len() as int;
    lemma_encoded_header(base_size, mips);
    lemma_encoded_view_accepted(base_size, mips);
    lemma_encoded_level(base_size, mips, 0);
    assert(levels_in_bounds(b, 1));
    assert(level_bytes(b, 0).take(base_size * base_size * 24) =~= level_data(mips[0]));
}

/// The encoding is accepted by the reader, which can be built on it without overflow
/// and can slice out every level.
proof fn lemma_encoded_view_accepted(base_size: u32, mips: Seq<[Vec<u8>; 6]>)
    requires
        round_trippable(base_size, mips),
    ensures
        reader_new_safe(encoded_cubemap(base_size, mips)),
        reader_accepts(encoded_cubemap(base_size, mips)),
        forall|n: int| 0 <= n <= mips.len() ==> levels_in_bounds(encoded_cubemap(base_size, mips), n),
        cube_header(encoded_cubemap(base_size, mips)),
{
    let b = encoded_cubemap(base_size, mips);
    let levels = mips.len() as int;
    lemma_encoded_header(base_size, mips);
    assert(header_valid(b));
    lemma_data_prefix_monotone(mips, 1, levels);
    lemma_encoded_level(base_size, mips, 0);
    assert(base_size * base_size >= 1) by (nonlinear_arith)
        requires
            base_size >= 1,
    ;
    assert(data_prefix(mips, 1) == data_prefix(mips, 0) + level_data(mips[0]));
    assert(data_prefix(mips, 1).len() >= 24);
    assert(dfd_end(b) < b.len());
    assert(index_end(b) <= b.len());
    assert forall|l: int| 0 <= l < levels implies level_offset(b, l) + level_length(b, l) <= b.len() by {
        lemma_encoded_level(base_size, mips, l);
    }
    lemma_trailing_in_range(b, levels);
    let t = trailing_level(b, levels);
    assert(level_offset(b, t) + level_length(b, t) <= b.len());
    assert(trailing_end(b) <= b.len());
}

/// Every level of the chain is exactly one full level of its mip edge.
pub open spec fn full_chain(base_size: u32, mips: Seq<[Vec<u8>; 6]>) -> bool {
    forall|l: int| 0 <= l < mips.len() ==> #[trigger] level_data(mips[l]).len() == level_expected(base_size, l)
}

/// Encoding then decoding the mip chain gives back the base edge and every level, in
/// order, when every level is a full level of its mip edge.
pub proof fn lemma_encode_then_parse_mips(base_size: u32, mips: Seq<[Vec<u8>; 6]>)
    requires
        round_trippable(base_size, mips),
        full_chain(base_size, mips),
    ensures
        parsed_mips(encoded_cubemap(base_size, mips)) == Some(
            (base_size, Seq::new(mips.len(), |l: int| level_data(mips[l]))),
        ),
{
    let b = encoded_cubemap(base_size, mips);
    let levels = mips.len() as int;
    lemma_encoded_header(base_size, mips);
    lemma_encoded_view_accepted(base_size, mips);
    lemma_chain_from(base_size, mips, 0);
    assert(first_short(b, base_size, 0) == levels);
    assert(mips_sliced(b, base_size) == levels);
    assert(levels_in_bounds(b, levels));
    assert(mip_chain(b, base_size, 0) =~= Seq::new(mips.len(), |l: int| level_data(mips[l])));
}

/// From level `i` on, no level of a full chain is short and the decoded chain is the
/// cube's levels from `i` on.
proof fn lemma_chain_from(base_size: u32, mips: Seq<[Vec<u8>; 6]>, i: int)
    requires
        round_trippable(base_size, mips),
        full_chain(base_size, mips),
        0 <= i <= mips.len(),
    ensures
        first_short(encoded_cubemap(base_size, mips), base_size, i) == mips.len(),
        mip_chain(encoded_cubemap(base_size, mips), base_size, i)
            =~= Seq::new((mips.len() - i) as nat, |k: int| level_data(mips[i + k])),
    decreases mips.len() - i,
{
    let b = encoded_cubemap(base_size, mips);
    lemma_encoded_header(base_size, mips);
    if i < mips.len() {
        lemma_encoded_level(base_size, mips, i);
        assert(level_data(mips[i]).len() == level_expected(base_size, i));
        assert(!level_short(b, base_size, i));
        lemma_chain_from(base_size, mips, i + 1);
        assert(level_bytes(b, i).take(level_expected(base_size, i)) =~= level_data(mips[i]));
    }
}

} // verus!
