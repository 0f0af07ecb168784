use rusty_render::cubemap_face::CubemapFace;
use rusty_render::cubemap_load::{parse_ktx2_cubemap, parse_ktx2_cubemap_mips};
use rusty_render::ktx2_encode::encode_cubemap;
use rusty_render::prefiltered::PrefilteredCubemap;

/// A tiny prefiltered cube: `base`-edge mip0 down to 1×1, each level six solid faces tinted
/// `face_index * 40` in red so face order is checkable after the round-trip.
fn tiny_cube(base: u32) -> PrefilteredCubemap {
    let levels = 32 - base.leading_zeros();
    let mut mips = Vec::new();
    for level in 0..levels {
        let size = (base >> level).max(1);
        let faces: [Vec<u8>; 6] = std::array::from_fn(|f| {
            let mut buf = vec![0u8; (size * size * 4) as usize];
            for px in buf.chunks_mut(4) {
                px[0] = (f as u8) * 40;
                px[3] = 255;
            }
            buf
        });
        mips.push(faces);
    }
    PrefilteredCubemap {
        mips,
        base_size: base,
    }
}

/// The encoded bytes parse with the production loader, recovering size + face order.
#[test]
fn encode_round_trips_through_loader() {
    let cube = tiny_cube(4);
    let bytes = encode_cubemap(&cube);

    let parsed = parse_ktx2_cubemap(&bytes).expect("encoded KTX2 should parse");
    assert_eq!(parsed.size, 4);
    let face_bytes = (4 * 4 * 4) as usize;
    assert_eq!(parsed.faces_rgba8.len(), face_bytes * 6);
    // Face f's first pixel red channel is f*40 (the tint), proving face order survived.
    for f in 0..6 {
        assert_eq!(parsed.faces_rgba8[f * face_bytes], (f as u8) * 40);
    }
}

/// The full mip chain parses back with the same level count and halving sizes.
#[test]
fn encode_round_trips_full_mip_chain() {
    let cube = tiny_cube(4);
    let bytes = encode_cubemap(&cube);

    let mips = parse_ktx2_cubemap_mips(&bytes).expect("encoded KTX2 should parse mips");
    assert_eq!(mips.size, 4);
    assert_eq!(mips.mips.len(), cube.level_count());
    // Level 0 holds 4×4×6 RGBA8, level 1 holds 2×2×6, level 2 holds 1×1×6.
    assert_eq!(mips.mips[0].len(), 4 * 4 * 4 * 6);
    assert_eq!(mips.mips[1].len(), 2 * 2 * 4 * 6);
    assert_eq!(mips.mips[2].len(), 4 * 6);
}

/// The raw `ktx2::Reader` accepts our bytes — i.e. the header, level index and DFD we
/// emit pass its integrity validation.
#[test]
fn ktx2_reader_accepts_encoded_bytes() {
    let cube = tiny_cube(2);
    let bytes = encode_cubemap(&cube);
    let reader = ktx2::Reader::new(&bytes).expect("ktx2 crate should accept our encode");
    let header = reader.header();
    assert_eq!(header.face_count, 6);
    assert_eq!(header.pixel_width, 2);
    assert_eq!(header.level_count, cube.level_count() as u32);
}

/// The header carries the exact fixed layout: magic, sRGB RGBA8 format, six faces, the
/// level count, and a DFD right after the level index.
#[test]
fn encoded_header_fields_are_exact() {
    let cube = tiny_cube(4);
    let bytes = encode_cubemap(&cube);
    assert_eq!(&bytes[0..12], &[0xAB, 0x4B, 0x54, 0x58, 0x20, 0x32, 0x30, 0xBB, 0x0D, 0x0A, 0x1A, 0x0A]);
    let word = |at: usize| u32::from_le_bytes(bytes[at..at + 4].try_into().unwrap());
    let dword = |at: usize| u64::from_le_bytes(bytes[at..at + 8].try_into().unwrap());
    assert_eq!(word(12), 43);
    assert_eq!(word(20), 4);
    assert_eq!(word(36), 6);
    assert_eq!(word(40), 3);
    // DFD at 80 + 3 * 24 = 152, 28 bytes long.
    assert_eq!(word(48), 152);
    assert_eq!(word(52), 28);
    // Level 0 data starts right after the DFD and is 4*4*4*6 bytes; level 1 follows it.
    assert_eq!(dword(80), 180);
    assert_eq!(dword(88), 384);
    assert_eq!(dword(96), 384);
    assert_eq!(dword(104), 180 + 384);
    assert_eq!(dword(112), 96);
    assert_eq!(bytes.len(), 180 + 384 + 96 + 24);
    assert_eq!(word(152), 28);
    assert_eq!(word(160), (24 << 16) | 2);
}

/// Build a minimal-but-valid KTX2 byte blob for a `size × size` RGBA8 cubemap with one
/// mip level, each face a solid colour `face_index` in the red channel. Layout: 80-byte
/// header, one 24-byte level-index entry, a minimal DFD block, then the packed faces.
fn build_cubemap_ktx2(size: u32, format: u32, face_count: u32) -> Vec<u8> {
    const MAGIC: [u8; 12] = [
        0xAB, 0x4B, 0x54, 0x58, 0x20, 0x32, 0x30, 0xBB, 0x0D, 0x0A, 0x1A, 0x0A,
    ];
    let face_bytes = (size as usize) * (size as usize) * 4;
    let level_len = face_bytes * face_count as usize;

    let header_len = 80usize;
    let level_index_len = 24usize; // one level
    let dfd_len = 4usize; // placeholder DFD (just its length word)
    let dfd_offset = header_len + level_index_len;
    let level_offset = dfd_offset + dfd_len;

    let mut buf = vec![0u8; level_offset + level_len];
    buf[0..12].copy_from_slice(&MAGIC);
    let put = |b: &mut [u8], at: usize, v: u32| b[at..at + 4].copy_from_slice(&v.to_le_bytes());
    put(&mut buf, 12, format); // vkFormat
    put(&mut buf, 16, 4); // typeSize
    put(&mut buf, 20, size); // pixelWidth
    put(&mut buf, 24, size); // pixelHeight
    put(&mut buf, 28, 0); // pixelDepth
    put(&mut buf, 32, 0); // layerCount
    put(&mut buf, 36, face_count); // faceCount
    put(&mut buf, 40, 1); // levelCount
    put(&mut buf, 44, 0); // supercompressionScheme
    put(&mut buf, 48, dfd_offset as u32); // dfdByteOffset
    put(&mut buf, 52, dfd_len as u32); // dfdByteLength

    // Level-index entry 0: offset, length, uncompressed length.
    let li = header_len;
    buf[li..li + 8].copy_from_slice(&(level_offset as u64).to_le_bytes());
    buf[li + 8..li + 16].copy_from_slice(&(level_len as u64).to_le_bytes());
    buf[li + 16..li + 24].copy_from_slice(&(level_len as u64).to_le_bytes());

    // Faces: tag each face's first pixel's red channel with its index so order is checkable.
    for f in 0..face_count as usize {
        buf[level_offset + f * face_bytes] = f as u8;
    }
    buf
}

const R8G8B8A8_UNORM: u32 = 37;
const R8G8B8A8_SRGB: u32 = 43;
const R16G16B16A16_SFLOAT: u32 = 97; // an HDR format we must reject

#[test]
fn parses_valid_rgba8_cubemap() {
    let bytes = build_cubemap_ktx2(2, R8G8B8A8_UNORM, 6);
    let cube = parse_ktx2_cubemap(&bytes).expect("should parse");
    assert_eq!(cube.size, 2);
    assert_eq!(cube.faces_rgba8.len(), 2 * 2 * 4 * 6);
    // Face order preserved: face f tagged with red = f at its start.
    let face_bytes = 2 * 2 * 4;
    assert_eq!(cube.faces_rgba8[0], 0);
    assert_eq!(cube.faces_rgba8[face_bytes], 1);
    assert_eq!(cube.faces_rgba8[5 * face_bytes], 5);
}

#[test]
fn accepts_srgb_too() {
    let bytes = build_cubemap_ktx2(1, R8G8B8A8_SRGB, 6);
    assert!(parse_ktx2_cubemap(&bytes).is_some());
}

#[test]
fn rejects_non_cube() {
    // A 2D texture (1 face) is not a cubemap.
    let bytes = build_cubemap_ktx2(1, R8G8B8A8_UNORM, 1);
    assert!(parse_ktx2_cubemap(&bytes).is_none());
}

#[test]
fn rejects_hdr_format() {
    let bytes = build_cubemap_ktx2(1, R16G16B16A16_SFLOAT, 6);
    assert!(parse_ktx2_cubemap(&bytes).is_none());
}

#[test]
fn rejects_garbage() {
    assert!(parse_ktx2_cubemap(b"not a ktx2 file at all").is_none());
    assert!(parse_ktx2_cubemap(&[]).is_none());
}

/// A level-index entry pointing past the end of the blob, on a level the reader does
/// not validate itself: the base-level parse never touches it, the mip parse refuses
/// the blob instead of slicing out of range.
#[test]
fn out_of_range_secondary_level_is_refused() {
    let mut bytes = build_cubemap_ktx2(1, R8G8B8A8_UNORM, 6);
    // Two levels: level 0 valid (trailing), level 1 placed before it but far too long.
    bytes[40..44].copy_from_slice(&2u32.to_le_bytes());
    let mut blob = bytes[..104].to_vec();
    blob.extend_from_slice(&[0u8; 24]); // second index entry
    blob.extend_from_slice(&bytes[104..]);
    let data_offset = 104 + 24 + 4;
    blob[48..52].copy_from_slice(&(128u32).to_le_bytes());
    blob[80..88].copy_from_slice(&(data_offset as u64).to_le_bytes());
    blob[104..112].copy_from_slice(&(1u64).to_le_bytes());
    blob[112..120].copy_from_slice(&(100_000u64).to_le_bytes());
    assert!(parse_ktx2_cubemap(&blob).is_some());
    assert!(parse_ktx2_cubemap_mips(&blob).is_none());
}

/// The mip parser stops at the first level too short for its expected size.
#[test]
fn short_level_truncates_mip_chain() {
    let mut cube = tiny_cube(4);
    for f in 0..6 {
        cube.mips[1][f].truncate(4);
    }
    let bytes = encode_cubemap(&cube);
    let mips = parse_ktx2_cubemap_mips(&bytes).expect("base level still parses");
    assert_eq!(mips.mips.len(), 1);
    assert_eq!(mips.mips[0].len(), 4 * 4 * 4 * 6);
    assert_eq!(mips.mips[0][CubemapFace::NegX.index() * 64], 40);
}
