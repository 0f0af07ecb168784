use rusty_render::cubemap_face::{CubemapCapture, CubemapFace};
use rusty_render::mesh_id::{MeshId, MeshSource};
use rusty_render::mesh_topology::{box_indices, cylinder_indices, plane_indices, sphere_indices};
use rusty_render::mesh_uploads::{plan_mesh_uploads, MeshUse};
use rusty_render::prefiltered::PrefilteredCubemap;
use rusty_render::readback::{row_strides, unpad_rows};

#[test]
fn box_has_two_triangles_per_face() {
    let idx = box_indices();
    assert_eq!(idx.len(), 36);
    assert_eq!(&idx[0..6], &[0, 1, 2, 0, 2, 3]);
    assert_eq!(&idx[30..36], &[20, 21, 22, 20, 22, 23]);
    assert_eq!(plane_indices(), vec![0, 2, 1, 0, 3, 2]);
}

#[test]
fn sphere_quads_join_neighbouring_rings() {
    let idx = sphere_indices(8, 8);
    assert_eq!(idx.len(), 6 * 8 * 8);
    // Ring 0, sector 0: (0, 1, 10, 0, 10, 9) with 9 vertices per ring.
    assert_eq!(&idx[0..6], &[0, 1, 10, 0, 10, 9]);
    assert!(idx.iter().all(|&i| i < 9 * 9));
    assert_eq!(*idx.iter().max().unwrap(), 80);
}

#[test]
fn cylinder_wall_and_caps() {
    let idx = cylinder_indices(4);
    assert_eq!(idx.len(), 12 * 4);
    assert_eq!(&idx[0..6], &[0, 2, 1, 1, 2, 3]);
    // Bottom cap centre after the 10 wall vertices, wound (centre, i+1, i).
    assert_eq!(&idx[24..27], &[10, 12, 11]);
    // Top cap centre after the bottom cap's centre + 5 rim vertices, wound (centre, i, i+1).
    assert_eq!(&idx[36..39], &[16, 17, 18]);
    assert!(idx.iter().all(|&i| i < 4 * 4 + 6));
}

#[test]
fn unpadding_keeps_each_row_aligned() {
    // A 3-pixel-wide, 2-row image: rows are 12 bytes, padded to 256 in the buffer.
    let (unpadded, padded) = row_strides(3);
    assert_eq!((unpadded, padded), (12, 256));
    assert_eq!(row_strides(64), (256, 256));
    assert_eq!(row_strides(65), (260, 512));
    let mut mapped = vec![0xEEu8; 512];
    for r in 0..2 {
        for j in 0..12 {
            mapped[r * 256 + j] = (r * 100 + j) as u8;
        }
    }
    let pixels = unpad_rows(&mapped, padded, unpadded);
    assert_eq!(pixels.len(), 24);
    assert_eq!(pixels[0], 0);
    assert_eq!(pixels[11], 11);
    assert_eq!(pixels[12], 100);
    assert_eq!(pixels[23], 111);
}

#[test]
fn capture_face_is_its_slot() {
    let faces: [Vec<u8>; 6] = std::array::from_fn(|f| vec![f as u8; 4]);
    let cap = CubemapCapture { resolution: 1, faces };
    for (slot, face) in CubemapFace::ALL.iter().enumerate() {
        assert_eq!(face.index(), slot);
        assert_eq!(CubemapFace::from_index(slot), *face);
        assert_eq!(cap.face(*face), &[slot as u8; 4]);
    }
}

#[test]
fn mip_edges_halve_down_to_one() {
    let cube = PrefilteredCubemap { mips: Vec::new(), base_size: 16 };
    let edges: Vec<u32> = (0..6).map(|l| cube.level_size(l)).collect();
    assert_eq!(edges, vec![16, 8, 4, 2, 1, 1]);
    assert_eq!(cube.level_size(40), 1);
    assert_eq!(cube.level_count(), 0);
}

fn use_of(primitive: &str, active: bool, dirty: bool) -> MeshUse {
    MeshUse {
        active,
        mesh: Some(MeshId::from_mesh(&MeshSource { primitive_type: primitive.to_string(), asset_ref: None })),
        dirty,
    }
}

#[test]
fn shared_geometry_uploads_once_per_frame() {
    let resident = vec![MeshId::from_mesh(&MeshSource { primitive_type: "Plane".to_string(), asset_ref: None })];
    let uses = vec![
        use_of("Box", true, false),
        use_of("Box", true, true),
        use_of("Plane", true, false),
        use_of("Sphere", false, true),
        use_of("Plane", true, true),
        MeshUse { active: true, mesh: None, dirty: true },
        use_of("Sphere", true, false),
    ];
    // Box (not resident) once; the clean resident Plane skipped, its dirty twin uploaded;
    // the inactive Sphere skipped, the active one uploaded.
    assert_eq!(plan_mesh_uploads(&uses, &resident), vec![0, 4, 6]);
}
