use rusty_render::mesh_id::{MeshId, MeshSource};

fn mesh(primitive: &str, asset: Option<&str>) -> MeshSource {
    MeshSource {
        primitive_type: primitive.to_string(),
        asset_ref: asset.map(String::from),
    }
}

#[test]
fn identical_geometry_shares_one_id() {
    // The key is the source, not the entity: two box meshes dedup to one buffer; two
    // references to the same asset sub-object likewise.
    assert_eq!(
        MeshId::from_mesh(&mesh("Box", None)),
        MeshId::from_mesh(&mesh("Box", None))
    );
    assert_eq!(
        MeshId::from_mesh(&mesh("Asset", Some("models/crates.glb::Barrel"))),
        MeshId::from_mesh(&mesh("Asset", Some("models/crates.glb::Barrel"))),
    );
}

#[test]
fn distinct_geometry_gets_distinct_ids() {
    assert_ne!(
        MeshId::from_mesh(&mesh("Box", None)),
        MeshId::from_mesh(&mesh("Sphere", None))
    );
    assert_ne!(
        MeshId::from_mesh(&mesh("Asset", Some("models/crates.glb::Barrel"))),
        MeshId::from_mesh(&mesh("Asset", Some("models/crates.glb::Crate"))),
    );
}

#[test]
fn mesh_key_text_is_primitive_bar_asset() {
    assert_eq!(MeshId::from_mesh(&mesh("Box", None)).0, "Box|");
    assert_eq!(
        MeshId::from_mesh(&mesh("Asset", Some("models/crates.glb::Barrel"))).0,
        "Asset|models/crates.glb::Barrel"
    );
}
