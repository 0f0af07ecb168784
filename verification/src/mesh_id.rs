//! Stable identity for a mesh's GPU geometry, derived from its *source*
//! (`primitive_type` + `asset_ref`) rather than the entity referencing it. Many
//! entities sharing the same primitive or imported asset map to a single `MeshId` and
//! share one vertex/index buffer pair instead of allocating N copies.

use vstd::prelude::*;
use vstd::string::StringExecFns;

verus! {

/// The part of a mesh component that identifies its geometry's source.
pub struct MeshSource {
    /// The primitive kind (`"Box"`, `"Sphere"`, ...) or `"Asset"` for imported geometry.
    pub primitive_type: String,
    /// The imported asset sub-object, when the geometry comes from a file.
    pub asset_ref: Option<String>,
}

/// Geometry key string: `"<primitive_type>|<asset_ref>"`, an absent asset written empty.
#[derive(Clone, Debug, Hash)]
pub struct MeshId(pub String);

/// The key text for a primitive type and (possibly absent) asset reference.
pub open spec fn mesh_key(primitive_type: Seq<char>, asset_ref: Option<Seq<char>>) -> Seq<char> {
    primitive_type + seq!['|'] + match asset_ref {
        Some(a) => a,
        None => Seq::empty(),
    }
}

/// The asset reference as the key writes it: absent reads as empty.
pub open spec fn asset_or_empty(asset_ref: Option<Seq<char>>) -> Seq<char> {
    match asset_ref {
        Some(a) => a,
        None => Seq::empty(),
    }
}

impl MeshSource {
    pub open spec fn asset_view(&self) -> Option<Seq<char>> {
        match self.asset_ref {
            Some(a) => Some(a@),
            None => None,
        }
    }
}

impl PartialEq for MeshId {
    fn eq(&self, other: &Self) -> (r: bool) {
        self.0 == other.0
    }
}

impl Eq for MeshId {}

impl vstd::std_specs::cmp::PartialEqSpecImpl for MeshId {
    open spec fn obeys_eq_spec() -> bool {
        true
    }

    open spec fn eq_spec(&self, other: &MeshId) -> bool {
        self.0@ == other.0@
    }
}

impl MeshId {
    /// Geometry key for a mesh component: `"<primitive_type>|<asset_ref>"`.
    pub fn from_mesh(mesh: &MeshSource) -> (id: Self)
        ensures
            id.0@ == mesh_key(mesh.primitive_type@, mesh.asset_view()),
    {
        let mut key = mesh.primitive_type.clone();
        let sep = "|";
        proof {
            reveal_strlit("|");
        }
        key.append(sep);
        match &mesh.asset_ref {
            Some(asset) => key.append(asset.as_str()),
            None => {},
        }
        proof {
            assert(key@ =~= mesh_key(mesh.primitive_type@, mesh.asset_view()));
        }
        MeshId(key)
    }
}

/// Two sources get the same key exactly when their primitive types agree and their
/// asset references agree (an absent reference reading as empty), provided the
/// primitive types hold no `'|'`: identical geometry shares one id, distinct geometry
/// gets distinct ids.
pub proof fn lemma_mesh_key_identity(
    p1: Seq<char>,
    a1: Option<Seq<char>>,
    p2: Seq<char>,
    a2: Option<Seq<char>>,
)
    requires
        !p1.contains('|'),
        !p2.contains('|'),
    ensures
        (mesh_key(p1, a1) == mesh_key(p2, a2)) <==> (p1 == p2 && asset_or_empty(a1) == asset_or_empty(a2)),
{
    let k1 = mesh_key(p1, a1);
    let k2 = mesh_key(p2, a2);
    if k1 == k2 {
        if p1.len() < p2.len() {
            assert(k1[p1.len() as int] == '|');
            assert(k2[p1.len() as int] == p2[p1.len() as int]);
            assert(p2.contains(p2[p1.len() as int]));
        } else if p2.len() < p1.len() {
            assert(k2[p2.len() as int] == '|');
            assert(k1[p2.len() as int] == p1[p2.len() as int]);
            assert(p1.contains(p1[p2.len() as int]));
        }
        assert(p1.len() == p2.len());
        assert(p1 =~= k1.take(p1.len() as int));
        assert(p2 =~= k2.take(p2.len() as int));
        assert(asset_or_empty(a1) =~= k1.skip(p1.len() as int + 1));
        assert(asset_or_empty(a2) =~= k2.skip(p2.len() as int + 1));
    }
}

} // verus!
