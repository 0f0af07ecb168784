//! Which meshes a frame uploads to the GPU. Geometry is cached under its mesh
//! identity, so many entities sharing a primitive or asset upload it once: an entity's
//! mesh is uploaded when it is dirty or not yet resident, and only the first entity of
//! each identity in the frame triggers the upload.

use vstd::prelude::*;
use crate::mesh_id::MeshId;

verus! {

/// What the upload plan reads of one entity.
pub struct MeshUse {
    /// The entity is active.
    pub active: bool,
    /// Its mesh's geometry identity, if it carries a mesh.
    pub mesh: Option<MeshId>,
    /// The mesh was edited since its last upload.
    pub dirty: bool,
}

pub open spec fn key_of(u: MeshUse) -> Seq<char> {
    u.mesh.unwrap().0@
}

/// The entity's geometry must go to the GPU this frame.
pub open spec fn needs_upload(u: MeshUse, resident: Seq<Seq<char>>) -> bool {
    u.active && u.mesh is Some && (u.dirty || !resident.contains(key_of(u)))
}

/// Entity `k` is the first of its identity needing an upload.
pub open spec fn first_upload(uses: Seq<MeshUse>, resident: Seq<Seq<char>>, k: int) -> bool {
    &&& needs_upload(uses[k], resident)
    &&& forall|j: int| 0 <= j < k && needs_upload(uses[j], resident) ==> key_of(uses[j]) != key_of(uses[k])
}

/// The entities among the first `n` whose meshes are uploaded, in scene order.
pub open spec fn upload_plan(uses: Seq<MeshUse>, resident: Seq<Seq<char>>, n: int) -> Seq<usize>
    decreases n,
{
    if n <= 0 {
        Seq::empty()
    } else if first_upload(uses, resident, n - 1) {
        upload_plan(uses, resident, n - 1).push((n - 1) as usize)
    } else {
        upload_plan(uses, resident, n - 1)
    }
}

/// Whether `keys` holds `key`.
fn contains_key(keys: &Vec<MeshId>, key: &MeshId) -> (found: bool)
    ensures
        found == keys@.map_values(|m: MeshId| m.0@).contains(key.0@),
{
    let n = keys.len();
    let mut i: usize = 0;
    while i < n
        invariant
            n == keys@.len(),
            i <= n,
            forall|j: int| 0 <= j < i ==> keys@[j].0@ != key.0@,
        decreases n - i,
    {
        if keys[i].0 == key.0 {
            assert(keys@.map_values(|m: MeshId| m.0@)[i as int] == key.0@);
            return true;
        }
        i = i + 1;
    }
    false
}

/// The entities whose meshes this frame uploads, in scene order: each one needing an
/// upload (dirty, or its identity not yet resident) that is the first of its identity to
/// need one.
pub fn plan_mesh_uploads(uses: &Vec<MeshUse>, resident: &Vec<MeshId>) -> (plan: Vec<usize>)
    ensures
        plan@ == upload_plan(uses@, resident@.map_values(|m: MeshId| m.0@), uses@.len() as int),
{
    let ghost res = resident@.map_values(|m: MeshId| m.0@);
    let n = uses.len();
    let mut plan: Vec<usize> = Vec::new();
    let mut seen: Vec<MeshId> = Vec::new();
    let mut k: usize = 0;
    while k < n
        invariant
            n == uses@.len(),
            res == resident@.map_values(|m: MeshId| m.0@),
            k <= n,
            plan@ == upload_plan(uses@, res, k as int),
            forall|j: int| 0 <= j < k && needs_upload(uses@[j], res) ==> seen@.map_values(|m: MeshId| m.0@).contains(
                key_of(uses@[j]),
            ),
            forall|i: int| 0 <= i < seen@.len() ==> exists|j: int|
                0 <= j < k && needs_upload(uses@[j], res) && key_of(uses@[j]) == #[trigger] seen@[i].0@,
        decreases n - k,
    {
        let u = &uses[k];
        let ghost sv0 = seen@.map_values(|m: MeshId| m.0@);
        let ghost seen0 = seen@;
        if u.active {
            match &u.mesh {
                Some(id) => {
                    let needs = u.dirty || !contains_key(resident, id);
                    if needs && !contains_key(&seen, id) {
                        proof {
                            assert forall|j: int| 0 <= j < k && needs_upload(uses@[j], res) implies key_of(uses@[j])
                                != key_of(uses@[k as int]) by {
                                if key_of(uses@[j]) == key_of(uses@[k as int]) {
                                    assert(seen@.map_values(|m: MeshId| m.0@).contains(key_of(uses@[j])));
                                }
                            }
                        }
                        plan.push(k);
                        let ghost old_seen = seen@;
                        seen.push(MeshId(id.0.clone()));
                        proof {
                            assert(seen@.map_values(|m: MeshId| m.0@) =~= old_seen.map_values(|m: MeshId| m.0@).push(
                                id.0@,
                            ));
                            assert(seen@.map_values(|m: MeshId| m.0@)[old_seen.len() as int] == key_of(uses@[k as int]));
                            assert forall|i: int| 0 <= i < seen@.len() implies exists|j: int|
                                0 <= j < k + 1 && needs_upload(uses@[j], res) && key_of(uses@[j])
                                    == #[trigger] seen@[i].0@ by {
                                if i < old_seen.len() {
                                    assert(seen@[i] == old_seen[i]);
                                } else {
                                    assert(key_of(uses@[k as int]) == seen@[i].0@);
                                }
                            }
                        }
                    } else if needs {
                        proof {
                            let sv = seen@.map_values(|m: MeshId| m.0@);
                            let i = choose|i: int| 0 <= i < sv.len() && #[trigger] sv[i] == id.0@;
                            assert(seen@[i].0@ == id.0@);
                            let j = choose|j: int| 0 <= j < k && needs_upload(uses@[j], res) && key_of(uses@[j]) == seen@[i].0@;
                            assert(!first_upload(uses@, res, k as int));
                        }
                    }
                },
                None => {},
            }
        }
        proof {
            let sv1 = seen@.map_values(|m: MeshId| m.0@);
            assert(forall|x: Seq<char>| sv0.contains(x) ==> sv1.contains(x)) by {
                assert forall|x: Seq<char>| sv0.contains(x) implies sv1.contains(x) by {
                    let i = choose|i: int| 0 <= i < sv0.len() && #[trigger] sv0[i] == x;
                    assert(sv1[i] == x);
                }
            }
            if needs_upload(uses@[k as int], res) {
                assert(sv1.contains(key_of(uses@[k as int])));
            }
            if seen@.len() == seen0.len() {
                assert(seen@ == seen0);
                assert forall|i: int| 0 <= i < seen@.len() implies exists|j: int|
                    0 <= j < k + 1 && needs_upload(uses@[j], res) && key_of(uses@[j]) == #[trigger] seen@[i].0@ by {
                    let j = choose|j: int|
                        0 <= j < k && needs_upload(uses@[j], res) && key_of(uses@[j]) == #[trigger] seen0[i].0@;
                }
            }
        }
        k = k + 1;
    }
    plan
}

/// In a frame's upload plan every identity appears at most once, and every identity
/// that needs an upload appears.
pub proof fn lemma_upload_plan_dedups(uses: Seq<MeshUse>, resident: Seq<Seq<char>>, n: int)
    requires
        0 <= n <= uses.len(),
        n <= usize::MAX,
    ensures
        forall|a: int, b: int|
            0 <= a < b < upload_plan(uses, resident, n).len() ==> key_of(
                uses[upload_plan(uses, resident, n)[a] as int],
            ) != key_of(uses[upload_plan(uses, resident, n)[b] as int]),
        forall|j: int|
            0 <= j < n && needs_upload(uses[j], resident) ==> exists|a: int|
                0 <= a < upload_plan(uses, resident, n).len() && key_of(uses[upload_plan(uses, resident, n)[a] as int])
                    == key_of(uses[j]),
        forall|a: int|
            0 <= a < upload_plan(uses, resident, n).len() ==> upload_plan(uses, resident, n)[a] < n
                && needs_upload(uses[upload_plan(uses, resident, n)[a] as int], resident),
    decreases n,
{
    if n > 0 {
        lemma_upload_plan_dedups(uses, resident, n - 1);
        let prev = upload_plan(uses, resident, n - 1);
        let plan = upload_plan(uses, resident, n);
        if first_upload(uses, resident, n - 1) {
            assert(plan == prev.push((n - 1) as usize));
            assert forall|j: int| 0 <= j < n && needs_upload(uses[j], resident) implies exists|a: int|
                0 <= a < plan.len() && key_of(uses[plan[a] as int]) == key_of(uses[j]) by {
                if j == n - 1 {
                    assert(plan[prev.len() as int] == (n - 1) as usize);
                } else {
                    let a = choose|a: int| 0 <= a < prev.len() && key_of(uses[prev[a] as int]) == key_of(uses[j]);
                    assert(plan[a] == prev[a]);
                }
            }
        } else {
            assert forall|j: int| 0 <= j < n && needs_upload(uses[j], resident) implies exists|a: int|
                0 <= a < plan.len() && key_of(uses[plan[a] as int]) == key_of(uses[j]) by {
                if j == n - 1 {
                    let i = choose|i: int|
                        0 <= i < n - 1 && needs_upload(uses[i], resident) && key_of(uses[i]) == key_of(uses[n - 1]);
                    let a = choose|a: int| 0 <= a < prev.len() && key_of(uses[prev[a] as int]) == key_of(uses[i]);
                    assert(plan[a] == prev[a]);
                }
            }
        }
    }
}

} // verus!
