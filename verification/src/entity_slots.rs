//! Bookkeeping of the persistent per-entity slots of the forward pass.
//!
//! Every drawn entity keeps one slot across frames, under its [`SlotKey`]. A slot
//! remembers the resolved keys of the entity's five material maps (albedo, metallic,
//! roughness, normal, emissive): a map resolves to its path once its texture is
//! resident, else to the empty key of the default texture. The material bind group is
//! rebuilt exactly when that signature changes, a late-loaded texture included; a slot
//! is created on an entity's first appearance and reused on every later frame; a prune
//! drops exactly the slots whose entity left the pruned scene. The buffers and bind
//! groups themselves live beside this table, under the same keys.

use vstd::prelude::*;
use std::collections::HashSet;
use crate::slot_key::{SceneId, SlotKey, survives};

verus! {

broadcast use vstd::std_specs::hash::group_hash_axioms;

/// The resolved key a material map path stands for: the path when its texture is
/// resident, else the empty key of the default texture.
pub open spec fn resolved_key_of(path: Option<String>, resident: Seq<String>) -> Seq<char> {
    match path {
        Some(p) => if is_resident(resident, p@) {
            p@
        } else {
            Seq::empty()
        },
        None => Seq::empty(),
    }
}

/// Whether a texture under `path` is among the resident ones.
pub open spec fn is_resident(resident: Seq<String>, path: Seq<char>) -> bool {
    exists|i: int| 0 <= i < resident.len() && #[trigger] resident[i]@ == path
}

/// The signature of a slot: the resolved keys of its five maps, as text.
pub open spec fn sig_view(sig: [String; 5]) -> Seq<Seq<char>> {
    Seq::new(5, |i: int| sig@[i]@)
}

/// The cache key a map path resolves to: the path when its texture is resident, else
/// empty (the default texture). Lets the slot detect a late-loaded map.
pub fn resolved_key(path: &Option<String>, resident: &Vec<String>) -> (key: String)
    ensures
        key@ == resolved_key_of(*path, resident@),
{
    match path {
        Some(p) => {
            let mut i: usize = 0;
            while i < resident.len()
                invariant
                    i <= resident.len(),
                    *path == Some(*p),
                    forall|j: int| 0 <= j < i ==> #[trigger] resident@[j]@ != p@,
                decreases resident.len() - i,
            {
                if resident[i] == *p {
                    assert(resident@[i as int]@ == p@);
                    return p.clone();
                }
                i = i + 1;
            }
            String::new()
        },
        None => String::new(),
    }
}

/// The resolved signature of a material's five map paths (albedo, metallic, roughness,
/// normal, emissive, in that order).
pub fn material_signature(maps: &[Option<String>; 5], resident: &Vec<String>) -> (sig: [String; 5])
    ensures
        forall|i: int| 0 <= i < 5 ==> #[trigger] sig_view(sig)[i] == resolved_key_of(maps@[i], resident@),
{
    [
        resolved_key(&maps[0], resident),
        resolved_key(&maps[1], resident),
        resolved_key(&maps[2], resident),
        resolved_key(&maps[3], resident),
        resolved_key(&maps[4], resident),
    ]
}

/// Whether two signatures name the same five textures.
pub fn same_signature(a: &[String; 5], b: &[String; 5]) -> (same: bool)
    ensures
        same == (sig_view(*a) == sig_view(*b)),
{
    let mut i: usize = 0;
    while i < 5
        invariant
            i <= 5,
            forall|j: int| 0 <= j < i ==> a@[j]@ == b@[j]@,
        decreases 5 - i,
    {
        if a[i] != b[i] {
            assert(sig_view(*a)[i as int] != sig_view(*b)[i as int]);
            return false;
        }
        i = i + 1;
    }
    assert(sig_view(*a) =~= sig_view(*b));
    true
}

/// What the texture upload reads of one scene entity: whether it is active and, when
/// it has a material, its five map paths (albedo, metallic, roughness, normal,
/// emissive).
pub struct EntityMaterial {
    pub active: bool,
    pub maps: Option<[Option<String>; 5]>,
}

/// The text of a list of strings.
pub open spec fn texts(v: Seq<String>) -> Seq<Seq<char>> {
    v.map_values(|s: String| s@)
}

/// The paths a material names, in map order, skipping absent maps.
pub open spec fn present_paths(maps: Seq<Option<String>>) -> Seq<Seq<char>>
    decreases maps.len(),
{
    if maps.len() == 0 {
        Seq::empty()
    } else {
        let before = present_paths(maps.drop_last());
        match maps.last() {
            Some(p) => before.push(p@),
            None => before,
        }
    }
}

/// The map paths of every active entity with a material, entity after entity.
pub open spec fn material_paths(entities: Seq<EntityMaterial>) -> Seq<Seq<char>>
    decreases entities.len(),
{
    if entities.len() == 0 {
        Seq::empty()
    } else {
        let before = material_paths(entities.drop_last());
        let e = entities.last();
        match e.maps {
            Some(maps) => if e.active {
                before + present_paths(maps@)
            } else {
                before
            },
            None => before,
        }
    }
}

/// Every active entity's material map paths (albedo, metallic, roughness, normal,
/// emissive), gathered as owned strings so the scene borrow ends before the textures
/// are uploaded.
pub fn active_material_map_paths(entities: &Vec<EntityMaterial>) -> (paths: Vec<String>)
    ensures
        texts(paths@) == material_paths(entities@),
{
    let mut paths: Vec<String> = Vec::new();
    let n = entities.len();
    let mut k: usize = 0;
    while k < n
        invariant
            n == entities@.len(),
            k <= n,
            texts(paths@) == material_paths(entities@.take(k as int)),
        decreases n - k,
    {
        let ghost before = paths@;
        proof {
            assert(entities@.take(k as int + 1).drop_last() =~= entities@.take(k as int));
        }
        let e = &entities[k];
        if e.active {
            match &e.maps {
                Some(maps) => {
                    let mut j: usize = 0;
                    while j < 5
                        invariant
                            j <= 5,
                            texts(paths@) == texts(before) + present_paths(maps@.take(j as int)),
                        decreases 5 - j,
                    {
                        proof {
                            assert(maps@.take(j as int + 1).drop_last() =~= maps@.take(j as int));
                        }
                        match &maps[j] {
                            Some(p) => {
                                let ghost mid = paths@;
                                paths.push(p.clone());
                                proof {
                                    assert(maps@.take(j as int + 1).last() == maps@[j as int]);
                                    assert(maps@[j as int] == Some(*p));
                                    assert(texts(paths@) =~= texts(mid).push(p@));
                                    assert(texts(paths@) =~= texts(before) + present_paths(maps@.take(j as int + 1)));
                                }
                            },
                            None => {},
                        }
                        j = j + 1;
                    }
                    proof {
                        assert(maps@.take(5) =~= maps@);
                    }
                },
                None => {},
            }
        }
        k = k + 1;
    }
    proof {
        assert(entities@.take(n as int) =~= entities@);
    }
    paths
}

/// Bone matrices in one entity's palette uniform.
pub const MAX_BONES: usize = 64;

/// The palette uniform of a skinned slot: the first (at most [`MAX_BONES`]) matrices of
/// the active pose, the rest padded with `identity`.
pub fn bone_palette<T: Copy>(palette: &[T], identity: T) -> (bones: Vec<T>)
    ensures
        bones@.len() == MAX_BONES,
        forall|i: int|
            0 <= i < MAX_BONES ==> #[trigger] bones@[i] == (if i < palette@.len() {
                palette@[i]
            } else {
                identity
            }),
{
    let mut bones: Vec<T> = Vec::new();
    let mut i: usize = 0;
    while i < MAX_BONES
        invariant
            i <= MAX_BONES,
            bones@.len() == i,
            forall|j: int|
                0 <= j < i ==> #[trigger] bones@[j] == (if j < palette@.len() {
                    palette@[j]
                } else {
                    identity
                }),
        decreases MAX_BONES - i,
    {
        if i < palette.len() {
            bones.push(palette[i]);
        } else {
            bones.push(identity);
        }
        i = i + 1;
    }
    bones
}

/// One slot's bookkeeping: its key and the signature its material bind group was built
/// from.
pub struct SlotEntry {
    pub key: SlotKey,
    pub sig: [String; 5],
}

/// What syncing an entity's slot for this frame asks of the GPU side.
#[derive(Clone, Copy, Debug, PartialEq, Eq, Structural)]
pub enum SlotSync {
    /// First appearance: allocate the slot's buffers and build both bind groups.
    Create,
    /// The slot exists: rewrite its uniform and palette in place, and rebuild the
    /// material bind group only when `rebuild_material` is set.
    Refresh { rebuild_material: bool },
}

/// Some entry of `s` is under key `k`.
pub open spec fn has_key(s: Seq<SlotEntry>, k: SlotKey) -> bool {
    exists|i: int| 0 <= i < s.len() && #[trigger] s[i].key == k
}

/// An index of `s` whose entry is under key `k` (the only one when keys are distinct).
pub open spec fn key_index(s: Seq<SlotEntry>, k: SlotKey) -> int {
    choose|i: int| 0 <= i < s.len() && #[trigger] s[i].key == k
}

/// No two entries of `s` share a key.
pub open spec fn keys_distinct(s: Seq<SlotEntry>) -> bool {
    forall|i: int, j: int|
        0 <= i < s.len() && 0 <= j < s.len() && i != j ==> #[trigger] s[i].key != #[trigger] s[j].key
}

/// The slots of `s` as a map from key to signature.
pub open spec fn table_map(s: Seq<SlotEntry>) -> Map<SlotKey, Seq<Seq<char>>> {
    Map::new(|k: SlotKey| has_key(s, k), |k: SlotKey| sig_view(s[key_index(s, k)].sig))
}

/// What a sync of `key` with signature `sig` asks for, given the slots before it.
pub open spec fn sync_action(slots: Map<SlotKey, Seq<Seq<char>>>, key: SlotKey, sig: Seq<Seq<char>>) -> SlotSync {
    if !slots.contains_key(key) {
        SlotSync::Create
    } else {
        SlotSync::Refresh { rebuild_material: slots[key] != sig }
    }
}

/// The slots that outlive a prune of `scene` against its `live` entities.
pub open spec fn pruned(slots: Map<SlotKey, Seq<Seq<char>>>, scene: SceneId, live: Set<u32>) -> Map<
    SlotKey,
    Seq<Seq<char>>,
> {
    slots.restrict(Set::new(|k: SlotKey| survives(k, scene, live)))
}

proof fn lemma_entry_in_map(s: Seq<SlotEntry>, i: int)
    requires
        keys_distinct(s),
        0 <= i < s.len(),
    ensures
        table_map(s).contains_key(s[i].key),
        table_map(s)[s[i].key] == sig_view(s[i].sig),
{
    let k = s[i].key;
    assert(has_key(s, k));
    let j = key_index(s, k);
    assert(s[j].key == k);
}

proof fn lemma_update_entry(s: Seq<SlotEntry>, i: int, e: SlotEntry)
    requires
        keys_distinct(s),
        0 <= i < s.len(),
        s[i].key == e.key,
    ensures
        keys_distinct(s.update(i, e)),
        table_map(s.update(i, e)) == table_map(s).insert(e.key, sig_view(e.sig)),
{
    let s2 = s.update(i, e);
    let m = table_map(s).insert(e.key, sig_view(e.sig));
    assert forall|a: int, b: int| 0 <= a < s2.len() && 0 <= b < s2.len() && a != b implies #[trigger] s2[a].key
        != #[trigger] s2[b].key by {
        assert(s2[a].key == s[a].key);
        assert(s2[b].key == s[b].key);
    }
    assert forall|k: SlotKey| #[trigger] table_map(s2).contains_key(k) == m.contains_key(k) by {
        if k == e.key {
            assert(s2[i].key == k);
            assert(has_key(s2, k));
        } else {
            if has_key(s2, k) {
                let j = choose|j: int| 0 <= j < s2.len() && #[trigger] s2[j].key == k;
                assert(s[j].key == k);
            }
            if has_key(s, k) {
                let j = choose|j: int| 0 <= j < s.len() && #[trigger] s[j].key == k;
                assert(s2[j].key == k);
            }
        }
    }
    assert forall|k: SlotKey| #[trigger] table_map(s2).contains_key(k) implies table_map(s2)[k] == m[k] by {
        if k == e.key {
            lemma_entry_in_map(s2, i);
        } else {
            let j = choose|j: int| 0 <= j < s.len() && #[trigger] s[j].key == k;
            lemma_entry_in_map(s, j);
            lemma_entry_in_map(s2, j);
        }
    }
    assert(table_map(s2) =~= m);
}

proof fn lemma_push_entry(s: Seq<SlotEntry>, e: SlotEntry)
    requires
        keys_distinct(s),
        !has_key(s, e.key),
    ensures
        keys_distinct(s.push(e)),
        table_map(s.push(e)) == table_map(s).insert(e.key, sig_view(e.sig)),
{
    let s2 = s.push(e);
    let m = table_map(s).insert(e.key, sig_view(e.sig));
    let n = s.len() as int;
    assert forall|a: int, b: int| 0 <= a < s2.len() && 0 <= b < s2.len() && a != b implies #[trigger] s2[a].key
        != #[trigger] s2[b].key by {
        if a < n && b < n {
            assert(s2[a].key == s[a].key);
            assert(s2[b].key == s[b].key);
        } else if a < n {
            assert(s2[a].key == s[a].key);
        } else {
            assert(s2[b].key == s[b].key);
        }
    }
    assert forall|k: SlotKey| #[trigger] table_map(s2).contains_key(k) == m.contains_key(k) by {
        if k == e.key {
            assert(s2[n].key == k);
            assert(has_key(s2, k));
        } else {
            if has_key(s2, k) {
                let j = choose|j: int| 0 <= j < s2.len() && #[trigger] s2[j].key == k;
                assert(s[j].key == k);
            }
            if has_key(s, k) {
                let j = choose|j: int| 0 <= j < s.len() && #[trigger] s[j].key == k;
                assert(s2[j].key == k);
            }
        }
    }
    assert forall|k: SlotKey| #[trigger] table_map(s2).contains_key(k) implies table_map(s2)[k] == m[k] by {
        if k == e.key {
            lemma_entry_in_map(s2, n);
        } else {
            let j = choose|j: int| 0 <= j < s.len() && #[trigger] s[j].key == k;
            lemma_entry_in_map(s, j);
            lemma_entry_in_map(s2, j);
        }
    }
    assert(table_map(s2) =~= m);
}

/// `kept` holds exactly the entries of `orig` from index `n` on that survive the prune,
/// each taken once: `src` gives each one's index in `orig`, strictly decreasing.
pub open spec fn kept_from(
    orig: Seq<SlotEntry>,
    n: int,
    kept: Seq<SlotEntry>,
    src: Seq<int>,
    scene: SceneId,
    live: Set<u32>,
) -> bool {
    &&& src.len() == kept.len()
    &&& forall|i: int|
        0 <= i < src.len() ==> n <= #[trigger] src[i] < orig.len() && kept[i] == orig[src[i]] && survives(
            kept[i].key,
            scene,
            live,
        )
    &&& forall|a: int, b: int| 0 <= a < b < src.len() ==> #[trigger] src[a] > #[trigger] src[b]
    &&& forall|j: int|
        n <= j < orig.len() && survives(#[trigger] orig[j].key, scene, live) ==> exists|i: int|
            0 <= i < src.len() && #[trigger] src[i] == j
}

/// `dropped` holds exactly the keys of the entries of `orig` from index `n` on that a
/// prune drops: `dsrc` gives each one's index in `orig`.
pub open spec fn dropped_from(
    orig: Seq<SlotEntry>,
    n: int,
    dropped: Seq<SlotKey>,
    dsrc: Seq<int>,
    scene: SceneId,
    live: Set<u32>,
) -> bool {
    &&& dsrc.len() == dropped.len()
    &&& forall|i: int|
        0 <= i < dsrc.len() ==> n <= #[trigger] dsrc[i] < orig.len() && dropped[i] == orig[dsrc[i]].key
            && !survives(dropped[i], scene, live)
    &&& forall|a: int, b: int| 0 <= a < b < dsrc.len() ==> #[trigger] dsrc[a] > #[trigger] dsrc[b]
    &&& forall|j: int|
        n <= j < orig.len() && !survives(#[trigger] orig[j].key, scene, live) ==> exists|i: int|
            0 <= i < dsrc.len() && #[trigger] dsrc[i] == j
}

proof fn lemma_kept_step(orig: Seq<SlotEntry>, n: int, kept: Seq<SlotEntry>, src: Seq<int>, scene: SceneId, live: Set<u32>)
    requires
        0 < n <= orig.len(),
        kept_from(orig, n, kept, src, scene, live),
    ensures
        survives(orig[n - 1].key, scene, live) ==> kept_from(orig, n - 1, kept.push(orig[n - 1]), src.push(n - 1), scene, live),
        !survives(orig[n - 1].key, scene, live) ==> kept_from(orig, n - 1, kept, src, scene, live),
{
    if survives(orig[n - 1].key, scene, live) {
        let k2 = kept.push(orig[n - 1]);
        let s2 = src.push(n - 1);
        assert forall|j: int| n - 1 <= j < orig.len() && survives(#[trigger] orig[j].key, scene, live) implies exists|i: int|
            0 <= i < s2.len() && #[trigger] s2[i] == j by {
            if j == n - 1 {
                assert(s2[src.len() as int] == j);
            } else {
                let i = choose|i: int| 0 <= i < src.len() && #[trigger] src[i] == j;
                assert(s2[i] == j);
            }
        }
        assert forall|i: int| 0 <= i < s2.len() implies n - 1 <= #[trigger] s2[i] < orig.len() && k2[i] == orig[s2[i]]
            && survives(k2[i].key, scene, live) by {
            if i < src.len() {
                assert(s2[i] == src[i]);
            }
        }
        assert forall|a: int, b: int| 0 <= a < b < s2.len() implies #[trigger] s2[a] > #[trigger] s2[b] by {
            if b < src.len() {
                assert(s2[a] == src[a]);
                assert(s2[b] == src[b]);
            } else {
                assert(s2[a] == src[a]);
            }
        }
    } else {
        assert forall|j: int| n - 1 <= j < orig.len() && survives(#[trigger] orig[j].key, scene, live) implies exists|i: int|
            0 <= i < src.len() && #[trigger] src[i] == j by {
            assert(j != n - 1);
        }
    }
}

proof fn lemma_dropped_step(orig: Seq<SlotEntry>, n: int, dropped: Seq<SlotKey>, dsrc: Seq<int>, scene: SceneId, live: Set<u32>)
    requires
        0 < n <= orig.len(),
        dropped_from(orig, n, dropped, dsrc, scene, live),
    ensures
        !survives(orig[n - 1].key, scene, live) ==> dropped_from(orig, n - 1, dropped.push(orig[n - 1].key), dsrc.push(n - 1), scene, live),
        survives(orig[n - 1].key, scene, live) ==> dropped_from(orig, n - 1, dropped, dsrc, scene, live),
{
    if !survives(orig[n - 1].key, scene, live) {
        let d2 = dropped.push(orig[n - 1].key);
        let s2 = dsrc.push(n - 1);
        assert forall|j: int| n - 1 <= j < orig.len() && !survives(#[trigger] orig[j].key, scene, live) implies exists|i: int|
            0 <= i < s2.len() && #[trigger] s2[i] == j by {
            if j == n - 1 {
                assert(s2[dsrc.len() as int] == j);
            } else {
                let i = choose|i: int| 0 <= i < dsrc.len() && #[trigger] dsrc[i] == j;
                assert(s2[i] == j);
            }
        }
        assert forall|i: int| 0 <= i < s2.len() implies n - 1 <= #[trigger] s2[i] < orig.len() && d2[i] == orig[s2[i]].key
            && !survives(d2[i], scene, live) by {
            if i < dsrc.len() {
                assert(s2[i] == dsrc[i]);
            }
        }
        assert forall|a: int, b: int| 0 <= a < b < s2.len() implies #[trigger] s2[a] > #[trigger] s2[b] by {
            assert(s2[a] == dsrc[a]);
            if b < dsrc.len() {
                assert(s2[b] == dsrc[b]);
            }
        }
    } else {
        assert forall|j: int| n - 1 <= j < orig.len() && !survives(#[trigger] orig[j].key, scene, live) implies exists|i: int|
            0 <= i < dsrc.len() && #[trigger] dsrc[i] == j by {
            assert(j != n - 1);
        }
    }
}

proof fn lemma_prune_result(
    orig: Seq<SlotEntry>,
    kept: Seq<SlotEntry>,
    src: Seq<int>,
    dropped: Seq<SlotKey>,
    dsrc: Seq<int>,
    scene: SceneId,
    live: Set<u32>,
)
    requires
        keys_distinct(orig),
        kept_from(orig, 0, kept, src, scene, live),
        dropped_from(orig, 0, dropped, dsrc, scene, live),
    ensures
        keys_distinct(kept),
        table_map(kept) == pruned(table_map(orig), scene, live),
        forall|k: SlotKey| #[trigger] dropped.contains(k) <==> (table_map(orig).contains_key(k) && !survives(k, scene, live)),
        forall|a: int, b: int| 0 <= a < b < dropped.len() ==> #[trigger] dropped[a] != #[trigger] dropped[b],
{
    assert forall|a: int, b: int| 0 <= a < kept.len() && 0 <= b < kept.len() && a != b implies #[trigger] kept[a].key
        != #[trigger] kept[b].key by {
        assert(src[a] != src[b]) by {
            if a < b {
                assert(src[a] > src[b]);
            } else {
                assert(src[b] > src[a]);
            }
        }
        assert(kept[a] == orig[src[a]]);
        assert(kept[b] == orig[src[b]]);
    }
    let m = pruned(table_map(orig), scene, live);
    assert forall|k: SlotKey| #[trigger] table_map(kept).contains_key(k) == m.contains_key(k) by {
        if has_key(kept, k) {
            let i = choose|i: int| 0 <= i < kept.len() && #[trigger] kept[i].key == k;
            assert(kept[i] == orig[src[i]]);
            assert(orig[src[i]].key == k);
            assert(has_key(orig, k));
        }
        if has_key(orig, k) && survives(k, scene, live) {
            let j = choose|j: int| 0 <= j < orig.len() && #[trigger] orig[j].key == k;
            assert(survives(orig[j].key, scene, live));
            let i = choose|i: int| 0 <= i < src.len() && #[trigger] src[i] == j;
            assert(kept[i] == orig[j]);
            assert(kept[i].key == k);
            assert(has_key(kept, k));
        }
    }
    assert forall|k: SlotKey| #[trigger] table_map(kept).contains_key(k) implies table_map(kept)[k] == m[k] by {
        let i = choose|i: int| 0 <= i < kept.len() && #[trigger] kept[i].key == k;
        assert(kept[i] == orig[src[i]]);
        lemma_entry_in_map(kept, i);
        lemma_entry_in_map(orig, src[i]);
    }
    assert(table_map(kept) =~= m);
    assert forall|k: SlotKey| #[trigger] dropped.contains(k) <==> (table_map(orig).contains_key(k) && !survives(k, scene, live)) by {
        if dropped.contains(k) {
            let i = choose|i: int| 0 <= i < dropped.len() && dropped[i] == k;
            assert(dropped[i] == orig[dsrc[i]].key);
            assert(has_key(orig, k));
        }
        if has_key(orig, k) && !survives(k, scene, live) {
            let j = choose|j: int| 0 <= j < orig.len() && #[trigger] orig[j].key == k;
            assert(!survives(orig[j].key, scene, live));
            let i = choose|i: int| 0 <= i < dsrc.len() && #[trigger] dsrc[i] == j;
            assert(dropped[i] == k);
            assert(dropped.contains(k));
        }
    }
    assert forall|a: int, b: int| 0 <= a < b < dropped.len() implies #[trigger] dropped[a] != #[trigger] dropped[b] by {
        assert(dsrc[a] > dsrc[b]);
        assert(dropped[a] == orig[dsrc[a]].key);
        assert(dropped[b] == orig[dsrc[b]].key);
    }
}

/// The persistent slots of one pool, one per entity under its [`SlotKey`], each with
/// the material signature it was last built from. No key occurs twice.
pub struct SlotTable {
    entries: Vec<SlotEntry>,
}

impl View for SlotTable {
    type V = Map<SlotKey, Seq<Seq<char>>>;

    closed spec fn view(&self) -> Self::V {
        table_map(self.entries@)
    }
}

impl SlotTable {
    /// Every key names one slot.
    pub closed spec fn wf(&self) -> bool {
        keys_distinct(self.entries@)
    }

    /// An empty pool.
    pub fn new() -> (t: Self)
        ensures
            t.wf(),
            t@ == Map::<SlotKey, Seq<Seq<char>>>::empty(),
    {
        let t = SlotTable { entries: Vec::new() };
        assert(t@ =~= Map::<SlotKey, Seq<Seq<char>>>::empty());
        t
    }

    /// Whether a slot exists under `key`.
    pub fn contains(&self, key: SlotKey) -> (found: bool)
        requires
            self.wf(),
        ensures
            found == self@.contains_key(key),
    {
        let n = self.entries.len();
        let mut i: usize = 0;
        while i < n
            invariant
                n == self.entries@.len(),
                i <= n,
                forall|j: int| 0 <= j < i ==> #[trigger] self.entries@[j].key != key,
            decreases n - i,
        {
            if self.entries[i].key == key {
                assert(self.entries@[i as int].key == key);
                return true;
            }
            i = i + 1;
        }
        false
    }

    /// Make the slot under `key` current for this frame with material signature `sig`:
    /// create it on first appearance, else keep it and ask for a material rebuild only
    /// when the signature changed. The slot then carries `sig`; no other slot changes.
    pub fn sync(&mut self, key: SlotKey, sig: [String; 5]) -> (action: SlotSync)
        requires
            old(self).wf(),
        ensures
            final(self).wf(),
            final(self)@ == old(self)@.insert(key, sig_view(sig)),
            action == sync_action(old(self)@, key, sig_view(sig)),
    {
        let n = self.entries.len();
        let mut i: usize = 0;
        while i < n
            invariant
                n == self.entries@.len(),
                i <= n,
                keys_distinct(self.entries@),
                self.entries@ == old(self).entries@,
                forall|j: int| 0 <= j < i ==> #[trigger] self.entries@[j].key != key,
            decreases n - i,
        {
            if self.entries[i].key == key {
                let same = same_signature(&self.entries[i].sig, &sig);
                proof {
                    lemma_entry_in_map(self.entries@, i as int);
                }
                if same {
                    proof {
                        let e = SlotEntry { key, sig };
                        lemma_update_entry(self.entries@, i as int, e);
                        assert(self@ =~= self@.insert(key, sig_view(sig)));
                    }
                } else {
                    let ghost before = self.entries@;
                    self.entries.set(i, SlotEntry { key, sig });
                    proof {
                        lemma_update_entry(before, i as int, self.entries@[i as int]);
                        assert(self.entries@ == before.update(i as int, self.entries@[i as int]));
                    }
                }
                return SlotSync::Refresh { rebuild_material: !same };
            }
            i = i + 1;
        }
        proof {
            assert(!has_key(self.entries@, key));
            lemma_push_entry(self.entries@, SlotEntry { key, sig });
        }
        self.entries.push(SlotEntry { key, sig });
        SlotSync::Create
    }

    /// Prune the slots of `scene` against its `live` entities: another scene's slots
    /// always stay, this scene's stay only while their entity is live. Returns the keys
    /// of the dropped slots, whose GPU resources the caller releases.
    pub fn prune(&mut self, scene: SceneId, live: &HashSet<u32>) -> (dropped: Vec<SlotKey>)
        requires
            old(self).wf(),
        ensures
            final(self).wf(),
            final(self)@ == pruned(old(self)@, scene, live@),
            forall|k: SlotKey|
                #[trigger] dropped@.contains(k) <==> (old(self)@.contains_key(k) && !survives(k, scene, live@)),
            forall|a: int, b: int| 0 <= a < b < dropped@.len() ==> #[trigger] dropped@[a] != #[trigger] dropped@[b],
    {
        let mut rest: Vec<SlotEntry> = Vec::new();
        core::mem::swap(&mut rest, &mut self.entries);
        let ghost orig = rest@;
        let mut kept: Vec<SlotEntry> = Vec::new();
        let mut dropped: Vec<SlotKey> = Vec::new();
        let ghost mut src: Seq<int> = Seq::empty();
        let ghost mut dsrc: Seq<int> = Seq::empty();
        while rest.len() > 0
            invariant
                keys_distinct(orig),
                rest@ == orig.take(rest@.len() as int),
                rest@.len() <= orig.len(),
                kept_from(orig, rest@.len() as int, kept@, src, scene, live@),
                dropped_from(orig, rest@.len() as int, dropped@, dsrc, scene, live@),
            decreases rest@.len(),
        {
            let ghost n = rest@.len() as int;
            let e = rest.pop().unwrap();
            proof {
                assert(e == orig[n - 1]);
                assert(rest@ =~= orig.take(n - 1));
            }
            if e.key.survives_prune(scene, live) {
                proof {
                    lemma_kept_step(orig, n, kept@, src, scene, live@);
                    src = src.push(n - 1);
                }
                kept.push(e);
            } else {
                proof {
                    lemma_dropped_step(orig, n, dropped@, dsrc, scene, live@);
                    dsrc = dsrc.push(n - 1);
                }
                dropped.push(e.key);
            }
        }
        proof {
            lemma_prune_result(orig, kept@, src, dropped@, dsrc, scene, live@);
        }
        self.entries = kept;
        dropped
    }
}

/// Syncing a slot again with the signature it already carries reuses it as it is: no
/// new slot, no material rebuild, the slots unchanged. Rendering the same scene frame
/// after frame therefore allocates nothing after the first frame.
pub proof fn lemma_resync_reuses_slot(slots: Map<SlotKey, Seq<Seq<char>>>, key: SlotKey, sig: Seq<Seq<char>>)
    ensures
        sync_action(slots.insert(key, sig), key, sig) == (SlotSync::Refresh { rebuild_material: false }),
        slots.insert(key, sig).insert(key, sig) == slots.insert(key, sig),
{
    assert(slots.insert(key, sig).insert(key, sig) =~= slots.insert(key, sig));
}

/// A map whose texture was not resident when its slot was built, and is resident now,
/// makes the next sync rebuild the material bind group: a late-loaded texture is
/// picked up.
pub proof fn lemma_late_load_rebuilds(
    slots: Map<SlotKey, Seq<Seq<char>>>,
    key: SlotKey,
    sig: Seq<Seq<char>>,
    i: int,
    path: String,
    resident_before: Seq<String>,
    resident_now: Seq<String>,
)
    requires
        slots.contains_key(key),
        0 <= i < slots[key].len(),
        0 <= i < sig.len(),
        path@.len() > 0,
        !is_resident(resident_before, path@),
        is_resident(resident_now, path@),
        slots[key][i] == resolved_key_of(Some(path), resident_before),
        sig[i] == resolved_key_of(Some(path), resident_now),
    ensures
        sync_action(slots, key, sig) == (SlotSync::Refresh { rebuild_material: true }),
{
    assert(slots[key][i] != sig[i]);
}

/// A prune of one scene leaves every slot of another scene as it was.
pub proof fn lemma_prune_keeps_other_scenes_slots(
    slots: Map<SlotKey, Seq<Seq<char>>>,
    scene: SceneId,
    live: Set<u32>,
    key: SlotKey,
)
    requires
        key.scene != scene,
    ensures
        pruned(slots, scene, live).contains_key(key) == slots.contains_key(key),
        slots.contains_key(key) ==> pruned(slots, scene, live)[key] == slots[key],
{
}

} // verus!
