//! Particle batching for one camera pass: which emitters contribute particles, how they
//! group into one batch per (blend mode, sprite texture), and where each batch's
//! instances sit in the frame's single instance buffer. Building the instances, loading
//! sprites and recording the draws happen outside.

use vstd::prelude::*;

verus! {

/// How an emitter's particles composite.
#[derive(Clone, Copy, Debug, PartialEq, Eq, Structural)]
pub enum ParticleBlend {
    Alpha,
    /// Source added onto the target, so sparks and fire brighten it.
    Additive,
}

/// What a batch shares: the blend mode and the sprite texture, named by an id (one id
/// per sprite path, and one for the default texture of emitters without a sprite).
#[derive(Clone, Copy, Debug, PartialEq, Eq, Structural)]
pub struct BatchKey {
    pub blend: ParticleBlend,
    pub sprite: u64,
}

/// What the batching reads of one scene entity.
#[derive(Clone, Copy, Debug, PartialEq, Eq, Structural)]
pub struct EmitterSlot {
    pub entity_active: bool,
    /// The entity carries a particle emitter.
    pub has_emitter: bool,
    /// Live particles in the emitter's runtime state.
    pub live_particles: usize,
    /// The emitter's blend mode and sprite.
    pub key: BatchKey,
}

/// An entity contributes particles when it is active and its emitter has live ones.
pub open spec fn emits(e: EmitterSlot) -> bool {
    e.entity_active && e.has_emitter && e.live_particles > 0
}

/// The entities among the first `n` that contribute particles, in scene order.
pub open spec fn emitting(es: Seq<EmitterSlot>, n: int) -> Seq<usize>
    decreases n,
{
    if n <= 0 {
        Seq::empty()
    } else if emits(es[n - 1]) {
        emitting(es, n - 1).push((n - 1) as usize)
    } else {
        emitting(es, n - 1)
    }
}

/// The entities whose emitters contribute particles this pass, in scene order.
pub fn emitting_entities(es: &Vec<EmitterSlot>) -> (batches: Vec<usize>)
    ensures
        batches@ == emitting(es@, es@.len() as int),
        forall|i: usize|
            #[trigger] batches@.contains(i) <==> (i < es@.len() && es@[i as int].entity_active
                && es@[i as int].has_emitter && es@[i as int].live_particles > 0),
        forall|a: int, b: int| 0 <= a < b < batches@.len() ==> batches@[a] < batches@[b],
{
    let mut batches: Vec<usize> = Vec::new();
    let n = es.len();
    let mut k: usize = 0;
    while k < n
        invariant
            n == es@.len(),
            k <= n,
            batches@ == emitting(es@, k as int),
        decreases n - k,
    {
        let e = es[k];
        if e.entity_active && e.has_emitter && e.live_particles > 0 {
            batches.push(k);
        }
        k = k + 1;
    }
    proof {
        assert forall|i: usize| #[trigger] batches@.contains(i) <==> (i < es@.len() && es@[i as int].entity_active
            && es@[i as int].has_emitter && es@[i as int].live_particles > 0) by {
            lemma_emitting_members(es@, n as int, i);
        }
        lemma_emitting_members(es@, n as int, 0);
    }
    batches
}

proof fn lemma_emitting_members(es: Seq<EmitterSlot>, n: int, i: usize)
    requires
        0 <= n <= es.len(),
        es.len() <= usize::MAX,
    ensures
        emitting(es, n).contains(i) <==> (i < n && emits(es[i as int])),
        forall|j: int| 0 <= j < emitting(es, n).len() ==> #[trigger] emitting(es, n)[j] < n,
        forall|a: int, b: int| 0 <= a < b < emitting(es, n).len() ==> emitting(es, n)[a] < emitting(es, n)[b],
    decreases n,
{
    if n > 0 {
        lemma_emitting_members(es, n - 1, i);
        let before = emitting(es, n - 1);
        if emits(es[n - 1]) {
            let after = before.push((n - 1) as usize);
            assert((n - 1) as usize == n - 1);
            assert(after[before.len() as int] == (n - 1) as usize);
            if after.contains(i) && i != n - 1 {
                let j = choose|j: int| 0 <= j < after.len() && after[j] == i;
                assert(j != before.len());
                assert(before[j] == i);
            }
            if i < n - 1 && before.contains(i) {
                let j = choose|j: int| 0 <= j < before.len() && before[j] == i;
                assert(after[j] == i);
            }
            assert forall|a: int, b: int| 0 <= a < b < after.len() implies after[a] < after[b] by {
                assert(after[a] == before[a]);
                if b < before.len() {
                    assert(after[b] == before[b]);
                } else {
                    assert(before[a] < n - 1);
                }
            }
        } else if before.contains(i) {
            let j = choose|j: int| 0 <= j < before.len() && before[j] == i;
            assert(before[j] < n - 1);
        }
    }
}

/// The batches of a pass: the distinct keys, and for every entity the batch its
/// particles go to (`None` for an entity that contributes none).
pub struct ParticleGrouping {
    pub keys: Vec<BatchKey>,
    pub batch_of: Vec<Option<usize>>,
}

/// No two batches share a key.
pub open spec fn keys_distinct(keys: Seq<BatchKey>) -> bool {
    forall|a: int, b: int| 0 <= a < b < keys.len() ==> #[trigger] keys[a] != #[trigger] keys[b]
}

/// `batch_of` sends each of the first `n` emitting entities to the one batch of its
/// key, and nothing else anywhere.
pub open spec fn assigns(es: Seq<EmitterSlot>, n: int, keys: Seq<BatchKey>, batch_of: Seq<Option<usize>>) -> bool {
    &&& batch_of.len() == n
    &&& forall|i: int|
        0 <= i < n ==> (#[trigger] batch_of[i] is Some <==> emits(es[i])) && (batch_of[i] matches Some(b) ==> b
            < keys.len() && keys[b as int] == es[i].key)
}

/// Some of the first `n` entities sends its particles to batch `b`.
pub open spec fn has_member(batch_of: Seq<Option<usize>>, n: int, b: int) -> bool {
    exists|i: int| 0 <= i < n && #[trigger] batch_of[i] == Some(b as usize)
}

/// Every batch receives the particles of at least one of the first `n` entities.
pub open spec fn batches_used(n: int, keys: Seq<BatchKey>, batch_of: Seq<Option<usize>>) -> bool {
    forall|b: int| 0 <= b < keys.len() ==> #[trigger] has_member(batch_of, n, b)
}

proof fn lemma_used_after_push(n: int, keys: Seq<BatchKey>, batch_of: Seq<Option<usize>>, x: Option<usize>)
    requires
        batch_of.len() == n,
        batches_used(n, keys, batch_of),
    ensures
        batches_used(n + 1, keys, batch_of.push(x)),
{
    let bo = batch_of.push(x);
    assert forall|b: int| 0 <= b < keys.len() implies #[trigger] has_member(bo, n + 1, b) by {
        assert(has_member(batch_of, n, b));
        let i = choose|i: int| 0 <= i < n && #[trigger] batch_of[i] == Some(b as usize);
        assert(bo[i] == batch_of[i]);
    }
}

proof fn lemma_used_new_batch(n: int, keys: Seq<BatchKey>, batch_of: Seq<Option<usize>>, key: BatchKey)
    requires
        batch_of.len() == n,
        batches_used(n, keys, batch_of),
    ensures
        batches_used(n + 1, keys.push(key), batch_of.push(Some(keys.len() as usize))),
{
    let ks = keys.push(key);
    let bo = batch_of.push(Some(keys.len() as usize));
    assert forall|b: int| 0 <= b < ks.len() implies #[trigger] has_member(bo, n + 1, b) by {
        if b == keys.len() {
            assert(bo[n] == Some(b as usize));
        } else {
            assert(has_member(batch_of, n, b));
            let i = choose|i: int| 0 <= i < n && #[trigger] batch_of[i] == Some(b as usize);
            assert(bo[i] == batch_of[i]);
        }
    }
}

/// Group the emitting entities into one batch per (blend, sprite): no two batches share
/// a key, every emitting entity's particles go to exactly one batch, the one of its
/// key, and every batch has particles.
pub fn group_particle_batches(es: &Vec<EmitterSlot>) -> (g: ParticleGrouping)
    ensures
        keys_distinct(g.keys@),
        assigns(es@, es@.len() as int, g.keys@, g.batch_of@),
        batches_used(es@.len() as int, g.keys@, g.batch_of@),
{
    let mut keys: Vec<BatchKey> = Vec::new();
    let mut batch_of: Vec<Option<usize>> = Vec::new();
    let n = es.len();
    let mut k: usize = 0;
    while k < n
        invariant
            n == es@.len(),
            k <= n,
            keys@.len() <= k,
            keys_distinct(keys@),
            assigns(es@, k as int, keys@, batch_of@),
            batches_used(k as int, keys@, batch_of@),
        decreases n - k,
    {
        let e = es[k];
        let ghost old_keys = keys@;
        let ghost old_batch_of = batch_of@;
        if e.entity_active && e.has_emitter && e.live_particles > 0 {
            let mut b: usize = 0;
            while b < keys.len() && keys[b] != e.key
                invariant
                    b <= keys@.len(),
                    forall|j: int| 0 <= j < b ==> keys@[j] != e.key,
                decreases keys@.len() - b,
            {
                b = b + 1;
            }
            if b == keys.len() {
                keys.push(e.key);
                batch_of.push(Some(b));
                proof {
                    lemma_used_after_push(k as int, old_keys, old_batch_of, Some(b));
                    lemma_used_new_batch(k as int, old_keys, old_batch_of, e.key);
                    assert forall|a: int, c: int| 0 <= a < c < keys@.len() implies #[trigger] keys@[a] != #[trigger] keys@[c] by {
                        if c == b {
                            assert(keys@[a] == old_keys[a]);
                        } else {
                            assert(keys@[a] == old_keys[a]);
                            assert(keys@[c] == old_keys[c]);
                        }
                    }
                }
            } else {
                batch_of.push(Some(b));
                proof {
                    lemma_used_after_push(k as int, old_keys, old_batch_of, Some(b));
                }
            }
        } else {
            batch_of.push(None);
            proof {
                lemma_used_after_push(k as int, old_keys, old_batch_of, None);
            }
        }
        proof {
            assert forall|i: int| 0 <= i < k + 1 implies (#[trigger] batch_of@[i] is Some <==> emits(es@[i])) && (
            batch_of@[i] matches Some(c) ==> c < keys@.len() && keys@[c as int] == es@[i].key) by {
                if i < k {
                    assert(batch_of@[i] == old_batch_of[i]);
                    if let Some(c) = batch_of@[i] {
                        assert(keys@[c as int] == old_keys[c as int]);
                    }
                }
            }
        }
        k = k + 1;
    }
    ParticleGrouping { keys, batch_of }
}

/// The number of instances in the first `n` batches.
pub open spec fn total(counts: Seq<usize>, n: int) -> int
    decreases n,
{
    if n <= 0 {
        0
    } else {
        total(counts, n - 1) + counts[n - 1]
    }
}

proof fn lemma_total_monotone(counts: Seq<usize>, i: int, n: int)
    requires
        0 <= i <= n,
    ensures
        total(counts, i) <= total(counts, n),
    decreases n - i,
{
    if i < n {
        lemma_total_monotone(counts, i, n - 1);
    }
}

/// The slice of the instance buffer each batch draws, as `(first instance, count)`:
/// the batches' instances are laid out one after another in batch order.
pub fn instance_ranges(counts: &Vec<usize>) -> (ranges: Vec<(u32, u32)>)
    requires
        total(counts@, counts@.len() as int) <= u32::MAX,
    ensures
        ranges@.len() == counts@.len(),
        forall|i: int|
            #![trigger ranges@[i]]
            0 <= i < ranges@.len() ==> ranges@[i].0 == total(counts@, i) && ranges@[i].1 == counts@[i],
        forall|i: int|
            #![trigger ranges@[i + 1]]
            0 <= i < ranges@.len() - 1 ==> ranges@[i + 1].0 == ranges@[i].0 + ranges@[i].1,
{
    let mut ranges: Vec<(u32, u32)> = Vec::new();
    let n = counts.len();
    let mut start: u32 = 0;
    let mut k: usize = 0;
    while k < n
        invariant
            n == counts@.len(),
            k <= n,
            total(counts@, n as int) <= u32::MAX,
            start == total(counts@, k as int),
            ranges@.len() == k,
            forall|i: int|
                #![trigger ranges@[i]]
                0 <= i < k ==> ranges@[i].0 == total(counts@, i) && ranges@[i].1 == counts@[i],
        decreases n - k,
    {
        proof {
            lemma_total_monotone(counts@, k as int + 1, n as int);
        }
        let count = counts[k] as u32;
        ranges.push((start, count));
        start = start + count;
        k = k + 1;
    }
    ranges
}

/// Two emitting entities share a batch exactly when they share a blend mode and a
/// sprite.
pub proof fn lemma_batches_match_keys(
    es: Seq<EmitterSlot>,
    keys: Seq<BatchKey>,
    batch_of: Seq<Option<usize>>,
    i: int,
    j: int,
)
    requires
        keys_distinct(keys),
        assigns(es, es.len() as int, keys, batch_of),
        0 <= i < es.len(),
        0 <= j < es.len(),
        emits(es[i]),
        emits(es[j]),
    ensures
        batch_of[i] == batch_of[j] <==> es[i].key == es[j].key,
{
    assert(batch_of[i] is Some);
    assert(batch_of[j] is Some);
    let bi = batch_of[i]->0 as int;
    let bj = batch_of[j]->0 as int;
    if bi < bj {
        assert(keys[bi] != keys[bj]);
    } else if bj < bi {
        assert(keys[bj] != keys[bi]);
    }
}

} // verus!
