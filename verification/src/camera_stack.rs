//! Which scene cameras drive a frame, and in what order.
//!
//! In play mode the scene's active camera components drive rendering: each becomes a
//! pass sharing the viewport's position/orientation but carrying its own lens, culling
//! mask and clear flags. The passes are sorted by render order ascending (ties keep
//! authoring order), so later cameras composite over earlier ones. In edit mode, or when
//! no active camera component exists, the viewport's own camera is the single pass. The
//! lens of the first active camera by render order is authoritative for the viewport.

use vstd::prelude::*;

verus! {

/// What the stacking decision reads of one camera-carrying entity.
#[derive(Clone, Copy, Debug, PartialEq, Eq, Structural)]
pub struct CameraSlot {
    /// The entity is active.
    pub entity_active: bool,
    /// Its camera component is active.
    pub camera_active: bool,
    /// Composite order: lower draws first.
    pub render_order: i32,
}

/// The camera takes part in the frame.
pub open spec fn eligible(c: CameraSlot) -> bool {
    c.entity_active && c.camera_active
}

/// Camera `a` composites before camera `b`: lower render order first, authoring order
/// among equal render orders.
pub open spec fn before(cams: Seq<CameraSlot>, a: int, b: int) -> bool {
    cams[a].render_order < cams[b].render_order || (cams[a].render_order == cams[b].render_order && a < b)
}

/// `order` lists exactly the eligible cameras among the first `n`, each once, in
/// composite order.
pub open spec fn stack_of(cams: Seq<CameraSlot>, n: int, order: Seq<usize>) -> bool {
    &&& forall|i: int| 0 <= i < order.len() ==> #[trigger] order[i] < n && eligible(cams[order[i] as int])
    &&& forall|k: int| 0 <= k < n && eligible(cams[k]) ==> order.contains(k as usize)
    &&& forall|i: int, j: int| 0 <= i < j < order.len() ==> before(cams, order[i] as int, order[j] as int)
}

/// The cameras composited this frame, as indices into `cams` in composite order. An
/// empty stack means the viewport's own camera is the single pass: always in edit mode,
/// and in play mode when no camera is active.
pub fn camera_stack_order(cams: &Vec<CameraSlot>, is_playing: bool) -> (order: Vec<usize>)
    ensures
        !is_playing ==> order@.len() == 0,
        is_playing ==> stack_of(cams@, cams@.len() as int, order@),
{
    let mut order: Vec<usize> = Vec::new();
    if !is_playing {
        return order;
    }
    let n = cams.len();
    let mut k: usize = 0;
    while k < n
        invariant
            n == cams@.len(),
            k <= n,
            stack_of(cams@, k as int, order@),
        decreases n - k,
    {
        let cam = cams[k];
        if cam.entity_active && cam.camera_active {
            // Stable insertion: after every camera with an equal or lower render order.
            let mut p: usize = 0;
            while p < order.len() && cams[order[p]].render_order <= cam.render_order
                invariant
                    n == cams@.len(),
                    k < n,
                    cam == cams@[k as int],
                    stack_of(cams@, k as int, order@),
                    p <= order@.len(),
                    forall|i: int| 0 <= i < p ==> cams@[#[trigger] order@[i] as int].render_order <= cam.render_order,
                decreases order@.len() - p,
            {
                p = p + 1;
            }
            let ghost old_order = order@;
            order.insert(p, k);
            proof {
                assert forall|i: int, j: int| 0 <= i < j < order@.len() implies before(
                    cams@,
                    order@[i] as int,
                    order@[j] as int,
                ) by {
                    if j < p {
                        assert(order@[i] == old_order[i] && order@[j] == old_order[j]);
                    } else if j == p {
                        assert(order@[i] == old_order[i]);
                    } else if i == p {
                        assert(order@[j] == old_order[j - 1]);
                        assert(p < old_order.len());
                        assert(cams@[old_order[p as int] as int].render_order > cam.render_order);
                        if j - 1 > p {
                            assert(before(cams@, old_order[p as int] as int, old_order[j - 1] as int));
                        }
                    } else if i < p {
                        assert(order@[i] == old_order[i] && order@[j] == old_order[j - 1]);
                    } else {
                        assert(order@[i] == old_order[i - 1] && order@[j] == old_order[j - 1]);
                    }
                }
                assert forall|q: int| 0 <= q < k + 1 && eligible(cams@[q]) implies order@.contains(q as usize) by {
                    if q == k {
                        assert(order@[p as int] == k);
                    } else {
                        let w = choose|w: int| 0 <= w < old_order.len() && old_order[w] == q as usize;
                        if w < p {
                            assert(order@[w] == q as usize);
                        } else {
                            assert(order@[w + 1] == q as usize);
                        }
                    }
                }
                assert forall|i: int| 0 <= i < order@.len() implies #[trigger] order@[i] < k + 1 && eligible(
                    cams@[order@[i] as int],
                ) by {
                    if i < p {
                        assert(order@[i] == old_order[i]);
                    } else if i > p {
                        assert(order@[i] == old_order[i - 1]);
                    }
                }
            }
        }
        k = k + 1;
    }
    order
}

/// Camera `i` is the authoritative one: eligible, of the lowest render order among the
/// eligible cameras, and the first such in authoring order (the first of the stack).
pub open spec fn authoritative(cams: Seq<CameraSlot>, i: int) -> bool {
    &&& 0 <= i < cams.len()
    &&& eligible(cams[i])
    &&& forall|j: int| 0 <= j < i && eligible(cams[j]) ==> cams[i].render_order < cams[j].render_order
    &&& forall|j: int| i < j < cams.len() && eligible(cams[j]) ==> cams[i].render_order <= cams[j].render_order
}

/// The camera whose lens and culling mask the viewport adopts in play mode: the first
/// active camera by render order (the first, in authoring order, of those with the
/// lowest render order); `None` when no camera is active.
pub fn authoritative_camera(cams: &Vec<CameraSlot>) -> (chosen: Option<usize>)
    ensures
        match chosen {
            Some(i) => authoritative(cams@, i as int),
            None => forall|j: int| 0 <= j < cams@.len() ==> !eligible(cams@[j]),
        },
{
    let n = cams.len();
    let mut best_order = i32::MAX;
    let mut chosen: Option<usize> = None;
    let mut k: usize = 0;
    while k < n
        invariant
            n == cams@.len(),
            k <= n,
            match chosen {
                Some(i) => {
                    &&& i < k
                    &&& eligible(cams@[i as int])
                    &&& best_order == cams@[i as int].render_order
                    &&& forall|j: int| 0 <= j < i && eligible(cams@[j]) ==> best_order < cams@[j].render_order
                    &&& forall|j: int| i < j < k && eligible(cams@[j]) ==> best_order <= cams@[j].render_order
                },
                None => best_order == i32::MAX && forall|j: int| 0 <= j < k ==> !eligible(cams@[j]),
            },
        decreases n - k,
    {
        let cam = cams[k];
        if cam.entity_active && cam.camera_active && (chosen.is_none() || cam.render_order < best_order) {
            best_order = cam.render_order;
            chosen = Some(k);
        }
        k = k + 1;
    }
    chosen
}

/// In play mode the camera whose lens the viewport adopts is the first pass of the
/// stack: the head of any composite order of the eligible cameras is authoritative, and
/// no other camera is.
pub proof fn lemma_authoritative_heads_stack(cams: Seq<CameraSlot>, order: Seq<usize>)
    requires
        cams.len() <= usize::MAX,
        stack_of(cams, cams.len() as int, order),
        order.len() > 0,
    ensures
        authoritative(cams, order[0] as int),
        forall|i: int| authoritative(cams, i) ==> i == order[0] as int,
{
    let h = order[0] as int;
    assert(h < cams.len() && eligible(cams[h]));
    assert forall|j: int| 0 <= j < cams.len() && eligible(cams[j]) && j != h implies before(cams, h, j) by {
        assert((j as usize) as int == j);
        assert(order.contains(j as usize));
        let p = choose|p: int| 0 <= p < order.len() && order[p] == j as usize;
        assert(p != 0);
        assert(before(cams, order[0] as int, order[p] as int));
    }
    assert forall|j: int| 0 <= j < h && eligible(cams[j]) implies cams[h].render_order < cams[j].render_order by {
        assert(before(cams, h, j));
    }
    assert forall|j: int| h < j < cams.len() && eligible(cams[j]) implies cams[h].render_order <= cams[j].render_order by {
        assert(before(cams, h, j));
    }
    assert(authoritative(cams, h));
    assert forall|i: int| authoritative(cams, i) implies i == h by {
        if i != h {
            assert(before(cams, h, i));
        }
    }
}

} // verus!
