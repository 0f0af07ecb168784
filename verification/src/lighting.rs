//! Which scene lights and reflection settings feed the frame's lighting uniform.
//!
//! Ambient, directional and spot lights each occupy one slot, the last active one of
//! each kind winning; point lights fill a fixed budget of slots in scene order. The
//! screen-space-reflection settings come from the last visual-correction volume on an
//! active entity.

use vstd::prelude::*;
use vstd::string::StringExecFns;

verus! {

/// Number of point-light slots in the lighting uniform.
pub const MAX_POINT_LIGHTS: usize = 4;

/// The kind of a light component.
#[derive(Clone, Copy, Debug, PartialEq, Eq, Structural)]
pub enum LightKind {
    Ambient,
    Directional,
    Point,
    Spotlight,
}

/// What the slot assignment reads of one entity.
#[derive(Clone, Copy, Debug, PartialEq, Eq, Structural)]
pub struct LightSlot {
    /// The entity is active.
    pub entity_active: bool,
    /// Its light component's kind, if it carries one.
    pub kind: Option<LightKind>,
}

/// Which entities fill the lighting uniform's light slots (indices into the scene's
/// light list).
pub struct LightSlots {
    pub ambient: Option<usize>,
    pub directional: Option<usize>,
    pub spot: Option<usize>,
    /// The point lights, in scene order, at most [`MAX_POINT_LIGHTS`].
    pub points: Vec<usize>,
}

pub open spec fn lit_as(l: LightSlot, kind: LightKind) -> bool {
    l.entity_active && l.kind == Some(kind)
}

/// The last of the first `n` entities that is an active light of `kind`.
pub open spec fn last_of_kind(lights: Seq<LightSlot>, n: int, kind: LightKind) -> Option<usize>
    decreases n,
{
    if n <= 0 {
        None
    } else if lit_as(lights[n - 1], kind) {
        Some((n - 1) as usize)
    } else {
        last_of_kind(lights, n - 1, kind)
    }
}

/// The point lights among the first `n` entities that get a slot: in scene order, until
/// the slots run out.
pub open spec fn point_slots(lights: Seq<LightSlot>, n: int) -> Seq<usize>
    decreases n,
{
    if n <= 0 {
        Seq::empty()
    } else {
        let before = point_slots(lights, n - 1);
        if lit_as(lights[n - 1], LightKind::Point) && before.len() < MAX_POINT_LIGHTS {
            before.push((n - 1) as usize)
        } else {
            before
        }
    }
}

proof fn lemma_point_slots_len(lights: Seq<LightSlot>, n: int)
    ensures
        point_slots(lights, n).len() <= MAX_POINT_LIGHTS,
    decreases n,
{
    if n > 0 {
        lemma_point_slots_len(lights, n - 1);
    }
}

/// `slot` names the last active light of `kind` in `lights`: it is an active light of
/// that kind and none comes after it; `None` exactly when there is no active light of
/// that kind.
pub open spec fn is_last_lit(lights: Seq<LightSlot>, slot: Option<usize>, kind: LightKind) -> bool {
    match slot {
        Some(i) => {
            &&& i < lights.len()
            &&& lights[i as int].entity_active
            &&& lights[i as int].kind == Some(kind)
            &&& forall|j: int|
                i < j < lights.len() ==> !(#[trigger] lights[j].entity_active && lights[j].kind == Some(kind))
        },
        None => forall|j: int|
            0 <= j < lights.len() ==> !(#[trigger] lights[j].entity_active && lights[j].kind == Some(kind)),
    }
}

/// `points` holds the first (at most [`MAX_POINT_LIGHTS`]) active point lights of
/// `lights`, in scene order: each is an active point light, they increase, and an active
/// point light is left out only when the slots are full with earlier ones.
pub open spec fn first_point_lights(lights: Seq<LightSlot>, points: Seq<usize>) -> bool {
    &&& points.len() <= MAX_POINT_LIGHTS
    &&& forall|a: int|
        0 <= a < points.len() ==> #[trigger] points[a] < lights.len() && lights[points[a] as int].entity_active
            && lights[points[a] as int].kind == Some(LightKind::Point)
    &&& forall|a: int, b: int| 0 <= a < b < points.len() ==> #[trigger] points[a] < #[trigger] points[b]
    &&& forall|j: int|
        0 <= j < lights.len() && #[trigger] lights[j].entity_active && lights[j].kind == Some(LightKind::Point)
            ==> points.contains(j as usize) || (points.len() == MAX_POINT_LIGHTS && points[MAX_POINT_LIGHTS - 1] < j)
}

/// The slot of each singleton kind is the last active light of that kind among the
/// first `n`: every later light overwrites the earlier one.
pub proof fn lemma_last_of_kind_is_last(lights: Seq<LightSlot>, n: int, kind: LightKind)
    requires
        0 <= n <= lights.len(),
        lights.len() <= usize::MAX,
    ensures
        is_last_lit(lights.take(n), last_of_kind(lights, n, kind), kind),
    decreases n,
{
    let t = lights.take(n);
    if n > 0 {
        lemma_last_of_kind_is_last(lights, n - 1, kind);
        let t0 = lights.take(n - 1);
        assert forall|j: int| 0 <= j < n - 1 implies #[trigger] t[j] == t0[j] by {}
        if !lit_as(lights[n - 1], kind) {
            assert(t[n - 1] == lights[n - 1]);
        }
    }
}

/// The point-light slots are the first active point lights in scene order, as many as
/// fit: a fifth point light never displaces one of the first four.
pub proof fn lemma_point_slots_are_first(lights: Seq<LightSlot>, n: int)
    requires
        0 <= n <= lights.len(),
        lights.len() <= usize::MAX,
    ensures
        first_point_lights(lights.take(n), point_slots(lights, n)),
    decreases n,
{
    let t = lights.take(n);
    if n > 0 {
        lemma_point_slots_are_first(lights, n - 1);
        let t0 = lights.take(n - 1);
        assert forall|j: int| 0 <= j < n - 1 implies #[trigger] t[j] == t0[j] by {}
        assert(t[n - 1] == lights[n - 1]);
        let before = point_slots(lights, n - 1);
        let pts = point_slots(lights, n);
        if lit_as(lights[n - 1], LightKind::Point) && before.len() < MAX_POINT_LIGHTS {
            assert(pts == before.push((n - 1) as usize));
            assert(pts[before.len() as int] == (n - 1) as usize);
            assert forall|a: int| 0 <= a < before.len() implies #[trigger] pts[a] == before[a] by {}
            assert forall|j: int|
                0 <= j < t.len() && #[trigger] t[j].entity_active && t[j].kind == Some(LightKind::Point) implies
                pts.contains(j as usize) || (pts.len() == MAX_POINT_LIGHTS && pts[MAX_POINT_LIGHTS - 1] < j) by {
                if j == n - 1 {
                    assert(pts[before.len() as int] == j as usize);
                } else {
                    assert(t0[j] == t[j]);
                    let a = choose|a: int| 0 <= a < before.len() && before[a] == j as usize;
                    assert(pts[a] == j as usize);
                }
            }
        } else {
            assert forall|j: int|
                0 <= j < t.len() && #[trigger] t[j].entity_active && t[j].kind == Some(LightKind::Point) implies
                pts.contains(j as usize) || (pts.len() == MAX_POINT_LIGHTS && pts[MAX_POINT_LIGHTS - 1] < j) by {
                if j < n - 1 {
                    assert(t0[j] == t[j]);
                } else {
                    lemma_point_slots_len(lights, n - 1);
                    assert(before.len() == MAX_POINT_LIGHTS);
                    assert(before[MAX_POINT_LIGHTS - 1] < n - 1);
                }
            }
        }
    }
}

/// Populate the dynamic light slots from the active light entities (point lights capped
/// at the slot budget).
pub fn assign_light_slots(lights: &Vec<LightSlot>) -> (slots: LightSlots)
    ensures
        slots.ambient == last_of_kind(lights@, lights@.len() as int, LightKind::Ambient),
        slots.directional == last_of_kind(lights@, lights@.len() as int, LightKind::Directional),
        slots.spot == last_of_kind(lights@, lights@.len() as int, LightKind::Spotlight),
        slots.points@ == point_slots(lights@, lights@.len() as int),
        slots.points@.len() <= MAX_POINT_LIGHTS,
        is_last_lit(lights@, slots.ambient, LightKind::Ambient),
        is_last_lit(lights@, slots.directional, LightKind::Directional),
        is_last_lit(lights@, slots.spot, LightKind::Spotlight),
        first_point_lights(lights@, slots.points@),
{
    let n = lights.len();
    let mut slots = LightSlots { ambient: None, directional: None, spot: None, points: Vec::new() };
    let mut k: usize = 0;
    while k < n
        invariant
            n == lights@.len(),
            k <= n,
            slots.ambient == last_of_kind(lights@, k as int, LightKind::Ambient),
            slots.directional == last_of_kind(lights@, k as int, LightKind::Directional),
            slots.spot == last_of_kind(lights@, k as int, LightKind::Spotlight),
            slots.points@ == point_slots(lights@, k as int),
        decreases n - k,
    {
        proof {
            lemma_point_slots_len(lights@, k as int);
        }
        let light = lights[k];
        if light.entity_active {
            match light.kind {
                Some(LightKind::Ambient) => slots.ambient = Some(k),
                Some(LightKind::Directional) => slots.directional = Some(k),
                Some(LightKind::Point) => {
                    if slots.points.len() < MAX_POINT_LIGHTS {
                        slots.points.push(k);
                    }
                },
                Some(LightKind::Spotlight) => slots.spot = Some(k),
                None => {},
            }
        }
        k = k + 1;
    }
    proof {
        lemma_point_slots_len(lights@, n as int);
        assert(lights@.take(n as int) =~= lights@);
        lemma_last_of_kind_is_last(lights@, n as int, LightKind::Ambient);
        lemma_last_of_kind_is_last(lights@, n as int, LightKind::Directional);
        lemma_last_of_kind_is_last(lights@, n as int, LightKind::Spotlight);
        lemma_point_slots_are_first(lights@, n as int);
    }
    slots
}

/// What the SSR fold reads of one entity's visual-correction volume.
pub struct SsrSlot {
    /// The entity is active.
    pub entity_active: bool,
    /// The entity carries a visual-correction component.
    pub has_volume: bool,
    pub ssr_active: bool,
    /// The quality name: `"Low"`, `"Medium"`, `"High"` or `"Ultra"`.
    pub ssr_quality: String,
    pub ssr_temporal_upsampling: bool,
}

/// The folded screen-space-reflection settings.
#[derive(Clone, Copy, Debug, PartialEq, Eq, Structural)]
pub struct SsrSettings {
    pub active: bool,
    /// Quality level: 0 Low, 1 Medium, 2 High, 3 Ultra.
    pub quality: u32,
    pub temporal_upsampling: bool,
}

/// The quality level a name selects; an unknown name reads as High.
pub open spec fn ssr_level(name: Seq<char>) -> u32 {
    if name == "Low"@ {
        0
    } else if name == "Medium"@ {
        1
    } else if name == "High"@ {
        2
    } else if name == "Ultra"@ {
        3
    } else {
        2
    }
}

/// The quality level a name selects; an unknown name reads as High.
pub fn ssr_quality_level(name: &String) -> (level: u32)
    ensures
        level == ssr_level(name@),
{
    if *name == <String as StringExecFns>::from_str("Low") {
        0
    } else if *name == <String as StringExecFns>::from_str("Medium") {
        1
    } else if *name == <String as StringExecFns>::from_str("High") {
        2
    } else if *name == <String as StringExecFns>::from_str("Ultra") {
        3
    } else {
        2
    }
}

pub open spec fn counts(s: SsrSlot) -> bool {
    s.entity_active && s.has_volume
}

/// The folded settings over the first `n` volumes.
pub open spec fn ssr_fold(slots: Seq<SsrSlot>, n: int) -> SsrSettings
    decreases n,
{
    if n <= 0 {
        SsrSettings { active: false, quality: 2, temporal_upsampling: false }
    } else {
        let before = ssr_fold(slots, n - 1);
        let s = slots[n - 1];
        if counts(s) {
            SsrSettings {
                active: s.ssr_active,
                quality: ssr_level(s.ssr_quality@),
                temporal_upsampling: s.ssr_temporal_upsampling,
            }
        } else {
            before
        }
    }
}

/// Fold the visual-correction volumes of active entities into the SSR settings: the
/// last such volume wins (its on/off switch, quality and temporal upsampling), and with
/// no volume SSR stays off at High quality without upsampling.
pub fn fold_ssr_settings(slots: &Vec<SsrSlot>) -> (settings: SsrSettings)
    ensures
        settings == ssr_fold(slots@, slots@.len() as int),
{
    let n = slots.len();
    let mut settings = SsrSettings { active: false, quality: 2, temporal_upsampling: false };
    let mut k: usize = 0;
    while k < n
        invariant
            n == slots@.len(),
            k <= n,
            settings == ssr_fold(slots@, k as int),
        decreases n - k,
    {
        let s = &slots[k];
        if s.entity_active && s.has_volume {
            settings = SsrSettings {
                active: s.ssr_active,
                quality: ssr_quality_level(&s.ssr_quality),
                temporal_upsampling: s.ssr_temporal_upsampling,
            };
        }
        k = k + 1;
    }
    settings
}

/// The last volume on an active entity decides all the SSR settings, whatever the
/// volumes before it say.
pub proof fn lemma_last_volume_wins(slots: Seq<SsrSlot>, n: int, i: int)
    requires
        0 <= i < n <= slots.len(),
        counts(slots[i]),
        forall|j: int| i < j < n ==> !counts(#[trigger] slots[j]),
    ensures
        ssr_fold(slots, n) == (SsrSettings {
            active: slots[i].ssr_active,
            quality: ssr_level(slots[i].ssr_quality@),
            temporal_upsampling: slots[i].ssr_temporal_upsampling,
        }),
    decreases n - i,
{
    if n - 1 > i {
        assert(!counts(slots[n - 1]));
        lemma_last_volume_wins(slots, n - 1, i);
    }
}

} // verus!
