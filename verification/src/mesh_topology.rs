//! Index buffers of the procedural primitives: which vertices each triangle of a box,
//! UV sphere, plane or cylinder joins. The vertex positions, normals and UVs are laid
//! out alongside, in the order these indices address.

use vstd::prelude::*;

verus! {

/// Vertices of the generated box: four per face.
pub const BOX_VERTEX_COUNT: u32 = 24;

/// The two triangles of quad face `face` of the box (vertices `4·face .. 4·face + 4`).
pub open spec fn box_face(face: int) -> Seq<u32> {
    let b = (4 * face) as u32;
    seq![b, (b + 1) as u32, (b + 2) as u32, b, (b + 2) as u32, (b + 3) as u32]
}

/// The first `n` faces' triangles.
pub open spec fn box_faces(n: int) -> Seq<u32>
    decreases n,
{
    if n <= 0 { Seq::empty() } else { box_faces(n - 1) + box_face(n - 1) }
}

/// Index buffer of the box: two triangles per quad face, six faces.
pub fn box_indices() -> (indices: Vec<u32>)
    ensures
        indices@ == box_faces(6),
{
    let mut indices: Vec<u32> = Vec::new();
    let mut i: u32 = 0;
    while i < 6
        invariant
            i <= 6,
            indices@ == box_faces(i as int),
        decreases 6 - i,
    {
        let b = i * 4;
        let quad: [u32; 6] = [b, b + 1, b + 2, b, b + 2, b + 3];
        let ghost before = indices@;
        let mut t: usize = 0;
        while t < 6
            invariant
                t <= 6,
                indices@ == before + quad@.take(t as int),
            decreases 6 - t,
        {
            indices.push(quad[t]);
            t = t + 1;
            proof {
                assert(indices@ =~= before + quad@.take(t as int));
            }
        }
        i = i + 1;
        proof {
            assert(quad@ =~= box_face(i - 1));
            assert(quad@.take(6) =~= quad@);
        }
    }
    indices
}

/// Every box index addresses one of its 24 vertices, six per face.
pub proof fn lemma_box_indices_in_range()
    ensures
        box_faces(6).len() == 36,
        forall|k: int| 0 <= k < 36 ==> (#[trigger] box_faces(6)[k]) < BOX_VERTEX_COUNT,
{
    reveal_with_fuel(box_faces, 7);
    assert forall|k: int| 0 <= k < 36 implies (#[trigger] box_faces(6)[k]) < BOX_VERTEX_COUNT by {
        let s = box_faces(6);
        assert(s =~= box_face(0) + box_face(1) + box_face(2) + box_face(3) + box_face(4) + box_face(5));
    }
}

/// Index buffer of the XZ plane quad (vertices −x−z, +x−z, +x+z, −x+z).
pub fn plane_indices() -> (indices: Vec<u32>)
    ensures
        indices@ == seq![0u32, 2, 1, 0, 3, 2],
{
    let indices = vec![0, 2, 1, 0, 3, 2];
    assert(indices@ =~= seq![0u32, 2, 1, 0, 3, 2]);
    indices
}

/// The two triangles of sphere quad (`r`, `s`): ring `r` to ring `r + 1`, sector `s` to
/// sector `s + 1`, with `sectors + 1` vertices per ring.
pub open spec fn sphere_quad(sectors: int, r: int, s: int) -> Seq<u32> {
    let i0 = (r * (sectors + 1) + s) as u32;
    let i1 = (r * (sectors + 1) + s + 1) as u32;
    let i2 = ((r + 1) * (sectors + 1) + s) as u32;
    let i3 = ((r + 1) * (sectors + 1) + s + 1) as u32;
    seq![i0, i1, i3, i0, i3, i2]
}

/// The first `n` quads of ring `r`.
pub open spec fn sphere_ring(sectors: int, r: int, n: int) -> Seq<u32>
    decreases n,
{
    if n <= 0 { Seq::empty() } else { sphere_ring(sectors, r, n - 1) + sphere_quad(sectors, r, n - 1) }
}

/// The quads of the first `n` rings.
pub open spec fn sphere_rings(sectors: int, n: int) -> Seq<u32>
    decreases n,
{
    if n <= 0 { Seq::empty() } else { sphere_rings(sectors, n - 1) + sphere_ring(sectors, n - 1, sectors) }
}

/// Vertices of a UV sphere: `rings + 1` rings of `sectors + 1` vertices.
pub open spec fn sphere_vertex_count(rings: int, sectors: int) -> int {
    (rings + 1) * (sectors + 1)
}

proof fn lemma_quad_bounds(rings: int, sectors: int, r: int, s: int)
    requires
        0 <= r < rings,
        0 <= s < sectors,
    ensures
        0 <= r * (sectors + 1) + s,
        (r + 1) * (sectors + 1) + s + 1 < sphere_vertex_count(rings, sectors),
{
    assert(0 <= r * (sectors + 1) + s) by (nonlinear_arith)
        requires
            0 <= r,
            0 <= s,
            0 <= sectors,
    ;
    assert((r + 1) * (sectors + 1) + s + 1 < (rings + 1) * (sectors + 1)) by (nonlinear_arith)
        requires
            r + 1 <= rings,
            s + 1 <= sectors,
            0 <= sectors,
    ;
}

/// Index buffer of a UV sphere: two triangles per quad, ring by ring, sector by sector.
pub fn sphere_indices(rings: u32, sectors: u32) -> (indices: Vec<u32>)
    requires
        sphere_vertex_count(rings as int, sectors as int) <= u32::MAX,
    ensures
        indices@ == sphere_rings(sectors as int, rings as int),
{
    let mut indices: Vec<u32> = Vec::new();
    let mut r: u32 = 0;
    while r < rings
        invariant
            sphere_vertex_count(rings as int, sectors as int) <= u32::MAX,
            r <= rings,
            indices@ == sphere_rings(sectors as int, r as int),
        decreases rings - r,
    {
        let ghost ring_start = indices@;
        let mut s: u32 = 0;
        while s < sectors
            invariant
                sphere_vertex_count(rings as int, sectors as int) <= u32::MAX,
                r < rings,
                s <= sectors,
                indices@ == ring_start + sphere_ring(sectors as int, r as int, s as int),
            decreases sectors - s,
        {
            proof {
                lemma_quad_bounds(rings as int, sectors as int, r as int, s as int);
                assert(sectors + 1 <= (rings + 1) * (sectors + 1)) by (nonlinear_arith)
                    requires
                        0 <= rings,
                        0 <= sectors,
                ;
                assert(r * (sectors + 1) + s <= (r + 1) * (sectors + 1) + s + 1) by (nonlinear_arith)
                    requires
                        0 <= r,
                        0 <= sectors,
                ;
            }
            let idx0 = r * (sectors + 1) + s;
            let idx1 = r * (sectors + 1) + (s + 1);
            let idx2 = (r + 1) * (sectors + 1) + s;
            let idx3 = (r + 1) * (sectors + 1) + (s + 1);
            let ghost before = indices@;

            indices.push(idx0);
            indices.push(idx1);
            indices.push(idx3);

            indices.push(idx0);
            indices.push(idx3);
            indices.push(idx2);
            s = s + 1;
            proof {
                assert(indices@ =~= before + sphere_quad(sectors as int, r as int, s - 1));
            }
        }
        r = r + 1;
    }
    indices
}

/// Every index of a UV sphere addresses one of its vertices, and there are six per quad.
pub proof fn lemma_sphere_indices_in_range(rings: int, sectors: int)
    requires
        0 <= rings,
        0 <= sectors,
    ensures
        sphere_vertex_count(rings, sectors) <= u32::MAX ==> forall|k: int|
            0 <= k < sphere_rings(sectors, rings).len() ==> (#[trigger] sphere_rings(sectors, rings)[k] as int)
                < sphere_vertex_count(rings, sectors),
        sphere_rings(sectors, rings).len() == 6 * rings * sectors,
    decreases rings,
{
    if rings == 0 {
        assert(6 * rings * sectors == 0) by (nonlinear_arith)
            requires
                rings == 0,
        ;
    }
    if rings > 0 {
        lemma_sphere_indices_in_range(rings - 1, sectors);
        lemma_ring_in_range(rings, sectors, rings - 1, sectors);
        assert(6 * rings * sectors == 6 * (rings - 1) * sectors + 6 * sectors) by (nonlinear_arith);
        assert(sphere_vertex_count(rings - 1, sectors) <= sphere_vertex_count(rings, sectors)) by (nonlinear_arith)
            requires
                0 <= sectors,
        ;
        let prev = sphere_rings(sectors, rings - 1);
        let ring = sphere_ring(sectors, rings - 1, sectors);
        assert(sphere_rings(sectors, rings) == prev + ring);
        if sphere_vertex_count(rings, sectors) <= u32::MAX {
            assert forall|k: int| 0 <= k < (prev + ring).len() implies ((prev + ring)[k] as int) < sphere_vertex_count(
                rings,
                sectors,
            ) by {
                if k < prev.len() {
                    assert((prev + ring)[k] == prev[k]);
                } else {
                    assert((prev + ring)[k] == ring[k - prev.len()]);
                }
            }
        }
    }
}

proof fn lemma_ring_in_range(rings: int, sectors: int, r: int, n: int)
    requires
        0 <= r < rings,
        0 <= n <= sectors,
    ensures
        sphere_ring(sectors, r, n).len() == 6 * n,
        sphere_vertex_count(rings, sectors) <= u32::MAX ==> forall|k: int|
            0 <= k < sphere_ring(sectors, r, n).len() ==> (#[trigger] sphere_ring(sectors, r, n)[k] as int)
                < sphere_vertex_count(rings, sectors),
    decreases n,
{
    if n > 0 {
        lemma_ring_in_range(rings, sectors, r, n - 1);
        lemma_quad_bounds(rings, sectors, r, n - 1);
        let prev = sphere_ring(sectors, r, n - 1);
        let quad = sphere_quad(sectors, r, n - 1);
        assert(sphere_ring(sectors, r, n) == prev + quad);
        if sphere_vertex_count(rings, sectors) <= u32::MAX {
            assert(r * (sectors + 1) + (n - 1) <= (r + 1) * (sectors + 1) + (n - 1) + 1) by (nonlinear_arith)
                requires
                    0 <= r,
                    0 <= sectors,
            ;
            assert(r * (sectors + 1) + (n - 1) + 1 <= (r + 1) * (sectors + 1) + (n - 1) + 1) by (nonlinear_arith)
                requires
                    0 <= r,
                    0 <= sectors,
            ;
            assert forall|k: int| 0 <= k < (prev + quad).len() implies ((prev + quad)[k] as int) < sphere_vertex_count(
                rings,
                sectors,
            ) by {
                if k < prev.len() {
                    assert((prev + quad)[k] == prev[k]);
                } else {
                    assert((prev + quad)[k] == quad[k - prev.len()]);
                }
            }
        }
    }
}

/// Vertices of a cylinder with `segments` sides: a bottom/top pair per side edge
/// (`segments + 1` pairs, the seam duplicated), then each cap's centre and its ring of
/// `segments + 1` rim vertices.
pub open spec fn cylinder_vertex_count(segments: int) -> int {
    4 * segments + 6
}

/// The side wall's two triangles between side edges `i` and `i + 1`.
pub open spec fn tube_quad(i: int) -> Seq<u32> {
    let b0 = (2 * i) as u32;
    let t0 = (2 * i + 1) as u32;
    let b1 = (2 * i + 2) as u32;
    let t1 = (2 * i + 3) as u32;
    seq![b0, b1, t0, t0, b1, t1]
}

/// The first `n` side-wall quads.
pub open spec fn tube_quads(n: int) -> Seq<u32>
    decreases n,
{
    if n <= 0 { Seq::empty() } else { tube_quads(n - 1) + tube_quad(n - 1) }
}

/// One cap triangle: the centre and rim vertices `i`, `i + 1`, wound outward (`flip`
/// reverses the winding for the bottom cap).
pub open spec fn cap_tri(center: int, i: int, flip: bool) -> Seq<u32> {
    let a = (center + 1 + i) as u32;
    let b = (center + 2 + i) as u32;
    if flip { seq![center as u32, b, a] } else { seq![center as u32, a, b] }
}

/// The first `n` triangles of a cap whose centre vertex is `center`.
pub open spec fn cap_tris(center: int, n: int, flip: bool) -> Seq<u32>
    decreases n,
{
    if n <= 0 { Seq::empty() } else { cap_tris(center, n - 1, flip) + cap_tri(center, n - 1, flip) }
}

/// Index buffer of a cylinder: the side wall, the bottom cap (wound to face −axis), then
/// the top cap.
pub open spec fn cylinder_index_seq(segments: int) -> Seq<u32> {
    tube_quads(segments) + cap_tris(2 * segments + 2, segments, true) + cap_tris(3 * segments + 4, segments, false)
}

/// Append the side wall's triangles: consecutive side edges joined by two triangles.
fn push_tube_indices(indices: &mut Vec<u32>, segments: u32)
    requires
        cylinder_vertex_count(segments as int) <= u32::MAX,
    ensures
        final(indices)@ == old(indices)@ + tube_quads(segments as int),
{
    let ghost start = indices@;
    let mut i: u32 = 0;
    while i < segments
        invariant
            cylinder_vertex_count(segments as int) <= u32::MAX,
            i <= segments,
            indices@ == start + tube_quads(i as int),
        decreases segments - i,
    {
        let (b0, t0, b1, t1) = (i * 2, i * 2 + 1, (i + 1) * 2, (i + 1) * 2 + 1);
        let ghost before = indices@;
        indices.push(b0);
        indices.push(b1);
        indices.push(t0);
        indices.push(t0);
        indices.push(b1);
        indices.push(t1);
        i = i + 1;
        proof {
            assert(indices@ =~= before + tube_quad(i - 1));
        }
    }
}

/// Append one disk cap's triangles around centre vertex `center_idx`, whose rim follows
/// it. The bottom cap winds (centre, i+1, i) so its face points outward, the top cap
/// (centre, i, i+1).
fn push_cap_indices(indices: &mut Vec<u32>, center_idx: u32, segments: u32, flip: bool)
    requires
        center_idx + segments + 1 <= u32::MAX,
    ensures
        final(indices)@ == old(indices)@ + cap_tris(center_idx as int, segments as int, flip),
{
    let ghost start = indices@;
    let ring_start = center_idx + 1;
    let mut i: u32 = 0;
    while i < segments
        invariant
            center_idx + segments + 1 <= u32::MAX,
            ring_start == center_idx + 1,
            i <= segments,
            indices@ == start + cap_tris(center_idx as int, i as int, flip),
        decreases segments - i,
    {
        let ghost before = indices@;
        if flip {
            indices.push(center_idx);
            indices.push(ring_start + i + 1);
            indices.push(ring_start + i);
        } else {
            indices.push(center_idx);
            indices.push(ring_start + i);
            indices.push(ring_start + i + 1);
        }
        i = i + 1;
        proof {
            assert(indices@ =~= before + cap_tri(center_idx as int, i - 1, flip));
        }
    }
}

/// Index buffer of a cylinder with `segments` sides.
pub fn cylinder_indices(segments: u32) -> (indices: Vec<u32>)
    requires
        cylinder_vertex_count(segments as int) <= u32::MAX,
    ensures
        indices@ == cylinder_index_seq(segments as int),
{
    let mut indices: Vec<u32> = Vec::new();
    push_tube_indices(&mut indices, segments);
    // Bottom cap: its centre follows the side wall's 2·(segments + 1) vertices.
    let bottom_center = 2 * segments + 2;
    push_cap_indices(&mut indices, bottom_center, segments, true);
    // Top cap: its centre follows the bottom cap's centre and rim.
    let top_center = bottom_center + segments + 2;
    push_cap_indices(&mut indices, top_center, segments, false);
    proof {
        assert(indices@ =~= cylinder_index_seq(segments as int));
    }
    indices
}

/// Every cylinder index addresses one of its vertices.
pub proof fn lemma_cylinder_indices_in_range(segments: int)
    requires
        0 <= segments,
        cylinder_vertex_count(segments) <= u32::MAX,
    ensures
        forall|k: int|
            0 <= k < cylinder_index_seq(segments).len() ==> (#[trigger] cylinder_index_seq(segments)[k] as int)
                < cylinder_vertex_count(segments),
        cylinder_index_seq(segments).len() == 12 * segments,
{
    lemma_tube_in_range(segments, segments);
    lemma_cap_in_range(segments, 2 * segments + 2, segments, true);
    lemma_cap_in_range(segments, 3 * segments + 4, segments, false);
    let a = tube_quads(segments);
    let b = cap_tris(2 * segments + 2, segments, true);
    let c = cap_tris(3 * segments + 4, segments, false);
    assert forall|k: int| 0 <= k < (a + b + c).len() implies ((a + b + c)[k] as int) < cylinder_vertex_count(
        segments,
    ) by {
        if k < a.len() {
            assert((a + b + c)[k] == a[k]);
        } else if k < a.len() + b.len() {
            assert((a + b + c)[k] == b[k - a.len()]);
        } else {
            assert((a + b + c)[k] == c[k - a.len() - b.len()]);
        }
    }
}

proof fn lemma_tube_in_range(segments: int, n: int)
    requires
        0 <= n <= segments,
        cylinder_vertex_count(segments) <= u32::MAX,
    ensures
        tube_quads(n).len() == 6 * n,
        forall|k: int| 0 <= k < tube_quads(n).len() ==> (#[trigger] tube_quads(n)[k] as int) < 2 * n + 2,
    decreases n,
{
    if n > 0 {
        lemma_tube_in_range(segments, n - 1);
        let prev = tube_quads(n - 1);
        let quad = tube_quad(n - 1);
        assert forall|k: int| 0 <= k < (prev + quad).len() implies ((prev + quad)[k] as int) < 2 * n + 2 by {
            if k < prev.len() {
                assert((prev + quad)[k] == prev[k]);
            } else {
                assert((prev + quad)[k] == quad[k - prev.len()]);
            }
        }
    }
}

proof fn lemma_cap_in_range(segments: int, center: int, n: int, flip: bool)
    requires
        0 <= n <= segments,
        0 <= center,
        center + segments + 1 < cylinder_vertex_count(segments) <= u32::MAX,
    ensures
        cap_tris(center, n, flip).len() == 3 * n,
        forall|k: int|
            0 <= k < cap_tris(center, n, flip).len() ==> (#[trigger] cap_tris(center, n, flip)[k] as int)
                < cylinder_vertex_count(segments),
    decreases n,
{
    if n > 0 {
        lemma_cap_in_range(segments, center, n - 1, flip);
        let prev = cap_tris(center, n - 1, flip);
        let tri = cap_tri(center, n - 1, flip);
        assert forall|k: int| 0 <= k < (prev + tri).len() implies ((prev + tri)[k] as int) < cylinder_vertex_count(
            segments,
        ) by {
            if k < prev.len() {
                assert((prev + tri)[k] == prev[k]);
            } else {
                assert((prev + tri)[k] == tri[k - prev.len()]);
            }
        }
    }
}

} // verus!
