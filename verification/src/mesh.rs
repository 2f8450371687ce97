//! Mesh builder: turns a 2D polygon footprint and a height into an
//! extruded prism, and a road polyline and width into buffered corridor
//! prisms.
//!
//! The footprint is triangulated by ear clipping with exact integer
//! predicates: the polygon's orientation comes from the cross product at
//! its lexicographically lowest vertex, an ear is a strictly convex corner
//! whose triangle strictly contains no other vertex, and clipping removes
//! one ear at a time. A ring with fewer than three points, a degenerate
//! ring (collinear, or too tangled for any ear to appear), yields no mesh —
//! a skip, not an error.
//!
//! A corridor is buffered one segment at a time: each segment of nonzero
//! length becomes a rectangle offset perpendicular by half the width
//! (rounded toward zero, ends square), and each rectangle is extruded
//! independently, so one polyline may produce several prisms.

use vstd::prelude::*;
use crate::tile::Pt;

verus! {

/// Largest coordinate magnitude the mesh builder accepts.
pub const MESH_LIMIT: i64 = 0x3000_0000_0000_0000;

/// Largest coordinate magnitude the corridor buffer accepts for polyline
/// points; buffered rectangles then stay within `MESH_LIMIT`.
pub const BUFFER_PT_LIMIT: i64 = 0x2000_0000_0000_0000;

/// Largest half-width the corridor buffer accepts.
pub const BUFFER_HALFW_LIMIT: i64 = 0x800_0000_0000_0000;

/// A mesh vertex: scene-space position, with the extrusion axis in `z`.
#[derive(Clone, Copy, PartialEq, Eq, Structural, Debug)]
pub struct V3 {
    pub x: i64,
    pub y: i64,
    pub z: i64,
}

/// One triangle, as indices into the mesh's vertex list.
#[derive(Clone, Copy, PartialEq, Eq, Structural, Debug)]
pub struct Tri {
    pub a: usize,
    pub b: usize,
    pub c: usize,
}

/// An extruded solid: vertex positions and triangles with consistent
/// winding (top faces keep the footprint's orientation, bottom faces are
/// reversed, side quads are split into two triangles each).
#[derive(Clone, PartialEq, Eq, Debug)]
pub struct MeshData {
    pub vertices: Vec<V3>,
    pub triangles: Vec<Tri>,
}

/// Mathematical model of a `MeshData`.
#[verifier::ext_equal]
pub struct MeshModel {
    pub vertices: Seq<V3>,
    pub triangles: Seq<Tri>,
}

impl View for MeshData {
    type V = MeshModel;

    open spec fn view(&self) -> MeshModel {
        MeshModel { vertices: self.vertices@, triangles: self.triangles@ }
    }
}

/// Whether every point of a ring lies within the mesh builder's bound.
pub open spec fn sp_ring_in_mesh_range(r: Seq<Pt>) -> bool {
    forall|k: int|
        0 <= k < r.len() ==> -MESH_LIMIT <= (#[trigger] r[k]).x <= MESH_LIMIT && -MESH_LIMIT
            <= r[k].y <= MESH_LIMIT
}

/// Twice the signed area of triangle `(o, a, b)`: positive when the
/// triangle turns counterclockwise.
pub open spec fn sp_cross(o: Pt, a: Pt, b: Pt) -> int {
    (a.x - o.x) * (b.y - o.y) - (a.y - o.y) * (b.x - o.x)
}

/// Evaluates the cross product exactly in 128-bit arithmetic.
pub fn cross(o: Pt, a: Pt, b: Pt) -> (r: i128)
    requires
        -MESH_LIMIT <= o.x <= MESH_LIMIT,
        -MESH_LIMIT <= o.y <= MESH_LIMIT,
        -MESH_LIMIT <= a.x <= MESH_LIMIT,
        -MESH_LIMIT <= a.y <= MESH_LIMIT,
        -MESH_LIMIT <= b.x <= MESH_LIMIT,
        -MESH_LIMIT <= b.y <= MESH_LIMIT,
    ensures
        r as int == sp_cross(o, a, b),
{
    let ax = (a.x - o.x) as i128;
    let by = (b.y - o.y) as i128;
    let ay = (a.y - o.y) as i128;
    let bx = (b.x - o.x) as i128;
    proof {
        let lim = 2 * MESH_LIMIT as int;
        assert(ax * by <= lim * lim && ax * by >= -(lim * lim)) by (nonlinear_arith)
            requires
                -lim <= ax <= lim,
                -lim <= by <= lim,
                lim > 0,
        ;
        assert(ay * bx <= lim * lim && ay * bx >= -(lim * lim)) by (nonlinear_arith)
            requires
                -lim <= ay <= lim,
                -lim <= bx <= lim,
                lim > 0,
        ;
    }
    ax * by - ay * bx
}

/// Whether `r` is the integer square root of `n`.
pub open spec fn sp_is_isqrt(n: int, r: int) -> bool {
    &&& r >= 0
    &&& r * r <= n
    &&& n < (r + 1) * (r + 1)
}

/// The integer square root is unique.
pub proof fn lemma_isqrt_unique(n: int, a: int, b: int)
    requires
        sp_is_isqrt(n, a),
        sp_is_isqrt(n, b),
    ensures
        a == b,
{
    if a < b {
        assert((a + 1) * (a + 1) <= b * b) by (nonlinear_arith)
            requires
                0 <= a,
                a + 1 <= b,
        ;
    }
    if b < a {
        assert((b + 1) * (b + 1) <= a * a) by (nonlinear_arith)
            requires
                0 <= b,
                b + 1 <= a,
        ;
    }
}

/// The integer square root of `n`.
pub open spec fn sp_isqrt(n: int) -> int {
    choose|r: int| sp_is_isqrt(n, r)
}

/// Computes the integer square root by bisection.
pub fn isqrt(n: u128) -> (r: u64)
    requires
        n < 0x4000_0000_0000_0000_0000_0000_0000_0000u128,
    ensures
        sp_is_isqrt(n as int, r as int),
        r as int == sp_isqrt(n as int),
{
    let mut lo: u64 = 0;
    let mut hi: u64 = 0x8000_0000_0000_0000;
    proof {
        assert((hi as int) * (hi as int) > n as int) by (nonlinear_arith)
            requires
                hi as int == 0x8000_0000_0000_0000,
                n < 0x4000_0000_0000_0000_0000_0000_0000_0000u128,
        ;
    }
    while hi - lo > 1
        invariant
            lo < hi,
            hi <= 0x8000_0000_0000_0000,
            (lo as int) * (lo as int) <= n as int,
            (hi as int) * (hi as int) > n as int,
        decreases hi - lo,
    {
        let mid = lo + (hi - lo) / 2;
        proof {
            assert((mid as int) * (mid as int) <= 0x8000_0000_0000_0000i128 * 0x8000_0000_0000_0000i128)
                by (nonlinear_arith)
                requires
                    0 <= mid as int <= 0x8000_0000_0000_0000,
            ;
        }
        if (mid as u128) * (mid as u128) <= n {
            lo = mid;
        } else {
            hi = mid;
        }
    }
    proof {
        assert(hi == lo + 1);
        assert(sp_is_isqrt(n as int, lo as int));
        lemma_isqrt_unique(n as int, lo as int, sp_isqrt(n as int));
    }
    lo
}

/// Largest ring the mesh builder accepts.
pub const MESH_RING_LIMIT: usize = 0x1000_0000;

/// The integer view of an index list.
pub open spec fn idxs_view(v: Seq<usize>) -> Seq<int> {
    Seq::new(v.len(), |i: int| v[i] as int)
}

/// Whether every index points into a ring of `n` points.
pub open spec fn sp_idxs_valid(idxs: Seq<int>, n: int) -> bool {
    forall|m: int| 0 <= m < idxs.len() ==> 0 <= #[trigger] idxs[m] < n
}

/// Whether `q` lies strictly inside triangle `(a, b, c)` of orientation
/// `s`.
pub open spec fn sp_in_tri_strict(a: Pt, b: Pt, c: Pt, q: Pt, s: int) -> bool {
    &&& s * sp_cross(a, b, q) > 0
    &&& s * sp_cross(b, c, q) > 0
    &&& s * sp_cross(c, a, q) > 0
}

/// Whether position `k` of the working index list is an ear: its corner
/// turns the polygon's way strictly, and no other listed vertex lies
/// strictly inside its triangle.
pub open spec fn sp_is_ear(ring: Seq<Pt>, idxs: Seq<int>, k: int, s: int) -> bool {
    let n = idxs.len() as int;
    let a = ring[idxs[(k + n - 1) % n]];
    let b = ring[idxs[k]];
    let c = ring[idxs[(k + 1) % n]];
    &&& s * sp_cross(a, b, c) > 0
    &&& forall|m: int|
        0 <= m < n && m != k && m != (k + n - 1) % n && m != (k + 1) % n
            ==> !sp_in_tri_strict(a, b, c, ring[#[trigger] idxs[m]], s)
}

/// The first ear at position `k` or later, if any.
pub open spec fn sp_find_ear(ring: Seq<Pt>, idxs: Seq<int>, k: int, s: int) -> Option<int>
    decreases idxs.len() - k,
{
    if k < 0 || k >= idxs.len() {
        None
    } else if sp_is_ear(ring, idxs, k, s) {
        Some(k)
    } else {
        sp_find_ear(ring, idxs, k + 1, s)
    }
}

/// Clips one ear at a time: each ear becomes a triangle and its vertex
/// leaves the working list; three remaining vertices are the last
/// triangle. A stage with no ear is degenerate and yields no
/// triangulation.
pub open spec fn sp_clip(ring: Seq<Pt>, idxs: Seq<int>, s: int, acc: Seq<Tri>) -> Option<Seq<Tri>>
    decreases idxs.len(),
{
    let n = idxs.len() as int;
    if n < 3 {
        None
    } else if n == 3 {
        Some(
            acc.push(Tri { a: idxs[0] as usize, b: idxs[1] as usize, c: idxs[2] as usize }),
        )
    } else {
        match sp_find_ear(ring, idxs, 0, s) {
            None => None,
            Some(k) => if 0 <= k < n {
                sp_clip(
                    ring,
                    idxs.remove(k),
                    s,
                    acc.push(
                        Tri {
                            a: idxs[(k + n - 1) % n] as usize,
                            b: idxs[k] as usize,
                            c: idxs[(k + 1) % n] as usize,
                        },
                    ),
                )
            } else {
                None
            },
        }
    }
}

/// The lexicographically lowest vertex of the ring, scanning from `k` with
/// `best` the lowest so far.
pub open spec fn sp_lowest_idx(ring: Seq<Pt>, k: int, best: int) -> int
    decreases ring.len() - k,
{
    if k < 0 || k >= ring.len() {
        best
    } else {
        let b = if ring[k].x < ring[best].x || (ring[k].x == ring[best].x && ring[k].y
            < ring[best].y) {
            k
        } else {
            best
        };
        sp_lowest_idx(ring, k + 1, b)
    }
}

/// The ring's orientation, read off the corner at its lowest vertex:
/// 1 counterclockwise, -1 clockwise, 0 degenerate.
pub open spec fn sp_orientation(ring: Seq<Pt>) -> int {
    let n = ring.len() as int;
    let k = sp_lowest_idx(ring, 1, 0);
    let c = sp_cross(ring[(k + n - 1) % n], ring[k], ring[(k + 1) % n]);
    if c > 0 {
        1
    } else if c < 0 {
        -1
    } else {
        0
    }
}

/// The triangulation of a footprint ring: nothing for fewer than three
/// points or a degenerate corner at the lowest vertex, otherwise the ear
/// clipping of the whole index list.
pub open spec fn sp_triangulate(ring: Seq<Pt>) -> Option<Seq<Tri>> {
    if ring.len() < 3 {
        None
    } else {
        let s = sp_orientation(ring);
        if s == 0 {
            None
        } else {
            sp_clip(ring, Seq::new(ring.len(), |i: int| i), s, Seq::<Tri>::empty())
        }
    }
}

/// The lowest-vertex scan stays within the ring.
pub proof fn lemma_lowest_in_range(ring: Seq<Pt>, k: int, best: int)
    requires
        0 <= best < ring.len(),
    ensures
        0 <= sp_lowest_idx(ring, k, best) < ring.len(),
    decreases ring.len() - k,
{
    if 0 <= k < ring.len() {
        let b = if ring[k].x < ring[best].x || (ring[k].x == ring[best].x && ring[k].y
            < ring[best].y) {
            k
        } else {
            best
        };
        lemma_lowest_in_range(ring, k + 1, b);
    }
}

/// Decides whether position `k` of the working list is an ear.
fn is_ear(ring: &Vec<Pt>, idxs: &Vec<usize>, k: usize, s: i64) -> (r: bool)
    requires
        sp_ring_in_mesh_range(ring@),
        ring@.len() <= MESH_RING_LIMIT,
        sp_idxs_valid(idxs_view(idxs@), ring@.len() as int),
        3 <= idxs@.len() <= ring@.len(),
        k < idxs@.len(),
        s == 1 || s == -1,
    ensures
        r == sp_is_ear(ring@, idxs_view(idxs@), k as int, s as int),
{
    let n = idxs.len();
    let prev = (k + n - 1) % n;
    let next = (k + 1) % n;
    proof {
        assert(idxs_view(idxs@)[prev as int] == idxs@[prev as int] as int);
        assert(idxs_view(idxs@)[k as int] == idxs@[k as int] as int);
        assert(idxs_view(idxs@)[next as int] == idxs@[next as int] as int);
    }
    let a = ring[idxs[prev]];
    let b = ring[idxs[k]];
    let c = ring[idxs[next]];
    let corner = cross(a, b, c);
    let convex = if s == 1 {
        corner > 0
    } else {
        corner < 0
    };
    proof {
        assert(convex == (s as int * sp_cross(a, b, c) > 0));
    }
    if !convex {
        return false;
    }
    let mut m: usize = 0;
    while m < n
        invariant
            m <= n == idxs@.len(),
            3 <= idxs@.len() <= ring@.len() <= MESH_RING_LIMIT,
            sp_ring_in_mesh_range(ring@),
            sp_idxs_valid(idxs_view(idxs@), ring@.len() as int),
            k < n,
            prev as int == (k as int + n as int - 1) % (n as int),
            next as int == (k as int + 1) % (n as int),
            s == 1 || s == -1,
            a == ring@[idxs_view(idxs@)[prev as int]],
            b == ring@[idxs_view(idxs@)[k as int]],
            c == ring@[idxs_view(idxs@)[next as int]],
            forall|m2: int|
                0 <= m2 < m && m2 != k && m2 != prev && m2 != next ==> !sp_in_tri_strict(
                    a,
                    b,
                    c,
                    ring@[idxs_view(idxs@)[m2]],
                    s as int,
                ),
        decreases n - m,
    {
        if m != k && m != prev && m != next {
            proof {
                assert(idxs_view(idxs@)[m as int] == idxs@[m as int] as int);
            }
            let q = ring[idxs[m]];
            let c1 = cross(a, b, q);
            let c2 = cross(b, c, q);
            let c3 = cross(c, a, q);
            let inside = if s == 1 {
                c1 > 0 && c2 > 0 && c3 > 0
            } else {
                c1 < 0 && c2 < 0 && c3 < 0
            };
            proof {
                assert(inside == sp_in_tri_strict(a, b, c, q, s as int));
            }
            if inside {
                return false;
            }
        }
        m = m + 1;
    }
    true
}

/// Finds the first ear of the working list, if any.
fn find_ear(ring: &Vec<Pt>, idxs: &Vec<usize>, s: i64) -> (r: Option<usize>)
    requires
        sp_ring_in_mesh_range(ring@),
        ring@.len() <= MESH_RING_LIMIT,
        sp_idxs_valid(idxs_view(idxs@), ring@.len() as int),
        3 <= idxs@.len() <= ring@.len(),
        s == 1 || s == -1,
    ensures
        match r {
            Some(k) => sp_find_ear(ring@, idxs_view(idxs@), 0, s as int) == Some(k as int) && k
                < idxs@.len(),
            None => sp_find_ear(ring@, idxs_view(idxs@), 0, s as int) == None::<int>,
        },
{
    let n = idxs.len();
    let mut k: usize = 0;
    while k < n
        invariant
            k <= n == idxs@.len(),
            sp_ring_in_mesh_range(ring@),
            ring@.len() <= MESH_RING_LIMIT,
            sp_idxs_valid(idxs_view(idxs@), ring@.len() as int),
            3 <= idxs@.len() <= ring@.len(),
            s == 1 || s == -1,
            sp_find_ear(ring@, idxs_view(idxs@), 0, s as int) == sp_find_ear(
                ring@,
                idxs_view(idxs@),
                k as int,
                s as int,
            ),
        decreases n - k,
    {
        if is_ear(ring, idxs, k, s) {
            return Some(k);
        }
        k = k + 1;
    }
    None
}

/// Triangulates a footprint ring by ear clipping, exactly as
/// `sp_triangulate` denotes: triangle corners are indices into the ring,
/// and a degenerate ring yields nothing.
pub fn triangulate(ring: &Vec<Pt>) -> (r: Option<Vec<Tri>>)
    requires
        sp_ring_in_mesh_range(ring@),
        ring@.len() <= MESH_RING_LIMIT,
    ensures
        match r {
            Some(t) => sp_triangulate(ring@) == Some(t@),
            None => sp_triangulate(ring@) == None::<Seq<Tri>>,
        },
{
    let n = ring.len();
    if n < 3 {
        return None;
    }
    let mut best: usize = 0;
    let mut k: usize = 1;
    while k < n
        invariant
            1 <= k <= n == ring@.len(),
            best < n,
            sp_lowest_idx(ring@, 1, 0) == sp_lowest_idx(ring@, k as int, best as int),
        decreases n - k,
    {
        let p = ring[k];
        let q = ring[best];
        if p.x < q.x || (p.x == q.x && p.y < q.y) {
            best = k;
        }
        k = k + 1;
    }
    let prev = (best + n - 1) % n;
    let next = (best + 1) % n;
    let corner = cross(ring[prev], ring[best], ring[next]);
    let s: i64 = if corner > 0 {
        1
    } else if corner < 0 {
        -1
    } else {
        proof {
            assert(sp_orientation(ring@) == 0);
        }
        return None;
    };
    proof {
        assert(s as int == sp_orientation(ring@));
    }
    let mut idxs: Vec<usize> = Vec::new();
    let mut i: usize = 0;
    while i < n
        invariant
            i <= n == ring@.len(),
            idxs@.len() == i,
            forall|j: int| 0 <= j < i ==> idxs@[j] == j,
        decreases n - i,
    {
        idxs.push(i);
        i = i + 1;
    }
    proof {
        assert(idxs_view(idxs@) =~= Seq::new(ring@.len(), |j: int| j));
    }
    let mut tris: Vec<Tri> = Vec::new();
    let ghost target = sp_clip(
        ring@,
        Seq::new(ring@.len(), |j: int| j),
        s as int,
        Seq::<Tri>::empty(),
    );
    proof {
        assert(tris@ =~= Seq::<Tri>::empty());
    }
    while idxs.len() > 3
        invariant
            3 <= idxs@.len() <= ring@.len() <= MESH_RING_LIMIT,
            sp_ring_in_mesh_range(ring@),
            sp_idxs_valid(idxs_view(idxs@), ring@.len() as int),
            s == 1 || s == -1,
            target == sp_clip(ring@, idxs_view(idxs@), s as int, tris@),
            target == sp_triangulate(ring@),
        decreases idxs@.len(),
    {
        let nn = idxs.len();
        match find_ear(ring, &idxs, s) {
            None => {
                return None;
            },
            Some(k) => {
                let prev2 = (k + nn - 1) % nn;
                let next2 = (k + 1) % nn;
                proof {
                    assert(idxs_view(idxs@)[prev2 as int] == idxs@[prev2 as int] as int);
                    assert(idxs_view(idxs@)[k as int] == idxs@[k as int] as int);
                    assert(idxs_view(idxs@)[next2 as int] == idxs@[next2 as int] as int);
                }
                tris.push(Tri { a: idxs[prev2], b: idxs[k], c: idxs[next2] });
                let ghost before = idxs_view(idxs@);
                idxs.remove(k);
                proof {
                    assert(idxs_view(idxs@) =~= before.remove(k as int));
                }
            },
        }
    }
    proof {
        assert(idxs_view(idxs@)[0] == idxs@[0] as int);
        assert(idxs_view(idxs@)[1] == idxs@[1] as int);
        assert(idxs_view(idxs@)[2] == idxs@[2] as int);
    }
    tris.push(Tri { a: idxs[0], b: idxs[1], c: idxs[2] });
    Some(tris)
}

/// Whether every triangle's corners point into a vertex list of length
/// `n`.
pub open spec fn sp_tris_valid(tris: Seq<Tri>, n: int) -> bool {
    forall|i: int|
        0 <= i < tris.len() ==> (#[trigger] tris[i]).a < n && tris[i].b < n && tris[i].c < n
}

/// Ear clipping emits one triangle per removed vertex plus a final one:
/// `list length - 2` triangles in all, every corner a valid ring index.
pub proof fn lemma_clip_props(ring: Seq<Pt>, idxs: Seq<int>, s: int, acc: Seq<Tri>, res: Seq<Tri>)
    requires
        sp_idxs_valid(idxs, ring.len() as int),
        sp_tris_valid(acc, ring.len() as int),
        idxs.len() >= 3,
        sp_clip(ring, idxs, s, acc) == Some(res),
    ensures
        res.len() == acc.len() + idxs.len() - 2,
        sp_tris_valid(res, ring.len() as int),
    decreases idxs.len(),
{
    let n = idxs.len() as int;
    if n == 3 {
        let t = Tri { a: idxs[0] as usize, b: idxs[1] as usize, c: idxs[2] as usize };
        assert(sp_tris_valid(acc.push(t), ring.len() as int)) by {
            assert(forall|i: int|
                0 <= i < acc.len() ==> acc.push(t)[i] == #[trigger] acc[i]);
            assert(acc.push(t)[acc.len() as int] == t);
        }
    } else {
        let k = sp_find_ear(ring, idxs, 0, s)->0;
        let t = Tri {
            a: idxs[(k + n - 1) % n] as usize,
            b: idxs[k] as usize,
            c: idxs[(k + 1) % n] as usize,
        };
        let rem = idxs.remove(k);
        assert(sp_idxs_valid(rem, ring.len() as int)) by {
            assert(forall|m: int|
                0 <= m < rem.len() ==> #[trigger] rem[m] == if m < k {
                    idxs[m]
                } else {
                    idxs[m + 1]
                });
        }
        assert(sp_tris_valid(acc.push(t), ring.len() as int)) by {
            assert(forall|i: int|
                0 <= i < acc.len() ==> acc.push(t)[i] == #[trigger] acc[i]);
            assert(acc.push(t)[acc.len() as int] == t);
        }
        lemma_clip_props(ring, rem, s, acc.push(t), res);
    }
}

/// A triangulated ring of `n` points yields `n - 2` triangles, every
/// corner a valid ring index.
pub proof fn lemma_triangulate_props(ring: Seq<Pt>, res: Seq<Tri>)
    requires
        sp_triangulate(ring) == Some(res),
    ensures
        res.len() == ring.len() - 2,
        sp_tris_valid(res, ring.len() as int),
{
    let idxs = Seq::new(ring.len(), |i: int| i);
    assert(sp_idxs_valid(idxs, ring.len() as int));
    lemma_clip_props(ring, idxs, sp_orientation(ring), Seq::<Tri>::empty(), res);
}

/// The vertices of a prism over a footprint: the ring at height zero, then
/// the same ring at height `h`.
pub open spec fn sp_prism_vertices(ring: Seq<Pt>, h: int) -> Seq<V3> {
    let n = ring.len() as int;
    Seq::new(
        2 * ring.len(),
        |i: int|
            if i < n {
                V3 { x: ring[i].x, y: ring[i].y, z: 0 }
            } else {
                V3 { x: ring[i - n].x, y: ring[i - n].y, z: h as i64 }
            },
    )
}

/// The triangles of a prism: the footprint triangulation reversed as the
/// bottom, shifted up as the top, then two triangles per side edge.
pub open spec fn sp_prism_triangles(n: int, tris: Seq<Tri>) -> Seq<Tri> {
    let t = tris.len() as int;
    Seq::new(
        (2 * t + 2 * n) as nat,
        |i: int|
            if i < t {
                Tri { a: tris[i].a, b: tris[i].c, c: tris[i].b }
            } else if i < 2 * t {
                Tri {
                    a: (tris[i - t].a + n) as usize,
                    b: (tris[i - t].b + n) as usize,
                    c: (tris[i - t].c + n) as usize,
                }
            } else if i < 2 * t + n {
                let e = i - 2 * t;
                Tri { a: e as usize, b: ((e + 1) % n) as usize, c: (n + (e + 1) % n) as usize }
            } else {
                let e = i - 2 * t - n;
                Tri { a: e as usize, b: (n + (e + 1) % n) as usize, c: (n + e) as usize }
            },
    )
}

/// The prism a footprint and height denote: nothing when the footprint has
/// no triangulation, otherwise its doubled ring of vertices and its
/// bottom, top and side faces.
pub open spec fn sp_extrude(ring: Seq<Pt>, h: int) -> Option<MeshModel> {
    match sp_triangulate(ring) {
        None => None,
        Some(t) => Some(
            MeshModel {
                vertices: sp_prism_vertices(ring, h),
                triangles: sp_prism_triangles(ring.len() as int, t),
            },
        ),
    }
}

/// Extrudes a footprint ring into a vertical prism, exactly as
/// `sp_extrude` denotes. A ring with fewer than three points, or a
/// degenerate one, yields no mesh.
pub fn extrude_polygon(ring: &Vec<Pt>, h: i64) -> (r: Option<MeshData>)
    requires
        sp_ring_in_mesh_range(ring@),
        ring@.len() <= MESH_RING_LIMIT,
        -MESH_LIMIT <= h <= MESH_LIMIT,
    ensures
        match r {
            Some(m) => sp_extrude(ring@, h as int) == Some(m@),
            None => sp_extrude(ring@, h as int) == None::<MeshModel>,
        },
{
    let tris = match triangulate(ring) {
        None => {
            return None;
        },
        Some(t) => t,
    };
    proof {
        lemma_triangulate_props(ring@, tris@);
    }
    let n = ring.len();
    let t = tris.len();
    let mut vertices: Vec<V3> = Vec::new();
    let ghost vspec = sp_prism_vertices(ring@, h as int);
    let mut i: usize = 0;
    while i < n
        invariant
            i <= n == ring@.len(),
            vspec == sp_prism_vertices(ring@, h as int),
            vertices@ =~= vspec.subrange(0, i as int),
        decreases n - i,
    {
        let p = ring[i];
        vertices.push(V3 { x: p.x, y: p.y, z: 0 });
        i = i + 1;
        proof {
            assert(vertices@ =~= vspec.subrange(0, i as int));
        }
    }
    let mut i: usize = 0;
    while i < n
        invariant
            i <= n == ring@.len(),
            vspec == sp_prism_vertices(ring@, h as int),
            vertices@ =~= vspec.subrange(0, n + i as int),
        decreases n - i,
    {
        let p = ring[i];
        vertices.push(V3 { x: p.x, y: p.y, z: h });
        i = i + 1;
        proof {
            assert(vertices@ =~= vspec.subrange(0, n + i as int));
        }
    }
    proof {
        assert(vertices@ =~= vspec);
    }
    let mut triangles: Vec<Tri> = Vec::new();
    let ghost tspec = sp_prism_triangles(ring@.len() as int, tris@);
    let mut i: usize = 0;
    while i < t
        invariant
            i <= t == tris@.len(),
            n == ring@.len() <= MESH_RING_LIMIT,
            sp_tris_valid(tris@, n as int),
            tspec == sp_prism_triangles(n as int, tris@),
            triangles@ =~= tspec.subrange(0, i as int),
        decreases t - i,
    {
        let tr = tris[i];
        triangles.push(Tri { a: tr.a, b: tr.c, c: tr.b });
        i = i + 1;
        proof {
            assert(triangles@ =~= tspec.subrange(0, i as int));
        }
    }
    let mut i: usize = 0;
    while i < t
        invariant
            i <= t == tris@.len(),
            n == ring@.len() <= MESH_RING_LIMIT,
            sp_tris_valid(tris@, n as int),
            tspec == sp_prism_triangles(n as int, tris@),
            triangles@ =~= tspec.subrange(0, t + i as int),
        decreases t - i,
    {
        let tr = tris[i];
        triangles.push(Tri { a: tr.a + n, b: tr.b + n, c: tr.c + n });
        i = i + 1;
        proof {
            assert(triangles@ =~= tspec.subrange(0, t + i as int));
        }
    }
    let mut e: usize = 0;
    while e < n
        invariant
            e <= n == ring@.len(),
            n <= MESH_RING_LIMIT,
            t == tris@.len(),
            3 <= n,
            tspec == sp_prism_triangles(n as int, tris@),
            triangles@ =~= tspec.subrange(0, 2 * t + e as int),
        decreases n - e,
    {
        let e2 = (e + 1) % n;
        triangles.push(Tri { a: e, b: e2, c: n + e2 });
        e = e + 1;
        proof {
            assert(triangles@ =~= tspec.subrange(0, 2 * t + e as int));
        }
    }
    let mut e: usize = 0;
    while e < n
        invariant
            e <= n == ring@.len(),
            n <= MESH_RING_LIMIT,
            t == tris@.len(),
            3 <= n,
            tspec == sp_prism_triangles(n as int, tris@),
            triangles@ =~= tspec.subrange(0, 2 * t + n + e as int),
        decreases n - e,
    {
        let e2 = (e + 1) % n;
        triangles.push(Tri { a: e, b: n + e2, c: n + e });
        e = e + 1;
        proof {
            assert(triangles@ =~= tspec.subrange(0, 2 * t + n + e as int));
        }
    }
    proof {
        assert(triangles@ =~= tspec);
    }
    Some(MeshData { vertices, triangles })
}

/// Largest polyline coordinate and width the corridor buffer accepts.
pub const BUFFER_WIDTH_LIMIT: i64 = 0x1000_0000_0000_0000;

/// A perpendicular offset component: `d * halfw / l` with the rounding of
/// the division toward zero.
pub open spec fn sp_off(d: int, halfw: int, l: int) -> int {
    if d >= 0 {
        d * halfw / l
    } else {
        -((-d) * halfw / l)
    }
}

/// The buffered rectangle of one segment: the segment's two endpoints
/// offset perpendicular by half the corridor width to each side, ends
/// square, counterclockwise for a left-to-right segment. A segment of zero
/// length has no direction and yields no rectangle.
pub open spec fn sp_seg_rect(p1: Pt, p2: Pt, halfw: int) -> Option<Seq<Pt>> {
    let dx = p2.x - p1.x;
    let dy = p2.y - p1.y;
    let l = sp_isqrt(dx * dx + dy * dy);
    if l == 0 {
        None
    } else {
        let ox = sp_off(dy, halfw, l);
        let oy = sp_off(-dx, halfw, l);
        Some(
            seq![
                Pt { x: (p1.x + ox) as i64, y: (p1.y + oy) as i64 },
                Pt { x: (p2.x + ox) as i64, y: (p2.y + oy) as i64 },
                Pt { x: (p2.x - ox) as i64, y: (p2.y - oy) as i64 },
                Pt { x: (p1.x - ox) as i64, y: (p1.y - oy) as i64 },
            ],
        )
    }
}

/// An offset magnitude never exceeds the half width.
proof fn lemma_off_bound(d: int, halfw: int, l: int)
    requires
        0 <= halfw,
        0 < l,
        -l <= d <= l,
    ensures
        -halfw <= sp_off(d, halfw, l) <= halfw,
{
    let m = if d >= 0 {
        d
    } else {
        -d
    };
    assert(m * halfw <= l * halfw) by (nonlinear_arith)
        requires
            0 <= m <= l,
            0 <= halfw,
    ;
    vstd::arithmetic::div_mod::lemma_div_is_ordered(m * halfw, l * halfw, l);
    vstd::arithmetic::div_mod::lemma_div_by_multiple(halfw, l);
    assert(m * halfw / l >= 0) by (nonlinear_arith)
        requires
            0 <= m,
            0 <= halfw,
            0 < l,
    ;
}

/// Buffers one segment. Returns the rectangle exactly as `sp_seg_rect`
/// denotes it; its points stay within the mesh builder's bound.
pub fn seg_rect(p1: Pt, p2: Pt, halfw: i64) -> (r: Option<Vec<Pt>>)
    requires
        -BUFFER_PT_LIMIT <= p1.x <= BUFFER_PT_LIMIT,
        -BUFFER_PT_LIMIT <= p1.y <= BUFFER_PT_LIMIT,
        -BUFFER_PT_LIMIT <= p2.x <= BUFFER_PT_LIMIT,
        -BUFFER_PT_LIMIT <= p2.y <= BUFFER_PT_LIMIT,
        0 <= halfw <= BUFFER_HALFW_LIMIT,
    ensures
        match r {
            Some(rect) => sp_seg_rect(p1, p2, halfw as int) == Some(rect@) && rect@.len() == 4
                && sp_ring_in_mesh_range(rect@),
            None => sp_seg_rect(p1, p2, halfw as int) == None::<Seq<Pt>>,
        },
{
    let dx = p2.x - p1.x;
    let dy = p2.y - p1.y;
    proof {
        let lim = 2 * BUFFER_PT_LIMIT as int;
        assert(dx as int * dx as int <= lim * lim && dx as int * dx as int >= 0)
            by (nonlinear_arith)
            requires
                -lim <= dx as int <= lim,
                lim > 0,
        ;
        assert(dy as int * dy as int <= lim * lim && dy as int * dy as int >= 0)
            by (nonlinear_arith)
            requires
                -lim <= dy as int <= lim,
                lim > 0,
        ;
    }
    let nsq: u128 = (dx as i128 * dx as i128 + dy as i128 * dy as i128) as u128;
    let l = isqrt(nsq);
    if l == 0 {
        return None;
    }
    proof {
        assert(dy as int * dy as int <= nsq as int) by (nonlinear_arith)
            requires
                nsq as int == dx as int * dx as int + dy as int * dy as int,
                dx as int * dx as int >= 0,
        ;
        assert(dx as int * dx as int <= nsq as int) by (nonlinear_arith)
            requires
                nsq as int == dx as int * dx as int + dy as int * dy as int,
                dy as int * dy as int >= 0,
        ;
        lemma_abs_le_isqrt(dy as int, nsq as int, l as int);
        lemma_abs_le_isqrt(dx as int, nsq as int, l as int);
        lemma_off_bound(dy as int, halfw as int, l as int);
        lemma_off_bound(-(dx as int), halfw as int, l as int);
    }
    let dy_abs: u64 = if dy >= 0 {
        dy as u64
    } else {
        (-dy) as u64
    };
    let dx_abs: u64 = if dx >= 0 {
        dx as u64
    } else {
        (-dx) as u64
    };
    proof {
        assert(dy_abs as int * halfw as int <= 0x4000_0000_0000_0000_0000_0000_0000_0000int
            && dy_abs as int * halfw as int >= 0) by (nonlinear_arith)
            requires
                0 <= dy_abs as int <= 0x8000_0000_0000_0000int,
                0 <= halfw as int <= 0x800_0000_0000_0000int,
        ;
        assert(dx_abs as int * halfw as int <= 0x4000_0000_0000_0000_0000_0000_0000_0000int
            && dx_abs as int * halfw as int >= 0) by (nonlinear_arith)
            requires
                0 <= dx_abs as int <= 0x8000_0000_0000_0000int,
                0 <= halfw as int <= 0x800_0000_0000_0000int,
        ;
    }
    let ox_mag: u64 = ((dy_abs as u128 * halfw as u128) / l as u128) as u64;
    let oy_mag: u64 = ((dx_abs as u128 * halfw as u128) / l as u128) as u64;
    let ox: i64 = if dy >= 0 {
        ox_mag as i64
    } else {
        -(ox_mag as i64)
    };
    let oy: i64 = if dx <= 0 {
        oy_mag as i64
    } else {
        -(oy_mag as i64)
    };
    proof {
        assert(ox as int == sp_off(dy as int, halfw as int, l as int));
        assert(oy as int == sp_off(-(dx as int), halfw as int, l as int));
    }
    let mut rect: Vec<Pt> = Vec::new();
    rect.push(Pt { x: p1.x + ox, y: p1.y + oy });
    rect.push(Pt { x: p2.x + ox, y: p2.y + oy });
    rect.push(Pt { x: p2.x - ox, y: p2.y - oy });
    rect.push(Pt { x: p1.x - ox, y: p1.y - oy });
    proof {
        assert(rect@ =~= sp_seg_rect(p1, p2, halfw as int)->0);
        assert(sp_ring_in_mesh_range(rect@)) by {
            assert(forall|k: int| 0 <= k < 4 ==> rect@[k] == rect@[k]);
        }
    }
    Some(rect)
}

/// A coordinate whose square is at most `n` is bounded by the root of `n`.
proof fn lemma_abs_le_isqrt(d: int, n: int, l: int)
    requires
        d * d <= n,
        sp_is_isqrt(n, l),
    ensures
        -l <= d <= l,
{
    if d > l {
        assert(d * d >= (l + 1) * (l + 1)) by (nonlinear_arith)
            requires
                d >= l + 1,
                l >= 0,
        ;
    }
    if d < -l {
        assert(d * d >= (l + 1) * (l + 1)) by (nonlinear_arith)
            requires
                d <= -(l + 1),
                l >= 0,
        ;
    }
}

/// The rectangles of a buffered polyline: one per segment of nonzero
/// length, from segment `i` on.
pub open spec fn sp_buffer_polyline(pts: Seq<Pt>, halfw: int, i: int, acc: Seq<Seq<Pt>>) -> Seq<
    Seq<Pt>,
>
    decreases pts.len() - i,
{
    if i < 0 || i + 1 >= pts.len() {
        acc
    } else {
        match sp_seg_rect(pts[i], pts[i + 1], halfw) {
            None => sp_buffer_polyline(pts, halfw, i + 1, acc),
            Some(r) => sp_buffer_polyline(pts, halfw, i + 1, acc.push(r)),
        }
    }
}

/// Buffers a polyline into one rectangle per segment of nonzero length. A
/// polyline with fewer than two points yields none.
pub fn buffer_polyline(points: &Vec<Pt>, halfw: i64) -> (r: Vec<Vec<Pt>>)
    requires
        forall|k: int|
            0 <= k < points@.len() ==> -BUFFER_PT_LIMIT <= (#[trigger] points@[k]).x
                <= BUFFER_PT_LIMIT && -BUFFER_PT_LIMIT <= points@[k].y <= BUFFER_PT_LIMIT,
        0 <= halfw <= BUFFER_HALFW_LIMIT,
    ensures
        Seq::new(r@.len(), |i: int| r@[i]@) == sp_buffer_polyline(
            points@,
            halfw as int,
            0,
            Seq::<Seq<Pt>>::empty(),
        ),
        forall|i: int|
            0 <= i < r@.len() ==> (#[trigger] r@[i])@.len() == 4 && sp_ring_in_mesh_range(r@[i]@),
{
    let mut out: Vec<Vec<Pt>> = Vec::new();
    if points.len() < 2 {
        proof {
            assert(Seq::new(out@.len(), |i: int| out@[i]@) =~= Seq::<Seq<Pt>>::empty());
        }
        return out;
    }
    let mut i: usize = 0;
    let n = points.len();
    proof {
        assert(Seq::new(out@.len(), |j: int| out@[j]@) =~= Seq::<Seq<Pt>>::empty());
    }
    while i + 1 < n
        invariant
            i + 1 <= n == points@.len(),
            forall|k: int|
                0 <= k < points@.len() ==> -BUFFER_PT_LIMIT <= (#[trigger] points@[k]).x
                    <= BUFFER_PT_LIMIT && -BUFFER_PT_LIMIT <= points@[k].y <= BUFFER_PT_LIMIT,
            0 <= halfw <= BUFFER_HALFW_LIMIT,
            sp_buffer_polyline(points@, halfw as int, 0, Seq::<Seq<Pt>>::empty())
                == sp_buffer_polyline(
                points@,
                halfw as int,
                i as int,
                Seq::new(out@.len(), |j: int| out@[j]@),
            ),
            forall|j: int|
                0 <= j < out@.len() ==> (#[trigger] out@[j])@.len() == 4 && sp_ring_in_mesh_range(
                    out@[j]@,
                ),
        decreases n - i,
    {
        let ghost pre = Seq::new(out@.len(), |j: int| out@[j]@);
        match seg_rect(points[i], points[i + 1], halfw) {
            None => {},
            Some(rect) => {
                let ghost rv = rect@;
                out.push(rect);
                proof {
                    assert(Seq::new(out@.len(), |j: int| out@[j]@) =~= pre.push(rv));
                }
            },
        }
        i = i + 1;
    }
    out
}

/// The prisms of a rectangle list, from rectangle `i` on: each rectangle
/// extruded by `h`, degenerate ones skipped.
pub open spec fn sp_extrude_rects(rects: Seq<Seq<Pt>>, h: int, i: int, acc: Seq<MeshModel>) -> Seq<
    MeshModel,
>
    decreases rects.len() - i,
{
    if i < 0 || i >= rects.len() {
        acc
    } else {
        match sp_extrude(rects[i], h) {
            None => sp_extrude_rects(rects, h, i + 1, acc),
            Some(m) => sp_extrude_rects(rects, h, i + 1, acc.push(m)),
        }
    }
}

/// The corridor prisms of a road: the polyline buffered by half its width,
/// each resulting rectangle extruded by the corridor height independently.
pub open spec fn sp_extrude_corridor(pts: Seq<Pt>, width: int, h: int) -> Seq<MeshModel> {
    sp_extrude_rects(
        sp_buffer_polyline(pts, width / 2, 0, Seq::<Seq<Pt>>::empty()),
        h,
        0,
        Seq::<MeshModel>::empty(),
    )
}

/// Buffers a road polyline by half its width and extrudes every resulting
/// rectangle by `h`, exactly as `sp_extrude_corridor` denotes. A polyline
/// with fewer than two points yields no mesh.
pub fn extrude_corridor(points: &Vec<Pt>, width: i64, h: i64) -> (r: Vec<MeshData>)
    requires
        forall|k: int|
            0 <= k < points@.len() ==> -BUFFER_PT_LIMIT <= (#[trigger] points@[k]).x
                <= BUFFER_PT_LIMIT && -BUFFER_PT_LIMIT <= points@[k].y <= BUFFER_PT_LIMIT,
        0 <= width <= BUFFER_WIDTH_LIMIT,
        -MESH_LIMIT <= h <= MESH_LIMIT,
    ensures
        Seq::new(r@.len(), |i: int| r@[i]@) == sp_extrude_corridor(
            points@,
            width as int,
            h as int,
        ),
{
    let halfw = width / 2;
    let rects = buffer_polyline(points, halfw);
    let ghost rspec = Seq::new(rects@.len(), |i: int| rects@[i]@);
    let mut out: Vec<MeshData> = Vec::new();
    let mut i: usize = 0;
    proof {
        assert(Seq::new(out@.len(), |j: int| out@[j]@) =~= Seq::<MeshModel>::empty());
    }
    while i < rects.len()
        invariant
            i <= rects@.len(),
            rspec == Seq::new(rects@.len(), |j: int| rects@[j]@),
            -MESH_LIMIT <= h <= MESH_LIMIT,
            forall|j: int|
                0 <= j < rects@.len() ==> (#[trigger] rects@[j])@.len() == 4
                    && sp_ring_in_mesh_range(rects@[j]@),
            sp_extrude_rects(rspec, h as int, 0, Seq::<MeshModel>::empty()) == sp_extrude_rects(
                rspec,
                h as int,
                i as int,
                Seq::new(out@.len(), |j: int| out@[j]@),
            ),
        decreases rects@.len() - i,
    {
        let ghost pre = Seq::new(out@.len(), |j: int| out@[j]@);
        proof {
            assert(rspec[i as int] == rects@[i as int]@);
        }
        match extrude_polygon(&rects[i], h) {
            None => {},
            Some(m) => {
                let ghost mv = m@;
                out.push(m);
                proof {
                    assert(Seq::new(out@.len(), |j: int| out@[j]@) =~= pre.push(mv));
                }
            },
        }
        i = i + 1;
    }
    out
}

/// Copies a mesh.
pub fn copy_mesh(m: &MeshData) -> (r: MeshData)
    ensures
        r@ == m@,
{
    let mut vertices: Vec<V3> = Vec::new();
    let mut i: usize = 0;
    while i < m.vertices.len()
        invariant
            i <= m.vertices@.len(),
            vertices@ =~= m.vertices@.subrange(0, i as int),
        decreases m.vertices@.len() - i,
    {
        vertices.push(m.vertices[i]);
        i = i + 1;
    }
    let mut triangles: Vec<Tri> = Vec::new();
    let mut j: usize = 0;
    while j < m.triangles.len()
        invariant
            j <= m.triangles@.len(),
            triangles@ =~= m.triangles@.subrange(0, j as int),
        decreases m.triangles@.len() - j,
    {
        triangles.push(m.triangles[j]);
        j = j + 1;
    }
    let r = MeshData { vertices, triangles };
    proof {
        assert(r@.vertices =~= m@.vertices);
        assert(r@.triangles =~= m@.triangles);
    }
    r
}

/// The cross product is invariant under cyclic rotation of its arguments.
pub proof fn lemma_cross_cyclic(o: Pt, a: Pt, b: Pt)
    ensures
        sp_cross(o, a, b) == sp_cross(a, b, o),
{
    assert((a.x - o.x) * (b.y - o.y) - (a.y - o.y) * (b.x - o.x) == (b.x - a.x) * (o.y - a.y) - (
    b.y - a.y) * (o.x - a.x)) by (nonlinear_arith);
}

/// A ring of exactly three collinear points yields no mesh: its corner is
/// degenerate whichever vertex is lowest, so there is no orientation and
/// no triangulation. This is the documented policy for degenerate rings.
pub proof fn lemma_collinear_triangle_no_mesh(ring: Seq<Pt>, h: int)
    requires
        ring.len() == 3,
        sp_cross(ring[0], ring[1], ring[2]) == 0,
    ensures
        sp_triangulate(ring) == None::<Seq<Tri>>,
        sp_extrude(ring, h) == None::<MeshModel>,
{
    let k = sp_lowest_idx(ring, 1, 0);
    lemma_lowest_in_range(ring, 1, 0);
    lemma_cross_cyclic(ring[0], ring[1], ring[2]);
    lemma_cross_cyclic(ring[1], ring[2], ring[0]);
    assert(sp_cross(ring[1], ring[2], ring[0]) == 0);
    assert(sp_cross(ring[2], ring[0], ring[1]) == 0);
    if k == 0 {
        assert(sp_orientation(ring) == 0);
    } else if k == 1 {
        assert(sp_orientation(ring) == 0);
    } else {
        assert(sp_orientation(ring) == 0);
    }
}

} // verus!
