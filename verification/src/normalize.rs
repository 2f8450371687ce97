//! Scene normalizer: computes the axis-aligned bounding box over every
//! point of every reconstructed shape — buildings, roads and land-use
//! polygons alike — and recenters all of them so the box's center becomes
//! the scene origin.
//!
//! To keep the center subtraction exact in integers, recentering maps each
//! coordinate `p` to `2 * p - (min + max)`: the recentered scene is in
//! half-ticks, and the box center `(min + max) / 2` never rounds. With no
//! points at all the center is undefined; the pass then uses a zero offset
//! and only doubles the coordinates, so the unit change is uniform either
//! way.

use vstd::prelude::*;
use crate::tile::Pt;
use crate::shapes::{Building, BuildingModel, Road, RoadModel};
use vstd::pervasive::VecAdditionalExecFns;

verus! {

/// Largest coordinate magnitude the normalizer accepts: doubling and
/// subtracting a center of twice that magnitude stays within the machine
/// word.
pub const RECENTER_LIMIT: i64 = 0x800_0000_0000_0000;

/// The models of a building sequence.
pub open spec fn buildings_view(v: Seq<Building>) -> Seq<BuildingModel> {
    Seq::new(v.len(), |i: int| v[i]@)
}

/// The models of a road sequence.
pub open spec fn roads_view(v: Seq<Road>) -> Seq<RoadModel> {
    Seq::new(v.len(), |i: int| v[i]@)
}

/// Whether a point lies within the normalizer's coordinate bound.
pub open spec fn sp_pt_bounded(p: Pt) -> bool {
    &&& -RECENTER_LIMIT <= p.x <= RECENTER_LIMIT
    &&& -RECENTER_LIMIT <= p.y <= RECENTER_LIMIT
}

/// Whether every point of a ring or line is bounded.
pub open spec fn sp_ring_bounded(r: Seq<Pt>) -> bool {
    forall|k: int| 0 <= k < r.len() ==> sp_pt_bounded(#[trigger] r[k])
}

/// Whether every point of a building is bounded.
pub open spec fn sp_building_bounded(b: BuildingModel) -> bool {
    forall|j: int| 0 <= j < b.geometry.len() ==> sp_ring_bounded(#[trigger] b.geometry[j])
}

/// Whether every point of every building is bounded.
pub open spec fn sp_buildings_bounded(bs: Seq<BuildingModel>) -> bool {
    forall|i: int| 0 <= i < bs.len() ==> sp_building_bounded(#[trigger] bs[i])
}

/// Whether every point of every road is bounded.
pub open spec fn sp_roads_bounded(rs: Seq<RoadModel>) -> bool {
    forall|i: int| 0 <= i < rs.len() ==> sp_ring_bounded(#[trigger] rs[i].points)
}

/// Extends a bounding box with one point; a first point starts the box.
pub open spec fn sp_fold_pt(acc: Option<(Pt, Pt)>, p: Pt) -> Option<(Pt, Pt)> {
    match acc {
        None => Some((p, p)),
        Some((lo, hi)) => Some(
            (
                Pt {
                    x: if p.x < lo.x { p.x } else { lo.x },
                    y: if p.y < lo.y { p.y } else { lo.y },
                },
                Pt {
                    x: if p.x > hi.x { p.x } else { hi.x },
                    y: if p.y > hi.y { p.y } else { hi.y },
                },
            ),
        ),
    }
}

/// Extends a bounding box with every point of a ring from index `k` on.
pub open spec fn sp_fold_ring(acc: Option<(Pt, Pt)>, r: Seq<Pt>, k: int) -> Option<(Pt, Pt)>
    decreases r.len() - k,
{
    if k < 0 || k >= r.len() {
        acc
    } else {
        sp_fold_ring(sp_fold_pt(acc, r[k]), r, k + 1)
    }
}

/// Extends a bounding box with every point of a building's rings from
/// index `j` on.
pub open spec fn sp_fold_rings(acc: Option<(Pt, Pt)>, rings: Seq<Seq<Pt>>, j: int) -> Option<
    (Pt, Pt),
>
    decreases rings.len() - j,
{
    if j < 0 || j >= rings.len() {
        acc
    } else {
        sp_fold_rings(sp_fold_ring(acc, rings[j], 0), rings, j + 1)
    }
}

/// Extends a bounding box with every point of every building from index
/// `i` on.
pub open spec fn sp_fold_buildings(acc: Option<(Pt, Pt)>, bs: Seq<BuildingModel>, i: int) -> Option<
    (Pt, Pt),
>
    decreases bs.len() - i,
{
    if i < 0 || i >= bs.len() {
        acc
    } else {
        sp_fold_buildings(sp_fold_rings(acc, bs[i].geometry, 0), bs, i + 1)
    }
}

/// Extends a bounding box with every point of every road from index `i`
/// on.
pub open spec fn sp_fold_roads(acc: Option<(Pt, Pt)>, rs: Seq<RoadModel>, i: int) -> Option<
    (Pt, Pt),
>
    decreases rs.len() - i,
{
    if i < 0 || i >= rs.len() {
        acc
    } else {
        sp_fold_roads(sp_fold_pt_seq(acc, rs[i].points, 0), rs, i + 1)
    }
}

/// Extends a bounding box with every point of a polyline from index `k`
/// on. Identical to `sp_fold_ring`; named for the road pass.
pub open spec fn sp_fold_pt_seq(acc: Option<(Pt, Pt)>, r: Seq<Pt>, k: int) -> Option<(Pt, Pt)> {
    sp_fold_ring(acc, r, k)
}

/// The bounding box of the whole scene: every point of every building,
/// road and land-use polygon, in that order. Nothing when the scene has no
/// points.
pub open spec fn sp_bounds_scene(
    bs: Seq<BuildingModel>,
    rs: Seq<RoadModel>,
    ls: Seq<BuildingModel>,
) -> Option<(Pt, Pt)> {
    sp_fold_buildings(sp_fold_roads(sp_fold_buildings(None, bs, 0), rs, 0), ls, 0)
}

/// Running bounding box for the executable pass.
#[derive(Clone, Copy, PartialEq, Eq, Structural, Debug)]
pub struct Bounds {
    pub any: bool,
    pub min_x: i64,
    pub min_y: i64,
    pub max_x: i64,
    pub max_y: i64,
}

impl Bounds {
    /// The box this running state denotes.
    pub open spec fn view_box(self) -> Option<(Pt, Pt)> {
        if self.any {
            Some((Pt { x: self.min_x, y: self.min_y }, Pt { x: self.max_x, y: self.max_y }))
        } else {
            None
        }
    }

    /// An empty running box.
    pub fn new() -> (b: Bounds)
        ensures
            b.view_box() == None::<(Pt, Pt)>,
    {
        Bounds { any: false, min_x: 0, min_y: 0, max_x: 0, max_y: 0 }
    }

    /// Extends the running box with one point.
    pub fn add_pt(&mut self, p: Pt)
        ensures
            final(self).view_box() == sp_fold_pt(old(self).view_box(), p),
    {
        if !self.any {
            self.any = true;
            self.min_x = p.x;
            self.min_y = p.y;
            self.max_x = p.x;
            self.max_y = p.y;
        } else {
            if p.x < self.min_x {
                self.min_x = p.x;
            }
            if p.y < self.min_y {
                self.min_y = p.y;
            }
            if p.x > self.max_x {
                self.max_x = p.x;
            }
            if p.y > self.max_y {
                self.max_y = p.y;
            }
        }
    }

    /// Extends the running box with every point of a ring or line.
    pub fn add_ring(&mut self, r: &Vec<Pt>)
        ensures
            final(self).view_box() == sp_fold_ring(old(self).view_box(), r@, 0),
    {
        let mut k: usize = 0;
        while k < r.len()
            invariant
                k <= r@.len(),
                sp_fold_ring(old(self).view_box(), r@, 0) == sp_fold_ring(
                    self.view_box(),
                    r@,
                    k as int,
                ),
            decreases r@.len() - k,
        {
            self.add_pt(r[k]);
            k = k + 1;
        }
    }

    /// Extends the running box with every point of a building.
    pub fn add_building(&mut self, b: &Building)
        ensures
            final(self).view_box() == sp_fold_rings(old(self).view_box(), b@.geometry, 0),
    {
        let mut j: usize = 0;
        while j < b.geometry.len()
            invariant
                j <= b.geometry@.len(),
                sp_fold_rings(old(self).view_box(), b@.geometry, 0) == sp_fold_rings(
                    self.view_box(),
                    b@.geometry,
                    j as int,
                ),
            decreases b.geometry@.len() - j,
        {
            proof {
                assert(b@.geometry[j as int] == b.geometry@[j as int]@);
            }
            self.add_ring(&b.geometry[j]);
            j = j + 1;
        }
    }

    /// Extends the running box with every point of every building.
    pub fn add_buildings(&mut self, bs: &Vec<Building>)
        ensures
            final(self).view_box() == sp_fold_buildings(old(self).view_box(), buildings_view(bs@), 0),
    {
        let mut i: usize = 0;
        while i < bs.len()
            invariant
                i <= bs@.len(),
                sp_fold_buildings(old(self).view_box(), buildings_view(bs@), 0)
                    == sp_fold_buildings(self.view_box(), buildings_view(bs@), i as int),
            decreases bs@.len() - i,
        {
            proof {
                assert(buildings_view(bs@)[i as int] == bs@[i as int]@);
            }
            self.add_building(&bs[i]);
            i = i + 1;
        }
    }

    /// Extends the running box with every point of every road.
    pub fn add_roads(&mut self, rs: &Vec<Road>)
        ensures
            final(self).view_box() == sp_fold_roads(old(self).view_box(), roads_view(rs@), 0),
    {
        let mut i: usize = 0;
        while i < rs.len()
            invariant
                i <= rs@.len(),
                sp_fold_roads(old(self).view_box(), roads_view(rs@), 0) == sp_fold_roads(
                    self.view_box(),
                    roads_view(rs@),
                    i as int,
                ),
            decreases rs@.len() - i,
        {
            proof {
                assert(roads_view(rs@)[i as int] == rs@[i as int]@);
            }
            self.add_ring(&rs[i].points);
            i = i + 1;
        }
    }
}

/// The bounding box over every point of the three collections, exactly as
/// `sp_bounds_scene` denotes it.
pub fn scene_bounds(bs: &Vec<Building>, rs: &Vec<Road>, ls: &Vec<Building>) -> (b: Bounds)
    ensures
        b.view_box() == sp_bounds_scene(buildings_view(bs@), roads_view(rs@), buildings_view(ls@)),
{
    let mut b = Bounds::new();
    b.add_buildings(bs);
    b.add_roads(rs);
    b.add_buildings(ls);
    b
}

/// Bound on the doubled center the recentering maps accept.
pub const CENTER_LIMIT: i64 = 0x1000_0000_0000_0000;

/// Whether a bounding box lies within the normalizer's coordinate bound.
pub open spec fn sp_acc_bounded(acc: Option<(Pt, Pt)>) -> bool {
    match acc {
        None => true,
        Some((lo, hi)) => sp_pt_bounded(lo) && sp_pt_bounded(hi),
    }
}

/// A box extended with bounded points stays bounded.
pub proof fn lemma_fold_ring_bounded(acc: Option<(Pt, Pt)>, r: Seq<Pt>, k: int)
    requires
        sp_acc_bounded(acc),
        sp_ring_bounded(r),
    ensures
        sp_acc_bounded(sp_fold_ring(acc, r, k)),
    decreases r.len() - k,
{
    if 0 <= k < r.len() {
        lemma_fold_ring_bounded(sp_fold_pt(acc, r[k]), r, k + 1);
    }
}

/// A box extended with a bounded building stays bounded.
pub proof fn lemma_fold_rings_bounded(acc: Option<(Pt, Pt)>, rings: Seq<Seq<Pt>>, j: int)
    requires
        sp_acc_bounded(acc),
        forall|j2: int| 0 <= j2 < rings.len() ==> sp_ring_bounded(#[trigger] rings[j2]),
    ensures
        sp_acc_bounded(sp_fold_rings(acc, rings, j)),
    decreases rings.len() - j,
{
    if 0 <= j < rings.len() {
        lemma_fold_ring_bounded(acc, rings[j], 0);
        lemma_fold_rings_bounded(sp_fold_ring(acc, rings[j], 0), rings, j + 1);
    }
}

/// A box extended with bounded buildings stays bounded.
pub proof fn lemma_fold_buildings_bounded(acc: Option<(Pt, Pt)>, bs: Seq<BuildingModel>, i: int)
    requires
        sp_acc_bounded(acc),
        sp_buildings_bounded(bs),
    ensures
        sp_acc_bounded(sp_fold_buildings(acc, bs, i)),
    decreases bs.len() - i,
{
    if 0 <= i < bs.len() {
        lemma_fold_rings_bounded(acc, bs[i].geometry, 0);
        lemma_fold_buildings_bounded(sp_fold_rings(acc, bs[i].geometry, 0), bs, i + 1);
    }
}

/// A box extended with bounded roads stays bounded.
pub proof fn lemma_fold_roads_bounded(acc: Option<(Pt, Pt)>, rs: Seq<RoadModel>, i: int)
    requires
        sp_acc_bounded(acc),
        sp_roads_bounded(rs),
    ensures
        sp_acc_bounded(sp_fold_roads(acc, rs, i)),
    decreases rs.len() - i,
{
    if 0 <= i < rs.len() {
        lemma_fold_ring_bounded(acc, rs[i].points, 0);
        lemma_fold_roads_bounded(sp_fold_pt_seq(acc, rs[i].points, 0), rs, i + 1);
    }
}

/// The scene's bounding box is within the coordinate bound whenever all
/// shapes are.
pub proof fn lemma_scene_bounds_bounded(
    bs: Seq<BuildingModel>,
    rs: Seq<RoadModel>,
    ls: Seq<BuildingModel>,
)
    requires
        sp_buildings_bounded(bs),
        sp_roads_bounded(rs),
        sp_buildings_bounded(ls),
    ensures
        sp_acc_bounded(sp_bounds_scene(bs, rs, ls)),
{
    lemma_fold_buildings_bounded(None, bs, 0);
    lemma_fold_roads_bounded(sp_fold_buildings(None, bs, 0), rs, 0);
    lemma_fold_buildings_bounded(
        sp_fold_roads(sp_fold_buildings(None, bs, 0), rs, 0),
        ls,
        0,
    );
}

/// One point recentered: coordinates double, then the doubled box center
/// is subtracted, so the subtraction of the half-integer center is exact.
pub open spec fn sp_recenter_pt(p: Pt, sx: int, sy: int) -> Pt {
    Pt { x: (2 * p.x - sx) as i64, y: (2 * p.y - sy) as i64 }
}

/// A ring recentered pointwise.
pub open spec fn sp_recenter_ring(r: Seq<Pt>, sx: int, sy: int) -> Seq<Pt> {
    Seq::new(r.len(), |k: int| sp_recenter_pt(r[k], sx, sy))
}

/// A building recentered pointwise; height and class are untouched.
pub open spec fn sp_recenter_building(b: BuildingModel, sx: int, sy: int) -> BuildingModel {
    BuildingModel {
        geometry: Seq::new(b.geometry.len(), |j: int| sp_recenter_ring(b.geometry[j], sx, sy)),
        ..b
    }
}

/// Buildings recentered pointwise.
pub open spec fn sp_recenter_buildings(bs: Seq<BuildingModel>, sx: int, sy: int) -> Seq<
    BuildingModel,
> {
    Seq::new(bs.len(), |i: int| sp_recenter_building(bs[i], sx, sy))
}

/// A road recentered pointwise; width and class are untouched.
pub open spec fn sp_recenter_road(r: RoadModel, sx: int, sy: int) -> RoadModel {
    RoadModel { points: sp_recenter_ring(r.points, sx, sy), ..r }
}

/// Roads recentered pointwise.
pub open spec fn sp_recenter_roads(rs: Seq<RoadModel>, sx: int, sy: int) -> Seq<RoadModel> {
    Seq::new(rs.len(), |i: int| sp_recenter_road(rs[i], sx, sy))
}

/// Recenters one ring.
fn recenter_ring(r: &Vec<Pt>, sx: i64, sy: i64) -> (out: Vec<Pt>)
    requires
        sp_ring_bounded(r@),
        -CENTER_LIMIT <= sx <= CENTER_LIMIT,
        -CENTER_LIMIT <= sy <= CENTER_LIMIT,
    ensures
        out@ == sp_recenter_ring(r@, sx as int, sy as int),
{
    let mut out: Vec<Pt> = Vec::new();
    let mut k: usize = 0;
    while k < r.len()
        invariant
            k <= r@.len(),
            sp_ring_bounded(r@),
            -CENTER_LIMIT <= sx <= CENTER_LIMIT,
            -CENTER_LIMIT <= sy <= CENTER_LIMIT,
            out@ =~= sp_recenter_ring(r@, sx as int, sy as int).subrange(0, k as int),
        decreases r@.len() - k,
    {
        let p = r[k];
        out.push(Pt { x: 2 * p.x - sx, y: 2 * p.y - sy });
        k = k + 1;
        proof {
            assert(out@ =~= sp_recenter_ring(r@, sx as int, sy as int).subrange(0, k as int));
        }
    }
    proof {
        assert(out@ =~= sp_recenter_ring(r@, sx as int, sy as int));
    }
    out
}

/// Recenters one building in place.
fn recenter_building(b: &mut Building, sx: i64, sy: i64)
    requires
        sp_building_bounded(old(b)@),
        -CENTER_LIMIT <= sx <= CENTER_LIMIT,
        -CENTER_LIMIT <= sy <= CENTER_LIMIT,
    ensures
        final(b)@ == sp_recenter_building(old(b)@, sx as int, sy as int),
{
    let mut geometry: Vec<Vec<Pt>> = Vec::new();
    let mut j: usize = 0;
    while j < b.geometry.len()
        invariant
            j <= b.geometry@.len(),
            b == old(b),
            sp_building_bounded(b@),
            -CENTER_LIMIT <= sx <= CENTER_LIMIT,
            -CENTER_LIMIT <= sy <= CENTER_LIMIT,
            geometry@.len() == j,
            forall|j2: int| 0 <= j2 < j ==> geometry@[j2]@ == sp_recenter_ring(
                b@.geometry[j2],
                sx as int,
                sy as int,
            ),
        decreases b.geometry@.len() - j,
    {
        proof {
            assert(b@.geometry[j as int] == b.geometry@[j as int]@);
        }
        let ring = recenter_ring(&b.geometry[j], sx, sy);
        geometry.push(ring);
        j = j + 1;
    }
    b.geometry = geometry;
    proof {
        assert(b@ =~~= sp_recenter_building(old(b)@, sx as int, sy as int));
    }
}

/// Recenters every building in place.
fn recenter_buildings(bs: &mut Vec<Building>, sx: i64, sy: i64)
    requires
        sp_buildings_bounded(buildings_view(old(bs)@)),
        -CENTER_LIMIT <= sx <= CENTER_LIMIT,
        -CENTER_LIMIT <= sy <= CENTER_LIMIT,
    ensures
        buildings_view(final(bs)@) == sp_recenter_buildings(
            buildings_view(old(bs)@),
            sx as int,
            sy as int,
        ),
{
    let len = bs.len();
    let mut i: usize = 0;
    while i < len
        invariant
            i <= len == bs@.len(),
            old(bs)@.len() == len,
            -CENTER_LIMIT <= sx <= CENTER_LIMIT,
            -CENTER_LIMIT <= sy <= CENTER_LIMIT,
            sp_buildings_bounded(buildings_view(old(bs)@)),
            forall|i2: int| i <= i2 < len ==> bs@[i2] == old(bs)@[i2],
            forall|i2: int| 0 <= i2 < i ==> bs@[i2]@ == sp_recenter_building(
                old(bs)@[i2]@,
                sx as int,
                sy as int,
            ),
        decreases len - i,
    {
        proof {
            assert(buildings_view(old(bs)@)[i as int] == old(bs)@[i as int]@);
        }
        let mut b = Building { geometry: Vec::new(), height_milli: None, class: None };
        bs.set_and_swap(i, &mut b);
        recenter_building(&mut b, sx, sy);
        bs.set_and_swap(i, &mut b);
        i = i + 1;
    }
    proof {
        assert(buildings_view(bs@) =~~= sp_recenter_buildings(
            buildings_view(old(bs)@),
            sx as int,
            sy as int,
        ));
    }
}

/// Recenters every road in place.
fn recenter_roads(rs: &mut Vec<Road>, sx: i64, sy: i64)
    requires
        sp_roads_bounded(roads_view(old(rs)@)),
        -CENTER_LIMIT <= sx <= CENTER_LIMIT,
        -CENTER_LIMIT <= sy <= CENTER_LIMIT,
    ensures
        roads_view(final(rs)@) == sp_recenter_roads(roads_view(old(rs)@), sx as int, sy as int),
{
    let len = rs.len();
    let mut i: usize = 0;
    while i < len
        invariant
            i <= len == rs@.len(),
            old(rs)@.len() == len,
            -CENTER_LIMIT <= sx <= CENTER_LIMIT,
            -CENTER_LIMIT <= sy <= CENTER_LIMIT,
            sp_roads_bounded(roads_view(old(rs)@)),
            forall|i2: int| i <= i2 < len ==> rs@[i2] == old(rs)@[i2],
            forall|i2: int| 0 <= i2 < i ==> rs@[i2]@ == sp_recenter_road(
                old(rs)@[i2]@,
                sx as int,
                sy as int,
            ),
        decreases len - i,
    {
        proof {
            assert(roads_view(old(rs)@)[i as int] == old(rs)@[i as int]@);
        }
        let points = recenter_ring(&rs[i].points, sx, sy);
        let width_milli = rs[i].width_milli;
        let class = rs[i].class;
        let road = Road { points, width_milli, class };
        rs.set(i, road);
        proof {
            assert(rs@[i as int]@ =~~= sp_recenter_road(old(rs)@[i as int]@, sx as int, sy as int));
        }
        i = i + 1;
    }
    proof {
        assert(roads_view(rs@) =~~= sp_recenter_roads(roads_view(old(rs)@), sx as int, sy as int));
    }
}

/// The doubled center of the scene's bounding box, `(min + max)` per axis;
/// zero when the scene has no points.
pub open spec fn sp_scene_center2(
    bs: Seq<BuildingModel>,
    rs: Seq<RoadModel>,
    ls: Seq<BuildingModel>,
) -> (int, int) {
    match sp_bounds_scene(bs, rs, ls) {
        None => (0, 0),
        Some((lo, hi)) => (lo.x + hi.x, lo.y + hi.y),
    }
}

/// Computes the bounding box over every point of all three collections and
/// recenters every point in place, mapping `p` to `2 * p - (min + max)`.
/// Returns the subtracted offset, which is the box center expressed in the
/// recentered (doubled) unit — zero when the scene has no points, making
/// the pass a pure unit change.
pub fn compute_center_and_recenter(
    buildings: &mut Vec<Building>,
    roads: &mut Vec<Road>,
    landuse: &mut Vec<Building>,
) -> (c: (i64, i64))
    requires
        sp_buildings_bounded(buildings_view(old(buildings)@)),
        sp_roads_bounded(roads_view(old(roads)@)),
        sp_buildings_bounded(buildings_view(old(landuse)@)),
    ensures
        (c.0 as int, c.1 as int) == sp_scene_center2(
            buildings_view(old(buildings)@),
            roads_view(old(roads)@),
            buildings_view(old(landuse)@),
        ),
        buildings_view(final(buildings)@) == sp_recenter_buildings(
            buildings_view(old(buildings)@),
            c.0 as int,
            c.1 as int,
        ),
        roads_view(final(roads)@) == sp_recenter_roads(
            roads_view(old(roads)@),
            c.0 as int,
            c.1 as int,
        ),
        buildings_view(final(landuse)@) == sp_recenter_buildings(
            buildings_view(old(landuse)@),
            c.0 as int,
            c.1 as int,
        ),
{
    let b = scene_bounds(buildings, roads, landuse);
    proof {
        lemma_scene_bounds_bounded(
            buildings_view(buildings@),
            roads_view(roads@),
            buildings_view(landuse@),
        );
    }
    let (sx, sy): (i64, i64) = if b.any {
        (b.min_x + b.max_x, b.min_y + b.max_y)
    } else {
        (0, 0)
    };
    recenter_buildings(buildings, sx, sy);
    recenter_roads(roads, sx, sy);
    recenter_buildings(landuse, sx, sy);
    (sx, sy)
}

/// A bounding box recentered pointwise.
pub open spec fn sp_recenter_box(acc: Option<(Pt, Pt)>, sx: int, sy: int) -> Option<(Pt, Pt)> {
    match acc {
        None => None,
        Some((lo, hi)) => Some((sp_recenter_pt(lo, sx, sy), sp_recenter_pt(hi, sx, sy))),
    }
}

/// Whether a doubled center lies within the accepted bound.
pub open spec fn sp_center_bounded(sx: int, sy: int) -> bool {
    &&& -CENTER_LIMIT <= sx <= CENTER_LIMIT
    &&& -CENTER_LIMIT <= sy <= CENTER_LIMIT
}

/// Recentering is monotone per axis, so extending a recentered box with a
/// recentered point is the recentered extension.
pub proof fn lemma_fold_pt_recenter(acc: Option<(Pt, Pt)>, p: Pt, sx: int, sy: int)
    requires
        sp_acc_bounded(acc),
        sp_pt_bounded(p),
        sp_center_bounded(sx, sy),
    ensures
        sp_fold_pt(sp_recenter_box(acc, sx, sy), sp_recenter_pt(p, sx, sy)) == sp_recenter_box(
            sp_fold_pt(acc, p),
            sx,
            sy,
        ),
{
}

/// Folding a recentered ring over a recentered box is the recentered fold.
pub proof fn lemma_fold_ring_recenter(acc: Option<(Pt, Pt)>, r: Seq<Pt>, k: int, sx: int, sy: int)
    requires
        sp_acc_bounded(acc),
        sp_ring_bounded(r),
        sp_center_bounded(sx, sy),
    ensures
        sp_fold_ring(sp_recenter_box(acc, sx, sy), sp_recenter_ring(r, sx, sy), k)
            == sp_recenter_box(sp_fold_ring(acc, r, k), sx, sy),
    decreases r.len() - k,
{
    let r2 = sp_recenter_ring(r, sx, sy);
    if 0 <= k < r.len() {
        lemma_fold_pt_recenter(acc, r[k], sx, sy);
        lemma_fold_ring_recenter(sp_fold_pt(acc, r[k]), r, k + 1, sx, sy);
    }
}

/// Folding a recentered building over a recentered box is the recentered
/// fold.
pub proof fn lemma_fold_rings_recenter(
    acc: Option<(Pt, Pt)>,
    rings: Seq<Seq<Pt>>,
    j: int,
    sx: int,
    sy: int,
)
    requires
        sp_acc_bounded(acc),
        forall|j2: int| 0 <= j2 < rings.len() ==> sp_ring_bounded(#[trigger] rings[j2]),
        sp_center_bounded(sx, sy),
    ensures
        sp_fold_rings(
            sp_recenter_box(acc, sx, sy),
            Seq::new(rings.len(), |j2: int| sp_recenter_ring(rings[j2], sx, sy)),
            j,
        ) == sp_recenter_box(sp_fold_rings(acc, rings, j), sx, sy),
    decreases rings.len() - j,
{
    let rings2 = Seq::new(rings.len(), |j2: int| sp_recenter_ring(rings[j2], sx, sy));
    if 0 <= j < rings.len() {
        lemma_fold_ring_recenter(acc, rings[j], 0, sx, sy);
        lemma_fold_ring_bounded(acc, rings[j], 0);
        lemma_fold_rings_recenter(sp_fold_ring(acc, rings[j], 0), rings, j + 1, sx, sy);
    }
}

/// Folding recentered buildings over a recentered box is the recentered
/// fold.
pub proof fn lemma_fold_buildings_recenter(
    acc: Option<(Pt, Pt)>,
    bs: Seq<BuildingModel>,
    i: int,
    sx: int,
    sy: int,
)
    requires
        sp_acc_bounded(acc),
        sp_buildings_bounded(bs),
        sp_center_bounded(sx, sy),
    ensures
        sp_fold_buildings(sp_recenter_box(acc, sx, sy), sp_recenter_buildings(bs, sx, sy), i)
            == sp_recenter_box(sp_fold_buildings(acc, bs, i), sx, sy),
    decreases bs.len() - i,
{
    let bs2 = sp_recenter_buildings(bs, sx, sy);
    if 0 <= i < bs.len() {
        assert(bs2[i].geometry =~= Seq::new(
            bs[i].geometry.len(),
            |j2: int| sp_recenter_ring(bs[i].geometry[j2], sx, sy),
        ));
        lemma_fold_rings_recenter(acc, bs[i].geometry, 0, sx, sy);
        lemma_fold_rings_bounded(acc, bs[i].geometry, 0);
        lemma_fold_buildings_recenter(sp_fold_rings(acc, bs[i].geometry, 0), bs, i + 1, sx, sy);
    }
}

/// Folding recentered roads over a recentered box is the recentered fold.
pub proof fn lemma_fold_roads_recenter(
    acc: Option<(Pt, Pt)>,
    rs: Seq<RoadModel>,
    i: int,
    sx: int,
    sy: int,
)
    requires
        sp_acc_bounded(acc),
        sp_roads_bounded(rs),
        sp_center_bounded(sx, sy),
    ensures
        sp_fold_roads(sp_recenter_box(acc, sx, sy), sp_recenter_roads(rs, sx, sy), i)
            == sp_recenter_box(sp_fold_roads(acc, rs, i), sx, sy),
    decreases rs.len() - i,
{
    let rs2 = sp_recenter_roads(rs, sx, sy);
    if 0 <= i < rs.len() {
        assert(rs2[i].points =~= sp_recenter_ring(rs[i].points, sx, sy));
        lemma_fold_ring_recenter(acc, rs[i].points, 0, sx, sy);
        lemma_fold_ring_bounded(acc, rs[i].points, 0);
        lemma_fold_roads_recenter(sp_fold_pt_seq(acc, rs[i].points, 0), rs, i + 1, sx, sy);
    }
}

/// After recentering at the bounding-box center, the bounding box of all
/// recentered points is symmetric around the origin: its minimum corner is
/// the negation of its maximum corner, exactly.
pub proof fn lemma_recentered_scene_symmetric(
    bs: Seq<BuildingModel>,
    rs: Seq<RoadModel>,
    ls: Seq<BuildingModel>,
    lo: Pt,
    hi: Pt,
)
    requires
        sp_buildings_bounded(bs),
        sp_roads_bounded(rs),
        sp_buildings_bounded(ls),
        sp_bounds_scene(bs, rs, ls) == Some((lo, hi)),
    ensures
        ({
            let (sx, sy) = sp_scene_center2(bs, rs, ls);
            sp_bounds_scene(
                sp_recenter_buildings(bs, sx, sy),
                sp_recenter_roads(rs, sx, sy),
                sp_recenter_buildings(ls, sx, sy),
            ) == Some(
                (
                    Pt { x: (lo.x - hi.x) as i64, y: (lo.y - hi.y) as i64 },
                    Pt { x: (hi.x - lo.x) as i64, y: (hi.y - lo.y) as i64 },
                ),
            )
        }),
        lo.x - hi.x == -(hi.x - lo.x),
        lo.y - hi.y == -(hi.y - lo.y),
{
    let (sx, sy) = sp_scene_center2(bs, rs, ls);
    lemma_scene_bounds_bounded(bs, rs, ls);
    let acc1 = sp_fold_buildings(None, bs, 0);
    let acc2 = sp_fold_roads(acc1, rs, 0);
    lemma_fold_buildings_bounded(None, bs, 0);
    lemma_fold_roads_bounded(acc1, rs, 0);
    lemma_fold_buildings_recenter(None, bs, 0, sx, sy);
    lemma_fold_roads_recenter(acc1, rs, 0, sx, sy);
    lemma_fold_buildings_recenter(acc2, ls, 0, sx, sy);
    assert(sp_recenter_pt(lo, sx, sy) == Pt { x: (lo.x - hi.x) as i64, y: (lo.y - hi.y) as i64 });
    assert(sp_recenter_pt(hi, sx, sy) == Pt { x: (hi.x - lo.x) as i64, y: (hi.y - lo.y) as i64 });
}

} // verus!
