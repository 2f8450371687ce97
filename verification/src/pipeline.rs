//! The tile pipeline: decode, reconstruct, resolve, classify, project,
//! recenter, and build meshes.
//!
//! One call processes one tile payload: the decoder parses the bytes, each
//! feature of the `buildings`, `roads` and `landuse` layers is
//! reconstructed and classified, every reconstructed point is projected
//! into world ticks, the whole scene is recentered at its bounding-box
//! center, and each shape becomes an extruded mesh. A malformed payload
//! aborts the tile with a `DecodeError`; a malformed feature is skipped and
//! the rest of the tile is processed.

use vstd::prelude::*;
use vstd::string::StringSliceAdditionalSpecFns;
use crate::tile::{Tile, TileModel, Layer, LayerModel, FeatureModel, Pt};
use crate::decode::{decode, sp_decode, DecodeError};
use crate::geometry::{sp_interpret, interpret_geometry};
use crate::builders::{
    sp_polygon_geometry, sp_polyline_lines, sp_rings_within, sp_pts_within, polygon_geometry,
    polyline_lines, sp_poly_init, sp_line_init, lemma_poly_run_within, lemma_line_run_within,
    copy_ring,
};
use crate::tags::{sp_resolve_numeric, sp_resolve_string, resolve_numeric, resolve_string};
use crate::classify::{
    LanduseClass, RoadClass, sp_classify_road, sp_classify_landuse, classify_road,
    classify_landuse, bytes_eq_str, ROAD_CORRIDOR_HEIGHT_MILLI, BUILDING_DEFAULT_HEIGHT_MILLI,
};
use crate::shapes::{Building, BuildingModel, Road, RoadModel};
use crate::project::{project_axis, LOCAL_LIMIT, TILE_INDEX_LIMIT, SCALE_MILLI_LIMIT};
use crate::normalize::{
    buildings_view, roads_view, sp_scene_center2, sp_recenter_buildings, sp_recenter_roads,
};
use crate::mesh::{MeshData, MeshModel, sp_extrude, sp_extrude_corridor, MESH_RING_LIMIT};

verus! {

/// Recentered scene ticks per milli-unit: recentering doubles the
/// projected `4096 * 1000` ticks per world unit.
pub const TICKS_PER_MILLI: i64 = 8192;

/// Largest extrusion height, in milli-units, the pipeline uses as given;
/// beyond it a building height reads as absent.
pub const HEIGHT_LIMIT_MILLI: i64 = 100_000_000_000;

/// Largest corridor width, in milli-units, the pipeline uses as given;
/// beyond it a road is buffered with width zero and so yields no mesh.
pub const WIDTH_LIMIT_MILLI: i64 = 100_000_000_000;

/// What a scene object is, for the renderer to pick material and
/// placement: a building, a land-use polygon of a class, or a road
/// corridor of a class.
#[derive(Clone, Copy, PartialEq, Eq, Structural, Debug)]
pub enum SceneKind {
    Building,
    Landuse(LanduseClass),
    Road(RoadClass),
}

/// One renderable output: an extruded mesh and its classification.
#[derive(Clone, PartialEq, Eq, Debug)]
pub struct SceneObject {
    pub mesh: MeshData,
    pub kind: SceneKind,
}

/// Mathematical model of a `SceneObject`.
#[verifier::ext_equal]
pub struct SceneObjectModel {
    pub mesh: MeshModel,
    pub kind: SceneKind,
}

impl View for SceneObject {
    type V = SceneObjectModel;

    open spec fn view(&self) -> SceneObjectModel {
        SceneObjectModel { mesh: self.mesh@, kind: self.kind }
    }
}

/// A processed tile: the renderable objects, and the scene's world offset —
/// the bounding-box center that was subtracted, in recentered ticks.
#[derive(Clone, PartialEq, Eq, Debug)]
pub struct Scene {
    pub objects: Vec<SceneObject>,
    pub center_x: i64,
    pub center_y: i64,
}

/// Mathematical model of a `Scene`.
#[verifier::ext_equal]
pub struct SceneModel {
    pub objects: Seq<SceneObjectModel>,
    pub center_x: i64,
    pub center_y: i64,
}

impl View for Scene {
    type V = SceneModel;

    open spec fn view(&self) -> SceneModel {
        SceneModel {
            objects: Seq::new(self.objects@.len(), |i: int| self.objects@[i]@),
            center_x: self.center_x,
            center_y: self.center_y,
        }
    }
}

/// The key of a building's height tag.
pub open spec fn key_height() -> Seq<u8> {
    "height".spec_bytes()
}

/// The key of a road's or land-use polygon's classification tag.
pub open spec fn key_kind() -> Seq<u8> {
    "kind".spec_bytes()
}

/// The name of the layer holding building footprints.
pub open spec fn name_buildings() -> Seq<u8> {
    "buildings".spec_bytes()
}

/// The name of the layer holding road polylines.
pub open spec fn name_roads() -> Seq<u8> {
    "roads".spec_bytes()
}

/// The name of the layer holding land-use polygons.
pub open spec fn name_landuse() -> Seq<u8> {
    "landuse".spec_bytes()
}

/// The building a feature of the buildings layer yields: its committed
/// rings and its resolved height. A feature whose geometry is malformed or
/// commits no ring yields no building.
pub open spec fn sp_building_of_feature(layer: LayerModel, f: FeatureModel) -> Option<
    BuildingModel,
> {
    match sp_interpret(f.geom_type, f.geometry) {
        Err(e) => None,
        Ok(ev) => {
            let rings = sp_polygon_geometry(ev);
            if rings.len() == 0 {
                None
            } else {
                Some(
                    BuildingModel {
                        geometry: rings,
                        height_milli: match sp_resolve_numeric(f.tags, layer, key_height()) {
                            Some(h) => Some(h as i64),
                            None => None,
                        },
                        class: None,
                    },
                )
            }
        },
    }
}

/// The land-use polygon a feature of the landuse layer yields: its rings,
/// with height and class from the classification table.
pub open spec fn sp_landuse_of_feature(layer: LayerModel, f: FeatureModel) -> Option<
    BuildingModel,
> {
    match sp_interpret(f.geom_type, f.geometry) {
        Err(e) => None,
        Ok(ev) => {
            let rings = sp_polygon_geometry(ev);
            if rings.len() == 0 {
                None
            } else {
                let hc = sp_classify_landuse(sp_resolve_string(f.tags, layer, key_kind()));
                Some(
                    BuildingModel {
                        geometry: rings,
                        height_milli: Some(hc.0 as i64),
                        class: Some(hc.1),
                    },
                )
            }
        },
    }
}

/// The roads a feature of the roads layer yields: one per finished line,
/// each carrying the width and class resolved from the feature's `kind`.
pub open spec fn sp_roads_of_feature(layer: LayerModel, f: FeatureModel) -> Seq<RoadModel> {
    match sp_interpret(f.geom_type, f.geometry) {
        Err(e) => Seq::<RoadModel>::empty(),
        Ok(ev) => {
            let wc = sp_classify_road(sp_resolve_string(f.tags, layer, key_kind()));
            let lines = sp_polyline_lines(ev);
            Seq::new(
                lines.len(),
                |j: int| RoadModel { points: lines[j], width_milli: wc.0 as i64, class: wc.1 },
            )
        },
    }
}

/// The buildings of one layer, appended to `acc` in feature order.
pub open spec fn sp_fold_buildings_layer(
    layer: LayerModel,
    i: int,
    acc: Seq<BuildingModel>,
) -> Seq<BuildingModel>
    decreases layer.features.len() - i,
{
    if i < 0 || i >= layer.features.len() {
        acc
    } else {
        let acc2 = match sp_building_of_feature(layer, layer.features[i]) {
            None => acc,
            Some(b) => acc.push(b),
        };
        sp_fold_buildings_layer(layer, i + 1, acc2)
    }
}

/// The land-use polygons of one layer, appended to `acc` in feature order.
pub open spec fn sp_fold_landuse_layer(layer: LayerModel, i: int, acc: Seq<BuildingModel>) -> Seq<
    BuildingModel,
>
    decreases layer.features.len() - i,
{
    if i < 0 || i >= layer.features.len() {
        acc
    } else {
        let acc2 = match sp_landuse_of_feature(layer, layer.features[i]) {
            None => acc,
            Some(b) => acc.push(b),
        };
        sp_fold_landuse_layer(layer, i + 1, acc2)
    }
}

/// The roads of one layer, appended to `acc` in feature order.
pub open spec fn sp_fold_roads_layer(layer: LayerModel, i: int, acc: Seq<RoadModel>) -> Seq<
    RoadModel,
>
    decreases layer.features.len() - i,
{
    if i < 0 || i >= layer.features.len() {
        acc
    } else {
        sp_fold_roads_layer(layer, i + 1, acc + sp_roads_of_feature(layer, layer.features[i]))
    }
}

/// The shapes of the whole tile, in tile-local coordinates: the buildings,
/// roads and land-use polygons of every layer with the matching name, in
/// layer order.
pub open spec fn sp_collect_tile(
    tile: TileModel,
    i: int,
    bs: Seq<BuildingModel>,
    rs: Seq<RoadModel>,
    ls: Seq<BuildingModel>,
) -> (Seq<BuildingModel>, Seq<RoadModel>, Seq<BuildingModel>)
    decreases tile.layers.len() - i,
{
    if i < 0 || i >= tile.layers.len() {
        (bs, rs, ls)
    } else {
        let layer = tile.layers[i];
        if layer.name == name_buildings() {
            sp_collect_tile(tile, i + 1, sp_fold_buildings_layer(layer, 0, bs), rs, ls)
        } else if layer.name == name_roads() {
            sp_collect_tile(tile, i + 1, bs, sp_fold_roads_layer(layer, 0, rs), ls)
        } else if layer.name == name_landuse() {
            sp_collect_tile(tile, i + 1, bs, rs, sp_fold_landuse_layer(layer, 0, ls))
        } else {
            sp_collect_tile(tile, i + 1, bs, rs, ls)
        }
    }
}

/// The shapes a decoded tile yields.
pub open spec fn sp_collected(tile: TileModel) -> (
    Seq<BuildingModel>,
    Seq<RoadModel>,
    Seq<BuildingModel>,
) {
    sp_collect_tile(
        tile,
        0,
        Seq::<BuildingModel>::empty(),
        Seq::<RoadModel>::empty(),
        Seq::<BuildingModel>::empty(),
    )
}

/// One tile-local point projected into world ticks.
pub open spec fn sp_project_pt(p: Pt, tx: int, ty: int, sc: int) -> Pt {
    Pt {
        x: project_axis(p.x as int, tx, sc) as i64,
        y: project_axis(p.y as int, ty, sc) as i64,
    }
}

/// A ring projected pointwise.
pub open spec fn sp_project_ring(r: Seq<Pt>, tx: int, ty: int, sc: int) -> Seq<Pt> {
    Seq::new(r.len(), |k: int| sp_project_pt(r[k], tx, ty, sc))
}

/// A building projected pointwise; height and class are untouched.
pub open spec fn sp_project_building(b: BuildingModel, tx: int, ty: int, sc: int) -> BuildingModel {
    BuildingModel {
        geometry: Seq::new(b.geometry.len(), |j: int| sp_project_ring(b.geometry[j], tx, ty, sc)),
        ..b
    }
}

/// Buildings projected pointwise.
pub open spec fn sp_project_buildings(bs: Seq<BuildingModel>, tx: int, ty: int, sc: int) -> Seq<
    BuildingModel,
> {
    Seq::new(bs.len(), |i: int| sp_project_building(bs[i], tx, ty, sc))
}

/// A road projected pointwise; width and class are untouched.
pub open spec fn sp_project_road(r: RoadModel, tx: int, ty: int, sc: int) -> RoadModel {
    RoadModel { points: sp_project_ring(r.points, tx, ty, sc), ..r }
}

/// Roads projected pointwise.
pub open spec fn sp_project_roads(rs: Seq<RoadModel>, tx: int, ty: int, sc: int) -> Seq<
    RoadModel,
> {
    Seq::new(rs.len(), |i: int| sp_project_road(rs[i], tx, ty, sc))
}

/// The extrusion height of a footprint, in milli-units: its resolved
/// height where one is present and within range, the default building
/// height otherwise.
pub open spec fn sp_shape_height_milli(b: BuildingModel) -> int {
    match b.height_milli {
        Some(h) => if -HEIGHT_LIMIT_MILLI <= h <= HEIGHT_LIMIT_MILLI {
            h as int
        } else {
            BUILDING_DEFAULT_HEIGHT_MILLI as int
        },
        None => BUILDING_DEFAULT_HEIGHT_MILLI as int,
    }
}

/// The mesh of one recentered footprint: its outer ring extruded by its
/// height. No mesh for an oversized outer ring, a ring of fewer than three
/// points, or a degenerate ring.
pub open spec fn sp_mesh_of_building(b: BuildingModel) -> Option<MeshModel> {
    if b.geometry.len() == 0 {
        None
    } else {
        let outer = b.geometry[0];
        if outer.len() > MESH_RING_LIMIT {
            None
        } else {
            sp_extrude(outer, sp_shape_height_milli(b) * TICKS_PER_MILLI)
        }
    }
}

/// The corridor meshes of one recentered road: its polyline buffered by
/// half its width and each rectangle extruded by the corridor height. A
/// width out of range buffers as zero, which yields no mesh.
pub open spec fn sp_meshes_of_road(r: RoadModel) -> Seq<MeshModel> {
    let w = if 0 <= r.width_milli <= WIDTH_LIMIT_MILLI {
        r.width_milli as int
    } else {
        0
    };
    sp_extrude_corridor(
        r.points,
        w * TICKS_PER_MILLI,
        ROAD_CORRIDOR_HEIGHT_MILLI as int * TICKS_PER_MILLI,
    )
}

/// The kind of a footprint's scene object: a land-use class where one was
/// attached, a plain building otherwise.
pub open spec fn sp_kind_of_building(b: BuildingModel) -> SceneKind {
    match b.class {
        Some(c) => SceneKind::Landuse(c),
        None => SceneKind::Building,
    }
}

/// The scene objects of a footprint list, appended to `acc`: one object
/// per footprint that yields a mesh.
pub open spec fn sp_objects_of_buildings(
    bs: Seq<BuildingModel>,
    i: int,
    acc: Seq<SceneObjectModel>,
) -> Seq<SceneObjectModel>
    decreases bs.len() - i,
{
    if i < 0 || i >= bs.len() {
        acc
    } else {
        let acc2 = match sp_mesh_of_building(bs[i]) {
            None => acc,
            Some(m) => acc.push(SceneObjectModel { mesh: m, kind: sp_kind_of_building(bs[i]) }),
        };
        sp_objects_of_buildings(bs, i + 1, acc2)
    }
}

/// The scene objects of a road list, appended to `acc`: one object per
/// corridor mesh, several per road where the buffer splits.
pub open spec fn sp_objects_of_roads(
    rs: Seq<RoadModel>,
    i: int,
    acc: Seq<SceneObjectModel>,
) -> Seq<SceneObjectModel>
    decreases rs.len() - i,
{
    if i < 0 || i >= rs.len() {
        acc
    } else {
        let meshes = sp_meshes_of_road(rs[i]);
        let acc2 = acc + meshes.map_values(
            |m: MeshModel| SceneObjectModel { mesh: m, kind: SceneKind::Road(rs[i].class) },
        );
        sp_objects_of_roads(rs, i + 1, acc2)
    }
}

/// All scene objects of the recentered shapes: buildings, then land-use
/// polygons, then road corridors.
pub open spec fn sp_scene_objects(
    bs: Seq<BuildingModel>,
    rs: Seq<RoadModel>,
    ls: Seq<BuildingModel>,
) -> Seq<SceneObjectModel> {
    sp_objects_of_roads(
        rs,
        0,
        sp_objects_of_buildings(ls, 0, sp_objects_of_buildings(bs, 0, Seq::<SceneObjectModel>::empty())),
    )
}

/// Whether every footprint's points lie within `lim`.
pub open spec fn sp_bs_within(bs: Seq<BuildingModel>, lim: int) -> bool {
    forall|i: int| 0 <= i < bs.len() ==> sp_rings_within((#[trigger] bs[i]).geometry, lim)
}

/// Whether every road's points lie within `lim`.
pub open spec fn sp_rs_within(rs: Seq<RoadModel>, lim: int) -> bool {
    forall|i: int| 0 <= i < rs.len() ==> sp_pts_within((#[trigger] rs[i]).points, lim)
}

/// The bytes of a string literal.
pub fn str_to_bytes(s: &str) -> (r: Vec<u8>)
    ensures
        r@ == s.spec_bytes(),
{
    let b = s.as_bytes();
    let mut out: Vec<u8> = Vec::new();
    let mut i: usize = 0;
    while i < b.len()
        invariant
            i <= b@.len(),
            b@ == s.spec_bytes(),
            out@ =~= b@.subrange(0, i as int),
        decreases b@.len() - i,
    {
        out.push(b[i]);
        i = i + 1;
    }
    proof {
        assert(out@ =~= s.spec_bytes());
    }
    out
}

/// Collects the buildings of one buildings layer, appending them to `out`.
fn collect_buildings_layer(layer: &Layer, out: &mut Vec<Building>)
    ensures
        buildings_view(final(out)@) == sp_fold_buildings_layer(
            layer@,
            0,
            buildings_view(old(out)@),
        ),
        sp_bs_within(buildings_view(old(out)@), LOCAL_LIMIT as int) ==> sp_bs_within(
            buildings_view(final(out)@),
            LOCAL_LIMIT as int,
        ),
{
    let hkey = str_to_bytes("height");
    let n = layer.features.len();
    let mut i: usize = 0;
    while i < n
        invariant
            i <= n == layer.features@.len(),
            hkey@ == key_height(),
            sp_fold_buildings_layer(layer@, 0, buildings_view(old(out)@))
                == sp_fold_buildings_layer(layer@, i as int, buildings_view(out@)),
            sp_bs_within(buildings_view(old(out)@), LOCAL_LIMIT as int) ==> sp_bs_within(
                buildings_view(out@),
                LOCAL_LIMIT as int,
            ),
        decreases n - i,
    {
        proof {
            assert(layer@.features[i as int] == layer.features@[i as int]@);
        }
        let f = &layer.features[i];
        match interpret_geometry(f.geom_type, &f.geometry) {
            Err(_) => {},
            Ok(events) => {
                let rings = polygon_geometry(&events);
                if rings.len() > 0 {
                    let height_milli = resolve_numeric(&f.tags, layer, &hkey);
                    let ghost pre = buildings_view(out@);
                    let b = Building { geometry: rings, height_milli, class: None };
                    proof {
                        lemma_poly_run_within(events@, 0, sp_poly_init(), LOCAL_LIMIT as int);
                        let bm = sp_building_of_feature(layer@, layer@.features[i as int])->0;
                        assert(b@ =~~= bm);
                    }
                    out.push(b);
                    proof {
                        assert(buildings_view(out@) =~= pre.push(b@));
                    }
                }
            },
        }
        i = i + 1;
    }
}

/// Collects the land-use polygons of one landuse layer, appending them to
/// `out`.
fn collect_landuse_layer(layer: &Layer, out: &mut Vec<Building>)
    ensures
        buildings_view(final(out)@) == sp_fold_landuse_layer(layer@, 0, buildings_view(old(out)@)),
        sp_bs_within(buildings_view(old(out)@), LOCAL_LIMIT as int) ==> sp_bs_within(
            buildings_view(final(out)@),
            LOCAL_LIMIT as int,
        ),
{
    let kkey = str_to_bytes("kind");
    let n = layer.features.len();
    let mut i: usize = 0;
    while i < n
        invariant
            i <= n == layer.features@.len(),
            kkey@ == key_kind(),
            sp_fold_landuse_layer(layer@, 0, buildings_view(old(out)@)) == sp_fold_landuse_layer(
                layer@,
                i as int,
                buildings_view(out@),
            ),
            sp_bs_within(buildings_view(old(out)@), LOCAL_LIMIT as int) ==> sp_bs_within(
                buildings_view(out@),
                LOCAL_LIMIT as int,
            ),
        decreases n - i,
    {
        proof {
            assert(layer@.features[i as int] == layer.features@[i as int]@);
        }
        let f = &layer.features[i];
        match interpret_geometry(f.geom_type, &f.geometry) {
            Err(_) => {},
            Ok(events) => {
                let rings = polygon_geometry(&events);
                if rings.len() > 0 {
                    let kind = resolve_string(&f.tags, layer, &kkey);
                    let hc = classify_landuse(&kind);
                    let ghost pre = buildings_view(out@);
                    let b = Building {
                        geometry: rings,
                        height_milli: Some(hc.0),
                        class: Some(hc.1),
                    };
                    proof {
                        lemma_poly_run_within(events@, 0, sp_poly_init(), LOCAL_LIMIT as int);
                        let bm = sp_landuse_of_feature(layer@, layer@.features[i as int])->0;
                        assert(b@ =~~= bm);
                    }
                    out.push(b);
                    proof {
                        assert(buildings_view(out@) =~= pre.push(b@));
                    }
                }
            },
        }
        i = i + 1;
    }
}

/// Collects the roads of one roads layer, appending them to `out`.
fn collect_roads_layer(layer: &Layer, out: &mut Vec<Road>)
    ensures
        roads_view(final(out)@) == sp_fold_roads_layer(layer@, 0, roads_view(old(out)@)),
        sp_rs_within(roads_view(old(out)@), LOCAL_LIMIT as int) ==> sp_rs_within(
            roads_view(final(out)@),
            LOCAL_LIMIT as int,
        ),
{
    let kkey = str_to_bytes("kind");
    let n = layer.features.len();
    let mut i: usize = 0;
    while i < n
        invariant
            i <= n == layer.features@.len(),
            kkey@ == key_kind(),
            sp_fold_roads_layer(layer@, 0, roads_view(old(out)@)) == sp_fold_roads_layer(
                layer@,
                i as int,
                roads_view(out@),
            ),
            sp_rs_within(roads_view(old(out)@), LOCAL_LIMIT as int) ==> sp_rs_within(
                roads_view(out@),
                LOCAL_LIMIT as int,
            ),
        decreases n - i,
    {
        proof {
            assert(layer@.features[i as int] == layer.features@[i as int]@);
        }
        let f = &layer.features[i];
        let ghost fm = layer@.features[i as int];
        match interpret_geometry(f.geom_type, &f.geometry) {
            Err(_) => {
                proof {
                    assert(roads_view(out@) + sp_roads_of_feature(layer@, fm) =~= roads_view(
                        out@,
                    ));
                }
            },
            Ok(events) => {
                let kind = resolve_string(&f.tags, layer, &kkey);
                let wc = classify_road(&kind);
                let lines = polyline_lines(&events);
                proof {
                    lemma_line_run_within(events@, 0, sp_line_init(), LOCAL_LIMIT as int);
                }
                let ghost target = roads_view(out@) + sp_roads_of_feature(layer@, fm);
                let ghost pre = roads_view(out@);
                let m = lines.len();
                let mut j: usize = 0;
                while j < m
                    invariant
                        j <= m == lines@.len(),
                        Seq::new(lines@.len(), |j2: int| lines@[j2]@) == sp_polyline_lines(
                            events@,
                        ),
                        sp_roads_of_feature(layer@, fm) == Seq::new(
                            sp_polyline_lines(events@).len(),
                            |j2: int| RoadModel {
                                points: sp_polyline_lines(events@)[j2],
                                width_milli: wc.0,
                                class: wc.1,
                            },
                        ),
                        sp_rings_within(sp_polyline_lines(events@), LOCAL_LIMIT as int),
                        roads_view(out@) =~= pre + sp_roads_of_feature(layer@, fm).subrange(
                            0,
                            j as int,
                        ),
                        sp_rs_within(pre, LOCAL_LIMIT as int) ==> sp_rs_within(
                            roads_view(out@),
                            LOCAL_LIMIT as int,
                        ),
                    decreases m - j,
                {
                    let points = copy_ring(&lines[j]);
                    let road = Road { points, width_milli: wc.0, class: wc.1 };
                    let ghost pre2 = roads_view(out@);
                    proof {
                        assert(lines@[j as int]@ == sp_polyline_lines(events@)[j as int]);
                        assert(road@ == sp_roads_of_feature(layer@, fm)[j as int]);
                    }
                    out.push(road);
                    proof {
                        assert(roads_view(out@) =~= pre2.push(road@));
                        assert(roads_view(out@) =~= pre + sp_roads_of_feature(
                            layer@,
                            fm,
                        ).subrange(0, j as int + 1));
                    }
                    j = j + 1;
                }
                proof {
                    assert(roads_view(out@) =~= pre + sp_roads_of_feature(layer@, fm));
                }
            },
        }
        i = i + 1;
    }
}

/// Reconstructs and classifies the shapes of every layer named
/// `buildings`, `roads` or `landuse`, in layer order; other layers are
/// passed over. The shapes are in tile-local coordinates.
pub fn collect_shapes(tile: &Tile) -> (r: (Vec<Building>, Vec<Road>, Vec<Building>))
    ensures
        (buildings_view(r.0@), roads_view(r.1@), buildings_view(r.2@)) == sp_collected(tile@),
        sp_bs_within(buildings_view(r.0@), LOCAL_LIMIT as int),
        sp_rs_within(roads_view(r.1@), LOCAL_LIMIT as int),
        sp_bs_within(buildings_view(r.2@), LOCAL_LIMIT as int),
{
    let mut bs: Vec<Building> = Vec::new();
    let mut rs: Vec<Road> = Vec::new();
    let mut ls: Vec<Building> = Vec::new();
    let n = tile.layers.len();
    let mut i: usize = 0;
    proof {
        assert(buildings_view(bs@) =~= Seq::<BuildingModel>::empty());
        assert(roads_view(rs@) =~= Seq::<RoadModel>::empty());
        assert(buildings_view(ls@) =~= Seq::<BuildingModel>::empty());
    }
    while i < n
        invariant
            i <= n == tile.layers@.len(),
            sp_collected(tile@) == sp_collect_tile(
                tile@,
                i as int,
                buildings_view(bs@),
                roads_view(rs@),
                buildings_view(ls@),
            ),
            sp_bs_within(buildings_view(bs@), LOCAL_LIMIT as int),
            sp_rs_within(roads_view(rs@), LOCAL_LIMIT as int),
            sp_bs_within(buildings_view(ls@), LOCAL_LIMIT as int),
        decreases n - i,
    {
        proof {
            assert(tile@.layers[i as int] == tile.layers@[i as int]@);
        }
        let layer = &tile.layers[i];
        if bytes_eq_str(&layer.name, "buildings") {
            collect_buildings_layer(layer, &mut bs);
        } else if bytes_eq_str(&layer.name, "roads") {
            collect_roads_layer(layer, &mut rs);
        } else if bytes_eq_str(&layer.name, "landuse") {
            collect_landuse_layer(layer, &mut ls);
        }
        i = i + 1;
    }
    (bs, rs, ls)
}

/// Projects one ring into world ticks.
fn project_ring_exec(r: &Vec<Pt>, tx: u32, ty: u32, sc: i64) -> (out: Vec<Pt>)
    requires
        sp_pts_within(r@, LOCAL_LIMIT as int),
        tx <= TILE_INDEX_LIMIT,
        ty <= TILE_INDEX_LIMIT,
        0 < sc <= SCALE_MILLI_LIMIT,
    ensures
        out@ == sp_project_ring(r@, tx as int, ty as int, sc as int),
        crate::normalize::sp_ring_bounded(out@),
{
    let mut out: Vec<Pt> = Vec::new();
    let mut k: usize = 0;
    while k < r.len()
        invariant
            k <= r@.len(),
            sp_pts_within(r@, LOCAL_LIMIT as int),
            tx <= TILE_INDEX_LIMIT,
            ty <= TILE_INDEX_LIMIT,
            0 < sc <= SCALE_MILLI_LIMIT,
            out@ =~= sp_project_ring(r@, tx as int, ty as int, sc as int).subrange(0, k as int),
            crate::normalize::sp_ring_bounded(out@),
        decreases r@.len() - k,
    {
        let p = r[k];
        let q = crate::project::tile_to_world(p.x, p.y, tx, ty, sc);
        proof {
            crate::project::lemma_project_axis_bound(p.x as int, tx as int, sc as int);
            crate::project::lemma_project_axis_bound(p.y as int, ty as int, sc as int);
        }
        out.push(q);
        k = k + 1;
        proof {
            assert(out@ =~= sp_project_ring(r@, tx as int, ty as int, sc as int).subrange(
                0,
                k as int,
            ));
        }
    }
    proof {
        assert(out@ =~= sp_project_ring(r@, tx as int, ty as int, sc as int));
    }
    out
}

/// Projects every point of every footprint into world ticks, in place.
fn project_buildings_exec(bs: &mut Vec<Building>, tx: u32, ty: u32, sc: i64)
    requires
        sp_bs_within(buildings_view(old(bs)@), LOCAL_LIMIT as int),
        tx <= TILE_INDEX_LIMIT,
        ty <= TILE_INDEX_LIMIT,
        0 < sc <= SCALE_MILLI_LIMIT,
    ensures
        buildings_view(final(bs)@) == sp_project_buildings(
            buildings_view(old(bs)@),
            tx as int,
            ty as int,
            sc as int,
        ),
        crate::normalize::sp_buildings_bounded(buildings_view(final(bs)@)),
{
    let len = bs.len();
    let mut i: usize = 0;
    while i < len
        invariant
            i <= len == bs@.len(),
            old(bs)@.len() == len,
            sp_bs_within(buildings_view(old(bs)@), LOCAL_LIMIT as int),
            tx <= TILE_INDEX_LIMIT,
            ty <= TILE_INDEX_LIMIT,
            0 < sc <= SCALE_MILLI_LIMIT,
            forall|i2: int| i <= i2 < len ==> bs@[i2] == old(bs)@[i2],
            forall|i2: int|
                0 <= i2 < i ==> bs@[i2]@ == sp_project_building(
                    old(bs)@[i2]@,
                    tx as int,
                    ty as int,
                    sc as int,
                ) && crate::normalize::sp_building_bounded(#[trigger] bs@[i2]@),
        decreases len - i,
    {
        proof {
            assert(buildings_view(old(bs)@)[i as int] == old(bs)@[i as int]@);
        }
        let mut b = Building { geometry: Vec::new(), height_milli: None, class: None };
        bs.set_and_swap(i, &mut b);
        let ghost bm = b@;
        let mut geometry: Vec<Vec<Pt>> = Vec::new();
        let mut j: usize = 0;
        while j < b.geometry.len()
            invariant
                j <= b.geometry@.len(),
                b@ == bm,
                sp_rings_within(bm.geometry, LOCAL_LIMIT as int),
                tx <= TILE_INDEX_LIMIT,
                ty <= TILE_INDEX_LIMIT,
                0 < sc <= SCALE_MILLI_LIMIT,
                geometry@.len() == j,
                forall|j2: int|
                    0 <= j2 < j ==> geometry@[j2]@ == sp_project_ring(
                        bm.geometry[j2],
                        tx as int,
                        ty as int,
                        sc as int,
                    ) && crate::normalize::sp_ring_bounded(#[trigger] geometry@[j2]@),
            decreases b.geometry@.len() - j,
        {
            proof {
                assert(bm.geometry[j as int] == b.geometry@[j as int]@);
                assert(sp_pts_within(bm.geometry[j as int], LOCAL_LIMIT as int));
            }
            let ring = project_ring_exec(&b.geometry[j], tx, ty, sc);
            geometry.push(ring);
            j = j + 1;
        }
        let mut b2 = Building { geometry, height_milli: b.height_milli, class: b.class };
        proof {
            assert(b2@ =~~= sp_project_building(bm, tx as int, ty as int, sc as int));
            assert(crate::normalize::sp_building_bounded(b2@));
        }
        bs.set_and_swap(i, &mut b2);
        i = i + 1;
    }
    proof {
        assert(buildings_view(bs@) =~~= sp_project_buildings(
            buildings_view(old(bs)@),
            tx as int,
            ty as int,
            sc as int,
        ));
    }
}

/// Projects every point of every road into world ticks, in place.
fn project_roads_exec(rs: &mut Vec<Road>, tx: u32, ty: u32, sc: i64)
    requires
        sp_rs_within(roads_view(old(rs)@), LOCAL_LIMIT as int),
        tx <= TILE_INDEX_LIMIT,
        ty <= TILE_INDEX_LIMIT,
        0 < sc <= SCALE_MILLI_LIMIT,
    ensures
        roads_view(final(rs)@) == sp_project_roads(
            roads_view(old(rs)@),
            tx as int,
            ty as int,
            sc as int,
        ),
        crate::normalize::sp_roads_bounded(roads_view(final(rs)@)),
{
    let len = rs.len();
    let mut i: usize = 0;
    while i < len
        invariant
            i <= len == rs@.len(),
            old(rs)@.len() == len,
            sp_rs_within(roads_view(old(rs)@), LOCAL_LIMIT as int),
            tx <= TILE_INDEX_LIMIT,
            ty <= TILE_INDEX_LIMIT,
            0 < sc <= SCALE_MILLI_LIMIT,
            forall|i2: int| i <= i2 < len ==> rs@[i2] == old(rs)@[i2],
            forall|i2: int|
                0 <= i2 < i ==> rs@[i2]@ == sp_project_road(
                    old(rs)@[i2]@,
                    tx as int,
                    ty as int,
                    sc as int,
                ) && crate::normalize::sp_ring_bounded((#[trigger] rs@[i2]@).points),
        decreases len - i,
    {
        proof {
            assert(roads_view(old(rs)@)[i as int] == old(rs)@[i as int]@);
            assert(sp_pts_within(old(rs)@[i as int]@.points, LOCAL_LIMIT as int));
        }
        let points = project_ring_exec(&rs[i].points, tx, ty, sc);
        let width_milli = rs[i].width_milli;
        let class = rs[i].class;
        let road = Road { points, width_milli, class };
        rs.set(i, road);
        proof {
            assert(rs@[i as int]@ =~~= sp_project_road(
                old(rs)@[i as int]@,
                tx as int,
                ty as int,
                sc as int,
            ));
        }
        i = i + 1;
    }
    proof {
        assert(roads_view(rs@) =~~= sp_project_roads(
            roads_view(old(rs)@),
            tx as int,
            ty as int,
            sc as int,
        ));
    }
}

/// Recentering bounded footprints keeps every point within the mesh
/// builder's range.
proof fn lemma_recentered_bs_within(bs: Seq<BuildingModel>, sx: int, sy: int)
    requires
        crate::normalize::sp_buildings_bounded(bs),
        -crate::normalize::CENTER_LIMIT <= sx <= crate::normalize::CENTER_LIMIT,
        -crate::normalize::CENTER_LIMIT <= sy <= crate::normalize::CENTER_LIMIT,
    ensures
        sp_bs_within(sp_recenter_buildings(bs, sx, sy), crate::mesh::BUFFER_PT_LIMIT as int),
{
    let out = sp_recenter_buildings(bs, sx, sy);
    assert forall|i: int| 0 <= i < out.len() implies sp_rings_within(
        (#[trigger] out[i]).geometry,
        crate::mesh::BUFFER_PT_LIMIT as int,
    ) by {
        assert(crate::normalize::sp_building_bounded(bs[i]));
        let g = out[i].geometry;
        assert forall|j: int, k: int|
            0 <= j < g.len() && 0 <= k < g[j].len() implies -crate::mesh::BUFFER_PT_LIMIT <= (
        #[trigger] g[j][k]).x <= crate::mesh::BUFFER_PT_LIMIT && -crate::mesh::BUFFER_PT_LIMIT
            <= g[j][k].y <= crate::mesh::BUFFER_PT_LIMIT by {
            assert(crate::normalize::sp_ring_bounded(bs[i].geometry[j]));
            assert(crate::normalize::sp_pt_bounded(bs[i].geometry[j][k]));
            assert(g[j][k] == crate::normalize::sp_recenter_pt(bs[i].geometry[j][k], sx, sy));
        }
    }
}

/// Recentering bounded roads keeps every point within the corridor
/// buffer's range.
proof fn lemma_recentered_rs_within(rs: Seq<RoadModel>, sx: int, sy: int)
    requires
        crate::normalize::sp_roads_bounded(rs),
        -crate::normalize::CENTER_LIMIT <= sx <= crate::normalize::CENTER_LIMIT,
        -crate::normalize::CENTER_LIMIT <= sy <= crate::normalize::CENTER_LIMIT,
    ensures
        sp_rs_within(sp_recenter_roads(rs, sx, sy), crate::mesh::BUFFER_PT_LIMIT as int),
{
    let out = sp_recenter_roads(rs, sx, sy);
    assert forall|i: int| 0 <= i < out.len() implies sp_pts_within(
        (#[trigger] out[i]).points,
        crate::mesh::BUFFER_PT_LIMIT as int,
    ) by {
        assert(crate::normalize::sp_ring_bounded(rs[i].points));
        let pts = out[i].points;
        assert forall|k: int|
            0 <= k < pts.len() implies -crate::mesh::BUFFER_PT_LIMIT <= (#[trigger] pts[k]).x
            <= crate::mesh::BUFFER_PT_LIMIT && -crate::mesh::BUFFER_PT_LIMIT <= pts[k].y
            <= crate::mesh::BUFFER_PT_LIMIT by {
            assert(crate::normalize::sp_pt_bounded(rs[i].points[k]));
            assert(pts[k] == crate::normalize::sp_recenter_pt(rs[i].points[k], sx, sy));
        }
    }
}

/// The extrusion height of a recentered footprint, in milli-units.
fn shape_height_milli(b: &Building) -> (h: i64)
    ensures
        h as int == sp_shape_height_milli(b@),
        -HEIGHT_LIMIT_MILLI <= h <= HEIGHT_LIMIT_MILLI,
{
    match b.height_milli {
        Some(h) => {
            if -HEIGHT_LIMIT_MILLI <= h && h <= HEIGHT_LIMIT_MILLI {
                h
            } else {
                BUILDING_DEFAULT_HEIGHT_MILLI
            }
        },
        None => BUILDING_DEFAULT_HEIGHT_MILLI,
    }
}

/// Extrudes every footprint of a recentered list, appending one scene
/// object per footprint that yields a mesh.
fn objects_of_buildings(bs: &Vec<Building>, out: &mut Vec<SceneObject>)
    requires
        sp_bs_within(buildings_view(bs@), crate::mesh::BUFFER_PT_LIMIT as int),
    ensures
        Seq::new(final(out)@.len(), |i: int| final(out)@[i]@) == sp_objects_of_buildings(
            buildings_view(bs@),
            0,
            Seq::new(old(out)@.len(), |i: int| old(out)@[i]@),
        ),
{
    let len = bs.len();
    let mut i: usize = 0;
    while i < len
        invariant
            i <= len == bs@.len(),
            sp_bs_within(buildings_view(bs@), crate::mesh::BUFFER_PT_LIMIT as int),
            sp_objects_of_buildings(
                buildings_view(bs@),
                0,
                Seq::new(old(out)@.len(), |j: int| old(out)@[j]@),
            ) == sp_objects_of_buildings(
                buildings_view(bs@),
                i as int,
                Seq::new(out@.len(), |j: int| out@[j]@),
            ),
        decreases len - i,
    {
        proof {
            assert(buildings_view(bs@)[i as int] == bs@[i as int]@);
        }
        let b = &bs[i];
        let ghost bm = b@;
        if b.geometry.len() > 0 {
            proof {
                assert(bm.geometry[0] == b.geometry@[0]@);
            }
            let outer = &b.geometry[0];
            if outer.len() <= MESH_RING_LIMIT {
                let hm = shape_height_milli(b);
                let h_ticks = hm * TICKS_PER_MILLI;
                proof {
                    assert(sp_rings_within(bm.geometry, crate::mesh::BUFFER_PT_LIMIT as int));
                    assert(crate::mesh::sp_ring_in_mesh_range(outer@)) by {
                        assert(forall|k: int|
                            0 <= k < bm.geometry[0].len() ==> -crate::mesh::BUFFER_PT_LIMIT <= (
                            #[trigger] bm.geometry[0][k]).x <= crate::mesh::BUFFER_PT_LIMIT
                                && -crate::mesh::BUFFER_PT_LIMIT <= bm.geometry[0][k].y
                                <= crate::mesh::BUFFER_PT_LIMIT);
                    }
                }
                let kind = match b.class {
                    Some(c) => SceneKind::Landuse(c),
                    None => SceneKind::Building,
                };
                match crate::mesh::extrude_polygon(outer, h_ticks) {
                    None => {},
                    Some(mesh) => {
                        let ghost pre = Seq::new(out@.len(), |j: int| out@[j]@);
                        let obj = SceneObject { mesh, kind };
                        let ghost om = obj@;
                        out.push(obj);
                        proof {
                            assert(Seq::new(out@.len(), |j: int| out@[j]@) =~= pre.push(om));
                        }
                    },
                }
            }
        }
        i = i + 1;
    }
}

/// Buffers and extrudes every road of a recentered list, appending one
/// scene object per corridor mesh.
fn objects_of_roads(rs: &Vec<Road>, out: &mut Vec<SceneObject>)
    requires
        sp_rs_within(roads_view(rs@), crate::mesh::BUFFER_PT_LIMIT as int),
    ensures
        Seq::new(final(out)@.len(), |i: int| final(out)@[i]@) == sp_objects_of_roads(
            roads_view(rs@),
            0,
            Seq::new(old(out)@.len(), |i: int| old(out)@[i]@),
        ),
{
    let len = rs.len();
    let mut i: usize = 0;
    while i < len
        invariant
            i <= len == rs@.len(),
            sp_rs_within(roads_view(rs@), crate::mesh::BUFFER_PT_LIMIT as int),
            sp_objects_of_roads(
                roads_view(rs@),
                0,
                Seq::new(old(out)@.len(), |j: int| old(out)@[j]@),
            ) == sp_objects_of_roads(
                roads_view(rs@),
                i as int,
                Seq::new(out@.len(), |j: int| out@[j]@),
            ),
        decreases len - i,
    {
        proof {
            assert(roads_view(rs@)[i as int] == rs@[i as int]@);
        }
        let r = &rs[i];
        let ghost rm = r@;
        let w = if 0 <= r.width_milli && r.width_milli <= WIDTH_LIMIT_MILLI {
            r.width_milli
        } else {
            0
        };
        let w_ticks = w * TICKS_PER_MILLI;
        let h_ticks = ROAD_CORRIDOR_HEIGHT_MILLI * TICKS_PER_MILLI;
        proof {
            assert(sp_pts_within(rm.points, crate::mesh::BUFFER_PT_LIMIT as int));
        }
        let meshes = crate::mesh::extrude_corridor(&r.points, w_ticks, h_ticks);
        let ghost mspec = sp_meshes_of_road(rm);
        proof {
            assert(Seq::new(meshes@.len(), |j: int| meshes@[j]@) == mspec);
        }
        let ghost pre = Seq::new(out@.len(), |j: int| out@[j]@);
        let m = meshes.len();
        let mut j: usize = 0;
        while j < m
            invariant
                j <= m == meshes@.len(),
                mspec == Seq::new(meshes@.len(), |j2: int| meshes@[j2]@),
                rm == rs@[i as int]@,
                r@ == rm,
                i < rs@.len(),
                Seq::new(out@.len(), |j2: int| out@[j2]@) =~= pre + mspec.map_values(
                    |mm: MeshModel| SceneObjectModel { mesh: mm, kind: SceneKind::Road(rm.class) },
                ).subrange(0, j as int),
            decreases m - j,
        {
            let ghost pre2 = Seq::new(out@.len(), |j2: int| out@[j2]@);
            let mesh = crate::mesh::copy_mesh(&meshes[j]);
            proof {
                assert(mesh@ == meshes@[j as int]@);
            }
            let ghost meshv = mesh@;
            let obj = SceneObject { mesh, kind: SceneKind::Road(r.class) };
            let ghost om = obj@;
            out.push(obj);
            proof {
                assert(om.mesh == meshv);
                assert(mspec[j as int] == meshes@[j as int]@);
                assert(om.mesh == mspec[j as int]);
                assert(om.kind == SceneKind::Road(rm.class));
                assert(om =~~= mspec.map_values(
                    |mm: MeshModel| SceneObjectModel { mesh: mm, kind: SceneKind::Road(rm.class) },
                )[j as int]);
                assert(Seq::new(out@.len(), |j2: int| out@[j2]@) =~= pre2.push(om));
            }
            j = j + 1;
        }
        proof {
            assert(Seq::new(out@.len(), |j2: int| out@[j2]@) =~= pre + mspec.map_values(
                |mm: MeshModel| SceneObjectModel { mesh: mm, kind: SceneKind::Road(rm.class) },
            ));
        }
        i = i + 1;
    }
}

/// The scene a tile payload denotes, end to end: decode the layers,
/// reconstruct and classify the shapes of the three named layers, project
/// every point into world ticks, recenter the whole scene at its
/// bounding-box center, and extrude every shape. The payload's first
/// decode failure is the call's error, and no partial scene exists.
pub open spec fn sp_scene(bytes: Seq<u8>, tx: int, ty: int, sc: int) -> Result<
    SceneModel,
    DecodeError,
> {
    match sp_decode(bytes) {
        Err(e) => Err(e),
        Ok(tile) => {
            let shapes = sp_collected(tile);
            let bs = sp_project_buildings(shapes.0, tx, ty, sc);
            let rs = sp_project_roads(shapes.1, tx, ty, sc);
            let ls = sp_project_buildings(shapes.2, tx, ty, sc);
            let c = sp_scene_center2(bs, rs, ls);
            let bs2 = sp_recenter_buildings(bs, c.0, c.1);
            let rs2 = sp_recenter_roads(rs, c.0, c.1);
            let ls2 = sp_recenter_buildings(ls, c.0, c.1);
            Ok(
                SceneModel {
                    objects: sp_scene_objects(bs2, rs2, ls2),
                    center_x: c.0 as i64,
                    center_y: c.1 as i64,
                },
            )
        },
    }
}

/// Processes one tile payload end to end, exactly as `sp_scene` denotes:
/// decode, reconstruct, resolve, classify, project, recenter, extrude. A
/// malformed payload yields its decode error and no partial scene; a
/// malformed feature is skipped and the rest of the tile is processed.
pub fn process_tile(bytes: &Vec<u8>, tile_x: u32, tile_y: u32, scale_milli: i64) -> (r: Result<
    Scene,
    DecodeError,
>)
    requires
        tile_x <= TILE_INDEX_LIMIT,
        tile_y <= TILE_INDEX_LIMIT,
        0 < scale_milli <= SCALE_MILLI_LIMIT,
    ensures
        match r {
            Ok(s) => sp_scene(bytes@, tile_x as int, tile_y as int, scale_milli as int) == Ok::<
                SceneModel,
                DecodeError,
            >(s@),
            Err(e) => sp_scene(bytes@, tile_x as int, tile_y as int, scale_milli as int) == Err::<
                SceneModel,
                DecodeError,
            >(e),
        },
{
    let tile = match decode(bytes) {
        Err(e) => {
            return Err(e);
        },
        Ok(t) => t,
    };
    let (mut bs, mut rs, mut ls) = collect_shapes(&tile);
    project_buildings_exec(&mut bs, tile_x, tile_y, scale_milli);
    project_roads_exec(&mut rs, tile_x, tile_y, scale_milli);
    project_buildings_exec(&mut ls, tile_x, tile_y, scale_milli);
    let ghost pbs = buildings_view(bs@);
    let ghost prs = roads_view(rs@);
    let ghost pls = buildings_view(ls@);
    proof {
        crate::normalize::lemma_scene_bounds_bounded(pbs, prs, pls);
    }
    let c = crate::normalize::compute_center_and_recenter(&mut bs, &mut rs, &mut ls);
    proof {
        lemma_recentered_bs_within(pbs, c.0 as int, c.1 as int);
        lemma_recentered_rs_within(prs, c.0 as int, c.1 as int);
        lemma_recentered_bs_within(pls, c.0 as int, c.1 as int);
    }
    let mut objects: Vec<SceneObject> = Vec::new();
    proof {
        assert(Seq::new(objects@.len(), |i: int| objects@[i]@) =~= Seq::<
            SceneObjectModel,
        >::empty());
    }
    objects_of_buildings(&bs, &mut objects);
    objects_of_buildings(&ls, &mut objects);
    objects_of_roads(&rs, &mut objects);
    let scene = Scene { objects, center_x: c.0, center_y: c.1 };
    proof {
        let sm = sp_scene(bytes@, tile_x as int, tile_y as int, scale_milli as int)->Ok_0;
        assert(scene@ =~~= sm);
    }
    Ok(scene)
}

} // verus!
