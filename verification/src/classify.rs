//! Feature classifier: pure lookup tables from a resolved `kind` string to
//! a road's width and visual class, and to a land-use polygon's height and
//! visual class.
//!
//! The tables are configuration constants with a mandatory fallback bucket:
//! an unknown or absent `kind` maps to an explicit default, never to an
//! error. Dimensions are in thousandths of a world unit.

use vstd::prelude::*;
use vstd::string::StringSliceAdditionalSpecFns;

verus! {

/// Visual class of a road corridor.
#[derive(Clone, Copy, PartialEq, Eq, Structural, Debug)]
pub enum RoadClass {
    Major,
    Minor,
    Path,
    Other,
}

/// Visual class of a land-use polygon.
#[derive(Clone, Copy, PartialEq, Eq, Structural, Debug)]
pub enum LanduseClass {
    Other,
    Grass,
    Pedestrian,
    Unknown,
}

/// Corridor width of a major road, in milli-units.
pub const ROAD_WIDTH_MAJOR_MILLI: i64 = 4000;

/// Corridor width of a minor road, in milli-units.
pub const ROAD_WIDTH_MINOR_MILLI: i64 = 125;

/// Corridor width of a path, in milli-units.
pub const ROAD_WIDTH_PATH_MILLI: i64 = 60;

/// Corridor width of the default road bucket, in milli-units.
pub const ROAD_WIDTH_DEFAULT_MILLI: i64 = 20;

/// Extrusion height of the `other` land-use bucket, in milli-units.
pub const LANDUSE_HEIGHT_OTHER_MILLI: i64 = 50;

/// Extrusion height of grass, in milli-units.
pub const LANDUSE_HEIGHT_GRASS_MILLI: i64 = 80;

/// Extrusion height of pedestrian areas, in milli-units.
pub const LANDUSE_HEIGHT_PEDESTRIAN_MILLI: i64 = 100;

/// Extrusion height of the unknown land-use bucket, in milli-units.
pub const LANDUSE_HEIGHT_DEFAULT_MILLI: i64 = 20;

/// Extrusion height of every road corridor, in milli-units.
pub const ROAD_CORRIDOR_HEIGHT_MILLI: i64 = 150;

/// Extrusion height of a building without a height tag, in milli-units.
pub const BUILDING_DEFAULT_HEIGHT_MILLI: i64 = 10000;

/// Whether two byte strings hold the same bytes, the second given as a
/// string literal.
pub fn bytes_eq_str(a: &Vec<u8>, s: &str) -> (r: bool)
    ensures
        r == (a@ == s.spec_bytes()),
{
    let b = s.as_bytes();
    if a.len() != b.len() {
        proof {
            assert(a@ != s.spec_bytes());
        }
        return false;
    }
    let mut i: usize = 0;
    while i < a.len()
        invariant
            i <= a@.len() == s.spec_bytes().len(),
            b@ == s.spec_bytes(),
            forall|j: int| 0 <= j < i ==> a@[j] == s.spec_bytes()[j],
        decreases a@.len() - i,
    {
        if a[i] != b[i] {
            return false;
        }
        i = i + 1;
    }
    proof {
        assert(a@ =~= s.spec_bytes());
    }
    true
}

/// The road table: `major_road` is wide, `minor_road` narrow, `path` very
/// narrow, and every other kind falls into the thin default bucket. An
/// absent kind reads as `other`, which no road-table entry names, so it
/// lands in the default bucket too.
pub open spec fn sp_classify_road(kind: Option<Seq<u8>>) -> (int, RoadClass) {
    match kind {
        None => (ROAD_WIDTH_DEFAULT_MILLI as int, RoadClass::Other),
        Some(k) => if k == "major_road".spec_bytes() {
            (ROAD_WIDTH_MAJOR_MILLI as int, RoadClass::Major)
        } else if k == "minor_road".spec_bytes() {
            (ROAD_WIDTH_MINOR_MILLI as int, RoadClass::Minor)
        } else if k == "path".spec_bytes() {
            (ROAD_WIDTH_PATH_MILLI as int, RoadClass::Path)
        } else {
            (ROAD_WIDTH_DEFAULT_MILLI as int, RoadClass::Other)
        },
    }
}

/// Classifies a road's resolved `kind` into its corridor width (in
/// milli-units) and visual class.
pub fn classify_road(kind: &Option<Vec<u8>>) -> (r: (i64, RoadClass))
    ensures
        (r.0 as int, r.1) == sp_classify_road(
            match kind {
                Some(s) => Some(s@),
                None => None,
            },
        ),
{
    match kind {
        None => (ROAD_WIDTH_DEFAULT_MILLI, RoadClass::Other),
        Some(k) => {
            if bytes_eq_str(k, "major_road") {
                (ROAD_WIDTH_MAJOR_MILLI, RoadClass::Major)
            } else if bytes_eq_str(k, "minor_road") {
                (ROAD_WIDTH_MINOR_MILLI, RoadClass::Minor)
            } else if bytes_eq_str(k, "path") {
                (ROAD_WIDTH_PATH_MILLI, RoadClass::Path)
            } else {
                (ROAD_WIDTH_DEFAULT_MILLI, RoadClass::Other)
            }
        },
    }
}

/// The land-use table: `other`, `grass` and `pedestrian` each map to their
/// own height and class, and an absent kind reads as `other`; any other
/// kind falls into a default bucket distinct from all three.
pub open spec fn sp_classify_landuse(kind: Option<Seq<u8>>) -> (int, LanduseClass) {
    match kind {
        None => (LANDUSE_HEIGHT_OTHER_MILLI as int, LanduseClass::Other),
        Some(k) => if k == "other".spec_bytes() {
            (LANDUSE_HEIGHT_OTHER_MILLI as int, LanduseClass::Other)
        } else if k == "grass".spec_bytes() {
            (LANDUSE_HEIGHT_GRASS_MILLI as int, LanduseClass::Grass)
        } else if k == "pedestrian".spec_bytes() {
            (LANDUSE_HEIGHT_PEDESTRIAN_MILLI as int, LanduseClass::Pedestrian)
        } else {
            (LANDUSE_HEIGHT_DEFAULT_MILLI as int, LanduseClass::Unknown)
        },
    }
}

/// Classifies a land-use polygon's resolved `kind` into its extrusion
/// height (in milli-units) and visual class.
pub fn classify_landuse(kind: &Option<Vec<u8>>) -> (r: (i64, LanduseClass))
    ensures
        (r.0 as int, r.1) == sp_classify_landuse(
            match kind {
                Some(s) => Some(s@),
                None => None,
            },
        ),
{
    match kind {
        None => (LANDUSE_HEIGHT_OTHER_MILLI, LanduseClass::Other),
        Some(k) => {
            if bytes_eq_str(k, "other") {
                (LANDUSE_HEIGHT_OTHER_MILLI, LanduseClass::Other)
            } else if bytes_eq_str(k, "grass") {
                (LANDUSE_HEIGHT_GRASS_MILLI, LanduseClass::Grass)
            } else if bytes_eq_str(k, "pedestrian") {
                (LANDUSE_HEIGHT_PEDESTRIAN_MILLI, LanduseClass::Pedestrian)
            } else {
                (LANDUSE_HEIGHT_DEFAULT_MILLI, LanduseClass::Unknown)
            }
        },
    }
}

} // verus!
