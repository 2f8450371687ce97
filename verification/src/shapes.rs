//! Reconstructed scene shapes: building and land-use footprints, and road
//! polylines, with their resolved attributes.

use vstd::prelude::*;
use crate::tile::Pt;
use crate::classify::{LanduseClass, RoadClass};

verus! {

/// A polygon footprint: ring sequence (the outer ring first), an optional
/// extrusion height, and, for land-use polygons, a visual class.
///
/// Created per polygon feature during reconstruction, given its height and
/// class once from the feature's tags, and immutable from then on.
#[derive(Clone, PartialEq, Eq, Debug)]
pub struct Building {
    /// The rings, in completion order; holes after the outer ring are
    /// carried but only the outer ring drives extrusion.
    pub geometry: Vec<Vec<Pt>>,
    /// Extrusion height in milli-units; absent means the default height.
    pub height_milli: Option<i64>,
    /// The visual class of a land-use polygon; buildings carry none.
    pub class: Option<LanduseClass>,
}

/// Mathematical model of a `Building`.
#[verifier::ext_equal]
pub struct BuildingModel {
    pub geometry: Seq<Seq<Pt>>,
    pub height_milli: Option<i64>,
    pub class: Option<LanduseClass>,
}

impl View for Building {
    type V = BuildingModel;

    open spec fn view(&self) -> BuildingModel {
        BuildingModel {
            geometry: Seq::new(self.geometry@.len(), |i: int| self.geometry@[i]@),
            height_milli: self.height_milli,
            class: self.class,
        }
    }
}

/// A road polyline with its corridor width and visual class, both fixed
/// from the feature's tags before reconstruction.
#[derive(Clone, PartialEq, Eq, Debug)]
pub struct Road {
    pub points: Vec<Pt>,
    /// Corridor width in milli-units.
    pub width_milli: i64,
    pub class: RoadClass,
}

/// Mathematical model of a `Road`.
#[verifier::ext_equal]
pub struct RoadModel {
    pub points: Seq<Pt>,
    pub width_milli: i64,
    pub class: RoadClass,
}

impl View for Road {
    type V = RoadModel;

    open spec fn view(&self) -> RoadModel {
        RoadModel { points: self.points@, width_milli: self.width_milli, class: self.class }
    }
}

} // verus!
