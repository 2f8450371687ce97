//! Verified core of a vector-tile-to-3D-scene pipeline.
//!
//! The library ingests a binary vector-tile payload (protobuf-style nested
//! messages carrying layers, features, tag dictionaries and a streaming
//! geometry-command protocol) and turns it into positioned 3D prism meshes
//! for buildings, land-use polygons and buffered road corridors.
//!
//! All geometry is carried in exact integer fixed-point coordinates so that
//! every stage of the pipeline is verified: tile-local coordinates are
//! quantized integers (extent 0..4096 per axis), projected world coordinates
//! are integers in ticks of `1 / (4096 * 1000)` of a world unit (for a world
//! scale given in thousandths of a world unit per tile), and recentered
//! scene coordinates are integers in ticks of `1 / (2 * 4096 * 1000)` of a
//! world unit (recentering doubles the coordinates so that subtracting the
//! bounding-box center `(min + max) / 2` stays exact). Converting the
//! resulting meshes to whatever floating-point format a renderer consumes is
//! the caller's concern.

//! The stages, in pipeline order: `decode` parses the payload into the
//! `tile` data model; `geometry` replays each feature's command stream
//! against the `builders`, which accumulate rings and polylines; `tags`
//! resolves attributes from indexed tag pairs with the exact fixed-point
//! coercions of `numeric`; `classify` maps resolved kinds to widths,
//! heights and visual classes; `project` maps tile-local points into world
//! ticks; `normalize` recenters the scene at its bounding-box center; and
//! `mesh` extrudes the footprints and buffered road corridors of `shapes`.
//! `pipeline` ties them into one verified call from payload bytes to scene.

pub mod tile;
pub mod project;
pub mod decode;
pub mod numeric;
pub mod tags;
pub mod geometry;
pub mod builders;
pub mod classify;
pub mod shapes;
pub mod normalize;
pub mod mesh;
pub mod pipeline;
