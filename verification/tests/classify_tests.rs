use tilescene::classify::{
    classify_road, classify_landuse, RoadClass, LanduseClass, ROAD_WIDTH_MAJOR_MILLI,
    ROAD_WIDTH_MINOR_MILLI, ROAD_WIDTH_PATH_MILLI, ROAD_WIDTH_DEFAULT_MILLI,
    LANDUSE_HEIGHT_OTHER_MILLI, LANDUSE_HEIGHT_GRASS_MILLI, LANDUSE_HEIGHT_PEDESTRIAN_MILLI,
    LANDUSE_HEIGHT_DEFAULT_MILLI,
};
use tilescene::project::tile_to_world;

#[test]
fn road_table_maps_each_named_kind() {
    assert_eq!(
        classify_road(&Some(b"major_road".to_vec())),
        (ROAD_WIDTH_MAJOR_MILLI, RoadClass::Major)
    );
    assert_eq!(
        classify_road(&Some(b"minor_road".to_vec())),
        (ROAD_WIDTH_MINOR_MILLI, RoadClass::Minor)
    );
    assert_eq!(
        classify_road(&Some(b"path".to_vec())),
        (ROAD_WIDTH_PATH_MILLI, RoadClass::Path)
    );
}

#[test]
fn unknown_road_kind_falls_into_default_bucket() {
    assert_eq!(
        classify_road(&Some(b"unknown_value".to_vec())),
        (ROAD_WIDTH_DEFAULT_MILLI, RoadClass::Other)
    );
    assert_eq!(
        classify_road(&Some(b"other".to_vec())),
        (ROAD_WIDTH_DEFAULT_MILLI, RoadClass::Other)
    );
    assert_eq!(classify_road(&None), (ROAD_WIDTH_DEFAULT_MILLI, RoadClass::Other));
}

#[test]
fn landuse_table_maps_each_named_kind() {
    assert_eq!(
        classify_landuse(&Some(b"other".to_vec())),
        (LANDUSE_HEIGHT_OTHER_MILLI, LanduseClass::Other)
    );
    assert_eq!(
        classify_landuse(&Some(b"grass".to_vec())),
        (LANDUSE_HEIGHT_GRASS_MILLI, LanduseClass::Grass)
    );
    assert_eq!(
        classify_landuse(&Some(b"pedestrian".to_vec())),
        (LANDUSE_HEIGHT_PEDESTRIAN_MILLI, LanduseClass::Pedestrian)
    );
}

#[test]
fn unknown_landuse_kind_falls_into_its_own_bucket() {
    let unknown = classify_landuse(&Some(b"unknown_value".to_vec()));
    assert_eq!(unknown, (LANDUSE_HEIGHT_DEFAULT_MILLI, LanduseClass::Unknown));
    // the unknown bucket is distinct from every named bucket
    assert_ne!(unknown, classify_landuse(&Some(b"other".to_vec())));
    assert_ne!(unknown, classify_landuse(&Some(b"grass".to_vec())));
    assert_ne!(unknown, classify_landuse(&Some(b"pedestrian".to_vec())));
}

#[test]
fn absent_landuse_kind_reads_as_other() {
    assert_eq!(
        classify_landuse(&None),
        (LANDUSE_HEIGHT_OTHER_MILLI, LanduseClass::Other)
    );
}

#[test]
fn projection_is_exact_and_deterministic() {
    // (tile * 4096 + local) * scale_milli, per axis
    let p = tile_to_world(2048, 1024, 6827, 12436, 1_000_000);
    assert_eq!(p.x, (6827i64 * 4096 + 2048) * 1_000_000);
    assert_eq!(p.y, (12436i64 * 4096 + 1024) * 1_000_000);
    // identical inputs always yield identical outputs
    let q = tile_to_world(2048, 1024, 6827, 12436, 1_000_000);
    assert_eq!(p, q);
}

#[test]
fn projection_accepts_negative_overflow_coordinates() {
    // tile-local coordinates may leave the 0..4096 extent
    let p = tile_to_world(-64, 4200, 5, 5, 1000);
    assert_eq!(p.x, (5i64 * 4096 - 64) * 1000);
    assert_eq!(p.y, (5i64 * 4096 + 4200) * 1000);
}
