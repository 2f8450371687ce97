use tilescene::decode::DecodeError;
use tilescene::classify::{LanduseClass, RoadClass};
use tilescene::pipeline::{process_tile, SceneKind};

fn vint(mut v: u64, out: &mut Vec<u8>) {
    loop {
        let low = (v & 0x7f) as u8;
        v >>= 7;
        if v == 0 {
            out.push(low);
            return;
        }
        out.push(low | 0x80);
    }
}

fn key(field: u64, wire: u64, out: &mut Vec<u8>) {
    vint(field << 3 | wire, out);
}

fn chunk(field: u64, bytes: &[u8], out: &mut Vec<u8>) {
    key(field, 2, out);
    vint(bytes.len() as u64, out);
    out.extend_from_slice(bytes);
}

fn value_string(s: &[u8]) -> Vec<u8> {
    let mut v = Vec::new();
    chunk(1, s, &mut v);
    v
}

fn value_double(f: f64) -> Vec<u8> {
    let mut v = Vec::new();
    key(3, 1, &mut v);
    v.extend_from_slice(&f.to_bits().to_le_bytes());
    v
}

fn feature(tags: &[u32], gtype: u64, geometry: &[u32]) -> Vec<u8> {
    let mut f = Vec::new();
    let mut tag_bytes = Vec::new();
    for t in tags {
        vint(*t as u64, &mut tag_bytes);
    }
    chunk(2, &tag_bytes, &mut f);
    key(3, 0, &mut f);
    vint(gtype, &mut f);
    let mut geom_bytes = Vec::new();
    for g in geometry {
        vint(*g as u64, &mut geom_bytes);
    }
    chunk(4, &geom_bytes, &mut f);
    f
}

fn layer(name: &[u8], keys: &[&[u8]], values: &[Vec<u8>], features: &[Vec<u8>]) -> Vec<u8> {
    let mut l = Vec::new();
    chunk(1, name, &mut l);
    for f in features {
        chunk(2, f, &mut l);
    }
    for k in keys {
        chunk(3, k, &mut l);
    }
    for v in values {
        chunk(4, v, &mut l);
    }
    l
}

fn tile(layers: &[Vec<u8>]) -> Vec<u8> {
    let mut t = Vec::new();
    for l in layers {
        chunk(3, l, &mut t);
    }
    t
}

fn zz(v: i64) -> u32 {
    (((v << 1) ^ (v >> 63)) & 0xffff_ffff) as u32
}

fn cmd(id: u32, count: u32) -> u32 {
    count << 3 | id
}

fn square_polygon() -> Vec<u32> {
    vec![
        cmd(1, 1),
        zz(0),
        zz(0),
        cmd(2, 3),
        zz(10),
        zz(0),
        zz(0),
        zz(10),
        zz(-10),
        zz(0),
        cmd(7, 1),
    ]
}

fn straight_line() -> Vec<u32> {
    vec![cmd(1, 1), zz(100), zz(100), cmd(2, 1), zz(10), zz(0)]
}

#[test]
fn well_formed_tile_yields_one_object_per_shape() {
    let buildings = layer(
        b"buildings",
        &[b"height"],
        &[value_double(5.0)],
        &[feature(&[0, 0], 3, &square_polygon())],
    );
    let roads = layer(
        b"roads",
        &[b"kind"],
        &[value_string(b"major_road")],
        &[feature(&[0, 0], 2, &straight_line())],
    );
    let landuse = layer(
        b"landuse",
        &[b"kind"],
        &[value_string(b"grass")],
        &[feature(&[0, 0], 3, &square_polygon())],
    );
    let bytes = tile(&[buildings, roads, landuse]);
    let scene = process_tile(&bytes, 6827, 12436, 1_000_000).unwrap();
    // one building, one land-use polygon, one road corridor, in that order
    assert_eq!(scene.objects.len(), 3);
    assert_eq!(scene.objects[0].kind, SceneKind::Building);
    assert_eq!(scene.objects[1].kind, SceneKind::Landuse(LanduseClass::Grass));
    assert_eq!(scene.objects[2].kind, SceneKind::Road(RoadClass::Major));
    // ring and point counts carry through: 4 ring points become 8 prism
    // vertices and 2 + 2 + 8 faces
    assert_eq!(scene.objects[0].mesh.vertices.len(), 8);
    assert_eq!(scene.objects[0].mesh.triangles.len(), 12);
    assert_eq!(scene.objects[1].mesh.vertices.len(), 8);
    // the road corridor is one rectangle
    assert_eq!(scene.objects[2].mesh.vertices.len(), 8);
    // the building is extruded by its height tag: 5 units of 8192000
    // recentered ticks each
    let zs: Vec<i64> = scene.objects[0].mesh.vertices.iter().map(|v| v.z).collect();
    assert!(zs.iter().all(|&z| z == 0 || z == 5 * 8_192_000));
    assert!(zs.contains(&0) && zs.contains(&(5 * 8_192_000)));
}

#[test]
fn malformed_payload_aborts_the_tile() {
    let bytes = vec![0x80u8];
    assert_eq!(process_tile(&bytes, 0, 0, 1000), Err(DecodeError::Truncated));
}

#[test]
fn malformed_feature_is_skipped_not_fatal() {
    // the first feature's geometry is truncated; the second is sound
    let bad = feature(&[], 3, &[cmd(1, 2), zz(0), zz(0)]);
    let good = feature(&[], 3, &square_polygon());
    let buildings = layer(b"buildings", &[], &[], &[bad, good]);
    let bytes = tile(&[buildings]);
    let scene = process_tile(&bytes, 0, 0, 1000).unwrap();
    assert_eq!(scene.objects.len(), 1);
    assert_eq!(scene.objects[0].kind, SceneKind::Building);
}

#[test]
fn building_without_height_gets_the_default() {
    let buildings = layer(b"buildings", &[], &[], &[feature(&[], 3, &square_polygon())]);
    let bytes = tile(&[buildings]);
    let scene = process_tile(&bytes, 0, 0, 1_000_000).unwrap();
    // default height 10 units, in recentered ticks
    let top = scene.objects[0].mesh.vertices.iter().map(|v| v.z).max().unwrap();
    assert_eq!(top, 10 * 8_192_000);
}

#[test]
fn unknown_road_kind_resolves_to_default_bucket() {
    let roads = layer(
        b"roads",
        &[b"kind"],
        &[value_string(b"unknown_value")],
        &[feature(&[0, 0], 2, &straight_line())],
    );
    let bytes = tile(&[roads]);
    let scene = process_tile(&bytes, 0, 0, 1_000_000).unwrap();
    assert_eq!(scene.objects.len(), 1);
    assert_eq!(scene.objects[0].kind, SceneKind::Road(RoadClass::Other));
}

#[test]
fn unknown_landuse_kind_resolves_to_default_bucket() {
    let landuse = layer(
        b"landuse",
        &[b"kind"],
        &[value_string(b"unknown_value")],
        &[feature(&[0, 0], 3, &square_polygon())],
    );
    let bytes = tile(&[landuse]);
    let scene = process_tile(&bytes, 0, 0, 1_000_000).unwrap();
    assert_eq!(scene.objects.len(), 1);
    assert_eq!(
        scene.objects[0].kind,
        SceneKind::Landuse(LanduseClass::Unknown)
    );
}

#[test]
fn other_layers_are_passed_over() {
    let water = layer(b"water", &[], &[], &[feature(&[], 3, &square_polygon())]);
    let bytes = tile(&[water]);
    let scene = process_tile(&bytes, 0, 0, 1000).unwrap();
    assert_eq!(scene.objects.len(), 0);
    assert_eq!((scene.center_x, scene.center_y), (0, 0));
}

#[test]
fn polygon_feature_without_rings_yields_no_object() {
    // a polygon feature whose stream has no close: no ring is committed
    let open_geom = vec![cmd(1, 1), zz(0), zz(0), cmd(2, 1), zz(5), zz(0)];
    let buildings = layer(b"buildings", &[], &[], &[feature(&[], 3, &open_geom)]);
    let bytes = tile(&[buildings]);
    let scene = process_tile(&bytes, 0, 0, 1000).unwrap();
    assert_eq!(scene.objects.len(), 0);
}

#[test]
fn scene_center_is_the_doubled_bounding_box_center() {
    let buildings = layer(b"buildings", &[], &[], &[feature(&[], 3, &square_polygon())]);
    let bytes = tile(&[buildings]);
    let scene = process_tile(&bytes, 3, 4, 1000).unwrap();
    // the square spans local 0..10 at tile (3,4) with 1000 milli-units per
    // tile: projected x in [3*4096*1000, (3*4096+10)*1000]
    let lo_x = 3i64 * 4096 * 1000;
    let hi_x = (3i64 * 4096 + 10) * 1000;
    let lo_y = 4i64 * 4096 * 1000;
    let hi_y = (4i64 * 4096 + 10) * 1000;
    assert_eq!(scene.center_x, lo_x + hi_x);
    assert_eq!(scene.center_y, lo_y + hi_y);
}
