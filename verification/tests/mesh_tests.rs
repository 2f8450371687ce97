use tilescene::tile::Pt;
use tilescene::mesh::{extrude_polygon, extrude_corridor, triangulate, isqrt, MeshData};

fn pts(v: &[(i64, i64)]) -> Vec<Pt> {
    v.iter().map(|&(x, y)| Pt { x, y }).collect()
}

/// Twice the signed footprint area of the mesh's top face.
fn top_face_area2(m: &MeshData) -> i128 {
    let n = m.vertices.len() / 2;
    let t = (m.triangles.len() - 2 * n) / 2;
    let mut area2: i128 = 0;
    for tri in &m.triangles[t..2 * t] {
        let a = m.vertices[tri.a];
        let b = m.vertices[tri.b];
        let c = m.vertices[tri.c];
        area2 += (b.x as i128 - a.x as i128) * (c.y as i128 - a.y as i128)
            - (b.y as i128 - a.y as i128) * (c.x as i128 - a.x as i128);
    }
    area2
}

#[test]
fn square_footprint_extrudes_to_closed_prism() {
    let ring = pts(&[(0, 0), (10, 0), (10, 10), (0, 10)]);
    let mesh = extrude_polygon(&ring, 5).unwrap();
    // two copies of the ring, at the base and at the top
    assert_eq!(mesh.vertices.len(), 8);
    for (i, v) in mesh.vertices.iter().enumerate() {
        if i < 4 {
            assert_eq!(v.z, 0);
            assert_eq!((v.x, v.y), (ring[i].x, ring[i].y));
        } else {
            assert_eq!(v.z, 5);
            assert_eq!((v.x, v.y), (ring[i - 4].x, ring[i - 4].y));
        }
    }
    // n - 2 triangles for the top, the same for the bottom, 2 per side edge
    assert_eq!(mesh.triangles.len(), 2 * 2 + 2 * 4);
    for tri in &mesh.triangles {
        assert!(tri.a < 8 && tri.b < 8 && tri.c < 8);
    }
    // footprint area 100, counterclockwise
    assert_eq!(top_face_area2(&mesh), 200);
}

#[test]
fn clockwise_square_also_extrudes_with_area_100() {
    let ring = pts(&[(0, 10), (10, 10), (10, 0), (0, 0)]);
    let mesh = extrude_polygon(&ring, 5).unwrap();
    assert_eq!(top_face_area2(&mesh).abs(), 200);
}

#[test]
fn concave_footprint_triangulates_fully() {
    // an L shape of six vertices
    let ring = pts(&[(0, 0), (4, 0), (4, 2), (2, 2), (2, 4), (0, 4)]);
    let tris = triangulate(&ring).unwrap();
    assert_eq!(tris.len(), 4);
    let mesh = extrude_polygon(&ring, 3).unwrap();
    // L-shape area: 4*2 + 2*2 = 12
    assert_eq!(top_face_area2(&mesh), 24);
}

#[test]
fn collinear_triangle_yields_no_mesh() {
    let ring = pts(&[(0, 0), (5, 0), (10, 0)]);
    assert_eq!(triangulate(&ring), None);
    assert_eq!(extrude_polygon(&ring, 5), None);
}

#[test]
fn short_rings_yield_no_mesh() {
    assert_eq!(extrude_polygon(&pts(&[]), 5), None);
    assert_eq!(extrude_polygon(&pts(&[(0, 0)]), 5), None);
    assert_eq!(extrude_polygon(&pts(&[(0, 0), (10, 0)]), 5), None);
}

#[test]
fn repeated_point_ring_yields_no_mesh() {
    let ring = pts(&[(1, 1), (1, 1), (1, 1)]);
    assert_eq!(extrude_polygon(&ring, 5), None);
}

#[test]
fn straight_road_buffers_to_area_twenty() {
    // a road from (0,0) to (10,0), width 2: one rectangle 10 by 2
    let line = pts(&[(0, 0), (10, 0)]);
    let meshes = extrude_corridor(&line, 2, 1);
    assert_eq!(meshes.len(), 1);
    assert_eq!(top_face_area2(&meshes[0]), 40);
    // the corridor is extruded by the given height
    assert!(meshes[0].vertices.iter().all(|v| v.z == 0 || v.z == 1));
}

#[test]
fn bent_road_buffers_one_rectangle_per_segment() {
    let line = pts(&[(0, 0), (10, 0), (10, 10)]);
    let meshes = extrude_corridor(&line, 2, 1);
    assert_eq!(meshes.len(), 2);
    assert_eq!(top_face_area2(&meshes[0]), 40);
    assert_eq!(top_face_area2(&meshes[1]).abs(), 40);
}

#[test]
fn short_or_degenerate_roads_yield_no_mesh() {
    assert_eq!(extrude_corridor(&pts(&[]), 2, 1).len(), 0);
    assert_eq!(extrude_corridor(&pts(&[(3, 3)]), 2, 1).len(), 0);
    // a zero-length segment has no direction
    assert_eq!(extrude_corridor(&pts(&[(3, 3), (3, 3)]), 2, 1).len(), 0);
}

#[test]
fn diagonal_road_area_approximates_length_times_width() {
    // a 3-4-5 triangle: length exactly 5000, width 200
    let line = pts(&[(0, 0), (3000, 4000)]);
    let meshes = extrude_corridor(&line, 200, 1);
    assert_eq!(meshes.len(), 1);
    let area2 = top_face_area2(&meshes[0]);
    // exact: offsets are (4000*100/5000, -3000*100/5000) = (80, -60),
    // so the footprint is exactly length 5000 by width 200
    assert_eq!(area2, 2 * 5000 * 200);
}

#[test]
fn isqrt_is_exact() {
    assert_eq!(isqrt(0), 0);
    assert_eq!(isqrt(1), 1);
    assert_eq!(isqrt(3), 1);
    assert_eq!(isqrt(4), 2);
    assert_eq!(isqrt(25_000_000), 5000);
    assert_eq!(isqrt(u64::MAX as u128), 0xffff_ffff);
    let big: u128 = (1u128 << 125) - 1;
    let r = isqrt(big) as u128;
    assert!(r * r <= big && (r + 1) * (r + 1) > big);
}
