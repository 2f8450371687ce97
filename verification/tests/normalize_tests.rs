use tilescene::tile::Pt;
use tilescene::shapes::{Building, Road};
use tilescene::classify::{LanduseClass, RoadClass};
use tilescene::normalize::compute_center_and_recenter;

fn pts(v: &[(i64, i64)]) -> Vec<Pt> {
    v.iter().map(|&(x, y)| Pt { x, y }).collect()
}

fn building(rings: &[&[(i64, i64)]]) -> Building {
    Building {
        geometry: rings.iter().map(|r| pts(r)).collect(),
        height_milli: Some(5000),
        class: None,
    }
}

fn landuse(rings: &[&[(i64, i64)]]) -> Building {
    Building {
        geometry: rings.iter().map(|r| pts(r)).collect(),
        height_milli: Some(50),
        class: Some(LanduseClass::Grass),
    }
}

fn road(points: &[(i64, i64)]) -> Road {
    Road { points: pts(points), width_milli: 4000, class: RoadClass::Major }
}

fn bbox(bs: &[Building], rs: &[Road], ls: &[Building]) -> Option<(i64, i64, i64, i64)> {
    let mut b: Option<(i64, i64, i64, i64)> = None;
    let mut add = |p: &Pt| {
        b = Some(match b {
            None => (p.x, p.y, p.x, p.y),
            Some((lx, ly, hx, hy)) => (lx.min(p.x), ly.min(p.y), hx.max(p.x), hy.max(p.y)),
        });
    };
    for s in bs.iter().chain(ls.iter()) {
        for ring in &s.geometry {
            for p in ring {
                add(p);
            }
        }
    }
    for r in rs {
        for p in &r.points {
            add(p);
        }
    }
    b
}

#[test]
fn recentered_bounding_box_is_symmetric() {
    let mut bs = vec![building(&[&[(10, 20), (30, 20), (30, 45), (10, 45)]])];
    let mut rs = vec![road(&[(0, 5), (100, 7)])];
    let mut ls = vec![landuse(&[&[(40, 40), (60, 40), (60, 60)]])];
    let c = compute_center_and_recenter(&mut bs, &mut rs, &mut ls);
    // before: x in [0, 100], y in [5, 60]; doubled center is (100, 65)
    assert_eq!(c, (100, 65));
    let (lx, ly, hx, hy) = bbox(&bs, &rs, &ls).unwrap();
    assert_eq!(lx, -hx);
    assert_eq!(ly, -hy);
}

#[test]
fn recentering_maps_each_point_exactly() {
    let mut bs = vec![building(&[&[(0, 0), (10, 0), (10, 10)]])];
    let mut rs: Vec<Road> = Vec::new();
    let mut ls: Vec<Building> = Vec::new();
    let c = compute_center_and_recenter(&mut bs, &mut rs, &mut ls);
    assert_eq!(c, (10, 10));
    // each point p becomes 2 * p - (min + max)
    assert_eq!(
        bs[0].geometry[0],
        pts(&[(-10, -10), (10, -10), (10, 10)])
    );
    // attributes are untouched
    assert_eq!(bs[0].height_milli, Some(5000));
}

#[test]
fn landuse_points_participate_in_the_bounding_box() {
    // only the land-use polygon reaches beyond x = 10: if it were left out
    // of the box, the center would be (10, 10) instead
    let mut bs = vec![building(&[&[(0, 0), (10, 0), (10, 10)]])];
    let mut rs: Vec<Road> = Vec::new();
    let mut ls = vec![landuse(&[&[(0, 0), (90, 0), (90, 10)]])];
    let c = compute_center_and_recenter(&mut bs, &mut rs, &mut ls);
    assert_eq!(c, (90, 10));
}

#[test]
fn empty_scene_recenters_with_zero_offset() {
    let mut bs: Vec<Building> = Vec::new();
    let mut rs: Vec<Road> = Vec::new();
    let mut ls: Vec<Building> = Vec::new();
    let c = compute_center_and_recenter(&mut bs, &mut rs, &mut ls);
    assert_eq!(c, (0, 0));
}

#[test]
fn single_point_scene_recenters_to_origin() {
    let mut bs = vec![building(&[&[(7, -3)]])];
    let mut rs: Vec<Road> = Vec::new();
    let mut ls: Vec<Building> = Vec::new();
    let c = compute_center_and_recenter(&mut bs, &mut rs, &mut ls);
    assert_eq!(c, (14, -6));
    assert_eq!(bs[0].geometry[0], pts(&[(0, 0)]));
}

#[test]
fn road_attributes_survive_recentering() {
    let mut bs: Vec<Building> = Vec::new();
    let mut rs = vec![road(&[(0, 0), (10, 0)])];
    let mut ls: Vec<Building> = Vec::new();
    compute_center_and_recenter(&mut bs, &mut rs, &mut ls);
    assert_eq!(rs[0].width_milli, 4000);
    assert_eq!(rs[0].class, RoadClass::Major);
    assert_eq!(rs[0].points, pts(&[(-10, 0), (10, 0)]));
}
