use tilescene::tile::{GeomType, Pt};
use tilescene::geometry::{interpret_geometry, GeomError, GeomEvent};
use tilescene::builders::{polygon_geometry, polyline_lines, BuildingProcessor, RoadProcessor};

fn zz(v: i64) -> u32 {
    (((v << 1) ^ (v >> 63)) & 0xffff_ffff) as u32
}

fn cmd(id: u32, count: u32) -> u32 {
    count << 3 | id
}

#[test]
fn square_ring_reconstructs_with_exact_counts() {
    // MoveTo (0,0); LineTo (10,0), (10,10), (0,10); ClosePath
    let cmds = vec![
        cmd(1, 1),
        zz(0),
        zz(0),
        cmd(2, 3),
        zz(10),
        zz(0),
        zz(0),
        zz(10),
        zz(-10),
        zz(0),
        cmd(7, 1),
    ];
    let events = interpret_geometry(GeomType::Polygon, &cmds).unwrap();
    let rings = polygon_geometry(&events);
    assert_eq!(rings.len(), 1);
    assert_eq!(rings[0].len(), 4);
    assert_eq!(
        rings[0],
        vec![
            Pt { x: 0, y: 0 },
            Pt { x: 10, y: 0 },
            Pt { x: 10, y: 10 },
            Pt { x: 0, y: 10 },
        ]
    );
}

#[test]
fn polygon_with_hole_keeps_both_rings() {
    let cmds = vec![
        cmd(1, 1),
        zz(0),
        zz(0),
        cmd(2, 2),
        zz(8),
        zz(0),
        zz(0),
        zz(8),
        cmd(7, 1),
        cmd(1, 1),
        zz(-6),
        zz(-6),
        cmd(2, 2),
        zz(2),
        zz(0),
        zz(0),
        zz(2),
        cmd(7, 1),
    ];
    let events = interpret_geometry(GeomType::Polygon, &cmds).unwrap();
    let rings = polygon_geometry(&events);
    assert_eq!(rings.len(), 2);
    assert_eq!(rings[0].len(), 3);
    assert_eq!(rings[1].len(), 3);
    // cursor is cumulative across rings
    assert_eq!(rings[1][0], Pt { x: 2, y: 2 });
}

#[test]
fn two_lines_reconstruct_as_two_polylines() {
    let cmds = vec![
        cmd(1, 1),
        zz(0),
        zz(0),
        cmd(2, 1),
        zz(5),
        zz(0),
        cmd(1, 1),
        zz(0),
        zz(7),
        cmd(2, 2),
        zz(1),
        zz(1),
        zz(1),
        zz(1),
    ];
    let events = interpret_geometry(GeomType::Linestring, &cmds).unwrap();
    let lines = polyline_lines(&events);
    assert_eq!(lines.len(), 2);
    assert_eq!(lines[0], vec![Pt { x: 0, y: 0 }, Pt { x: 5, y: 0 }]);
    assert_eq!(
        lines[1],
        vec![Pt { x: 5, y: 7 }, Pt { x: 6, y: 8 }, Pt { x: 7, y: 9 }]
    );
}

#[test]
fn unknown_geometry_type_yields_no_events() {
    let cmds = vec![cmd(1, 1), zz(3), zz(4)];
    let events = interpret_geometry(GeomType::Unknown, &cmds).unwrap();
    assert_eq!(events.len(), 0);
}

#[test]
fn bad_operation_is_rejected() {
    let cmds = vec![cmd(3, 1), zz(0), zz(0)];
    assert_eq!(
        interpret_geometry(GeomType::Polygon, &cmds),
        Err(GeomError::BadCommand)
    );
}

#[test]
fn truncated_deltas_are_rejected() {
    let cmds = vec![cmd(1, 2), zz(0), zz(0)];
    assert_eq!(
        interpret_geometry(GeomType::Polygon, &cmds),
        Err(GeomError::TruncatedGeometry)
    );
}

#[test]
fn close_outside_polygon_is_rejected() {
    let cmds = vec![cmd(1, 1), zz(0), zz(0), cmd(7, 1)];
    assert_eq!(
        interpret_geometry(GeomType::Linestring, &cmds),
        Err(GeomError::UnexpectedClose)
    );
}

#[test]
fn close_with_repeat_count_is_rejected() {
    let cmds = vec![cmd(1, 1), zz(0), zz(0), cmd(7, 2)];
    assert_eq!(
        interpret_geometry(GeomType::Polygon, &cmds),
        Err(GeomError::BadCommand)
    );
}

#[test]
fn empty_ring_buffer_is_dropped_not_emitted() {
    let mut p = BuildingProcessor::new();
    p.on_line_end();
    p.on_point(1, 2);
    p.on_line_end();
    p.on_line_end();
    p.on_polygon_end();
    assert_eq!(p.geometry.len(), 1);
    assert_eq!(p.geometry[0], vec![Pt { x: 1, y: 2 }]);
}

#[test]
fn polygon_without_commit_yields_no_geometry() {
    let mut p = BuildingProcessor::new();
    p.on_point(1, 2);
    p.on_line_end();
    // no polygon end: nothing is committed
    assert_eq!(p.geometry.len(), 0);
}

#[test]
fn empty_line_buffer_is_dropped_not_emitted() {
    let mut p = RoadProcessor::new();
    p.on_line_end();
    p.on_point(3, 4);
    p.on_point(5, 6);
    p.on_line_end();
    assert_eq!(p.lines.len(), 1);
    assert_eq!(p.lines[0], vec![Pt { x: 3, y: 4 }, Pt { x: 5, y: 6 }]);
}

#[test]
fn line_events_end_with_trailing_line_end() {
    let cmds = vec![cmd(1, 1), zz(2), zz(3)];
    let events = interpret_geometry(GeomType::Linestring, &cmds).unwrap();
    assert_eq!(events.last(), Some(&GeomEvent::LineEnd));
}
