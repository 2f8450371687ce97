//! Geometry reconstructors: stateful consumers of the replayed geometry
//! events, one for polygon features and one for line features.
//!
//! Both follow the same three-call protocol. A point call appends a vertex
//! to the ring or line being built; a line-end call commits a non-empty
//! buffer as one finished ring or line and drops an empty one; a
//! polygon-end call (polygon mode only) commits the accumulated rings as
//! the shape's final geometry, the first ring being the outer boundary.

use vstd::prelude::*;
use crate::tile::Pt;
use crate::geometry::{GeomEvent, sp_events_bounded};

verus! {

/// Copies a point sequence.
pub fn copy_ring(v: &Vec<Pt>) -> (r: Vec<Pt>)
    ensures
        r@ == v@,
{
    let mut out: Vec<Pt> = Vec::new();
    let mut i: usize = 0;
    while i < v.len()
        invariant
            i <= v@.len(),
            out@ =~= v@.subrange(0, i as int),
        decreases v@.len() - i,
    {
        out.push(v[i]);
        i = i + 1;
    }
    proof {
        assert(out@ =~= v@);
    }
    out
}

/// State of a polygon-mode reconstruction.
#[verifier::ext_equal]
pub struct PolyState {
    /// The ring being built.
    pub current: Seq<Pt>,
    /// Finished rings, in completion order; the first is the outer ring.
    pub rings: Seq<Seq<Pt>>,
    /// The rings committed as the polygon's geometry.
    pub committed: Seq<Seq<Pt>>,
}

/// The state a fresh polygon reconstruction starts from.
pub open spec fn sp_poly_init() -> PolyState {
    PolyState {
        current: Seq::<Pt>::empty(),
        rings: Seq::<Seq<Pt>>::empty(),
        committed: Seq::<Seq<Pt>>::empty(),
    }
}

/// How one event changes a polygon reconstruction.
pub open spec fn sp_poly_step(s: PolyState, e: GeomEvent) -> PolyState {
    match e {
        GeomEvent::Point(p) => PolyState { current: s.current.push(p), ..s },
        GeomEvent::LineEnd => if s.current.len() == 0 {
            s
        } else {
            PolyState { current: Seq::<Pt>::empty(), rings: s.rings.push(s.current), ..s }
        },
        GeomEvent::PolygonEnd => PolyState { committed: s.rings, ..s },
    }
}

/// A polygon reconstruction run over the events from `i` on.
pub open spec fn sp_poly_run(ev: Seq<GeomEvent>, i: int, s: PolyState) -> PolyState
    decreases ev.len() - i,
{
    if i < 0 || i >= ev.len() {
        s
    } else {
        sp_poly_run(ev, i + 1, sp_poly_step(s, ev[i]))
    }
}

/// The ring sequence a polygon feature's events commit. Point counts and
/// ring counts are exactly what the events dictate: every point event adds
/// one vertex, every line end with a non-empty buffer adds one ring.
pub open spec fn sp_polygon_geometry(ev: Seq<GeomEvent>) -> Seq<Seq<Pt>> {
    sp_poly_run(ev, 0, sp_poly_init()).committed
}

/// Polygon-mode reconstructor: accumulates rings for one building or
/// land-use footprint.
pub struct BuildingProcessor {
    /// The ring being built.
    pub current_ring: Vec<Pt>,
    /// Finished rings, outer ring first.
    pub rings: Vec<Vec<Pt>>,
    /// The committed polygon geometry.
    pub geometry: Vec<Vec<Pt>>,
}

impl View for BuildingProcessor {
    type V = PolyState;

    open spec fn view(&self) -> PolyState {
        PolyState {
            current: self.current_ring@,
            rings: Seq::new(self.rings@.len(), |i: int| self.rings@[i]@),
            committed: Seq::new(self.geometry@.len(), |i: int| self.geometry@[i]@),
        }
    }
}

impl BuildingProcessor {
    /// A reconstructor with nothing accumulated.
    pub fn new() -> (p: BuildingProcessor)
        ensures
            p@ == sp_poly_init(),
    {
        let p = BuildingProcessor { current_ring: Vec::new(), rings: Vec::new(), geometry: Vec::new() };
        proof {
            assert(p@ =~~= sp_poly_init());
        }
        p
    }

    /// Appends one vertex to the ring being built.
    pub fn on_point(&mut self, x: i64, y: i64)
        ensures
            final(self)@ == sp_poly_step(old(self)@, GeomEvent::Point(Pt { x, y })),
    {
        let ghost prev = self@;
        self.current_ring.push(Pt { x, y });
        proof {
            assert(self@ =~~= sp_poly_step(prev, GeomEvent::Point(Pt { x, y })));
        }
    }

    /// Commits a non-empty ring buffer as one finished ring; an empty
    /// buffer is left alone, so empty rings are never emitted.
    pub fn on_line_end(&mut self)
        ensures
            final(self)@ == sp_poly_step(old(self)@, GeomEvent::LineEnd),
    {
        let ghost prev = self@;
        if self.current_ring.len() > 0 {
            let ring = copy_ring(&self.current_ring);
            self.rings.push(ring);
            self.current_ring = Vec::new();
            proof {
                assert(self@ =~~= sp_poly_step(prev, GeomEvent::LineEnd));
            }
        } else {
            proof {
                assert(self@ =~~= sp_poly_step(prev, GeomEvent::LineEnd));
            }
        }
    }

    /// Commits the accumulated rings as the polygon's final geometry.
    pub fn on_polygon_end(&mut self)
        ensures
            final(self)@ == sp_poly_step(old(self)@, GeomEvent::PolygonEnd),
    {
        let ghost prev = self@;
        let mut committed: Vec<Vec<Pt>> = Vec::new();
        let mut i: usize = 0;
        while i < self.rings.len()
            invariant
                i <= self.rings@.len(),
                committed@.len() == i,
                forall|j: int| 0 <= j < i ==> committed@[j]@ == self.rings@[j]@,
                self@ == prev,
            decreases self.rings@.len() - i,
        {
            let ring = copy_ring(&self.rings[i]);
            committed.push(ring);
            i = i + 1;
        }
        self.geometry = committed;
        proof {
            assert(self@ =~~= sp_poly_step(prev, GeomEvent::PolygonEnd));
        }
    }

    /// Replays a feature's events against this reconstructor.
    pub fn run(&mut self, events: &Vec<GeomEvent>)
        ensures
            final(self)@ == sp_poly_run(events@, 0, old(self)@),
    {
        let mut i: usize = 0;
        while i < events.len()
            invariant
                i <= events@.len(),
                sp_poly_run(events@, 0, old(self)@) == sp_poly_run(events@, i as int, self@),
            decreases events@.len() - i,
        {
            match events[i] {
                GeomEvent::Point(p) => {
                    self.on_point(p.x, p.y);
                },
                GeomEvent::LineEnd => {
                    self.on_line_end();
                },
                GeomEvent::PolygonEnd => {
                    self.on_polygon_end();
                },
            }
            i = i + 1;
        }
    }
}

/// The committed rings of a polygon feature's events.
pub fn polygon_geometry(events: &Vec<GeomEvent>) -> (g: Vec<Vec<Pt>>)
    ensures
        Seq::new(g@.len(), |i: int| g@[i]@) == sp_polygon_geometry(events@),
{
    let mut p = BuildingProcessor::new();
    p.run(events);
    p.geometry
}

/// State of a line-mode reconstruction.
#[verifier::ext_equal]
pub struct LineState {
    /// The line being built.
    pub current: Seq<Pt>,
    /// Finished lines, in completion order.
    pub lines: Seq<Seq<Pt>>,
}

/// The state a fresh line reconstruction starts from.
pub open spec fn sp_line_init() -> LineState {
    LineState { current: Seq::<Pt>::empty(), lines: Seq::<Seq<Pt>>::empty() }
}

/// How one event changes a line reconstruction. A polygon-end event does
/// not occur in line features and changes nothing.
pub open spec fn sp_line_step(s: LineState, e: GeomEvent) -> LineState {
    match e {
        GeomEvent::Point(p) => LineState { current: s.current.push(p), ..s },
        GeomEvent::LineEnd => if s.current.len() == 0 {
            s
        } else {
            LineState { current: Seq::<Pt>::empty(), lines: s.lines.push(s.current) }
        },
        GeomEvent::PolygonEnd => s,
    }
}

/// A line reconstruction run over the events from `i` on.
pub open spec fn sp_line_run(ev: Seq<GeomEvent>, i: int, s: LineState) -> LineState
    decreases ev.len() - i,
{
    if i < 0 || i >= ev.len() {
        s
    } else {
        sp_line_run(ev, i + 1, sp_line_step(s, ev[i]))
    }
}

/// The finished lines a line feature's events emit: one line per line-end
/// event with a non-empty buffer, point counts exactly as the events
/// dictate.
pub open spec fn sp_polyline_lines(ev: Seq<GeomEvent>) -> Seq<Seq<Pt>> {
    sp_line_run(ev, 0, sp_line_init()).lines
}

/// Line-mode reconstructor: accumulates the finished polylines of one road
/// feature.
pub struct RoadProcessor {
    /// The line being built.
    pub current_line: Vec<Pt>,
    /// Finished lines, in completion order.
    pub lines: Vec<Vec<Pt>>,
}

impl View for RoadProcessor {
    type V = LineState;

    open spec fn view(&self) -> LineState {
        LineState {
            current: self.current_line@,
            lines: Seq::new(self.lines@.len(), |i: int| self.lines@[i]@),
        }
    }
}

impl RoadProcessor {
    /// A reconstructor with nothing accumulated.
    pub fn new() -> (p: RoadProcessor)
        ensures
            p@ == sp_line_init(),
    {
        let p = RoadProcessor { current_line: Vec::new(), lines: Vec::new() };
        proof {
            assert(p@ =~~= sp_line_init());
        }
        p
    }

    /// Appends one vertex to the line being built.
    pub fn on_point(&mut self, x: i64, y: i64)
        ensures
            final(self)@ == sp_line_step(old(self)@, GeomEvent::Point(Pt { x, y })),
    {
        let ghost prev = self@;
        self.current_line.push(Pt { x, y });
        proof {
            assert(self@ =~~= sp_line_step(prev, GeomEvent::Point(Pt { x, y })));
        }
    }

    /// Commits a non-empty line buffer as one finished line; an empty
    /// buffer is left alone, so empty lines are never emitted.
    pub fn on_line_end(&mut self)
        ensures
            final(self)@ == sp_line_step(old(self)@, GeomEvent::LineEnd),
    {
        let ghost prev = self@;
        if self.current_line.len() > 0 {
            let line = copy_ring(&self.current_line);
            self.lines.push(line);
            self.current_line = Vec::new();
            proof {
                assert(self@ =~~= sp_line_step(prev, GeomEvent::LineEnd));
            }
        } else {
            proof {
                assert(self@ =~~= sp_line_step(prev, GeomEvent::LineEnd));
            }
        }
    }

    /// Replays a feature's events against this reconstructor.
    pub fn run(&mut self, events: &Vec<GeomEvent>)
        ensures
            final(self)@ == sp_line_run(events@, 0, old(self)@),
    {
        let mut i: usize = 0;
        while i < events.len()
            invariant
                i <= events@.len(),
                sp_line_run(events@, 0, old(self)@) == sp_line_run(events@, i as int, self@),
            decreases events@.len() - i,
        {
            match events[i] {
                GeomEvent::Point(p) => {
                    self.on_point(p.x, p.y);
                },
                GeomEvent::LineEnd => {
                    self.on_line_end();
                },
                GeomEvent::PolygonEnd => {},
            }
            i = i + 1;
        }
    }
}

/// The finished lines of a line feature's events.
pub fn polyline_lines(events: &Vec<GeomEvent>) -> (g: Vec<Vec<Pt>>)
    ensures
        Seq::new(g@.len(), |i: int| g@[i]@) == sp_polyline_lines(events@),
{
    let mut p = RoadProcessor::new();
    p.run(events);
    p.lines
}

/// Whether every point of every ring of a ring list lies within `lim`.
pub open spec fn sp_rings_within(rings: Seq<Seq<Pt>>, lim: int) -> bool {
    forall|j: int, k: int|
        0 <= j < rings.len() && 0 <= k < rings[j].len() ==> -lim <= (#[trigger] rings[j][k]).x
            <= lim && -lim <= rings[j][k].y <= lim
}

/// Whether every point of a single ring lies within `lim`.
pub open spec fn sp_pts_within(r: Seq<Pt>, lim: int) -> bool {
    forall|k: int|
        0 <= k < r.len() ==> -lim <= (#[trigger] r[k]).x <= lim && -lim <= r[k].y <= lim
}

/// Whether every point a polygon reconstruction holds lies within `lim`.
pub open spec fn sp_poly_state_within(s: PolyState, lim: int) -> bool {
    &&& sp_pts_within(s.current, lim)
    &&& sp_rings_within(s.rings, lim)
    &&& sp_rings_within(s.committed, lim)
}

/// A polygon reconstruction fed bounded events holds bounded points.
pub proof fn lemma_poly_run_within(ev: Seq<GeomEvent>, i: int, s: PolyState, lim: int)
    requires
        sp_events_bounded(ev, lim),
        sp_poly_state_within(s, lim),
    ensures
        sp_poly_state_within(sp_poly_run(ev, i, s), lim),
    decreases ev.len() - i,
{
    if 0 <= i < ev.len() {
        let s2 = sp_poly_step(s, ev[i]);
        assert(sp_poly_state_within(s2, lim)) by {
            match ev[i] {
                GeomEvent::Point(p) => {
                    assert(forall|k: int|
                        0 <= k < s.current.len() ==> s.current.push(p)[k] == #[trigger] s.current[k]);
                    assert(s.current.push(p)[s.current.len() as int] == p);
                },
                GeomEvent::LineEnd => {
                    if s.current.len() > 0 {
                        assert(forall|j: int|
                            0 <= j < s.rings.len() ==> s.rings.push(s.current)[j]
                                == #[trigger] s.rings[j]);
                        assert(s.rings.push(s.current)[s.rings.len() as int] == s.current);
                    }
                },
                GeomEvent::PolygonEnd => {},
            }
        }
        lemma_poly_run_within(ev, i + 1, s2, lim);
    }
}

/// Whether every point a line reconstruction holds lies within `lim`.
pub open spec fn sp_line_state_within(s: LineState, lim: int) -> bool {
    &&& sp_pts_within(s.current, lim)
    &&& sp_rings_within(s.lines, lim)
}

/// A line reconstruction fed bounded events holds bounded points.
pub proof fn lemma_line_run_within(ev: Seq<GeomEvent>, i: int, s: LineState, lim: int)
    requires
        sp_events_bounded(ev, lim),
        sp_line_state_within(s, lim),
    ensures
        sp_line_state_within(sp_line_run(ev, i, s), lim),
    decreases ev.len() - i,
{
    if 0 <= i < ev.len() {
        let s2 = sp_line_step(s, ev[i]);
        assert(sp_line_state_within(s2, lim)) by {
            match ev[i] {
                GeomEvent::Point(p) => {
                    assert(forall|k: int|
                        0 <= k < s.current.len() ==> s.current.push(p)[k] == #[trigger] s.current[k]);
                    assert(s.current.push(p)[s.current.len() as int] == p);
                },
                GeomEvent::LineEnd => {
                    if s.current.len() > 0 {
                        assert(forall|j: int|
                            0 <= j < s.lines.len() ==> s.lines.push(s.current)[j]
                                == #[trigger] s.lines[j]);
                        assert(s.lines.push(s.current)[s.lines.len() as int] == s.current);
                    }
                },
                GeomEvent::PolygonEnd => {},
            }
        }
        lemma_line_run_within(ev, i + 1, s2, lim);
    }
}

} // verus!
