//! Geometry-command interpreter: decodes a feature's command stream into a
//! sequence of point and shape-boundary events.
//!
//! A command word packs an operation in its low three bits and a repeat
//! count above them. Operation 1 moves the cursor, operation 2 draws to a
//! point, and both carry `2 * count` zigzag-encoded coordinate deltas;
//! operation 7 closes the current polygon ring and carries none. The
//! interpreter replays the stream as events against a shape builder: one
//! point event per vertex, a line-end event at each ring closure or line
//! boundary, and a final polygon-end event for polygon features.
//!
//! A malformed stream (a truncated command, an unknown operation, a closure
//! outside a polygon, or a cursor beyond the coordinate bound) is an error;
//! the caller then skips that feature and the rest of the tile goes on.

use vstd::prelude::*;
use crate::tile::{GeomType, Pt};
use crate::project::LOCAL_LIMIT;
use crate::decode::{sp_zigzag64, zigzag64};

verus! {

/// One step of the replayed geometry protocol.
#[derive(Clone, Copy, PartialEq, Eq, Structural, Debug)]
pub enum GeomEvent {
    /// Append this vertex to the ring or line being built.
    Point(Pt),
    /// The ring or line being built is complete.
    LineEnd,
    /// The accumulated rings are the polygon's final geometry.
    PolygonEnd,
}

/// Why a geometry-command stream was rejected. The offending feature is
/// skipped; the rest of the tile is processed.
#[derive(Clone, Copy, PartialEq, Eq, Structural, Debug)]
pub enum GeomError {
    /// The stream ended inside a command's coordinate deltas.
    TruncatedGeometry,
    /// A command word carries an operation that does not exist, a closure
    /// with a repeat count other than one, or an operation the feature's
    /// geometry type does not allow.
    BadCommand,
    /// A ring closure in a feature that has no rings.
    UnexpectedClose,
    /// The cursor left the supported coordinate range.
    CursorOverflow,
}

/// Whether every point event of `ev` lies within `lim` on both axes.
pub open spec fn sp_events_bounded(ev: Seq<GeomEvent>, lim: int) -> bool {
    forall|i: int|
        0 <= i < ev.len() ==> ((#[trigger] ev[i]) matches GeomEvent::Point(p) ==> -lim <= p.x
            <= lim && -lim <= p.y <= lim)
}

/// Consumes `remaining` coordinate-delta pairs starting at `i`, moving the
/// cursor and appending one point event per pair.
pub open spec fn sp_params(
    cmds: Seq<u32>,
    i: int,
    x: int,
    y: int,
    remaining: int,
    acc: Seq<GeomEvent>,
) -> Result<(int, int, int, Seq<GeomEvent>), GeomError>
    decreases remaining,
{
    if remaining <= 0 {
        Ok((i, x, y, acc))
    } else if i + 2 > cmds.len() {
        Err(GeomError::TruncatedGeometry)
    } else {
        let nx = x + sp_zigzag64(cmds[i] as u64);
        let ny = y + sp_zigzag64(cmds[i + 1] as u64);
        if nx < -LOCAL_LIMIT || nx > LOCAL_LIMIT || ny < -LOCAL_LIMIT || ny > LOCAL_LIMIT {
            Err(GeomError::CursorOverflow)
        } else {
            sp_params(
                cmds,
                i + 2,
                nx,
                ny,
                remaining - 1,
                acc.push(GeomEvent::Point(Pt { x: nx as i64, y: ny as i64 })),
            )
        }
    }
}

/// Consuming deltas never moves the read position backward or past the end.
pub proof fn lemma_params_advances(
    cmds: Seq<u32>,
    i: int,
    x: int,
    y: int,
    remaining: int,
    acc: Seq<GeomEvent>,
)
    requires
        0 <= i <= cmds.len(),
    ensures
        sp_params(cmds, i, x, y, remaining, acc) matches Ok((i2, x2, y2, a2)) ==> i <= i2
            <= cmds.len(),
    decreases remaining,
{
    if remaining > 0 && i + 2 <= cmds.len() {
        let nx = x + sp_zigzag64(cmds[i] as u64);
        let ny = y + sp_zigzag64(cmds[i + 1] as u64);
        if !(nx < -LOCAL_LIMIT || nx > LOCAL_LIMIT || ny < -LOCAL_LIMIT || ny > LOCAL_LIMIT) {
            lemma_params_advances(
                cmds,
                i + 2,
                nx,
                ny,
                remaining - 1,
                acc.push(GeomEvent::Point(Pt { x: nx as i64, y: ny as i64 })),
            );
        }
    }
}

/// Runs the interpreter from a command boundary at `i0`, handing the
/// position after the current command's deltas on to the rest of the
/// stream.
pub open spec fn sp_continue(
    gt: GeomType,
    cmds: Seq<u32>,
    i0: int,
    pi: int,
    x: int,
    y: int,
    remaining: int,
    acc: Seq<GeomEvent>,
) -> Result<Seq<GeomEvent>, GeomError>
    decreases cmds.len() - i0, 0int,
{
    match sp_params(cmds, pi, x, y, remaining, acc) {
        Err(e) => Err(e),
        Ok((i2, x2, y2, a2)) => if i0 < i2 <= cmds.len() {
            sp_run(gt, cmds, i2, x2, y2, a2)
        } else {
            Err(GeomError::TruncatedGeometry)
        },
    }
}

/// The events a command stream denotes from position `i` on, with the
/// cursor at `(x, y)`: point events for every vertex, line ends at ring
/// closures and line boundaries, and the closing event the geometry type
/// calls for at the end of the stream.
pub open spec fn sp_run(
    gt: GeomType,
    cmds: Seq<u32>,
    i: int,
    x: int,
    y: int,
    acc: Seq<GeomEvent>,
) -> Result<Seq<GeomEvent>, GeomError>
    decreases cmds.len() - i, 1int,
{
    if i >= cmds.len() {
        match gt {
            GeomType::Linestring => Ok(acc.push(GeomEvent::LineEnd)),
            GeomType::Polygon => Ok(acc.push(GeomEvent::PolygonEnd)),
            _ => Ok(acc),
        }
    } else {
        let cmd = cmds[i];
        let id = cmd as int % 8;
        let count = cmd as int / 8;
        if id == 1 {
            let acc1 = if gt is Linestring {
                acc.push(GeomEvent::LineEnd)
            } else {
                acc
            };
            sp_continue(gt, cmds, i, i + 1, x, y, count, acc1)
        } else if id == 2 {
            if gt is Point {
                Err(GeomError::BadCommand)
            } else {
                sp_continue(gt, cmds, i, i + 1, x, y, count, acc)
            }
        } else if id == 7 {
            if count != 1 {
                Err(GeomError::BadCommand)
            } else if gt is Polygon {
                sp_run(gt, cmds, i + 1, x, y, acc.push(GeomEvent::LineEnd))
            } else {
                Err(GeomError::UnexpectedClose)
            }
        } else {
            Err(GeomError::BadCommand)
        }
    }
}

/// The events a feature's whole command stream denotes. A feature of
/// unknown geometry type denotes no events and is passed over.
pub open spec fn sp_interpret(gt: GeomType, cmds: Seq<u32>) -> Result<Seq<GeomEvent>, GeomError> {
    if gt is Unknown {
        Ok(Seq::<GeomEvent>::empty())
    } else {
        sp_run(gt, cmds, 0, 0, 0, Seq::<GeomEvent>::empty())
    }
}

/// Interprets a feature's geometry-command stream into events, exactly as
/// `sp_interpret` denotes them.
pub fn interpret_geometry(gt: GeomType, cmds: &Vec<u32>) -> (r: Result<Vec<GeomEvent>, GeomError>)
    ensures
        match r {
            Ok(ev) => sp_interpret(gt, cmds@) == Ok::<Seq<GeomEvent>, GeomError>(ev@)
                && sp_events_bounded(ev@, LOCAL_LIMIT as int),
            Err(e) => sp_interpret(gt, cmds@) == Err::<Seq<GeomEvent>, GeomError>(e),
        },
{
    let mut out: Vec<GeomEvent> = Vec::new();
    proof {
        assert(out@ =~= Seq::<GeomEvent>::empty());
    }
    if matches!(gt, GeomType::Unknown) {
        return Ok(out);
    }
    let len = cmds.len();
    let mut i: usize = 0;
    let mut x: i64 = 0;
    let mut y: i64 = 0;
    while i < len
        invariant
            i <= len == cmds@.len(),
            !(gt is Unknown),
            -LOCAL_LIMIT <= x <= LOCAL_LIMIT,
            -LOCAL_LIMIT <= y <= LOCAL_LIMIT,
            sp_events_bounded(out@, LOCAL_LIMIT as int),
            sp_interpret(gt, cmds@) == sp_run(gt, cmds@, i as int, x as int, y as int, out@),
        decreases len - i,
    {
        let cmd = cmds[i];
        let id = cmd % 8;
        let count = (cmd / 8) as usize;
        if id == 1 || id == 2 {
            if id == 1 {
                if matches!(gt, GeomType::Linestring) {
                    out.push(GeomEvent::LineEnd);
                }
            } else {
                if matches!(gt, GeomType::Point) {
                    return Err(GeomError::BadCommand);
                }
            }
            let ghost i0 = i as int;
            let mut rem: usize = count;
            let mut pi: usize = i + 1;
            proof {
                lemma_params_advances(cmds@, pi as int, x as int, y as int, rem as int, out@);
            }
            while rem > 0
                invariant
                    i0 + 1 <= pi <= len == cmds@.len(),
                    i0 < len,
                    !(gt is Unknown),
                    -LOCAL_LIMIT <= x <= LOCAL_LIMIT,
                    -LOCAL_LIMIT <= y <= LOCAL_LIMIT,
                    sp_events_bounded(out@, LOCAL_LIMIT as int),
                    sp_interpret(gt, cmds@) == sp_continue(
                        gt,
                        cmds@,
                        i0,
                        pi as int,
                        x as int,
                        y as int,
                        rem as int,
                        out@,
                    ),
                decreases rem,
            {
                if len - pi < 2 {
                    return Err(GeomError::TruncatedGeometry);
                }
                let dx = zigzag64(cmds[pi] as u64);
                let dy = zigzag64(cmds[pi + 1] as u64);
                let nx = x + dx;
                let ny = y + dy;
                if nx < -LOCAL_LIMIT || nx > LOCAL_LIMIT || ny < -LOCAL_LIMIT || ny
                    > LOCAL_LIMIT {
                    return Err(GeomError::CursorOverflow);
                }
                out.push(GeomEvent::Point(Pt { x: nx, y: ny }));
                x = nx;
                y = ny;
                pi = pi + 2;
                rem = rem - 1;
            }
            proof {
                assert(sp_params(cmds@, pi as int, x as int, y as int, 0, out@) == Ok::<
                    (int, int, int, Seq<GeomEvent>),
                    GeomError,
                >((pi as int, x as int, y as int, out@)));
            }
            i = pi;
        } else if id == 7 {
            if count != 1 {
                return Err(GeomError::BadCommand);
            }
            if matches!(gt, GeomType::Polygon) {
                out.push(GeomEvent::LineEnd);
                i = i + 1;
            } else {
                return Err(GeomError::UnexpectedClose);
            }
        } else {
            return Err(GeomError::BadCommand);
        }
    }
    match gt {
        GeomType::Linestring => {
            out.push(GeomEvent::LineEnd);
        },
        GeomType::Polygon => {
            out.push(GeomEvent::PolygonEnd);
        },
        _ => {},
    }
    Ok(out)
}

} // verus!
