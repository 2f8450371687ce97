//! Coordinate projector: maps a tile-local quantized coordinate plus tile
//! index into a global world-space position.
//!
//! A world position along one axis is `(tile_index + local / 4096) * scale`
//! world units, where `scale` is the world-units-per-tile constant. The
//! projector keeps this exact by working in integer ticks: with the scale
//! given in thousandths of a world unit per tile, the projected coordinate
//! is `(tile_index * 4096 + local) * scale_milli` ticks, and one world unit
//! is `4096 * 1000` ticks.

use vstd::prelude::*;
use crate::tile::Pt;

verus! {

/// Quantization range of tile-local coordinates per axis.
pub const EXTENT: i64 = 4096;

/// Projected ticks per world unit: `EXTENT * 1000`.
pub const TICKS_PER_UNIT: i64 = 4096000;

/// Largest tile column or row index the projector accepts.
pub const TILE_INDEX_LIMIT: u32 = 4194304;

/// Largest world scale (in thousandths of a world unit per tile) the
/// projector accepts.
pub const SCALE_MILLI_LIMIT: i64 = 16777216;

/// Largest magnitude of a tile-local coordinate the projector accepts.
/// Geometry reconstruction keeps its cursor within this bound.
pub const LOCAL_LIMIT: i64 = 8589934592;

/// The projected position of tile-local coordinate `local` along one axis,
/// in ticks of `1 / (EXTENT * 1000)` of a world unit: exactly
/// `(tile + local / EXTENT) * scale` world units for `scale` =
/// `scale_milli / 1000` world units per tile.
pub open spec fn project_axis(local: int, tile: int, scale_milli: int) -> int {
    (tile * 4096 + local) * scale_milli
}

/// Inputs the projector is defined on; within these bounds the projected
/// coordinates fit the machine word with room for recentering to double
/// them.
pub open spec fn project_args_ok(local: int, tile: int, scale_milli: int) -> bool {
    &&& -LOCAL_LIMIT <= local <= LOCAL_LIMIT
    &&& 0 <= tile <= TILE_INDEX_LIMIT
    &&& 0 < scale_milli <= SCALE_MILLI_LIMIT
}

/// Bound on a projected coordinate: `|project_axis|` stays under `2^59`.
pub proof fn lemma_project_axis_bound(local: int, tile: int, scale_milli: int)
    requires
        project_args_ok(local, tile, scale_milli),
    ensures
        -0x800_0000_0000_0000 < project_axis(local, tile, scale_milli) < 0x800_0000_0000_0000,
{
    let inner = tile * 4096 + local;
    assert(0 <= tile * 4096 <= TILE_INDEX_LIMIT * 4096) by (nonlinear_arith)
        requires 0 <= tile <= TILE_INDEX_LIMIT;
    assert(-0x6_0000_0000i64 <= inner <= 0x6_0000_0000i64);
    assert(-0x800_0000_0000_0000 < inner * scale_milli < 0x800_0000_0000_0000) by (nonlinear_arith)
        requires
            -0x6_0000_0000i64 <= inner <= 0x6_0000_0000i64,
            0 < scale_milli <= SCALE_MILLI_LIMIT;
}

/// Projects one tile-local point into world space, in ticks.
///
/// This is a pure function of its arguments: identical inputs always yield
/// identical outputs, which `lemma_project_deterministic` states.
pub fn tile_to_world(x: i64, y: i64, tile_x: u32, tile_y: u32, scale_milli: i64) -> (p: Pt)
    requires
        project_args_ok(x as int, tile_x as int, scale_milli as int),
        project_args_ok(y as int, tile_y as int, scale_milli as int),
    ensures
        p.x as int == project_axis(x as int, tile_x as int, scale_milli as int),
        p.y as int == project_axis(y as int, tile_y as int, scale_milli as int),
{
    proof {
        lemma_project_axis_bound(x as int, tile_x as int, scale_milli as int);
        lemma_project_axis_bound(y as int, tile_y as int, scale_milli as int);
    }
    let inner_x: i64 = tile_x as i64 * 4096 + x;
    let inner_y: i64 = tile_y as i64 * 4096 + y;
    proof {
        assert(inner_x * scale_milli == project_axis(x as int, tile_x as int, scale_milli as int));
        assert(inner_y * scale_milli == project_axis(y as int, tile_y as int, scale_milli as int));
        assert(-0x800_0000_0000_0000 < inner_x * scale_milli < 0x800_0000_0000_0000);
        assert(-0x800_0000_0000_0000 < inner_y * scale_milli < 0x800_0000_0000_0000);
    }
    Pt { x: inner_x * scale_milli, y: inner_y * scale_milli }
}

/// The projection is referentially transparent: any two points that both
/// satisfy `tile_to_world`'s contract for the same arguments are the same
/// point, so repeated application with identical inputs yields identical
/// outputs and passes that project points one by one are
/// order-independent.
pub proof fn lemma_project_deterministic(p1: Pt, p2: Pt, x: int, y: int, tile_x: int, tile_y: int, scale_milli: int)
    requires
        p1.x as int == project_axis(x, tile_x, scale_milli),
        p1.y as int == project_axis(y, tile_y, scale_milli),
        p2.x as int == project_axis(x, tile_x, scale_milli),
        p2.y as int == project_axis(y, tile_y, scale_milli),
    ensures
        p1 == p2,
{
}

} // verus!
