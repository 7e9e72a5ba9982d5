//! Plane geometry for the propagation engine.
//!
//! Positions are fixed-point world units stored as integers, and every
//! comparison between a distance and a radius is made on squared values, so
//! the engine never needs a square root: `dist < r` holds exactly when
//! `dist² < r²` for non-negative quantities.

use vstd::prelude::*;

verus! {

/// Largest coordinate (absolute value) an object may be placed at.
pub const MAX_COORD: i64 = 1_000_000_000;

/// Largest radius an activator may grow to. It exceeds the diameter of the
/// playfield (`sqrt(8) * MAX_COORD < 2_830_000_000`), so capping growth here
/// never keeps an activator from reaching an object.
pub const SIZE_CAP: u64 = 3_000_000_000;

/// A point of the 2D plane, in fixed-point world units.
#[derive(Clone, Copy, Debug, PartialEq, Eq, Structural)]
pub struct Position {
    pub x: i64,
    pub y: i64,
}

/// Whether a point lies on the playfield.
pub open spec fn in_world(p: Position) -> bool {
    &&& -MAX_COORD <= p.x <= MAX_COORD
    &&& -MAX_COORD <= p.y <= MAX_COORD
}

/// Squared Euclidean distance between two points.
pub open spec fn dist_sq(a: Position, b: Position) -> int {
    (a.x - b.x) * (a.x - b.x) + (a.y - b.y) * (a.y - b.y)
}

pub proof fn lemma_dist_sq_bounds(a: Position, b: Position)
    requires
        in_world(a),
        in_world(b),
    ensures
        0 <= dist_sq(a, b) <= 8_000_000_000_000_000_000,
{
    let dx = a.x - b.x;
    let dy = a.y - b.y;
    assert(0 <= dx * dx <= 4_000_000_000_000_000_000) by (nonlinear_arith)
        requires -2_000_000_000 <= dx <= 2_000_000_000;
    assert(0 <= dy * dy <= 4_000_000_000_000_000_000) by (nonlinear_arith)
        requires -2_000_000_000 <= dy <= 2_000_000_000;
}

/// Squared distance, computed in machine integers.
pub fn distance_squared(a: Position, b: Position) -> (r: u64)
    requires
        in_world(a),
        in_world(b),
    ensures
        r == dist_sq(a, b),
{
    proof {
        lemma_dist_sq_bounds(a, b);
    }
    let dx: i64 = a.x - b.x;
    let dy: i64 = a.y - b.y;
    assert(dx * dx == (a.x - b.x) * (a.x - b.x) && dy * dy == (a.y - b.y) * (a.y - b.y))
        by (nonlinear_arith)
        requires dx == a.x - b.x, dy == a.y - b.y;
    assert(0 <= dx * dx <= 4_000_000_000_000_000_000) by (nonlinear_arith)
        requires -2_000_000_000 <= dx <= 2_000_000_000;
    assert(0 <= dy * dy <= 4_000_000_000_000_000_000) by (nonlinear_arith)
        requires -2_000_000_000 <= dy <= 2_000_000_000;
    (dx * dx) as u64 + (dy * dy) as u64
}

/// Radius growth clipped at [`SIZE_CAP`].
pub open spec fn capped(t: int) -> int {
    if t > SIZE_CAP { SIZE_CAP as int } else { t }
}

} // verus!
