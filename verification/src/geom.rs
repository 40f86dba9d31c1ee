//! Plane positions in fixed-point milli-units, with exact squared
//! distances and integer-square-root distances.
use vstd::prelude::*;
use crate::nums::{is_isqrt, isqrt_u128, lemma_isqrt_unique};

verus! {

/// Every coordinate the simulation handles stays within this many
/// milli-units of the origin; the arithmetic below is overflow-free
/// under that bound.
pub const COORD_LIMIT: i64 = 1_000_000_000_000_000;

/// A point of the arena plane, in milli-units.
#[derive(Clone, Copy, PartialEq, Eq, Structural, Debug)]
pub struct Pos {
    pub x: i64,
    pub y: i64,
}

pub open spec fn coord_ok(v: int) -> bool {
    -COORD_LIMIT <= v <= COORD_LIMIT
}

pub open spec fn pos_ok(p: Pos) -> bool {
    coord_ok(p.x as int) && coord_ok(p.y as int)
}

/// The squared Euclidean distance between two points.
pub open spec fn spec_dist_sq(a: Pos, b: Pos) -> int {
    (a.x - b.x) * (a.x - b.x) + (a.y - b.y) * (a.y - b.y)
}

/// The distance between two points, rounded down to a whole number of
/// milli-units.
pub open spec fn spec_dist(a: Pos, b: Pos) -> int {
    choose|r: int| is_isqrt(spec_dist_sq(a, b), r)
}

proof fn lemma_dist_sq_bounds(a: Pos, b: Pos)
    requires
        pos_ok(a),
        pos_ok(b),
    ensures
        0 <= spec_dist_sq(a, b) <= 8_000_000_000_000_000_000_000_000_000_000int,
{
    assert(0 <= (a.x - b.x) * (a.x - b.x) <= 4_000_000_000_000_000_000_000_000_000_000int)
        by (nonlinear_arith)
        requires
            -2_000_000_000_000_000 <= a.x - b.x <= 2_000_000_000_000_000,
    {}
    assert(0 <= (a.y - b.y) * (a.y - b.y) <= 4_000_000_000_000_000_000_000_000_000_000int)
        by (nonlinear_arith)
        requires
            -2_000_000_000_000_000 <= a.y - b.y <= 2_000_000_000_000_000,
    {}
}

/// Any witness to `is_isqrt` of the squared distance is the distance.
pub proof fn lemma_dist_eq(a: Pos, b: Pos, r: int)
    requires
        is_isqrt(spec_dist_sq(a, b), r),
    ensures
        spec_dist(a, b) == r,
{
    assert(exists|q: int| is_isqrt(spec_dist_sq(a, b), q)) by {
        assert(is_isqrt(spec_dist_sq(a, b), r));
    }
    lemma_isqrt_unique(spec_dist_sq(a, b), spec_dist(a, b), r);
}

/// The squared distance between two in-bounds points.
pub fn dist_sq(a: Pos, b: Pos) -> (r: u128)
    requires
        pos_ok(a),
        pos_ok(b),
    ensures
        r == spec_dist_sq(a, b),
{
    let dx: i64 = a.x - b.x;
    let dy: i64 = a.y - b.y;
    proof {
        assert(0 <= (dx as i128) * (dx as i128) <= 4_000_000_000_000_000_000_000_000_000_000int
            && 0 <= (dy as i128) * (dy as i128) <= 4_000_000_000_000_000_000_000_000_000_000int)
            by (nonlinear_arith)
            requires
                -2_000_000_000_000_000 <= dx <= 2_000_000_000_000_000,
                -2_000_000_000_000_000 <= dy <= 2_000_000_000_000_000,
        {}
    }
    let sx: i128 = (dx as i128) * (dx as i128);
    let sy: i128 = (dy as i128) * (dy as i128);
    proof {
        assert(sx == (a.x - b.x) * (a.x - b.x) && sy == (a.y - b.y) * (a.y - b.y))
            by (nonlinear_arith)
            requires
                dx == a.x - b.x,
                dy == a.y - b.y,
                sx == (dx as i128) * (dx as i128),
                sy == (dy as i128) * (dy as i128),
        {}
    }
    (sx + sy) as u128
}

/// The distance between two in-bounds points, in whole milli-units.
pub fn dist(a: Pos, b: Pos) -> (r: u64)
    requires
        pos_ok(a),
        pos_ok(b),
    ensures
        r == spec_dist(a, b),
        is_isqrt(spec_dist_sq(a, b), r as int),
        r <= 3_000_000_000_000_000,
{
    let sq = dist_sq(a, b);
    let r = isqrt_u128(sq);
    proof {
        lemma_dist_sq_bounds(a, b);
        assert((r as int) <= 3_000_000_000_000_000) by (nonlinear_arith)
            requires
                (r as int) * (r as int) <= 8_000_000_000_000_000_000_000_000_000_000int,
                r >= 0,
        {}
        lemma_dist_eq(a, b, r as int);
    }
    r as u64
}

} // verus!
