//! Mass clots: consumable pickups carrying a quantity of mass.
use vstd::prelude::*;
use crate::color::Rgba;
use crate::geom::{pos_ok, Pos};
use crate::nums::{is_isqrt, isqrt_u128, lemma_isqrt_unique};
use crate::rng::random_in_range;
use crate::slither::MASS_LIMIT;

verus! {

/// Smallest mass a randomly drawn clot carries, in milli-units: the
/// mass quantum of redistribution.
pub const MIN_CLOT_MASS: i64 = 10_000;

/// Largest mass a randomly drawn clot carries, in milli-units.
pub const MAX_CLOT_MASS: i64 = 25_000;

/// A pickup: a position, the mass it grants, and a color.
#[derive(Clone, Copy, PartialEq, Eq, Structural, Debug)]
pub struct MassClot {
    pub pos: Pos,
    /// Mass granted on pickup, in milli-units.
    pub amount: i64,
    pub color: Rgba,
}

pub open spec fn clot_ok(c: MassClot) -> bool {
    pos_ok(c.pos) && 0 <= c.amount <= MASS_LIMIT
}

/// A clot's pickup radius in milli-units: the square root of its mass
/// in whole units.
pub open spec fn spec_clot_radius(amount: int) -> int {
    choose|r: int| #[trigger] is_isqrt(amount * 1000, r)
}

impl MassClot {
    /// A clot of mass `amount` at a position drawn uniformly from the
    /// arena.
    pub fn random_in(width: i64, height: i64, amount: i64, color: Rgba) -> (c: MassClot)
        requires
            0 < width <= 1_000_000_000,
            0 < height <= 1_000_000_000,
            0 <= amount <= MASS_LIMIT,
        ensures
            clot_ok(c),
            c.amount == amount,
            c.color == color,
            0 <= c.pos.x < width,
            0 <= c.pos.y < height,
    {
        let x = random_in_range(0, width);
        let y = random_in_range(0, height);
        MassClot { pos: Pos { x, y }, amount, color }
    }

    /// The pickup radius, in milli-units.
    pub fn radius(&self) -> (r: i64)
        requires
            0 <= self.amount <= MASS_LIMIT,
        ensures
            r == spec_clot_radius(self.amount as int),
            0 <= r <= 32_000_000,
    {
        let sq: u128 = (self.amount as u128) * 1000;
        let r = isqrt_u128(sq);
        proof {
            let w = spec_clot_radius(self.amount as int);
            assert(is_isqrt(self.amount * 1000, w)) by {
                assert(is_isqrt(self.amount * 1000, r as int));
            }
            lemma_isqrt_unique(self.amount * 1000, r as int, w);
            assert((r as int) <= 32_000_000) by (nonlinear_arith)
                requires
                    (r as int) * (r as int) <= 1_000_000_000_000_000int,
                    r >= 0,
            {}
        }
        r as i64
    }
}

} // verus!
