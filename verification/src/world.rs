//! The arena: every live slither keyed by its ID, every mass clot,
//! and the fixed bounds; plus the redistribution of a dead slither's
//! mass back into the world.
use vstd::prelude::*;
use crate::clot::{clot_ok, MassClot, MAX_CLOT_MASS, MIN_CLOT_MASS};
use crate::color::Rgba;
use crate::geom::{pos_ok, Pos};
use crate::rng::random_in_range;
use crate::slither::{Slither, MASS_LIMIT};

verus! {

/// Opaque handle of one slither; assigned once, never reused within a
/// server run.
#[derive(Clone, Copy, PartialEq, Eq, Structural, Hash, Debug)]
pub struct SlitherID(pub u32);

/// An insertion-ordered map from ID to slither; IDs are unique.
pub struct Slithers {
    pub data: Vec<(SlitherID, Slither)>,
}

impl Slithers {
    pub open spec fn well_formed(self) -> bool {
        &&& forall|i: int, j: int|
            0 <= i < j < self.data@.len() ==> (#[trigger] self.data@[i]).0 != (
            #[trigger] self.data@[j]).0
        &&& forall|i: int|
            0 <= i < self.data@.len() ==> (#[trigger] self.data@[i]).1.well_formed()
    }

    pub open spec fn spec_contains(self, id: SlitherID) -> bool {
        exists|i: int| 0 <= i < self.data@.len() && (#[trigger] self.data@[i]).0 == id
    }

    pub open spec fn spec_index_of(self, id: SlitherID) -> int {
        choose|i: int| 0 <= i < self.data@.len() && (#[trigger] self.data@[i]).0 == id
    }

    pub open spec fn spec_get(self, id: SlitherID) -> Slither {
        self.data@[self.spec_index_of(id)].1
    }

    pub fn new() -> (s: Slithers)
        ensures
            s.well_formed(),
            s.data@.len() == 0,
    {
        Slithers { data: Vec::new() }
    }

    pub fn len(&self) -> (n: usize)
        ensures
            n == self.data@.len(),
    {
        self.data.len()
    }

    /// Whether a slither with this ID is live.
    pub fn contains(&self, id: SlitherID) -> (r: bool)
        ensures
            r == self.spec_contains(id),
    {
        let mut i: usize = 0;
        while i < self.data.len()
            invariant
                0 <= i <= self.data@.len(),
                forall|j: int| 0 <= j < i ==> (#[trigger] self.data@[j]).0 != id,
            decreases self.data@.len() - i,
        {
            if self.data[i].0.0 == id.0 {
                return true;
            }
            i = i + 1;
        }
        false
    }

    /// The position of `id` in insertion order.
    pub fn index_of(&self, id: SlitherID) -> (k: usize)
        requires
            self.well_formed(),
            self.spec_contains(id),
        ensures
            k == self.spec_index_of(id),
            0 <= k < self.data@.len(),
            self.data@[k as int].0 == id,
    {
        let mut i: usize = 0;
        while i < self.data.len()
            invariant
                0 <= i <= self.data@.len(),
                self.well_formed(),
                self.spec_contains(id),
                forall|j: int| 0 <= j < i ==> (#[trigger] self.data@[j]).0 != id,
            decreases self.data@.len() - i,
        {
            if self.data[i].0.0 == id.0 {
                proof {
                    let w = self.spec_index_of(id);
                    assert(0 <= w < self.data@.len() && self.data@[w].0 == id) by {
                        assert(self.data@[i as int].0 == id);
                    }
                    if w < i as int {
                        assert(self.data@[w].0 != self.data@[i as int].0);
                    }
                    if (i as int) < w {
                        assert(self.data@[i as int].0 != self.data@[w].0);
                    }
                }
                return i;
            }
            i = i + 1;
        }
        proof {
            let w = self.spec_index_of(id);
            assert(0 <= w < self.data@.len() && self.data@[w].0 == id);
            assert(false);
        }
        0
    }

    /// Register a new slither; a live ID is never registered twice.
    pub fn add(&mut self, id: SlitherID, slither: Slither)
        requires
            old(self).well_formed(),
            !old(self).spec_contains(id),
            slither.well_formed(),
        ensures
            final(self).well_formed(),
            final(self).data@ == old(self).data@.push((id, slither)),
            final(self).spec_contains(id),
            forall|x: SlitherID|
                #[trigger] final(self).spec_contains(x) == (old(self).spec_contains(x) || x
                    == id),
    {
        self.data.push((id, slither));
        proof {
            assert(self.data@[self.data@.len() - 1].0 == id);
            assert forall|x: SlitherID| #[trigger] self.spec_contains(x) == (old(
                self,
            ).spec_contains(x) || x == id) by {
                if self.spec_contains(x) {
                    let i = choose|i: int|
                        0 <= i < self.data@.len() && (#[trigger] self.data@[i]).0 == x;
                    if i < self.data@.len() - 1 {
                        assert(old(self).data@[i].0 == x);
                    }
                }
                if old(self).spec_contains(x) {
                    let i = choose|i: int|
                        0 <= i < old(self).data@.len() && (#[trigger] old(self).data@[i]).0 == x;
                    assert(self.data@[i].0 == x);
                }
            }
        }
    }

    /// The live slither with this ID.
    pub fn get(&self, id: SlitherID) -> (s: &Slither)
        requires
            self.well_formed(),
            self.spec_contains(id),
        ensures
            *s == self.spec_get(id),
    {
        let k = self.index_of(id);
        proof {
            assert(k == self.spec_index_of(id));
        }
        &self.data[k].1
    }

    /// Remove and return the slither with this ID; the order of the
    /// others is kept.
    pub fn remove(&mut self, id: SlitherID) -> (s: Slither)
        requires
            old(self).well_formed(),
            old(self).spec_contains(id),
        ensures
            final(self).well_formed(),
            s == old(self).spec_get(id),
            s.well_formed(),
            final(self).data@ == old(self).data@.remove(old(self).spec_index_of(id)),
            !final(self).spec_contains(id),
            forall|x: SlitherID|
                #[trigger] final(self).spec_contains(x) == (old(self).spec_contains(x) && x
                    != id),
            forall|x: SlitherID|
                final(self).spec_contains(x) ==> #[trigger] final(self).spec_get(x) == old(
                    self,
                ).spec_get(x),
    {
        let k = self.index_of(id);
        let entry = self.data.remove(k);
        proof {
            let d0 = old(self).data@;
            let w = old(self).spec_index_of(id);
            assert(forall|i: int|
                0 <= i < self.data@.len() ==> #[trigger] self.data@[i] == (if i < w {
                    d0[i]
                } else {
                    d0[i + 1]
                }));
            assert(!self.spec_contains(id)) by {
                if exists|i: int| 0 <= i < self.data@.len() && (#[trigger] self.data@[i]).0
                    == id {
                    let i = choose|i: int|
                        0 <= i < self.data@.len() && (#[trigger] self.data@[i]).0 == id;
                    if i < w {
                        assert(d0[i].0 == id);
                    } else {
                        assert(d0[i + 1].0 == id);
                    }
                }
            }
            assert forall|x: SlitherID| #[trigger] self.spec_contains(x) == (old(
                self,
            ).spec_contains(x) && x != id) by {
                if self.spec_contains(x) {
                    let i = choose|i: int|
                        0 <= i < self.data@.len() && (#[trigger] self.data@[i]).0 == x;
                    if i < w {
                        assert(d0[i].0 == x);
                    } else {
                        assert(d0[i + 1].0 == x);
                    }
                }
                if old(self).spec_contains(x) && x != id {
                    let j = choose|j: int| 0 <= j < d0.len() && (#[trigger] d0[j]).0 == x;
                    if j < w {
                        assert(self.data@[j].0 == x);
                    } else {
                        assert(d0[w].0 == id);
                        assert(j != w);
                        assert(self.data@[j - 1].0 == x);
                    }
                }
            }
            assert forall|x: SlitherID| self.spec_contains(x) implies #[trigger] self.spec_get(x)
                == old(self).spec_get(x) by {
                let i1 = self.spec_index_of(x);
                assert(0 <= i1 < self.data@.len() && self.data@[i1].0 == x) by {
                    let iw = choose|i: int|
                        0 <= i < self.data@.len() && (#[trigger] self.data@[i]).0 == x;
                    if i1 != iw {
                        let a = if i1 < iw { i1 } else { iw };
                        let b = if i1 < iw { iw } else { i1 };
                        if 0 <= a < b < self.data@.len() {
                            assert(self.data@[a].0 != self.data@[b].0);
                        }
                    }
                }
                let j0 = if i1 < w { i1 } else { i1 + 1 };
                assert(d0[j0].0 == x);
                let i0 = old(self).spec_index_of(x);
                assert(0 <= i0 < d0.len() && d0[i0].0 == x);
                if i0 != j0 {
                    assert(d0[if i0 < j0 { i0 } else { j0 }].0 != d0[if i0 < j0 { j0 } else { i0 }].0);
                }
            }
        }
        entry.1
    }
}

/// The mass clots scattered across the arena.
pub struct MassClots {
    pub data: Vec<MassClot>,
}

/// The summed mass of a clot list, in milli-units.
pub open spec fn sum_clots(s: Seq<MassClot>) -> int
    decreases s.len(),
{
    if s.len() == 0 {
        0
    } else {
        sum_clots(s.drop_last()) + s.last().amount
    }
}

/// A seeded clot: a whole quantum range draw, inside the arena, in a
/// bright opaque color.
pub open spec fn seeded_clot_ok(c: MassClot, width: int, height: int) -> bool {
    &&& MIN_CLOT_MASS <= c.amount < MAX_CLOT_MASS
    &&& 0 <= c.pos.x < width
    &&& 0 <= c.pos.y < height
    &&& 128 <= c.color.r < 255
    &&& 128 <= c.color.g < 255
    &&& 128 <= c.color.b < 255
    &&& c.color.a == 255
}

impl MassClots {
    pub open spec fn well_formed(self) -> bool {
        forall|i: int| 0 <= i < self.data@.len() ==> clot_ok(#[trigger] self.data@[i])
    }

    /// Seed the arena with randomly placed, randomly sized clots whose
    /// masses add up to `total_mass`, short of at most one mass
    /// quantum that stays unseeded.
    pub fn new(width: i64, height: i64, total_mass: i64) -> (c: MassClots)
        requires
            0 < width <= 1_000_000_000,
            0 < height <= 1_000_000_000,
            0 <= total_mass <= MASS_LIMIT,
        ensures
            c.well_formed(),
            total_mass > MIN_CLOT_MASS ==> total_mass - MIN_CLOT_MASS <= sum_clots(c.data@)
                <= total_mass,
            total_mass <= MIN_CLOT_MASS ==> c.data@.len() == 0,
            forall|i: int|
                0 <= i < c.data@.len() ==> seeded_clot_ok(
                    #[trigger] c.data@[i],
                    width as int,
                    height as int,
                ),
    {
        let mut data: Vec<MassClot> = Vec::new();
        let mut remaining: i64 = total_mass;
        while remaining > MIN_CLOT_MASS
            invariant
                0 <= remaining <= MASS_LIMIT,
                0 < width <= 1_000_000_000,
                0 < height <= 1_000_000_000,
                sum_clots(data@) == total_mass - remaining,
                total_mass <= MIN_CLOT_MASS ==> data@.len() == 0,
                forall|i: int| 0 <= i < data@.len() ==> clot_ok(#[trigger] data@[i]),
                forall|i: int|
                    0 <= i < data@.len() ==> seeded_clot_ok(
                        #[trigger] data@[i],
                        width as int,
                        height as int,
                    ),
            decreases remaining,
        {
            let drawn = random_in_range(MIN_CLOT_MASS, MAX_CLOT_MASS);
            let amount: i64 = if drawn > remaining {
                remaining
            } else {
                drawn
            };
            let r = random_in_range(0, 127) + 128;
            let g = random_in_range(0, 127) + 128;
            let b = random_in_range(0, 127) + 128;
            let color = Rgba::from_rgb(r as u8, g as u8, b as u8);
            let clot = MassClot::random_in(width, height, amount, color);
            let ghost prev = data@;
            data.push(clot);
            proof {
                assert(data@.drop_last() =~= prev);
                assert(data@.last() == clot);
            }
            remaining = remaining - amount;
        }
        MassClots { data }
    }

    /// Drop a clot into the arena.
    pub fn add(&mut self, clot: MassClot)
        requires
            old(self).well_formed(),
            clot_ok(clot),
        ensures
            final(self).well_formed(),
            final(self).data@ == old(self).data@.push(clot),
    {
        self.data.push(clot);
    }
}

/// A redistributed clot: the dead slither's color, placed within one
/// cell radius of some cell of its former body.
pub open spec fn scattered_clot_ok(c: MassClot, s: Slither) -> bool {
    &&& c.color == s.color
    &&& exists|k: int, a: int, d: int|
        0 <= k < s.body.cells@.len() && 0 <= a < 360000 && 0 <= d <= crate::slither::spec_cell_radius(
            s.body.mass as int,
        ) && c.pos == #[trigger] crate::slither::spec_offset(s.body.cells@[k], a, d)
}

/// The summed mass of a slither list, in milli-units.
pub open spec fn sum_slither_mass(s: Seq<(SlitherID, Slither)>) -> int
    decreases s.len(),
{
    if s.len() == 0 {
        0
    } else {
        sum_slither_mass(s.drop_last()) + s.last().1.body.mass
    }
}

/// Summing is compatible with removing one entry.
pub proof fn lemma_sum_slither_remove(s: Seq<(SlitherID, Slither)>, i: int)
    requires
        0 <= i < s.len(),
    ensures
        sum_slither_mass(s.remove(i)) == sum_slither_mass(s) - s[i].1.body.mass,
    decreases s.len(),
{
    if i == s.len() - 1 {
        assert(s.remove(i) =~= s.drop_last());
    } else {
        assert(s.remove(i).drop_last() =~= s.drop_last().remove(i));
        lemma_sum_slither_remove(s.drop_last(), i);
        assert(s.remove(i).last() == s.last());
    }
}

/// The arena: all live slithers, all clots, and the fixed bounds.
pub struct World {
    pub slithers: Slithers,
    pub clots: MassClots,
    /// Arena width in milli-units.
    pub width: i64,
    /// Arena height in milli-units.
    pub height: i64,
}

/// Total system mass: every slither plus every clot.
pub open spec fn spec_total_mass(w: World) -> int {
    sum_slither_mass(w.slithers.data@) + sum_clots(w.clots.data@)
}

impl World {
    pub open spec fn well_formed(self) -> bool {
        &&& self.slithers.well_formed()
        &&& self.clots.well_formed()
        &&& 0 < self.width <= 1_000_000_000
        &&& 0 < self.height <= 1_000_000_000
    }

    /// A fresh arena of the given bounds, seeded with clots summing
    /// to `mass` less at most one quantum.
    pub fn new(width: i64, height: i64, mass: i64) -> (w: World)
        requires
            0 < width <= 1_000_000_000,
            0 < height <= 1_000_000_000,
            0 <= mass <= MASS_LIMIT,
        ensures
            w.well_formed(),
            w.width == width,
            w.height == height,
            w.slithers.data@.len() == 0,
            mass > crate::clot::MIN_CLOT_MASS ==> mass - crate::clot::MIN_CLOT_MASS
                <= spec_total_mass(w) <= mass,
            mass <= crate::clot::MIN_CLOT_MASS ==> spec_total_mass(w) == 0,
    {
        let slithers = Slithers::new();
        let clots = MassClots::new(width, height, mass);
        World { slithers, clots, width, height }
    }

    /// The arena bounds as a point.
    pub fn size(&self) -> (p: Pos)
        ensures
            p == (Pos { x: self.width, y: self.height }),
    {
        Pos { x: self.width, y: self.height }
    }

    /// The arena's center point.
    pub fn center(&self) -> (p: Pos)
        requires
            self.well_formed(),
        ensures
            p.x == self.width as int / 2,
            p.y == self.height as int / 2,
            pos_ok(p),
    {
        let x: i64 = ((self.width as u64) / 2) as i64;
        let y: i64 = ((self.height as u64) / 2) as i64;
        Pos { x, y }
    }

    /// The total system mass: the sum of every slither's mass and
    /// every clot's amount, in milli-units.
    pub fn total_world_mass(&self) -> (total: i128)
        requires
            self.well_formed(),
        ensures
            total == spec_total_mass(*self),
    {
        let mut acc: i128 = 0;
        let n = self.slithers.data.len();
        let mut i: usize = 0;
        while i < n
            invariant
                0 <= i <= n,
                self.well_formed(),
                n == self.slithers.data@.len(),
                acc == sum_slither_mass(self.slithers.data@.subrange(0, i as int)),
                0 <= acc <= 1_000_000_000_000i128 * i,
            decreases n - i,
        {
            proof {
                assert(self.slithers.data@.subrange(0, i as int + 1).drop_last()
                    =~= self.slithers.data@.subrange(0, i as int));
            }
            acc = acc + self.slithers.data[i].1.body.mass() as i128;
            i = i + 1;
        }
        proof {
            assert(self.slithers.data@.subrange(0, n as int) =~= self.slithers.data@);
        }
        let m = self.clots.data.len();
        let mut j: usize = 0;
        let mut cacc: i128 = 0;
        while j < m
            invariant
                0 <= j <= m,
                self.well_formed(),
                m == self.clots.data@.len(),
                cacc == sum_clots(self.clots.data@.subrange(0, j as int)),
                -1_000_000_000_000i128 <= cacc <= 1_000_000_000_000i128 * j,
            decreases m - j,
        {
            proof {
                assert(self.clots.data@.subrange(0, j as int + 1).drop_last()
                    =~= self.clots.data@.subrange(0, j as int));
            }
            cacc = cacc + self.clots.data[j].amount as i128;
            j = j + 1;
        }
        proof {
            assert(self.clots.data@.subrange(0, m as int) =~= self.clots.data@);
        }
        acc + cacc
    }

    /// Scatter a dead slither's whole mass back into the arena as
    /// clots of random size at random offsets along its former body:
    /// the redistributed amounts add up exactly to the mass at death.
    pub fn distribute_slither_mass(&mut self, slither: Slither)
        requires
            old(self).well_formed(),
            slither.well_formed(),
        ensures
            final(self).well_formed(),
            final(self).slithers == old(self).slithers,
            final(self).width == old(self).width,
            final(self).height == old(self).height,
            final(self).clots.data@.len() >= old(self).clots.data@.len(),
            forall|i: int|
                0 <= i < old(self).clots.data@.len() ==> final(self).clots.data@[i] == old(
                    self,
                ).clots.data@[i],
            final(self).clots.data@.len() > old(self).clots.data@.len(),
            sum_clots(final(self).clots.data@) == sum_clots(old(self).clots.data@)
                + slither.body.mass,
            forall|i: int|
                old(self).clots.data@.len() <= i < final(self).clots.data@.len()
                    ==> scattered_clot_ok(#[trigger] final(self).clots.data@[i], slither),
            forall|i: int|
                old(self).clots.data@.len() <= i < final(self).clots.data@.len() - 1
                    ==> MIN_CLOT_MASS <= (#[trigger] final(self).clots.data@[i]).amount
                    < MAX_CLOT_MASS,
            0 <= final(self).clots.data@.last().amount <= MIN_CLOT_MASS,
    {
        let mut remaining: i64 = slither.body.mass();
        let radius: i64 = slither.body.cell_radius();
        while remaining > crate::clot::MIN_CLOT_MASS
            invariant
                old(self).well_formed(),
                slither.well_formed(),
                self.well_formed(),
                self.slithers == old(self).slithers,
                self.width == old(self).width,
                self.height == old(self).height,
                0 <= remaining <= slither.body.mass,
                radius == crate::slither::spec_cell_radius(slither.body.mass as int),
                0 <= radius <= 4_000_000,
                self.clots.data@.len() >= old(self).clots.data@.len(),
                forall|i: int|
                    0 <= i < old(self).clots.data@.len() ==> self.clots.data@[i] == old(
                        self,
                    ).clots.data@[i],
                sum_clots(self.clots.data@) == sum_clots(old(self).clots.data@) + (
                slither.body.mass - remaining),
                forall|i: int|
                    old(self).clots.data@.len() <= i < self.clots.data@.len()
                        ==> scattered_clot_ok(#[trigger] self.clots.data@[i], slither),
                forall|i: int|
                    old(self).clots.data@.len() <= i < self.clots.data@.len() ==> MIN_CLOT_MASS
                        <= (#[trigger] self.clots.data@[i]).amount < MAX_CLOT_MASS,
            decreases remaining,
        {
            let drawn = random_in_range(crate::clot::MIN_CLOT_MASS, crate::clot::MAX_CLOT_MASS);
            let amount: i64 = if drawn > remaining {
                remaining
            } else {
                drawn
            };
            let clot = scatter_clot(&slither, radius, amount);
            let ghost prev = self.clots.data@;
            self.clots.add(clot);
            proof {
                assert(self.clots.data@.drop_last() =~= prev);
            }
            remaining = remaining - amount;
        }
        let clot = scatter_clot(&slither, radius, remaining);
        let ghost prev = self.clots.data@;
        self.clots.add(clot);
        proof {
            assert(self.clots.data@.drop_last() =~= prev);
        }
    }
}

/// One redistributed clot: the slither's color, carrying `amount`, at
/// a random offset within the cell radius around a random body cell.
fn scatter_clot(slither: &Slither, radius: i64, amount: i64) -> (c: MassClot)
    requires
        slither.well_formed(),
        radius == crate::slither::spec_cell_radius(slither.body.mass as int),
        0 <= radius <= 4_000_000,
        0 <= amount <= MASS_LIMIT,
    ensures
        clot_ok(c),
        c.amount == amount,
        scattered_clot_ok(c, *slither),
{
    let len: usize = slither.body.cells().len();
    let k = random_in_range(0, len as i64);
    let cell: Pos = slither.body.cells()[k as usize];
    let roff = random_in_range(0, if radius < 1 {
        1
    } else {
        radius
    });
    let angle = random_in_range(0, 360000);
    let pos = crate::slither::offset_from(cell, angle as u64, roff as u64);
    proof {
        assert(pos == crate::slither::spec_offset(
            slither.body.cells@[k as int],
            angle as int,
            roff as int,
        ));
    }
    MassClot { pos, amount, color: slither.color }
}

} // verus!
