//! One simulation tick over the whole arena, in fixed order: movement,
//! eating, collisions, death resolution. Total system mass is
//! conserved by every phase.
use vstd::prelude::*;
use crate::clot::{clot_ok, MassClot};
use crate::geom::{spec_dist_sq, Pos};
use crate::slither::{
    spec_boost_loss, spec_cell_radius, spec_crashed_into, spec_move_dist, spec_move_on,
    spec_resize, spec_target_cells, Slither, MASS_LIMIT, MAX_TICK_MS,
};
use crate::world::{sum_clots, sum_slither_mass, spec_total_mass, SlitherID, World};

verus! {

/// The authoritative game state: the world plus the IDs eliminated by
/// the current tick, recomputed every tick.
pub struct GameState {
    pub world: World,
    pub crashed: Vec<SlitherID>,
}

/// Summing is compatible with updating one entry.
proof fn lemma_sum_slither_update(s: Seq<(SlitherID, Slither)>, i: int, e: (SlitherID, Slither))
    requires
        0 <= i < s.len(),
    ensures
        sum_slither_mass(s.update(i, e)) == sum_slither_mass(s) - s[i].1.body.mass
            + e.1.body.mass,
    decreases s.len(),
{
    if i == s.len() - 1 {
        assert(s.update(i, e).drop_last() =~= s.drop_last());
    } else {
        assert(s.update(i, e).drop_last() =~= s.drop_last().update(i, e));
        lemma_sum_slither_update(s.drop_last(), i, e);
    }
}

/// How one slither comes out of the movement phase: resized to its
/// size target, then advanced one tick's travel — doubled under
/// boost, which also burns a mass-proportional amount.
pub open spec fn spec_moved_entry(e0: (SlitherID, Slither), e1: (SlitherID, Slither), dt: int) -> bool {
    let s0 = e0.1;
    let s1 = e1.1;
    let m = s0.body.mass as int;
    let resized = spec_resize(s0.body.cells@, spec_target_cells(m));
    &&& e1.0 == e0.0
    &&& s1.color == s0.color
    &&& s1.boost == s0.boost
    &&& s1.nickname@ == s0.nickname@
    &&& s1.body.dir == s0.body.dir
    &&& if s0.boost {
        let lost = spec_boost_loss(m, dt);
        &&& s1.body.mass == m - lost
        &&& s1.body.cells@ == spec_resize(
            spec_move_on(resized, s0.body.dir as int, spec_cell_radius(m), 2 * spec_move_dist(m, dt)),
            spec_target_cells(m - lost),
        )
    } else {
        &&& s1.body.mass == m
        &&& s1.body.cells@ == spec_move_on(
            resized,
            s0.body.dir as int,
            spec_cell_radius(m),
            spec_move_dist(m, dt),
        )
    }
}

/// The slither masses, in data order.
pub open spec fn masses_of(data: Seq<(SlitherID, Slither)>) -> Seq<int> {
    Seq::new(data.len(), |i: int| data[i].1.body.mass as int)
}

/// The slither head positions, in data order.
pub open spec fn heads_of(data: Seq<(SlitherID, Slither)>) -> Seq<Pos> {
    Seq::new(data.len(), |i: int| data[i].1.body.cells@[0])
}

/// Whether a slither of mass `m` with head `h` consumes clot `c`: the
/// clot lies within pickup reach and the grant stays within the mass
/// cap.
pub open spec fn spec_would_eat(m: int, h: Pos, c: MassClot) -> bool {
    let md = spec_cell_radius(m) + crate::clot::spec_clot_radius(c.amount as int);
    spec_dist_sq(h, c.pos) < md * md && m + c.amount <= MASS_LIMIT
}

/// The first slither, in data order, that consumes clot `c`; the list
/// length if none does.
pub open spec fn spec_first_eater(masses: Seq<int>, heads: Seq<Pos>, c: MassClot) -> int
    decreases masses.len(),
{
    if masses.len() == 0 {
        0
    } else if spec_would_eat(masses[0], heads[0], c) {
        0
    } else {
        1 + spec_first_eater(masses.subrange(1, masses.len() as int), heads.subrange(1, heads.len() as int), c)
    }
}

/// The slither masses after the eating phase, and the clots that
/// survive it: each clot goes to the first slither within reach, or
/// stays; a clot is never granted twice.
pub open spec fn spec_eat_all(masses: Seq<int>, heads: Seq<Pos>, clots: Seq<MassClot>) -> (
    Seq<int>,
    Seq<MassClot>,
)
    decreases clots.len(),
{
    if clots.len() == 0 {
        (masses, Seq::empty())
    } else {
        let (m1, kept1) = spec_eat_all(masses, heads, clots.drop_last());
        let c = clots.last();
        let k = spec_first_eater(m1, heads, c);
        if k < m1.len() {
            (m1.update(k, m1[k] + c.amount), kept1)
        } else {
            (m1, kept1.push(c))
        }
    }
}

/// The sum of a list of masses.
pub open spec fn sum_ints(s: Seq<int>) -> int
    decreases s.len(),
{
    if s.len() == 0 {
        0
    } else {
        sum_ints(s.drop_last()) + s.last()
    }
}

proof fn lemma_sum_ints_update(s: Seq<int>, i: int, v: int)
    requires
        0 <= i < s.len(),
    ensures
        sum_ints(s.update(i, v)) == sum_ints(s) - s[i] + v,
    decreases s.len(),
{
    if i == s.len() - 1 {
        assert(s.update(i, v).drop_last() =~= s.drop_last());
    } else {
        assert(s.update(i, v).drop_last() =~= s.drop_last().update(i, v));
        lemma_sum_ints_update(s.drop_last(), i, v);
    }
}

/// Law (pickup exclusivity): in the eating phase each clot is granted
/// to at most one slither — the first within reach — even when several
/// are within reach; every other slither's mass is untouched by it,
/// and mass moves from clots to slithers without loss.
pub proof fn lemma_pickup_exclusive(masses: Seq<int>, heads: Seq<Pos>, c: MassClot)
    requires
        masses.len() == heads.len(),
    ensures
        ({
            let k = spec_first_eater(masses, heads, c);
            &&& 0 <= k <= masses.len()
            &&& forall|j: int| 0 <= j < k ==> !spec_would_eat(masses[j], heads[j], c)
            &&& k < masses.len() ==> spec_would_eat(masses[k], heads[k], c)
        }),
    decreases masses.len(),
{
    if masses.len() > 0 && !spec_would_eat(masses[0], heads[0], c) {
        let mt = masses.subrange(1, masses.len() as int);
        let ht = heads.subrange(1, heads.len() as int);
        lemma_pickup_exclusive(mt, ht, c);
        let k = spec_first_eater(masses, heads, c);
        let kt = spec_first_eater(mt, ht, c);
        assert(k == 1 + kt);
        assert forall|j: int| 0 <= j < k implies !spec_would_eat(masses[j], heads[j], c) by {
            if j >= 1 {
                assert(masses[j] == mt[j - 1] && heads[j] == ht[j - 1]);
            }
        }
        if k < masses.len() {
            assert(masses[k] == mt[kt] && heads[k] == ht[kt]);
        }
    }
}

/// The first-eater index matches a scan that found no eater before
/// `k`.
proof fn lemma_first_eater_at(masses: Seq<int>, heads: Seq<Pos>, c: MassClot, k: int)
    requires
        masses.len() == heads.len(),
        0 <= k <= masses.len(),
        forall|j: int| 0 <= j < k ==> !spec_would_eat(#[trigger] masses[j], heads[j], c),
        k < masses.len() ==> spec_would_eat(masses[k], heads[k], c),
    ensures
        spec_first_eater(masses, heads, c) == k,
    decreases masses.len(),
{
    if masses.len() > 0 {
        if k == 0 {
        } else {
            lemma_first_eater_at(
                masses.subrange(1, masses.len() as int),
                heads.subrange(1, heads.len() as int),
                c,
                k - 1,
            );
        }
    }
}

/// The eating phase conserves total mass: what leaves the clots goes
/// to the slithers.
pub proof fn lemma_eat_all_conserves(masses: Seq<int>, heads: Seq<Pos>, clots: Seq<MassClot>)
    requires
        masses.len() == heads.len(),
    ensures
        ({
            let (m1, kept) = spec_eat_all(masses, heads, clots);
            &&& m1.len() == masses.len()
            &&& sum_ints(m1) + sum_clots(kept) == sum_ints(masses) + sum_clots(clots)
        }),
    decreases clots.len(),
{
    if clots.len() > 0 {
        lemma_eat_all_conserves(masses, heads, clots.drop_last());
        let (m1, kept1) = spec_eat_all(masses, heads, clots.drop_last());
        let c = clots.last();
        lemma_pickup_exclusive(m1, heads, c);
        let k = spec_first_eater(m1, heads, c);
        if k < m1.len() {
            lemma_sum_ints_update(m1, k, m1[k] + c.amount);
        } else {
            assert(kept1.push(c).drop_last() =~= kept1);
        }
    }
}

/// Everything the eating phase leaves alone, entry by entry: identity,
/// look, heading and head position.
pub open spec fn statics_ok(d0: Seq<(SlitherID, Slither)>, d1: Seq<(SlitherID, Slither)>) -> bool {
    &&& d1.len() == d0.len()
    &&& forall|i: int|
        0 <= i < d0.len() ==> {
            let s0 = (#[trigger] d0[i]).1;
            let s1 = (#[trigger] d1[i]).1;
            &&& d1[i].0 == d0[i].0
            &&& s1.color == s0.color
            &&& s1.boost == s0.boost
            &&& s1.nickname@ == s0.nickname@
            &&& s1.body.dir == s0.body.dir
            &&& s1.body.cells@[0] == s0.body.cells@[0]
        }
}

/// An entry is either untouched or has just been resized by a mass
/// grant: its cell count then matches the size target of its new mass.
pub open spec fn cells_follow(d0: Seq<(SlitherID, Slither)>, d1: Seq<(SlitherID, Slither)>) -> bool {
    forall|i: int|
        0 <= i < d0.len() ==> ((#[trigger] d1[i]).1 == (#[trigger] d0[i]).1 || d1[i].1.body.cells@.len()
            == spec_target_cells(d1[i].1.body.mass as int))
}

/// For an entry whose chain starts at its size target — as every
/// entry does after the movement phase — the eating phase leaves the
/// chain grown to exactly the size target of its new mass.
pub open spec fn cells_exact(d0: Seq<(SlitherID, Slither)>, d1: Seq<(SlitherID, Slither)>) -> bool {
    forall|i: int|
        0 <= i < d0.len() ==> ((#[trigger] d0[i]).1.body.cells@.len() == spec_target_cells(
            d0[i].1.body.mass as int,
        ) ==> (#[trigger] d1[i]).1.body.cells@ == spec_resize(
            d0[i].1.body.cells@,
            spec_target_cells(d1[i].1.body.mass as int),
        ))
}

proof fn lemma_sum_masses_bridge(d: Seq<(SlitherID, Slither)>)
    ensures
        sum_ints(masses_of(d)) == sum_slither_mass(d),
    decreases d.len(),
{
    if d.len() > 0 {
        assert(masses_of(d).drop_last() =~= masses_of(d.drop_last()));
        lemma_sum_masses_bridge(d.drop_last());
    }
}

/// The first slither in list order that consumes `c`, or the list
/// length if none does.
fn find_eater(data: &Vec<(SlitherID, Slither)>, c: MassClot) -> (k: usize)
    requires
        forall|i: int| 0 <= i < data@.len() ==> (#[trigger] data@[i]).1.well_formed(),
        clot_ok(c),
    ensures
        k == spec_first_eater(masses_of(data@), heads_of(data@), c),
        k <= data@.len(),
        k < data@.len() ==> spec_would_eat(
            data@[k as int].1.body.mass as int,
            data@[k as int].1.body.cells@[0],
            c,
        ),
{
    let ghost m0 = masses_of(data@);
    let ghost h0 = heads_of(data@);
    let mut j: usize = 0;
    while j < data.len()
        invariant
            0 <= j <= data@.len(),
            forall|i: int| 0 <= i < data@.len() ==> (#[trigger] data@[i]).1.well_formed(),
            clot_ok(c),
            m0 == masses_of(data@),
            h0 == heads_of(data@),
            forall|i: int| 0 <= i < j ==> !spec_would_eat(#[trigger] m0[i], h0[i], c),
        decreases data@.len() - j,
    {
        let s = &data[j].1;
        let md: i64 = s.body.cell_radius() + c.radius();
        proof {
            assert((md as u128) * (md as u128) <= 1_296_000_000_000_000u128) by (nonlinear_arith)
                requires
                    0 <= md <= 36_000_000i64,
            {}
        }
        let md_sq: u128 = (md as u128) * (md as u128);
        let hd: u128 = crate::geom::dist_sq(s.body.head(), c.pos);
        if hd < md_sq && s.body.mass() <= MASS_LIMIT - c.amount {
            proof {
                lemma_first_eater_at(m0, h0, c, j as int);
            }
            return j;
        }
        j = j + 1;
    }
    proof {
        lemma_first_eater_at(m0, h0, c, data@.len() as int);
    }
    data.len()
}

/// A slither's head has left the containment band `[radius,
/// bound - radius]` on some axis.
pub open spec fn spec_out_of_bounds(w: World, s: Slither) -> bool {
    let r = spec_cell_radius(s.body.mass as int);
    let h = s.body.cells@[0];
    !(r <= h.x <= w.width - r && r <= h.y <= w.height - r)
}

/// The slither at index `i` is eliminated this tick: its head has
/// left the arena or run into any other slither's body.
pub open spec fn spec_crashes(w: World, i: int) -> bool {
    let d = w.slithers.data@;
    spec_out_of_bounds(w, d[i].1) || exists|j: int|
        0 <= j < d.len() && j != i && spec_crashed_into(d[i].1.body, (#[trigger] d[j]).1.body)
}

/// The IDs eliminated this tick, in list order, from index `i` on.
pub open spec fn spec_crashed_from(w: World, i: int) -> Seq<SlitherID>
    decreases w.slithers.data@.len() - i,
{
    let d = w.slithers.data@;
    if i < 0 || i >= d.len() {
        Seq::empty()
    } else {
        (if spec_crashes(w, i) {
            seq![d[i].0]
        } else {
            Seq::empty()
        }) + spec_crashed_from(w, i + 1)
    }
}

/// The entries that survive this tick, in list order, from index `i`
/// on.
pub open spec fn spec_surviving_from(w: World, i: int) -> Seq<(SlitherID, Slither)>
    decreases w.slithers.data@.len() - i,
{
    let d = w.slithers.data@;
    if i < 0 || i >= d.len() {
        Seq::empty()
    } else {
        (if spec_crashes(w, i) {
            Seq::empty()
        } else {
            seq![d[i]]
        }) + spec_surviving_from(w, i + 1)
    }
}

/// Pairwise-distinct IDs across a slither list.
pub open spec fn distinct_ids(s: Seq<(SlitherID, Slither)>) -> bool {
    forall|a: int, b: int| 0 <= a < b < s.len() ==> (#[trigger] s[a]).0 != (#[trigger] s[b]).0
}

proof fn lemma_sum_slither_drop_first(s: Seq<(SlitherID, Slither)>)
    requires
        s.len() >= 1,
    ensures
        sum_slither_mass(s) == s[0].1.body.mass + sum_slither_mass(s.subrange(1, s.len() as int)),
    decreases s.len(),
{
    if s.len() == 1 {
        assert(s.subrange(1, 1) =~= Seq::<(SlitherID, Slither)>::empty());
        assert(s.drop_last() =~= Seq::<(SlitherID, Slither)>::empty());
    } else {
        lemma_sum_slither_drop_first(s.drop_last());
        assert(s.subrange(1, s.len() as int).drop_last() =~= s.drop_last().subrange(
            1,
            s.len() - 1,
        ));
        assert(s.drop_last()[0] == s[0]);
        assert(s.subrange(1, s.len() as int).last() == s.last());
    }
}

proof fn lemma_distinct_remove(pre: Seq<(SlitherID, Slither)>, rest: Seq<(SlitherID, Slither)>)
    requires
        rest.len() >= 1,
        distinct_ids(pre + rest),
    ensures
        distinct_ids(pre + rest.subrange(1, rest.len() as int)),
{
    let s1 = pre + rest.subrange(1, rest.len() as int);
    let s0 = pre + rest;
    assert forall|a: int, b: int| 0 <= a < b < s1.len() implies (#[trigger] s1[a]).0 != (
    #[trigger] s1[b]).0 by {
        let a0 = if a < pre.len() {
            a
        } else {
            a + 1
        };
        let b0 = if b < pre.len() {
            b
        } else {
            b + 1
        };
        assert(s1[a] == s0[a0]);
        assert(s1[b] == s0[b0]);
        assert(s0[a0].0 != s0[b0].0);
    }
}


/// The clots the movement phase drops, considering entries up to
/// index `i`: one per boosting slither, in order, carrying exactly
/// the mass that slither burned, placed at its new tail, in its
/// color.
pub open spec fn spec_burn_clots(
    d0: Seq<(SlitherID, Slither)>,
    d1: Seq<(SlitherID, Slither)>,
    i: int,
) -> Seq<MassClot>
    decreases i,
{
    if i <= 0 {
        Seq::empty()
    } else {
        spec_burn_clots(d0, d1, i - 1) + (if i - 1 < d0.len() && i - 1 < d1.len() && d0[i
            - 1].1.boost {
            seq![
                MassClot {
                    pos: d1[i - 1].1.body.cells@.last(),
                    amount: (d0[i - 1].1.body.mass - d1[i - 1].1.body.mass) as i64,
                    color: d0[i - 1].1.color,
                },
            ]
        } else {
            Seq::empty()
        })
    }
}

/// `spec_burn_clots` reads only entries below `i`.
proof fn lemma_burn_clots_prefix(
    d0: Seq<(SlitherID, Slither)>,
    da: Seq<(SlitherID, Slither)>,
    db: Seq<(SlitherID, Slither)>,
    i: int,
)
    requires
        da.len() == db.len(),
        forall|k: int| 0 <= k < i && k < da.len() ==> #[trigger] da[k] == db[k],
    ensures
        spec_burn_clots(d0, da, i) == spec_burn_clots(d0, db, i),
    decreases i,
{
    if i > 0 {
        lemma_burn_clots_prefix(d0, da, db, i - 1);
    }
}

/// What the movement phase does, as a relation between the states
/// before and after it.
pub open spec fn spec_moving_rel(g0: GameState, g1: GameState, dt: int) -> bool {
    &&& g1.crashed@ == g0.crashed@
    &&& g1.world.width == g0.world.width
    &&& g1.world.height == g0.world.height
    &&& g1.world.slithers.data@.len() == g0.world.slithers.data@.len()
    &&& forall|i: int|
        0 <= i < g0.world.slithers.data@.len() ==> spec_moved_entry(
            g0.world.slithers.data@[i],
            #[trigger] g1.world.slithers.data@[i],
            dt,
        )
    &&& g1.world.clots.data@ == g0.world.clots.data@ + spec_burn_clots(
        g0.world.slithers.data@,
        g1.world.slithers.data@,
        g0.world.slithers.data@.len() as int,
    )
    &&& spec_total_mass(g1.world) == spec_total_mass(g0.world)
}

/// What the eating phase does, as a relation between the states
/// before and after it.
pub open spec fn spec_eating_rel(g0: GameState, g1: GameState) -> bool {
    &&& g1.crashed@ == g0.crashed@
    &&& g1.world.width == g0.world.width
    &&& g1.world.height == g0.world.height
    &&& statics_ok(g0.world.slithers.data@, g1.world.slithers.data@)
    &&& cells_follow(g0.world.slithers.data@, g1.world.slithers.data@)
    &&& cells_exact(g0.world.slithers.data@, g1.world.slithers.data@)
    &&& ({
        let (m1, kept) = spec_eat_all(
            masses_of(g0.world.slithers.data@),
            heads_of(g0.world.slithers.data@),
            g0.world.clots.data@,
        );
        &&& masses_of(g1.world.slithers.data@) == m1
        &&& g1.world.clots.data@ == kept
    })
    &&& spec_total_mass(g1.world) == spec_total_mass(g0.world)
}

/// One whole tick, as a relation: some intermediate states witness
/// the moving, eating and collision phases run in that order.
pub open spec fn spec_tick_rel(g0: GameState, g1: GameState, dt: int) -> bool {
    exists|ga: GameState, gb: GameState|
        spec_moving_rel(g0, ga, dt) && #[trigger] spec_eating_rel(ga, gb) && spec_crashings_rel(
            gb,
            g1,
        )
}

/// What the collision phase does, as a relation between the states
/// before and after it.
pub open spec fn spec_crashings_rel(g0: GameState, g1: GameState) -> bool {
    &&& g1.world.width == g0.world.width
    &&& g1.world.height == g0.world.height
    &&& g1.crashed@ == spec_crashed_from(g0.world, 0)
    &&& g1.world.slithers.data@ == spec_surviving_from(g0.world, 0)
    &&& spec_total_mass(g1.world) == spec_total_mass(g0.world)
}

impl GameState {
    pub open spec fn well_formed(self) -> bool {
        self.world.well_formed()
    }

    pub fn new(world: World) -> (g: GameState)
        requires
            world.well_formed(),
        ensures
            g.well_formed(),
            g.world == world,
            g.crashed@.len() == 0,
    {
        GameState { world, crashed: Vec::new() }
    }

    /// The movement phase: every slither is resized toward its size
    /// target and then moved; a boosting slither moves at twice the
    /// pace and its burned mass is dropped at its tail as a clot of
    /// exactly that amount, so total mass is unchanged.
    pub fn moving(&mut self, delta_time: u64)
        requires
            old(self).well_formed(),
            delta_time <= MAX_TICK_MS,
        ensures
            final(self).well_formed(),
            spec_moving_rel(*old(self), *final(self), delta_time as int),
    {
        let len = self.world.slithers.len();
        let mut i: usize = 0;
        while i < len
            invariant
                delta_time <= MAX_TICK_MS,
                self.well_formed(),
                self.crashed@ == old(self).crashed@,
                self.world.width == old(self).world.width,
                self.world.height == old(self).world.height,
                len == old(self).world.slithers.data@.len(),
                self.world.slithers.data@.len() == len,
                0 <= i <= len,
                forall|j: int|
                    i <= j < len ==> #[trigger] self.world.slithers.data@[j] == old(
                        self,
                    ).world.slithers.data@[j],
                forall|j: int|
                    0 <= j < i ==> spec_moved_entry(
                        old(self).world.slithers.data@[j],
                        #[trigger] self.world.slithers.data@[j],
                        delta_time as int,
                    ),
                self.world.clots.data@ == old(self).world.clots.data@ + spec_burn_clots(
                    old(self).world.slithers.data@,
                    self.world.slithers.data@,
                    i as int,
                ),
                spec_total_mass(self.world) == spec_total_mass(old(self).world),
            decreases len - i,
        {
            let ghost data0 = self.world.slithers.data@;
            let (id, mut slither) = self.world.slithers.data.remove(i);
            slither.body.resize();
            if slither.boost {
                let ghost mass0 = slither.body.mass as int;
                let lost = slither.move_boosted(delta_time);
                let tail = slither.body.end();
                let clot = MassClot { pos: tail, amount: lost, color: slither.color };
                let ghost clots0 = self.world.clots.data@;
                self.world.clots.add(clot);
                proof {
                    assert(self.world.clots.data@.drop_last() =~= clots0);
                }
            } else {
                slither.do_move(delta_time);
            }
            let entry = (id, slither);
            self.world.slithers.data.insert(i, entry);
            proof {
                assert(self.world.slithers.data@ =~= data0.update(i as int, entry));
                lemma_sum_slither_update(data0, i as int, entry);
                assert(self.world.slithers.well_formed()) by {
                    assert(forall|a: int, b: int|
                        0 <= a < b < data0.len() ==> (#[trigger] data0[a]).0 != (
                        #[trigger] data0[b]).0);
                }
                lemma_burn_clots_prefix(
                    old(self).world.slithers.data@,
                    data0,
                    self.world.slithers.data@,
                    i as int,
                );
                assert(self.world.clots.data@ =~= old(self).world.clots.data@ + spec_burn_clots(
                    old(self).world.slithers.data@,
                    self.world.slithers.data@,
                    i as int + 1,
                ));
            }
            i = i + 1;
        }
    }

    /// The eating phase: each clot, in order, is consumed by the
    /// first slither whose head is within pickup reach, or kept; a
    /// consumed clot's mass is granted to that one slither and the
    /// slither is resized. Total mass is unchanged.
    pub fn eating(&mut self)
        requires
            old(self).well_formed(),
        ensures
            final(self).well_formed(),
            spec_eating_rel(*old(self), *final(self)),
    {
        let ghost data0 = self.world.slithers.data@;
        let ghost m0 = masses_of(data0);
        let ghost h0 = heads_of(data0);
        let ghost clots0 = self.world.clots.data@;
        proof {
            assert forall|i: int|
                0 <= i < data0.len() && (#[trigger] data0[i]).1.body.cells@.len()
                    == spec_target_cells(data0[i].1.body.mass as int) implies data0[i].1.body.cells@
                == spec_resize(
                data0[i].1.body.cells@,
                spec_target_cells(data0[i].1.body.mass as int),
            ) by {
                assert(data0[i].1.body.cells@ =~= spec_resize(
                    data0[i].1.body.cells@,
                    spec_target_cells(data0[i].1.body.mass as int),
                ));
            }
            assert(cells_exact(data0, data0));
        }
        let mut kept: Vec<MassClot> = Vec::new();
        let clot_count = self.world.clots.data.len();
        let mut ci: usize = 0;
        while ci < clot_count
            invariant
                0 <= ci <= clot_count,
                self.well_formed(),
                self.crashed@ == old(self).crashed@,
                self.world.width == old(self).world.width,
                self.world.height == old(self).world.height,
                data0 == old(self).world.slithers.data@,
                m0 == masses_of(data0),
                h0 == heads_of(data0),
                clots0 == old(self).world.clots.data@,
                clot_count == clots0.len(),
                self.world.clots.data@ == clots0,
                old(self).well_formed(),
                statics_ok(data0, self.world.slithers.data@),
                cells_follow(data0, self.world.slithers.data@),
                cells_exact(data0, self.world.slithers.data@),
                forall|i: int|
                    0 <= i < data0.len() ==> (#[trigger] data0[i]).1.body.mass
                        <= self.world.slithers.data@[i].1.body.mass,
                (masses_of(self.world.slithers.data@), kept@) == spec_eat_all(
                    m0,
                    h0,
                    clots0.take(ci as int),
                ),
                forall|i: int| 0 <= i < kept@.len() ==> clot_ok(#[trigger] kept@[i]),
            decreases clot_count - ci,
        {
            let c = self.world.clots.data[ci];
            let ghost datap = self.world.slithers.data@;
            let ghost mp = masses_of(datap);
            proof {
                assert(clots0.take(ci as int + 1).drop_last() =~= clots0.take(ci as int));
                assert(heads_of(datap) =~= h0);
            }
            let found = find_eater(&self.world.slithers.data, c);
            if found < self.world.slithers.data.len() {
                let (id, mut s) = self.world.slithers.data.remove(found);
                let ghost s0 = s;
                s.body.change_mass_by(c.amount);
                let entry = (id, s);
                self.world.slithers.data.insert(found, entry);
                proof {
                    assert(self.world.slithers.data@ =~= datap.update(found as int, entry));
                    assert(masses_of(self.world.slithers.data@) =~= mp.update(
                        found as int,
                        mp[found as int] + c.amount,
                    ));
                    assert(self.world.slithers.well_formed()) by {
                        assert(forall|a: int, b: int|
                            0 <= a < b < datap.len() ==> (#[trigger] datap[a]).0 != (
                            #[trigger] datap[b]).0);
                    }
                    let c0 = data0[found as int].1.body.cells@;
                    let m_orig = data0[found as int].1.body.mass as int;
                    let m_cur = s0.body.mass as int;
                    let m_new = m_cur + c.amount;
                    if c0.len() == spec_target_cells(m_orig) {
                        crate::slither::lemma_target_cells_mono(m_orig, m_cur);
                        crate::slither::lemma_target_cells_mono(m_cur, m_new);
                        crate::slither::lemma_resize_grow_compose(
                            c0,
                            spec_target_cells(m_cur),
                            spec_target_cells(m_new),
                        );
                    }
                    assert(cells_exact(data0, self.world.slithers.data@));
                }
            } else {
                kept.push(c);
            }
            ci = ci + 1;
        }
        proof {
            assert(clots0.take(clot_count as int) =~= clots0);
        }
        self.world.clots.data = kept;
        proof {
            lemma_sum_masses_bridge(data0);
            lemma_sum_masses_bridge(self.world.slithers.data@);
            lemma_eat_all_conserves(m0, h0, clots0);
        }
    }

    /// The collision phase: every slither whose head has left the
    /// containment band, or run into another slither's body, is
    /// recorded as crashed — still counting as a collision target for
    /// the others — and afterwards each crashed slither is removed
    /// and its whole mass scattered back as clots, conserving total
    /// mass.
    #[verifier::rlimit(60)]
    pub fn crashings(&mut self)
        requires
            old(self).well_formed(),
        ensures
            final(self).well_formed(),
            spec_crashings_rel(*old(self), *final(self)),
    {
        let ghost w0 = self.world;
        self.crashed = Vec::new();
        let mut flags: Vec<bool> = Vec::new();
        let len = self.world.slithers.len();
        let mut i: usize = 0;
        while i < len
            invariant
                0 <= i <= len,
                self.world == w0,
                w0.well_formed(),
                len == w0.slithers.data@.len(),
                flags@.len() == i,
                forall|k: int| 0 <= k < i ==> flags@[k] == spec_crashes(w0, k),
                self.crashed@ + spec_crashed_from(w0, i as int) == spec_crashed_from(w0, 0),
            decreases len - i,
        {
            let r: i64 = self.world.slithers.data[i].1.body.cell_radius();
            let h: Pos = self.world.slithers.data[i].1.body.head();
            let inside: bool = r <= h.x && h.x <= self.world.width - r && r <= h.y && h.y
                <= self.world.height - r;
            let mut hit = false;
            let mut j: usize = 0;
            while j < len
                invariant
                    0 <= j <= len,
                    self.world == w0,
                    w0.well_formed(),
                    len == w0.slithers.data@.len(),
                    0 <= i < len,
                    hit == exists|jj: int|
                        0 <= jj < j && jj != i as int && spec_crashed_into(
                            w0.slithers.data@[i as int].1.body,
                            (#[trigger] w0.slithers.data@[jj]).1.body,
                        ),
                decreases len - j,
            {
                if j != i {
                    if self.world.slithers.data[i].1.body.crashed_into(
                        &self.world.slithers.data[j].1.body,
                    ) {
                        hit = true;
                    }
                }
                j = j + 1;
            }
            let crash: bool = !inside || hit;
            proof {
                assert(crash == spec_crashes(w0, i as int));
            }
            flags.push(crash);
            if crash {
                let ghost cprev = self.crashed@;
                self.crashed.push(self.world.slithers.data[i].0);
                proof {
                    assert(self.crashed@ + spec_crashed_from(w0, i as int + 1) =~= cprev + (seq![
                        w0.slithers.data@[i as int].0,
                    ] + spec_crashed_from(w0, i as int + 1)));
                }
            }
            i = i + 1;
        }
        let mut survivors: Vec<(SlitherID, Slither)> = Vec::new();
        let mut k: usize = 0;
        while k < len
            invariant
                0 <= k <= len,
                w0.well_formed(),
                len == w0.slithers.data@.len(),
                self.world.width == w0.width,
                self.world.height == w0.height,
                self.world.clots.well_formed(),
                self.world.slithers.data@ == w0.slithers.data@.subrange(k as int, len as int),
                self.world.slithers.well_formed(),
                flags@.len() == len,
                forall|t: int| 0 <= t < len ==> flags@[t] == spec_crashes(w0, t),
                self.crashed@ == spec_crashed_from(w0, 0),
                survivors@ + spec_surviving_from(w0, k as int) == spec_surviving_from(w0, 0),
                distinct_ids(survivors@ + self.world.slithers.data@),
                forall|t: int|
                    0 <= t < survivors@.len() ==> (#[trigger] survivors@[t]).1.well_formed(),
                sum_slither_mass(survivors@) + sum_slither_mass(self.world.slithers.data@)
                    + sum_clots(self.world.clots.data@) == sum_slither_mass(w0.slithers.data@)
                    + sum_clots(w0.clots.data@),
            decreases len - k,
        {
            let ghost datap = self.world.slithers.data@;
            proof {
                lemma_sum_slither_drop_first(datap);
            }
            let entry = self.world.slithers.data.remove(0);
            proof {
                assert(self.world.slithers.data@ =~= w0.slithers.data@.subrange(
                    k as int + 1,
                    len as int,
                ));
                assert(entry == w0.slithers.data@[k as int]);
            }
            if flags[k] {
                self.world.distribute_slither_mass(entry.1);
                proof {
                    assert(survivors@ + spec_surviving_from(w0, k as int + 1) =~= survivors@
                        + spec_surviving_from(w0, k as int));
                    lemma_distinct_remove(survivors@, datap);
                    assert(self.world.slithers.data@ =~= datap.subrange(1, datap.len() as int));
                }
            } else {
                let ghost sprev = survivors@;
                survivors.push(entry);
                proof {
                    assert(survivors@ + spec_surviving_from(w0, k as int + 1) =~= sprev + (seq![
                        w0.slithers.data@[k as int],
                    ] + spec_surviving_from(w0, k as int + 1)));
                    assert(survivors@ + self.world.slithers.data@ =~= sprev + datap);
                    assert(survivors@.drop_last() =~= sprev);
                }
            }
            k = k + 1;
        }
        self.world.slithers.data = survivors;
        proof {
            assert(self.world.slithers.data@ + Seq::<(SlitherID, Slither)>::empty()
                =~= self.world.slithers.data@);
            assert(self.world.slithers.data@ =~= spec_surviving_from(w0, 0));
        }
    }

    /// One full simulation tick, in fixed order: movement (with boost
    /// burn), eating, then collisions and death resolution. Total
    /// system mass is conserved exactly: what boost burns and what
    /// death scatters reappears as clot mass, and what eating removes
    /// from the clots reappears as slither mass.
    pub fn update(&mut self, delta_time: u64)
        requires
            old(self).well_formed(),
            delta_time <= MAX_TICK_MS,
        ensures
            final(self).well_formed(),
            final(self).world.width == old(self).world.width,
            final(self).world.height == old(self).world.height,
            spec_total_mass(final(self).world) == spec_total_mass(old(self).world),
            spec_tick_rel(*old(self), *final(self), delta_time as int),
    {
        self.moving(delta_time);
        let ghost g1 = *self;
        self.eating();
        let ghost g2 = *self;
        self.crashings();
        proof {
            assert(spec_moving_rel(*old(self), g1, delta_time as int) && spec_eating_rel(g1, g2)
                && spec_crashings_rel(g2, *self));
        }
    }
}

} // verus!
