//! Slither bodies: an ordered chain of cells dragged behind a head, a
//! scalar mass and a heading. Cell count, cell radius and speed are
//! fixed functions of mass.
use vstd::prelude::*;
use crate::geom::{coord_ok, dist, pos_ok, spec_dist, spec_dist_sq, Pos, COORD_LIMIT};
use crate::nums::{
    icbrt_u64, is_icbrt, lemma_icbrt_unique, lemma_mul_mono_nonneg, lemma_pow7_mono,
    lemma_pow8_mono, pow7, pow8, FULL_TURN,
};

verus! {

/// Largest mass, in milli-units, that a single slither or clot may
/// carry; keeps every formula below free of overflow.
pub const MASS_LIMIT: i64 = 1_000_000_000_000;

/// Numerator of the speed law: speed in milli-units per second is this
/// over the cube root of the mass in milli-units.
pub const SPEED_NUM: u64 = 10_000_000;

/// Upper bound on a single tick's travel distance in milli-units.
pub const DIST_LIMIT: u64 = 100_000_000;

/// Largest tick duration, in milliseconds, the simulation accepts.
pub const MAX_TICK_MS: u64 = 1000;

/// Milli-degrees of turn allowed per millisecond of elapsed time.
pub const TURN_RATE: u64 = 1440;

/// Boost burns one part in this many of the mass per millisecond.
pub const BOOST_BURN_DIV: u64 = 20_000;

pub open spec fn mass_ok(m: int) -> bool {
    1 <= m <= MASS_LIMIT
}

/// The quantity whose fractional powers give a body's cell count and
/// cell radius: two and a half times the mass.
pub open spec fn mass_q(mass: int) -> int {
    5 * mass / 2
}

/// `s` is the target cell count for `mass`: the largest whole number
/// whose seventh power is at most the square of `mass_q` in whole
/// units.
pub open spec fn is_body_size(mass: int, s: int) -> bool {
    let q = mass_q(mass);
    s >= 0 && pow7(s) * 1000000 <= q * q && pow7(s + 1) * 1000000 > q * q
}

pub open spec fn spec_body_size(mass: int) -> int {
    choose|s: int| is_body_size(mass, s)
}

/// `r` is the cell radius for `mass` in deci-units: the largest whole
/// number whose eighth power, times ten, is at most the cube of
/// `mass_q`.
pub open spec fn is_cell_radius_du(mass: int, r: int) -> bool {
    let q = mass_q(mass);
    r >= 0 && 10 * pow8(r) <= q * q * q && 10 * pow8(r + 1) > q * q * q
}

/// The cell radius for `mass`, in milli-units.
pub open spec fn spec_cell_radius(mass: int) -> int {
    100 * (choose|r: int| is_cell_radius_du(mass, r))
}

/// The cube root of the mass, the denominator of the speed law.
pub open spec fn spec_mass_cbrt(mass: int) -> int {
    choose|r: int| is_icbrt(mass, r)
}

/// Speed in milli-units per second as a function of mass.
pub open spec fn spec_speed(mass: int) -> int {
    (SPEED_NUM as int) / spec_mass_cbrt(mass)
}

pub proof fn lemma_body_size_unique(mass: int, a: int, b: int)
    requires
        is_body_size(mass, a),
        is_body_size(mass, b),
    ensures
        a == b,
{
    let q = mass_q(mass);
    if a < b {
        lemma_pow7_mono(a + 1, b);
        assert(pow7(a + 1) * 1000000 <= pow7(b) * 1000000);
    }
    if b < a {
        lemma_pow7_mono(b + 1, a);
        assert(pow7(b + 1) * 1000000 <= pow7(a) * 1000000);
    }
}

proof fn lemma_body_size_search(mass: int, s: int)
    requires
        0 <= mass <= MASS_LIMIT,
        0 <= s <= 540,
        pow7(s) * 1000000 <= mass_q(mass) * mass_q(mass),
    ensures
        is_body_size(mass, spec_body_size(mass)),
    decreases 540 - s,
{
    let q = mass_q(mass);
    if pow7(s + 1) * 1000000 > q * q {
        assert(is_body_size(mass, s));
        let w = spec_body_size(mass);
        assert(is_body_size(mass, w)) by {
            assert(is_body_size(mass, s));
        }
    } else {
        if s == 540 {
            vstd::arithmetic::div_mod::lemma_div_is_ordered(5 * mass, 5 * MASS_LIMIT, 2);
            assert(q <= 2500000000000int);
            vstd::arithmetic::div_mod::lemma_div_pos_is_pos(5 * mass, 2);
            lemma_mul_mono_nonneg(q, q, 2500000000000int, 2500000000000int);
            assert(pow7(541) == 13563783707049367381int) by (nonlinear_arith);
            assert(false);
        }
        lemma_body_size_search(mass, s + 1);
    }
}

/// Every admissible mass has a target cell count: the size law is
/// total.
proof fn lemma_body_size_exists(mass: int)
    requires
        0 <= mass <= MASS_LIMIT,
    ensures
        is_body_size(mass, spec_body_size(mass)),
{
    let q = mass_q(mass);
    vstd::arithmetic::div_mod::lemma_div_pos_is_pos(5 * mass, 2);
    assert(q * q >= 0) by (nonlinear_arith);
    lemma_body_size_search(mass, 0);
}

/// A heavier body has at least as many target cells.
proof fn lemma_body_size_mono(m1: int, m2: int)
    requires
        0 <= m1 <= m2,
        is_body_size(m1, spec_body_size(m1)),
        is_body_size(m2, spec_body_size(m2)),
    ensures
        spec_body_size(m1) <= spec_body_size(m2),
{
    let s1 = spec_body_size(m1);
    let s2 = spec_body_size(m2);
    let q1 = mass_q(m1);
    let q2 = mass_q(m2);
    vstd::arithmetic::div_mod::lemma_div_is_ordered(5 * m1, 5 * m2, 2);
    vstd::arithmetic::div_mod::lemma_div_pos_is_pos(5 * m1, 2);
    lemma_mul_mono_nonneg(q1, q1, q2, q2);
    if s2 < s1 {
        lemma_pow7_mono(s2 + 1, s1);
        assert(pow7(s2 + 1) * 1000000 <= pow7(s1) * 1000000);
    }
}

/// A mass grant never shrinks the size target.
pub proof fn lemma_target_cells_mono(m1: int, m2: int)
    requires
        0 <= m1 <= m2 <= MASS_LIMIT,
    ensures
        1 <= spec_target_cells(m1) <= spec_target_cells(m2),
{
    lemma_body_size_exists(m1);
    lemma_body_size_exists(m2);
    lemma_body_size_mono(m1, m2);
}

/// Growing a chain twice is growing it once to the final target.
pub proof fn lemma_resize_grow_compose(c: Seq<Pos>, t1: int, t2: int)
    requires
        1 <= c.len() <= t1 <= t2,
    ensures
        spec_resize(spec_resize(c, t1), t2) == spec_resize(c, t2),
{
    assert(spec_resize(spec_resize(c, t1), t2) =~= spec_resize(c, t2));
}

pub proof fn lemma_cell_radius_unique(mass: int, a: int, b: int)
    requires
        is_cell_radius_du(mass, a),
        is_cell_radius_du(mass, b),
    ensures
        a == b,
{
    if a < b {
        lemma_pow8_mono(a + 1, b);
        assert(10 * pow8(a + 1) <= 10 * pow8(b));
    }
    if b < a {
        lemma_pow8_mono(b + 1, a);
        assert(10 * pow8(b + 1) <= 10 * pow8(a));
    }
}

/// The seventh power, for exponents small enough that it fits well
/// inside a `u128`.
fn pow7_u128(p: u64) -> (r: u128)
    requires
        p <= 600,
    ensures
        r == pow7(p as int),
        r <= 27993600000000000000u128,
{
    let p1: u128 = p as u128;
    proof {
        assert(p1 * p1 <= 360000 && p1 * p1 * p1 <= 216000000 && p1 * p1 * p1 * p1
            <= 129600000000u128 && p1 * p1 * p1 * p1 * p1 <= 77760000000000u128 && p1 * p1 * p1
            * p1 * p1 * p1 <= 46656000000000000u128 && p1 * p1 * p1 * p1 * p1 * p1 * p1
            <= 27993600000000000000u128) by (nonlinear_arith)
            requires
                0 <= p1 <= 600,
        {}
    }
    p1 * p1 * p1 * p1 * p1 * p1 * p1
}

/// The eighth power, for exponents small enough that it fits well
/// inside a `u128`.
fn pow8_u128(p: u64) -> (r: u128)
    requires
        p <= 40001,
    ensures
        r == pow8(p as int),
        r <= 6554910834693734579203584044800320001u128,
{
    let p1: u128 = p as u128;
    proof {
        assert(p1 * p1 <= 1600080001u128 && p1 * p1 * p1 <= 64004800120001u128 && p1 * p1 * p1
            * p1 <= 2560256009600160001u128 && p1 * p1 * p1 * p1 * p1
            <= 102412800640016000200001u128 && p1 * p1 * p1 * p1 * p1 * p1
            <= 4096614438401280024000240001u128 && p1 * p1 * p1 * p1 * p1 * p1 * p1
            <= 163868674150489602240033600280001u128 && p1 * p1 * p1 * p1 * p1 * p1 * p1 * p1
            <= 6554910834693734579203584044800320001u128) by (nonlinear_arith)
            requires
                0 <= p1 <= 40001,
        {}
    }
    p1 * p1 * p1 * p1 * p1 * p1 * p1 * p1
}

/// The target cell count for a mass: the greatest `s` with
/// `s^7 * 10^6 <= mass_q^2`.
pub fn body_size_of_mass(mass: i64) -> (s: usize)
    requires
        mass_ok(mass as int),
    ensures
        is_body_size(mass as int, s as int),
        s == spec_body_size(mass as int),
        s <= 540,
{
    let q: u64 = 5 * (mass as u64) / 2;
    proof {
        assert(q == mass_q(mass as int));
        assert((q as u128) * (q as u128) <= 6250000000000000000000000u128) by (nonlinear_arith)
            requires
                0 <= q <= 2500000000000u64,
        {}
    }
    let qq: u128 = (q as u128) * (q as u128);
    let mut s: u64 = 0;
    while s < 540 && pow7_u128(s + 1) * 1000000 <= qq
        invariant
            0 <= s <= 540,
            pow7(s as int) * 1000000 <= qq,
            qq == mass_q(mass as int) * mass_q(mass as int),
            qq <= 6250000000000000000000000u128,
        decreases 540 - s,
    {
        s = s + 1;
    }
    proof {
        if s == 540 {
            assert(pow7(541) == 13563783707049367381int) by (nonlinear_arith);
            assert(pow7(541) * 1000000 > 6250000000000000000000000int);
        }
        assert(is_body_size(mass as int, s as int));
        let w = spec_body_size(mass as int);
        assert(is_body_size(mass as int, w)) by {
            assert(is_body_size(mass as int, s as int));
        }
        lemma_body_size_unique(mass as int, s as int, w);
    }
    s as usize
}

/// The cell radius for a mass, in milli-units: one hundred times the
/// greatest `r` with `10 * r^8 <= mass_q^3`.
pub fn cell_radius_of_mass(mass: i64) -> (r: i64)
    requires
        mass_ok(mass as int),
    ensures
        r == spec_cell_radius(mass as int),
        0 <= r <= 4_000_000,
{
    let q: u64 = 5 * (mass as u64) / 2;
    proof {
        assert(q == mass_q(mass as int));
        assert((q as u128) * (q as u128) <= 6250000000000000000000000u128 && (q as u128) * (
        q as u128) * (q as u128) <= 15625000000000000000000000000000000000u128)
            by (nonlinear_arith)
            requires
                0 <= q <= 2500000000000u64,
        {}
    }
    let q3: u128 = (q as u128) * (q as u128) * (q as u128);
    let mut r: u64 = 0;
    while r < 40000 && 10 * pow8_u128(r + 1) <= q3
        invariant
            0 <= r <= 40000,
            10 * pow8(r as int) <= q3,
            q3 == mass_q(mass as int) * mass_q(mass as int) * mass_q(mass as int),
            q3 <= 15625000000000000000000000000000000000u128,
        decreases 40000 - r,
    {
        r = r + 1;
    }
    proof {
        if r == 40000 {
            assert(pow8(40001) == 6554910834693734579203584044800320001int) by (nonlinear_arith);
            assert(10 * pow8(40001) > 15625000000000000000000000000000000000int);
        }
        assert(is_cell_radius_du(mass as int, r as int));
        let w = choose|v: int| is_cell_radius_du(mass as int, v);
        assert(is_cell_radius_du(mass as int, w)) by {
            assert(is_cell_radius_du(mass as int, r as int));
        }
        lemma_cell_radius_unique(mass as int, r as int, w);
    }
    (r as i64) * 100
}

/// Speed in milli-units per second for a mass.
pub fn speed_of_mass(mass: i64) -> (v: u64)
    requires
        mass_ok(mass as int),
    ensures
        v == spec_speed(mass as int),
        1 <= v <= SPEED_NUM,
{
    let c: u64 = icbrt_u64(mass as u64);
    proof {
        let w = spec_mass_cbrt(mass as int);
        assert(is_icbrt(mass as int, w)) by {
            assert(is_icbrt(mass as int, c as int));
        }
        lemma_icbrt_unique(mass as int, c as int, w);
        assert(c >= 1) by (nonlinear_arith)
            requires
                mass >= 1,
                (c + 1) * (c + 1) * (c + 1) > mass,
                c >= 0,
        {}
        assert(c * c * c <= mass && mass <= MASS_LIMIT);
        assert(c <= 10000) by (nonlinear_arith)
            requires
                c * c * c <= 1_000_000_000_000i64,
                c >= 0,
        {}
        vstd::arithmetic::div_mod::lemma_div_pos_is_pos(SPEED_NUM as int, c as int);
        vstd::arithmetic::div_mod::lemma_div_is_ordered_by_denominator(
            SPEED_NUM as int,
            1,
            c as int,
        );
        assert(SPEED_NUM as int / 1 == SPEED_NUM);
        vstd::arithmetic::div_mod::lemma_div_is_ordered_by_denominator(
            SPEED_NUM as int,
            c as int,
            10000,
        );
        assert(SPEED_NUM as int / 10000 == 1000);
    }
    SPEED_NUM / c
}

/// `v * num / den`, truncated toward zero; the sign is carried by `v`.
pub open spec fn mul_div_trunc(v: int, num: int, den: int) -> int {
    if v >= 0 {
        v * num / den
    } else {
        -((-v) * num / den)
    }
}

/// A coordinate pushed back inside the plane the library works on.
pub open spec fn clamp_coord(v: int) -> int {
    if v < -COORD_LIMIT {
        -COORD_LIMIT as int
    } else if v > COORD_LIMIT {
        COORD_LIMIT as int
    } else {
        v
    }
}

/// `p` advanced `d` milli-units along the heading `dir`.
pub open spec fn spec_offset(p: Pos, dir: int, d: int) -> Pos {
    Pos {
        x: clamp_coord(p.x + mul_div_trunc(crate::nums::spec_cos(dir), d, 1000)) as i64,
        y: clamp_coord(p.y + mul_div_trunc(crate::nums::spec_sin(dir), d, 1000)) as i64,
    }
}

/// The point `delta` milli-units from `from` toward `to`, where `sl`
/// is the distance between the two; `from` itself if they coincide.
pub open spec fn spec_lerp(from: Pos, to: Pos, delta: int, sl: int) -> Pos {
    if sl <= 0 {
        from
    } else {
        Pos {
            x: clamp_coord(from.x + mul_div_trunc(to.x - from.x, delta, sl)) as i64,
            y: clamp_coord(from.y + mul_div_trunc(to.y - from.y, delta, sl)) as i64,
        }
    }
}

/// Where a dragged cell lands: the travel budget `delta` is walked
/// backward from segment `m` toward the head, consumed segment by
/// segment; once it no longer exceeds a segment's length the cell sits
/// at that offset within the segment, and a budget that outlasts the
/// whole chain places the cell relative to the head along `dir`.
pub open spec fn spec_place(c: Seq<Pos>, dir: int, m: int, delta: int) -> Pos
    decreases m,
{
    if m <= 0 {
        spec_offset(c[0], dir, delta)
    } else {
        let sl = spec_dist(c[m - 1], c[m]);
        if delta > sl {
            spec_place(c, dir, m - 1, delta - sl)
        } else {
            spec_lerp(c[m], c[m - 1], delta, sl)
        }
    }
}

/// The travel budget of cell `n`: half the head's travel when the
/// chain is compressed below the target spacing `cd`, exactly the
/// head's travel at the target, and six fifths of it when
/// overstretched.
pub open spec fn spec_cell_budget(c: Seq<Pos>, cd: int, n: int, dist: int) -> int {
    let d = spec_dist(c[n - 1], c[n]);
    if d < cd {
        dist / 2
    } else if d == cd {
        dist
    } else {
        6 * dist / 5
    }
}

/// One movement step of a whole cell chain: the head advances `dist`
/// along `dir`, every other cell is dragged along the old chain by its
/// budget.
pub open spec fn spec_move_on(c: Seq<Pos>, dir: int, cd: int, dist: int) -> Seq<Pos> {
    Seq::new(
        c.len(),
        |i: int|
            if i == 0 {
                spec_offset(c[0], dir, dist)
            } else {
                spec_place(c, dir, i, spec_cell_budget(c, cd, i, dist))
            },
    )
}

/// `spec_place` reads only cells up to index `m`.
proof fn lemma_place_prefix(c1: Seq<Pos>, c2: Seq<Pos>, dir: int, m: int, delta: int)
    requires
        0 <= m < c1.len(),
        m < c2.len(),
        forall|i: int| 0 <= i <= m ==> c1[i] == c2[i],
    ensures
        spec_place(c1, dir, m, delta) == spec_place(c2, dir, m, delta),
    decreases m,
{
    if m > 0 {
        let sl = spec_dist(c1[m - 1], c1[m]);
        if delta > sl {
            lemma_place_prefix(c1, c2, dir, m - 1, delta - sl);
        }
    }
}

fn clamp_i64(v: i64) -> (r: i64)
    ensures
        r == clamp_coord(v as int),
        coord_ok(r as int),
{
    if v < -COORD_LIMIT {
        -COORD_LIMIT
    } else if v > COORD_LIMIT {
        COORD_LIMIT
    } else {
        v
    }
}

/// `|v| * num / den` with the sign of `v` put back, for `num <= den`:
/// the result never exceeds `|v|`.
fn mul_div_signed(v: i64, num: u64, den: u64) -> (r: i64)
    requires
        -2_000_000_000_000_000 <= v <= 2_000_000_000_000_000,
        num <= den,
        den >= 1,
    ensures
        r == mul_div_trunc(v as int, num as int, den as int),
        -2_000_000_000_000_000 <= r <= 2_000_000_000_000_000,
{
    let mag: u64 = if v >= 0 {
        v as u64
    } else {
        (-v) as u64
    };
    proof {
        assert((mag as u128) * (num as u128) <= 0xffff_ffff_ffff_ffffu128
            * 0xffff_ffff_ffff_ffffu128) by (nonlinear_arith)
            requires
                0 <= mag <= 0xffff_ffff_ffff_ffffu64,
                0 <= num <= 0xffff_ffff_ffff_ffffu64,
        {}
        assert((mag as int) * (num as int) <= (mag as int) * (den as int)) by (nonlinear_arith)
            requires
                0 <= num <= den,
                mag >= 0,
        {}
        vstd::arithmetic::div_mod::lemma_div_is_ordered(
            (mag as int) * (num as int),
            (mag as int) * (den as int),
            den as int,
        );
        vstd::arithmetic::div_mod::lemma_div_by_multiple(mag as int, den as int);
        vstd::arithmetic::div_mod::lemma_div_pos_is_pos((mag as int) * (num as int), den as int);
        assert((mag as int) * (num as int) >= 0) by (nonlinear_arith)
            requires
                mag >= 0,
                num >= 0,
        {}
    }
    let q: u64 = (((mag as u128) * (num as u128)) / (den as u128)) as u64;
    if v >= 0 {
        q as i64
    } else {
        -(q as i64)
    }
}

/// A position advanced `d` milli-units along `dir`, clamped to the
/// plane.
pub(crate) fn offset_from(p: Pos, dir: u64, d: u64) -> (r: Pos)
    requires
        pos_ok(p),
        dir < FULL_TURN,
        d <= 200_000_000,
    ensures
        r == spec_offset(p, dir as int, d as int),
        pos_ok(r),
{
    let c: i64 = crate::nums::cos_milli(dir);
    let s: i64 = crate::nums::sin_milli(dir);
    let cmag: u64 = if c >= 0 {
        c as u64
    } else {
        (-c) as u64
    };
    let smag: u64 = if s >= 0 {
        s as u64
    } else {
        (-s) as u64
    };
    proof {
        assert((cmag as int) * (d as int) <= 1000 * 200_000_000 && (smag as int) * (d as int)
            <= 1000 * 200_000_000 && (cmag as int) * (d as int) >= 0 && (smag as int) * (d as int)
            >= 0) by (nonlinear_arith)
            requires
                0 <= cmag <= 1000,
                0 <= smag <= 1000,
                0 <= d <= 200_000_000,
        {}
    }
    let oxm: u64 = cmag * d / 1000;
    let oym: u64 = smag * d / 1000;
    proof {
        vstd::arithmetic::div_mod::lemma_div_is_ordered(
            (cmag as int) * (d as int),
            1000int * 200_000_000,
            1000,
        );
        vstd::arithmetic::div_mod::lemma_div_is_ordered(
            (smag as int) * (d as int),
            1000int * 200_000_000,
            1000,
        );
        assert(1000 * 200_000_000 / 1000 == 200_000_000int);
        vstd::arithmetic::div_mod::lemma_div_pos_is_pos((cmag as int) * (d as int), 1000);
        vstd::arithmetic::div_mod::lemma_div_pos_is_pos((smag as int) * (d as int), 1000);
    }
    let ox: i64 = if c >= 0 {
        oxm as i64
    } else {
        -(oxm as i64)
    };
    let oy: i64 = if s >= 0 {
        oym as i64
    } else {
        -(oym as i64)
    };
    Pos { x: clamp_i64(p.x + ox), y: clamp_i64(p.y + oy) }
}

/// The point `delta` milli-units along the segment from `from` toward
/// `to`, whose length is `sl`.
fn lerp_cells(from: Pos, to: Pos, delta: u64, sl: u64) -> (p: Pos)
    requires
        pos_ok(from),
        pos_ok(to),
        delta <= sl,
    ensures
        p == spec_lerp(from, to, delta as int, sl as int),
        pos_ok(p),
{
    if sl == 0 {
        return from;
    }
    let mx = mul_div_signed(to.x - from.x, delta, sl);
    let my = mul_div_signed(to.y - from.y, delta, sl);
    Pos { x: clamp_i64(from.x + mx), y: clamp_i64(from.y + my) }
}

/// Walk cell `n`'s travel budget backward through the chain and
/// return where the cell lands.
fn place_cell(cells: &Vec<Pos>, dir: u64, n: usize, delta: u64) -> (p: Pos)
    requires
        1 <= n < cells@.len(),
        forall|i: int| 0 <= i < cells@.len() ==> pos_ok(#[trigger] cells@[i]),
        dir < FULL_TURN,
        delta <= 200_000_000,
    ensures
        p == spec_place(cells@, dir as int, n as int, delta as int),
        pos_ok(p),
{
    let mut m: usize = n;
    let mut rem: u64 = delta;
    while m >= 1
        invariant
            0 <= m <= n < cells@.len(),
            rem <= 200_000_000,
            dir < FULL_TURN,
            forall|i: int| 0 <= i < cells@.len() ==> pos_ok(#[trigger] cells@[i]),
            spec_place(cells@, dir as int, m as int, rem as int) == spec_place(
                cells@,
                dir as int,
                n as int,
                delta as int,
            ),
        decreases m,
    {
        let sl: u64 = dist(cells[m - 1], cells[m]);
        if rem > sl {
            rem = rem - sl;
            m = m - 1;
        } else {
            return lerp_cells(cells[m], cells[m - 1], rem, sl);
        }
    }
    offset_from(cells[0], dir, rem)
}

/// The chain of body cells with its heading and mass. The first cell
/// is the head; the tail follows it.
pub struct SlitherBody {
    /// Heading in milli-degrees, always in `[0, FULL_TURN)`.
    pub dir: u64,
    /// Cell positions, head first; never empty.
    pub cells: Vec<Pos>,
    /// Mass in milli-units; always in `[1, MASS_LIMIT]`.
    pub mass: i64,
}

/// The cell count a body of the given mass is resized toward: the
/// size law, floored at a single cell so that the head always exists.
pub open spec fn spec_target_cells(mass: int) -> int {
    if spec_body_size(mass) >= 1 {
        spec_body_size(mass)
    } else {
        1
    }
}

/// The cell sequence after resizing toward `t` cells: trailing cells
/// are dropped, growth duplicates the last cell.
pub open spec fn spec_resize(c: Seq<Pos>, t: int) -> Seq<Pos> {
    if t <= c.len() {
        c.subrange(0, t)
    } else {
        c + Seq::new((t - c.len()) as nat, |i: int| c.last())
    }
}

/// Resizing a second time, with the target unchanged, changes nothing.
///
/// Law: body resize is idempotent while the mass does not change.
pub proof fn lemma_resize_idempotent(c: Seq<Pos>, t: int)
    requires
        c.len() >= 1,
        t >= 1,
    ensures
        spec_resize(spec_resize(c, t), t) == spec_resize(c, t),
{
    assert(spec_resize(c, t).len() == t);
    assert(spec_resize(spec_resize(c, t), t) =~= spec_resize(c, t));
}

impl SlitherBody {
    /// Structural invariant: every constructor establishes it and
    /// every method keeps it.
    pub open spec fn well_formed(self) -> bool {
        &&& mass_ok(self.mass as int)
        &&& self.dir < FULL_TURN
        &&& 1 <= self.cells@.len() <= 600
        &&& forall|i: int| 0 <= i < self.cells@.len() ==> pos_ok(#[trigger] self.cells@[i])
    }

    /// A fresh one-cell body at `pos`, heading `dir`.
    pub fn from_dir(pos: Pos, dir: u64, mass: i64) -> (b: SlitherBody)
        requires
            pos_ok(pos),
            dir < FULL_TURN,
            mass_ok(mass as int),
        ensures
            b.well_formed(),
            b.dir == dir,
            b.mass == mass,
            b.cells@ =~= seq![pos],
    {
        let mut cells: Vec<Pos> = Vec::new();
        cells.push(pos);
        SlitherBody { dir, cells, mass }
    }

    /// The head cell: the only cell driven directly by the heading.
    pub fn head(&self) -> (p: Pos)
        requires
            self.cells@.len() >= 1,
        ensures
            p == self.cells@[0],
    {
        self.cells[0]
    }

    /// The last cell of the tail.
    pub fn end(&self) -> (p: Pos)
        requires
            self.cells@.len() >= 1,
        ensures
            p == self.cells@.last(),
    {
        self.cells[self.cells.len() - 1]
    }

    /// All cells, head first.
    pub fn cells(&self) -> (c: &Vec<Pos>)
        ensures
            c@ == self.cells@,
    {
        &self.cells
    }

    pub fn mass(&self) -> (m: i64)
        ensures
            m == self.mass,
    {
        self.mass
    }

    /// The target cell count of this body.
    pub fn size(&self) -> (s: usize)
        requires
            mass_ok(self.mass as int),
        ensures
            s == spec_body_size(self.mass as int),
    {
        body_size_of_mass(self.mass)
    }

    /// The collision radius of each cell, in milli-units.
    pub fn cell_radius(&self) -> (r: i64)
        requires
            mass_ok(self.mass as int),
        ensures
            r == spec_cell_radius(self.mass as int),
            0 <= r <= 4_000_000,
    {
        cell_radius_of_mass(self.mass)
    }

    /// The spacing the chain maintains between neighbouring cells:
    /// the cell radius.
    pub fn cells_dist(&self) -> (r: i64)
        requires
            mass_ok(self.mass as int),
        ensures
            r == spec_cell_radius(self.mass as int),
            0 <= r <= 4_000_000,
    {
        self.cell_radius()
    }

    /// Grow or shrink the cell list toward the size law's target,
    /// duplicating the tail cell when growing.
    pub fn resize(&mut self)
        requires
            old(self).well_formed(),
        ensures
            final(self).well_formed(),
            final(self).mass == old(self).mass,
            final(self).dir == old(self).dir,
            final(self).cells@ == spec_resize(
                old(self).cells@,
                spec_target_cells(old(self).mass as int),
            ),
    {
        let s = body_size_of_mass(self.mass);
        let t: usize = if s < 1 {
            1
        } else {
            s
        };
        if self.cells.len() == t {
            proof {
                assert(spec_resize(self.cells@, t as int) =~= self.cells@);
            }
            return ;
        }
        if t < self.cells.len() {
            self.cells.truncate(t);
            return ;
        }
        let last = self.cells[self.cells.len() - 1];
        while self.cells.len() < t
            invariant
                old(self).cells@.len() >= 1,
                old(self).cells@.len() <= self.cells@.len() <= t,
                last == old(self).cells@.last(),
                self.cells@ == old(self).cells@ + Seq::new(
                    (self.cells@.len() - old(self).cells@.len()) as nat,
                    |i: int| old(self).cells@.last(),
                ),
                self.dir == old(self).dir,
                self.mass == old(self).mass,
            decreases t - self.cells@.len(),
        {
            self.cells.push(last);
            proof {
                assert(self.cells@ =~= old(self).cells@ + Seq::new(
                    (self.cells@.len() - old(self).cells@.len()) as nat,
                    |i: int| old(self).cells@.last(),
                ));
            }
        }
        proof {
            assert(self.cells@ =~= spec_resize(
                old(self).cells@,
                spec_target_cells(old(self).mass as int),
            ));
            assert(forall|i: int|
                0 <= i < self.cells@.len() ==> pos_ok(#[trigger] self.cells@[i]));
        }
    }

    /// Drag cell `n` along the chain by the travel budget `delta`.
    fn move_nth(&mut self, n: usize, delta: u64)
        requires
            old(self).well_formed(),
            1 <= n < old(self).cells@.len(),
            delta <= 200_000_000,
        ensures
            final(self).well_formed(),
            final(self).mass == old(self).mass,
            final(self).dir == old(self).dir,
            final(self).cells@ == old(self).cells@.update(
                n as int,
                spec_place(
                    old(self).cells@,
                    old(self).dir as int,
                    n as int,
                    delta as int,
                ),
            ),
    {
        let p = place_cell(&self.cells, self.dir, n, delta);
        self.cells.set(n, p);
    }

    /// Advance the head `dist` milli-units along the heading and drag
    /// the whole chain after it: a compressed link follows at half
    /// pace, one at the target spacing at full pace, an overstretched
    /// one at six fifths pace.
    pub fn move_on(&mut self, dist: u64)
        requires
            old(self).well_formed(),
            dist <= DIST_LIMIT,
        ensures
            final(self).well_formed(),
            final(self).mass == old(self).mass,
            final(self).dir == old(self).dir,
            final(self).cells@.len() == old(self).cells@.len(),
            final(self).cells@ == spec_move_on(
                old(self).cells@,
                old(self).dir as int,
                spec_cell_radius(old(self).mass as int),
                dist as int,
            ),
    {
        let ghost c0 = self.cells@;
        let ghost target = spec_move_on(
            c0,
            self.dir as int,
            spec_cell_radius(self.mass as int),
            dist as int,
        );
        let cd: i64 = self.cells_dist();
        let len: usize = self.cells.len();
        let mut n: usize = len - 1;
        while n >= 1
            invariant
                self.dir == old(self).dir,
                self.mass == old(self).mass,
                self.dir < FULL_TURN,
                mass_ok(self.mass as int),
                0 <= n < len,
                1 <= len <= 600,
                len == c0.len(),
                self.cells@.len() == len,
                cd == spec_cell_radius(self.mass as int),
                dist <= DIST_LIMIT,
                target == spec_move_on(c0, self.dir as int, cd as int, dist as int),
                forall|i: int| 0 <= i <= n ==> self.cells@[i] == c0[i],
                forall|i: int| n < i < len ==> self.cells@[i] == target[i],
                forall|i: int| 0 <= i < len ==> pos_ok(#[trigger] self.cells@[i]),
            decreases n,
        {
            let d: u64 = crate::geom::dist(self.cells[n - 1], self.cells[n]);
            let budget: u64 = if (d as i64) < cd {
                dist / 2
            } else if (d as i64) == cd {
                dist
            } else {
                6 * dist / 5
            };
            proof {
                assert(budget == spec_cell_budget(c0, cd as int, n as int, dist as int));
            }
            let ghost prev = self.cells@;
            self.move_nth(n, budget);
            proof {
                lemma_place_prefix(prev, c0, self.dir as int, n as int, budget as int);
                assert(self.cells@[n as int] == target[n as int]);
            }
            n = n - 1;
        }
        let hp = offset_from(self.cells[0], self.dir, dist);
        self.cells.set(0, hp);
        proof {
            assert(self.cells@ =~= target);
        }
    }

    /// Add `delta` (possibly negative) to the mass and resize the
    /// chain to match.
    pub fn change_mass_by(&mut self, delta: i64)
        requires
            old(self).well_formed(),
            mass_ok(old(self).mass + delta),
        ensures
            final(self).well_formed(),
            final(self).mass == old(self).mass + delta,
            final(self).dir == old(self).dir,
            final(self).cells@ == spec_resize(
                old(self).cells@,
                spec_target_cells(old(self).mass + delta),
            ),
    {
        self.mass = self.mass + delta;
        self.resize();
    }
}

/// The signed circular difference from `from` to `to`, the short way
/// round, in `[-HALF_TURN, HALF_TURN)` milli-degrees.
pub open spec fn spec_short_delta(from: int, to: int) -> int {
    (to - from + 180000) % 360000 - 180000
}

/// `d` with its magnitude limited to `maxd`.
pub open spec fn spec_clamp_delta(d: int, maxd: int) -> int {
    if d < -maxd {
        -maxd
    } else if d > maxd {
        maxd
    } else {
        d
    }
}

/// The heading after one direction intent: the shortest angular
/// difference toward `target`, clamped to the turn-rate budget of the
/// elapsed time, applied to `old_dir`.
pub open spec fn spec_change_dir(old_dir: int, target: int, dt: int) -> int {
    let d = spec_clamp_delta(spec_short_delta(old_dir, target), (TURN_RATE as int) * dt);
    (old_dir + d) % 360000
}

/// The absolute circular distance between two headings, in
/// milli-degrees, at most a half turn.
pub open spec fn spec_circ_dist(a: int, b: int) -> int {
    let d = spec_short_delta(a, b);
    if d < 0 {
        -d
    } else {
        d
    }
}

proof fn lemma_turn_mod(x: int)
    requires
        -360000 <= x < 720000,
    ensures
        x % 360000 == if x < 0 {
            x + 360000
        } else if x >= 360000 {
            x - 360000
        } else {
            x
        },
{
    vstd::arithmetic::div_mod::lemma_mod_add_multiples_vanish(x, 360000);
    vstd::arithmetic::div_mod::lemma_mod_sub_multiples_vanish(x, 360000);
    if 0 <= x < 360000 {
        vstd::arithmetic::div_mod::lemma_small_mod(x as nat, 360000nat);
    }
    if x < 0 {
        vstd::arithmetic::div_mod::lemma_small_mod((x + 360000) as nat, 360000nat);
    }
    if x >= 360000 {
        vstd::arithmetic::div_mod::lemma_small_mod((x - 360000) as nat, 360000nat);
    }
}

/// Law (direction clamp): one direction intent turns the heading by
/// at most the turn-rate budget of the elapsed time, never past the
/// target, and closes the circular gap to the target by exactly the
/// lesser of the gap and the budget — so repeated intents toward one
/// target converge monotonically, without overshoot.
pub proof fn lemma_change_dir_clamp(old_dir: int, target: int, dt: int)
    requires
        0 <= old_dir < 360000,
        0 <= target < 360000,
        0 <= dt,
    ensures
        ({
            let nd = spec_change_dir(old_dir, target, dt);
            let maxd = (TURN_RATE as int) * dt;
            let gap = spec_circ_dist(old_dir, target);
            &&& 0 <= nd < 360000
            &&& spec_circ_dist(old_dir, nd) <= maxd
            &&& spec_circ_dist(old_dir, nd) <= gap
            &&& spec_circ_dist(nd, target) == (if gap <= maxd {
                0int
            } else {
                gap - maxd
            })
        }),
{
    assert((TURN_RATE as int) * dt >= 0) by (nonlinear_arith)
        requires
            dt >= 0,
    {}
    let maxd = (TURN_RATE as int) * dt;
    let t = target - old_dir + 180000;
    lemma_turn_mod(t);
    let e = t % 360000;
    let s = spec_short_delta(old_dir, target);
    let c = spec_clamp_delta(s, maxd);
    let u = old_dir + c;
    lemma_turn_mod(u);
    let nd = spec_change_dir(old_dir, target, dt);
    assert(nd == u % 360000);
    lemma_turn_mod(nd - old_dir + 180000);
    lemma_turn_mod(target - nd + 180000);
}

/// A head collides with a body when its distance to any of the other
/// body's cells is below the sum of the two cell radii.
pub open spec fn spec_crashed_into(a: SlitherBody, b: SlitherBody) -> bool {
    let safe = spec_cell_radius(a.mass as int) + spec_cell_radius(b.mass as int);
    exists|i: int|
        0 <= i < b.cells@.len() && spec_dist_sq(a.cells@[0], #[trigger] b.cells@[i]) < safe * safe
}

impl SlitherBody {
    /// Whether this body's head has run into any cell of `other`.
    pub fn crashed_into(&self, other: &SlitherBody) -> (r: bool)
        requires
            self.well_formed(),
            other.well_formed(),
        ensures
            r == spec_crashed_into(*self, *other),
    {
        let safe: i64 = self.cell_radius() + other.cell_radius();
        proof {
            assert((safe as u128) * (safe as u128) <= 64_000_000_000_000u128) by (nonlinear_arith)
                requires
                    0 <= safe <= 8_000_000i64,
            {}
        }
        let safe_sq: u128 = (safe as u128) * (safe as u128);
        let head = self.head();
        let mut i: usize = 0;
        while i < other.cells.len()
            invariant
                0 <= i <= other.cells@.len(),
                self.well_formed(),
                other.well_formed(),
                head == self.cells@[0],
                0 <= safe <= 8_000_000,
                safe == spec_cell_radius(self.mass as int) + spec_cell_radius(other.mass as int),
                safe_sq == safe * safe,
                forall|j: int|
                    0 <= j < i ==> spec_dist_sq(self.cells@[0], #[trigger] other.cells@[j])
                        >= safe * safe,
            decreases other.cells@.len() - i,
        {
            let d = crate::geom::dist_sq(head, other.cells[i]);
            if d < safe_sq {
                return true;
            }
            i = i + 1;
        }
        false
    }
}

/// A player-controlled slither: a body with a color, a boost flag and
/// a nickname.
pub struct Slither {
    pub color: crate::color::Rgba,
    pub boost: bool,
    pub body: SlitherBody,
    pub nickname: Vec<u8>,
}

/// The travel distance of one tick at normal pace, in milli-units.
pub open spec fn spec_move_dist(mass: int, dt: int) -> int {
    spec_speed(mass) * dt / 1000
}

/// The mass burned by one boosted tick.
pub open spec fn spec_boost_loss(mass: int, dt: int) -> int {
    mass * dt / (BOOST_BURN_DIV as int)
}

/// Whether a clot lies within a slither's pickup reach: head distance
/// below the cell radius plus the clot radius.
pub open spec fn spec_in_eat_range(s: Slither, c: crate::clot::MassClot) -> bool {
    let md = spec_cell_radius(s.body.mass as int) + crate::clot::spec_clot_radius(c.amount as int);
    spec_dist_sq(s.body.cells@[0], c.pos) < md * md
}

impl Slither {
    pub open spec fn well_formed(self) -> bool {
        self.body.well_formed()
    }

    /// A fresh slither: a one-cell body at `pos` heading `dir`.
    pub fn from_dir(
        color: crate::color::Rgba,
        pos: Pos,
        dir: u64,
        mass: i64,
        nickname: Vec<u8>,
    ) -> (s: Slither)
        requires
            pos_ok(pos),
            dir < FULL_TURN,
            mass_ok(mass as int),
        ensures
            s.well_formed(),
            s.color == color,
            s.boost == false,
            s.nickname@ == nickname@,
            s.body.dir == dir,
            s.body.mass == mass,
            s.body.cells@ =~= seq![pos],
    {
        Slither { color, nickname, boost: false, body: SlitherBody::from_dir(pos, dir, mass) }
    }

    /// Speed in milli-units per second: inverse to the cube root of
    /// the mass.
    pub fn speed(&self) -> (v: u64)
        requires
            self.well_formed(),
        ensures
            v == spec_speed(self.body.mass as int),
            1 <= v <= SPEED_NUM,
    {
        speed_of_mass(self.body.mass)
    }

    /// One tick of plain movement.
    pub fn do_move(&mut self, delta_time: u64)
        requires
            old(self).well_formed(),
            delta_time <= MAX_TICK_MS,
        ensures
            final(self).well_formed(),
            final(self).body.mass == old(self).body.mass,
            final(self).body.dir == old(self).body.dir,
            final(self).color == old(self).color,
            final(self).boost == old(self).boost,
            final(self).nickname@ == old(self).nickname@,
            final(self).body.cells@ == spec_move_on(
                old(self).body.cells@,
                old(self).body.dir as int,
                spec_cell_radius(old(self).body.mass as int),
                spec_move_dist(old(self).body.mass as int, delta_time as int),
            ),
    {
        let v = self.speed();
        proof {
            assert((v as int) * (delta_time as int) <= 10_000_000_000int) by (nonlinear_arith)
                requires
                    0 <= v <= 10_000_000u64,
                    0 <= delta_time <= 1000u64,
            {}
            vstd::arithmetic::div_mod::lemma_div_is_ordered(
                (v as int) * (delta_time as int),
                10_000_000_000int,
                1000,
            );
            vstd::arithmetic::div_mod::lemma_div_pos_is_pos(
                (v as int) * (delta_time as int),
                1000,
            );
        }
        let d: u64 = v * delta_time / 1000;
        self.body.move_on(d);
    }

    /// One tick of boosted movement: twice the distance, burning a
    /// mass-proportional amount, which the caller deposits as a clot.
    pub fn move_boosted(&mut self, delta_time: u64) -> (lost: i64)
        requires
            old(self).well_formed(),
            delta_time <= MAX_TICK_MS,
        ensures
            final(self).well_formed(),
            lost == spec_boost_loss(old(self).body.mass as int, delta_time as int),
            0 <= lost < old(self).body.mass,
            final(self).body.mass == old(self).body.mass - lost,
            final(self).body.dir == old(self).body.dir,
            final(self).color == old(self).color,
            final(self).boost == old(self).boost,
            final(self).nickname@ == old(self).nickname@,
            final(self).body.cells@ == spec_resize(
                spec_move_on(
                    old(self).body.cells@,
                    old(self).body.dir as int,
                    spec_cell_radius(old(self).body.mass as int),
                    2 * spec_move_dist(old(self).body.mass as int, delta_time as int),
                ),
                spec_target_cells(old(self).body.mass - lost),
            ),
    {
        let v = self.speed();
        proof {
            assert((v as int) * (delta_time as int) <= 10_000_000_000int) by (nonlinear_arith)
                requires
                    0 <= v <= 10_000_000u64,
                    0 <= delta_time <= 1000u64,
            {}
            vstd::arithmetic::div_mod::lemma_div_is_ordered(
                (v as int) * (delta_time as int),
                10_000_000_000int,
                1000,
            );
            vstd::arithmetic::div_mod::lemma_div_pos_is_pos(
                (v as int) * (delta_time as int),
                1000,
            );
        }
        let d: u64 = v * delta_time / 1000;
        let m: u64 = self.body.mass as u64;
        proof {
            assert((m as int) * (delta_time as int) <= (m as int) * 1000) by (nonlinear_arith)
                requires
                    0 <= delta_time <= 1000u64,
                    m >= 0,
            {}
            vstd::arithmetic::div_mod::lemma_div_is_ordered(
                (m as int) * (delta_time as int),
                (m as int) * 1000,
                20_000,
            );
            vstd::arithmetic::div_mod::lemma_div_denominator((m as int) * 1000, 1000, 20);
            vstd::arithmetic::div_mod::lemma_div_by_multiple(m as int, 1000);
            assert((m as int) * 1000 / 20_000 == (m as int) / 20);
            vstd::arithmetic::div_mod::lemma_div_is_ordered_by_denominator(m as int, 1, 20);
            assert((m as int) / 1 == m as int);
            vstd::arithmetic::div_mod::lemma_div_pos_is_pos(
                (m as int) * (delta_time as int),
                20_000,
            );
            if m >= 1 {
                vstd::arithmetic::div_mod::lemma_div_is_strictly_smaller(m as int, 20);
            }
        }
        let lost: i64 = ((m * delta_time) / BOOST_BURN_DIV) as i64;
        self.body.move_on(2 * d);
        self.body.change_mass_by(-lost);
        lost
    }

    /// Try to consume a clot: it is eaten exactly when it lies within
    /// pickup reach and the grant keeps the mass within the mass cap.
    pub fn try_eat(&mut self, clot: crate::clot::MassClot) -> (eaten: bool)
        requires
            old(self).well_formed(),
            crate::clot::clot_ok(clot),
        ensures
            final(self).well_formed(),
            eaten == (spec_in_eat_range(*old(self), clot) && old(self).body.mass + clot.amount
                <= MASS_LIMIT),
            eaten ==> final(self).body.mass == old(self).body.mass + clot.amount,
            eaten ==> final(self).body.cells@ == spec_resize(
                old(self).body.cells@,
                spec_target_cells(old(self).body.mass + clot.amount),
            ),
            !eaten ==> *final(self) == *old(self),
            final(self).body.dir == old(self).body.dir,
            final(self).color == old(self).color,
            final(self).boost == old(self).boost,
            final(self).nickname@ == old(self).nickname@,
    {
        let md: i64 = self.body.cell_radius() + clot.radius();
        proof {
            assert((md as u128) * (md as u128) <= 1_296_000_000_000_000u128) by (nonlinear_arith)
                requires
                    0 <= md <= 36_000_000i64,
            {}
        }
        let md_sq: u128 = (md as u128) * (md as u128);
        let hd: u128 = crate::geom::dist_sq(self.body.head(), clot.pos);
        if hd < md_sq {
            if self.body.mass <= MASS_LIMIT - clot.amount {
                self.body.change_mass_by(clot.amount);
                true
            } else {
                false
            }
        } else {
            false
        }
    }

    /// Apply one direction intent, rate-limited by the elapsed time.
    pub fn change_dir(&mut self, new_dir: u64, delta_time: u64)
        requires
            old(self).well_formed(),
            new_dir < FULL_TURN,
            delta_time <= MAX_TICK_MS,
        ensures
            final(self).well_formed(),
            final(self).body.dir == spec_change_dir(
                old(self).body.dir as int,
                new_dir as int,
                delta_time as int,
            ),
            final(self).body.cells@ == old(self).body.cells@,
            final(self).body.mass == old(self).body.mass,
            final(self).color == old(self).color,
            final(self).boost == old(self).boost,
            final(self).nickname@ == old(self).nickname@,
    {
        let o: u64 = self.body.dir;
        let t: i64 = new_dir as i64 - o as i64 + 180000;
        let e: u64 = crate::nums::norm_turn(t);
        let s: i64 = e as i64 - 180000;
        let maxd: i64 = (TURN_RATE * delta_time) as i64;
        let c: i64 = if s < -maxd {
            -maxd
        } else if s > maxd {
            maxd
        } else {
            s
        };
        let nd: i64 = o as i64 + c;
        let r: u64 = crate::nums::norm_turn(nd);
        self.body.dir = r;
    }
}

} // verus!

