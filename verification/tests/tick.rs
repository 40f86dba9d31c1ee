use slither_server::clot::MassClot;
use slither_server::color::Rgba;
use slither_server::geom::Pos;
use slither_server::slither::Slither;
use slither_server::state::GameState;
use slither_server::world::{MassClots, SlitherID, Slithers, World};

fn color() -> Rgba {
    Rgba { r: 200, g: 100, b: 50, a: 255 }
}

fn arena() -> World {
    World {
        slithers: Slithers { data: Vec::new() },
        clots: MassClots { data: Vec::new() },
        width: 2_000_000,
        height: 2_000_000,
    }
}

fn spawn(world: &mut World, id: u32, head: Pos, mass: i64) {
    let s = Slither::from_dir(color(), head, 90_000, mass, Vec::new());
    world.slithers.add(SlitherID(id), s);
}

#[test]
fn mass_is_conserved_across_ticks() {
    let mut world = arena();
    spawn(&mut world, 1, Pos { x: 500_000, y: 500_000 }, 100_000);
    spawn(&mut world, 2, Pos { x: 1_500_000, y: 1_500_000 }, 250_000);
    world.clots.add(MassClot { pos: Pos { x: 1_000_000, y: 42 }, amount: 12_345, color: color() });
    let before = world.total_world_mass();
    assert_eq!(before, 100_000 + 250_000 + 12_345);
    let mut state = GameState::new(world);
    for _ in 0..30 {
        state.update(16);
        assert_eq!(state.world.total_world_mass(), before);
    }
}

#[test]
fn boost_burn_reappears_as_clot_mass() {
    let mut world = arena();
    spawn(&mut world, 1, Pos { x: 1_000_000, y: 1_000_000 }, 100_000);
    world.slithers.data[0].1.boost = true;
    let before = world.total_world_mass();
    let mut state = GameState::new(world);
    state.moving(16);
    // the burned mass sits in a new clot of exactly that amount,
    // dropped at the tail
    assert_eq!(state.world.clots.data.len(), 1);
    assert_eq!(state.world.clots.data[0].amount, 80);
    assert_eq!(state.world.slithers.data[0].1.body.mass, 99_920);
    assert_eq!(state.world.total_world_mass(), before);
    // the rest of the tick keeps the total too (the slither may well
    // swallow its own burn clot back)
    state.eating();
    state.crashings();
    assert_eq!(state.world.total_world_mass(), before);
}

#[test]
fn a_clot_is_granted_to_one_slither_only() {
    // both heads cover the clot; only the first in order eats it
    let mut world = arena();
    spawn(&mut world, 1, Pos { x: 1_000_000, y: 1_000_000 }, 100_000);
    spawn(&mut world, 2, Pos { x: 1_002_000, y: 1_000_000 }, 100_000);
    world.clots.add(MassClot {
        pos: Pos { x: 1_001_000, y: 1_000_000 },
        amount: 10_000,
        color: color(),
    });
    let mut state = GameState::new(world);
    state.eating();
    assert_eq!(state.world.clots.data.len(), 0);
    assert_eq!(state.world.slithers.data[0].1.body.mass, 110_000);
    assert_eq!(state.world.slithers.data[1].1.body.mass, 100_000);
}

#[test]
fn eating_only_within_reach() {
    let mut world = arena();
    spawn(&mut world, 1, Pos { x: 1_000_000, y: 1_000_000 }, 100_000);
    // radius 7900 plus clot radius sqrt(10) u = 3162: reach 11062
    world.clots.add(MassClot {
        pos: Pos { x: 1_020_000, y: 1_000_000 },
        amount: 10_000,
        color: color(),
    });
    let mut state = GameState::new(world);
    state.eating();
    assert_eq!(state.world.clots.data.len(), 1);
    assert_eq!(state.world.slithers.data[0].1.body.mass, 100_000);
}

#[test]
fn boundary_exit_is_a_crash() {
    // head within radius of the wall: outside the containment band
    let mut world = arena();
    spawn(&mut world, 7, Pos { x: 3_000, y: 1_000_000 }, 100_000);
    let before = world.total_world_mass();
    let mut state = GameState::new(world);
    state.crashings();
    assert_eq!(state.crashed.len(), 1);
    assert_eq!(state.crashed[0], SlitherID(7));
    assert!(!state.world.slithers.contains(SlitherID(7)));
    // the dead slither's mass was scattered as clots
    assert_eq!(state.world.total_world_mass(), before);
    let clot_sum: i64 = state.world.clots.data.iter().map(|c| c.amount).sum();
    assert_eq!(clot_sum, 100_000);
}

#[test]
fn slither_clear_of_walls_survives() {
    let mut world = arena();
    spawn(&mut world, 7, Pos { x: 1_000_000, y: 1_000_000 }, 100_000);
    let mut state = GameState::new(world);
    state.crashings();
    assert_eq!(state.crashed.len(), 0);
    assert!(state.world.slithers.contains(SlitherID(7)));
}

#[test]
fn head_to_head_contact_eliminates_both() {
    // two slithers of 100 mass units (radius 7900), heads 10000
    // milli-units apart: one tick marks both crashed, removes both,
    // and the clots gain their combined 200 units of mass
    let mut world = arena();
    spawn(&mut world, 1, Pos { x: 1_000_000, y: 1_000_000 }, 100_000);
    spawn(&mut world, 2, Pos { x: 1_010_000, y: 1_000_000 }, 100_000);
    let mut state = GameState::new(world);
    state.update(16);
    assert_eq!(state.crashed.len(), 2);
    assert!(state.crashed.contains(&SlitherID(1)));
    assert!(state.crashed.contains(&SlitherID(2)));
    assert_eq!(state.world.slithers.data.len(), 0);
    let clot_sum: i64 = state.world.clots.data.iter().map(|c| c.amount).sum();
    assert_eq!(clot_sum, 200_000);
}

#[test]
fn seeded_world_mass_is_close_to_requested() {
    let world = World::new(2_000_000, 2_000_000, 2_000_000);
    let total = world.total_world_mass();
    // seeding falls short of the request by at most one clot quantum
    assert!(total <= 2_000_000);
    assert!(total >= 2_000_000 - 10_000);
    for clot in &world.clots.data {
        assert!(clot.amount >= 10_000);
        assert!(clot.amount < 25_000);
        assert!(clot.pos.x >= 0 && clot.pos.x < 2_000_000);
        assert!(clot.pos.y >= 0 && clot.pos.y < 2_000_000);
        assert!(clot.color.r >= 128 && clot.color.g >= 128 && clot.color.b >= 128);
        assert_eq!(clot.color.a, 255);
    }
}

#[test]
fn random_draws_respect_their_range() {
    for _ in 0..100 {
        let v = slither_server::rng::random_in_range(10, 20);
        assert!(v >= 10 && v < 20);
    }
    assert_eq!(slither_server::rng::random_in_range(5, 6), 5);
}

#[test]
fn zero_length_tick_still_resolves_collisions() {
    // a tick of zero elapsed time moves nobody but still runs the
    // eating and collision phases
    let mut world = arena();
    spawn(&mut world, 1, Pos { x: 1_000_000, y: 1_000_000 }, 100_000);
    spawn(&mut world, 2, Pos { x: 1_010_000, y: 1_000_000 }, 100_000);
    let mut state = GameState::new(world);
    state.update(0);
    assert_eq!(state.crashed.len(), 2);
    assert_eq!(state.world.slithers.data.len(), 0);
    let clot_sum: i64 = state.world.clots.data.iter().map(|c| c.amount).sum();
    assert_eq!(clot_sum, 200_000);
}
