use slither_server::clot::MassClot;
use slither_server::geom::Pos;
use slither_server::nums::{cos_milli, icbrt_u64, isqrt_u128, sin_milli};
use slither_server::slither::{
    body_size_of_mass, cell_radius_of_mass, speed_of_mass, Slither, SlitherBody,
};
use slither_server::color::Rgba;

fn white() -> Rgba {
    Rgba { r: 255, g: 255, b: 255, a: 255 }
}

#[test]
fn isqrt_exact_values() {
    assert_eq!(isqrt_u128(0), 0);
    assert_eq!(isqrt_u128(1), 1);
    assert_eq!(isqrt_u128(99), 9);
    assert_eq!(isqrt_u128(100), 10);
    assert_eq!(isqrt_u128(1_000_000_000_000_000), 31_622_776);
}

#[test]
fn icbrt_exact_values() {
    assert_eq!(icbrt_u64(0), 0);
    assert_eq!(icbrt_u64(7), 1);
    assert_eq!(icbrt_u64(8), 2);
    assert_eq!(icbrt_u64(100_000), 46);
}

#[test]
fn trig_exact_at_quarters() {
    assert_eq!(sin_milli(0), 0);
    assert_eq!(sin_milli(90_000), 1000);
    assert_eq!(sin_milli(180_000), 0);
    assert_eq!(sin_milli(270_000), -1000);
    assert_eq!(cos_milli(0), 1000);
    assert_eq!(cos_milli(90_000), 0);
    assert_eq!(cos_milli(180_000), -1000);
    assert_eq!(cos_milli(270_000), 0);
    // the rational approximation is exact at thirty degrees too
    assert_eq!(sin_milli(30_000), 500);
}

#[test]
fn size_radius_speed_formulas() {
    // a slither of 100 mass units (100_000 milli-units)
    assert_eq!(body_size_of_mass(100_000), 4);
    assert_eq!(cell_radius_of_mass(100_000), 7_900);
    assert_eq!(speed_of_mass(100_000), 217_391);
    // heavier means slower, larger, longer
    assert!(speed_of_mass(800_000) < speed_of_mass(100_000));
    assert!(cell_radius_of_mass(800_000) > cell_radius_of_mass(100_000));
    assert!(body_size_of_mass(800_000) >= body_size_of_mass(100_000));
}

#[test]
fn resize_grows_by_duplicating_tail() {
    let mut body = SlitherBody::from_dir(Pos { x: 5, y: 7 }, 0, 100_000);
    assert_eq!(body.cells().len(), 1);
    body.resize();
    assert_eq!(body.cells().len(), 4);
    for c in body.cells() {
        assert_eq!((c.x, c.y), (5, 7));
    }
}

#[test]
fn resize_twice_is_a_no_op() {
    // body resize idempotence: a second resize with no mass change
    // leaves count and positions alone
    let mut body = SlitherBody::from_dir(Pos { x: 10_000, y: 20_000 }, 0, 250_000);
    body.resize();
    let count = body.cells().len();
    let cells: Vec<(i64, i64)> = body.cells().iter().map(|c| (c.x, c.y)).collect();
    body.resize();
    assert_eq!(body.cells().len(), count);
    let again: Vec<(i64, i64)> = body.cells().iter().map(|c| (c.x, c.y)).collect();
    assert_eq!(cells, again);
}

#[test]
fn head_moves_along_heading() {
    let mut body = SlitherBody::from_dir(Pos { x: 0, y: 0 }, 0, 100_000);
    body.move_on(5_000);
    // heading zero: pure +x
    assert_eq!(body.head().x, 5_000);
    assert_eq!(body.head().y, 0);
    let mut body = SlitherBody::from_dir(Pos { x: 0, y: 0 }, 90_000, 100_000);
    body.move_on(5_000);
    assert_eq!(body.head().x, 0);
    assert_eq!(body.head().y, 5_000);
}

#[test]
fn change_dir_is_rate_limited() {
    // the turn budget of a 16 ms tick is 1440 * 16 = 23040 milli-degrees
    let mut s = Slither::from_dir(white(), Pos { x: 0, y: 0 }, 0, 100_000, Vec::new());
    s.change_dir(90_000, 16);
    assert_eq!(s.body.dir, 23_040);
    s.change_dir(90_000, 16);
    assert_eq!(s.body.dir, 46_080);
}

#[test]
fn change_dir_converges_without_overshoot() {
    let mut s = Slither::from_dir(white(), Pos { x: 0, y: 0 }, 0, 100_000, Vec::new());
    for _ in 0..10 {
        s.change_dir(90_000, 16);
        assert!(s.body.dir <= 90_000);
    }
    assert_eq!(s.body.dir, 90_000);
    // further intents keep it there
    s.change_dir(90_000, 16);
    assert_eq!(s.body.dir, 90_000);
}

#[test]
fn change_dir_takes_the_short_way_round() {
    // from heading 0 to 350 degrees the short way is ten degrees
    // backward, well within one tick's budget
    let mut s = Slither::from_dir(white(), Pos { x: 0, y: 0 }, 0, 100_000, Vec::new());
    s.change_dir(350_000, 16);
    assert_eq!(s.body.dir, 350_000);
}

#[test]
fn boost_burns_mass_but_not_much() {
    let mut s = Slither::from_dir(white(), Pos { x: 0, y: 0 }, 0, 100_000, Vec::new());
    let lost = s.move_boosted(16);
    // 100_000 * 16 / 20_000 = 80 milli-units burned
    assert_eq!(lost, 80);
    assert_eq!(s.body.mass, 99_920);
}

#[test]
fn try_eat_grants_mass_within_reach_only() {
    let mut s = Slither::from_dir(white(), Pos { x: 0, y: 0 }, 0, 100_000, Vec::new());
    let near = MassClot { pos: Pos { x: 5_000, y: 0 }, amount: 10_000, color: white() };
    let far = MassClot { pos: Pos { x: 50_000, y: 0 }, amount: 10_000, color: white() };
    assert!(!s.try_eat(far));
    assert_eq!(s.body.mass, 100_000);
    assert!(s.try_eat(near));
    assert_eq!(s.body.mass, 110_000);
    assert_eq!(s.body.size(), s.body.cells().len());
}

#[test]
fn world_center_is_half_the_bounds() {
    let w = slither_server::world::World::new(2_000_000, 1_000_000, 0);
    let c = w.center();
    assert_eq!((c.x, c.y), (1_000_000, 500_000));
    let size = w.size();
    assert_eq!((size.x, size.y), (2_000_000, 1_000_000));
}

#[test]
fn crashed_into_within_radius_sum() {
    let a = SlitherBody::from_dir(Pos { x: 0, y: 0 }, 0, 100_000);
    let near = SlitherBody::from_dir(Pos { x: 10_000, y: 0 }, 0, 100_000);
    let far = SlitherBody::from_dir(Pos { x: 20_000, y: 0 }, 0, 100_000);
    // the radius of a 100-unit slither is 7900: contact below 15800
    assert!(a.crashed_into(&near));
    assert!(!a.crashed_into(&far));
}
