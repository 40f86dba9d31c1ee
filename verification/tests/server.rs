use slither_server::protocol::PlayerJoin;
use slither_server::state::GameState;
use slither_server::updater::{ConnectionMessage, IdCounter, StateUpdater};
use slither_server::world::{SlitherID, World};

fn fresh_updater() -> StateUpdater {
    let world = World::new(2_000_000, 2_000_000, 0);
    StateUpdater::new(GameState::new(world), 0x4500_0000, 0x4500_0000)
}

#[test]
fn id_counter_never_repeats() {
    let mut c = IdCounter::new();
    let a = c.next_id();
    let b = c.next_id();
    let d = c.next_id();
    assert_eq!(a, SlitherID(0));
    assert_eq!(b, SlitherID(1));
    assert_eq!(d, SlitherID(2));
}

#[test]
fn join_with_empty_nickname_is_live_next_tick() {
    // a join sent before any tick: the next tick reports a live
    // slither with that nickname and a handshake reply whose own ID
    // matches the slither's key
    let mut u = fresh_updater();
    let join = PlayerJoin { color: None, nickname: Vec::new() };
    let msgs = vec![ConnectionMessage::Connected { id: SlitherID(0), join }];
    let out = u.update(16, msgs, Vec::new());
    assert_eq!(out.session_starts.len(), 1);
    let (to, reply) = &out.session_starts[0];
    assert_eq!(*to, SlitherID(0));
    assert_eq!(reply.self_id, SlitherID(0));
    assert_eq!(reply.world_w, 0x4500_0000);
    assert!(u.game_state.world.slithers.contains(SlitherID(0)));
    let s = u.game_state.world.slithers.get(SlitherID(0));
    assert_eq!(s.nickname, Vec::<u8>::new());
    assert_eq!(s.body.mass, 100_000);
    // the tick resized the spawn to its four-cell target and moved
    // the head one 16 ms step of 217391 milli-units/s up; the color
    // is a bright random one
    assert_eq!(s.body.cells.len(), 4);
    assert_eq!((s.body.cells[0].x, s.body.cells[0].y), (1_000_000, 1_003_478));
    assert!(s.color.r >= 200 && s.color.g >= 200 && s.color.b >= 200);
    assert_eq!(s.color.a, 255);
    assert_eq!(out.game_over.len(), 0);
    assert_eq!(out.broadcast_to, vec![SlitherID(0)]);
}

#[test]
fn join_spawns_a_single_cell_at_world_center() {
    let mut u = fresh_updater();
    let join = PlayerJoin { color: None, nickname: b"kim".to_vec() };
    let reply = u.handle_connection_message(ConnectionMessage::Connected {
        id: SlitherID(4),
        join,
    });
    let (to, session) = reply.unwrap();
    assert_eq!(to, SlitherID(4));
    assert_eq!(session.self_id, SlitherID(4));
    let s = u.game_state.world.slithers.get(SlitherID(4));
    assert_eq!(s.body.cells.len(), 1);
    assert_eq!((s.body.cells[0].x, s.body.cells[0].y), (1_000_000, 1_000_000));
    assert_eq!(s.body.dir, 90_000);
    assert_eq!(s.body.mass, 100_000);
    assert!(!s.boost);
    assert_eq!(u.connections, vec![SlitherID(4)]);
}

#[test]
fn join_keeps_chosen_color_made_opaque() {
    let mut u = fresh_updater();
    let join = PlayerJoin {
        color: Some(slither_server::color::Rgba { r: 10, g: 20, b: 30, a: 7 }),
        nickname: b"ada".to_vec(),
    };
    let msgs = vec![ConnectionMessage::Connected { id: SlitherID(3), join }];
    u.update(16, msgs, Vec::new());
    let s = u.game_state.world.slithers.get(SlitherID(3));
    assert_eq!(s.color, slither_server::color::Rgba { r: 10, g: 20, b: 30, a: 255 });
    assert_eq!(s.nickname, b"ada".to_vec());
}

#[test]
fn direction_intent_for_dead_id_is_dropped() {
    let mut u = fresh_updater();
    // nobody joined: the intent must be silently ignored
    let out = u.update(16, Vec::new(), vec![(SlitherID(5), 90_000)]);
    assert_eq!(out.session_starts.len(), 0);
    assert_eq!(out.game_over.len(), 0);
    assert_eq!(u.game_state.world.slithers.data.len(), 0);
}

#[test]
fn direction_intent_turns_a_live_slither() {
    let mut u = fresh_updater();
    let join = PlayerJoin { color: None, nickname: Vec::new() };
    u.update(16, vec![ConnectionMessage::Connected { id: SlitherID(0), join }], Vec::new());
    // initial heading is a quarter turn; an intent pulls it within
    // the clamp budget of 1440 * 16 milli-degrees
    u.update(16, Vec::new(), vec![(SlitherID(0), 0)]);
    let s = u.game_state.world.slithers.get(SlitherID(0));
    assert_eq!(s.body.dir, 90_000 - 23_040);
}

#[test]
fn disconnect_is_finalized_at_tick_end() {
    let mut u = fresh_updater();
    let join = PlayerJoin { color: None, nickname: Vec::new() };
    u.update(16, vec![ConnectionMessage::Connected { id: SlitherID(0), join }], Vec::new());
    let before = u.game_state.world.total_world_mass();
    assert_eq!(before, 100_000);
    let out = u.update(16, vec![ConnectionMessage::Disconnected(SlitherID(0))], Vec::new());
    assert_eq!(out.closed, vec![SlitherID(0)]);
    assert!(!u.game_state.world.slithers.contains(SlitherID(0)));
    // the leaver's mass went back into the arena as clots
    assert_eq!(u.game_state.world.total_world_mass(), before);
    assert_eq!(u.connections.len(), 0);
}

#[test]
fn disconnect_for_unknown_id_changes_nothing() {
    let mut u = fresh_updater();
    let out = u.update(16, vec![ConnectionMessage::Disconnected(SlitherID(9))], Vec::new());
    assert_eq!(out.closed.len(), 0);
}

#[test]
fn leaderboard_prefers_heavier_slithers() {
    let mut u = fresh_updater();
    let light = slither_server::slither::Slither::from_dir(
        slither_server::color::Rgba { r: 1, g: 2, b: 3, a: 255 },
        slither_server::geom::Pos { x: 500_000, y: 500_000 },
        0,
        100_000,
        b"a".to_vec(),
    );
    let heavy = slither_server::slither::Slither::from_dir(
        slither_server::color::Rgba { r: 4, g: 5, b: 6, a: 255 },
        slither_server::geom::Pos { x: 1_500_000, y: 1_500_000 },
        0,
        500_000,
        b"b".to_vec(),
    );
    u.game_state.world.slithers.add(SlitherID(0), light);
    u.game_state.world.slithers.add(SlitherID(1), heavy);
    u.update_top();
    assert!(u.top.len() <= 10);
    assert_eq!(u.top[0], SlitherID(1));
    assert!(u.top.contains(&SlitherID(0)));
}

#[test]
fn crashed_slither_gets_game_over_and_leaves() {
    let mut u = fresh_updater();
    let join = PlayerJoin { color: None, nickname: Vec::new() };
    u.update(16, vec![ConnectionMessage::Connected { id: SlitherID(0), join }], Vec::new());
    // drag the slither outside the containment band by hand
    u.game_state.world.slithers.data[0].1.body.cells[0] = slither_server::geom::Pos {
        x: 100,
        y: 100,
    };
    let out = u.update(16, Vec::new(), Vec::new());
    assert_eq!(out.game_over, vec![SlitherID(0)]);
    assert!(!u.game_state.world.slithers.contains(SlitherID(0)));
    assert_eq!(u.connections.len(), 0);
}
