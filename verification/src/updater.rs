//! The single-writer owner of the authoritative state: it drains
//! join/leave and direction intents, runs the tick, keeps the
//! leaderboard, and decides who gets which message. Sockets, channels
//! and the tick-pacing sleep live outside; they hand plain values in
//! and carry plain values out.
use vstd::prelude::*;
use crate::color::Rgba;
use crate::geom::Pos;
use crate::nums::QUARTER_TURN;
use crate::protocol::{PlayerJoin, SessionStart};
use crate::rng::random_in_range;
use crate::slither::{Slither, MAX_TICK_MS};
use crate::state::GameState;
use crate::world::{lemma_sum_slither_remove, spec_total_mass, SlitherID, World};

verus! {

/// The mass every freshly joined slither starts with, in milli-units.
pub const INIT_SLITHER_MASS: i64 = 100_000;

/// The leaderboard never grows beyond this many entries.
pub const TOP_LIMIT: usize = 10;

/// A connection lifecycle event, as the simulation sees it: the
/// socket itself stays with the caller.
pub enum ConnectionMessage {
    Connected { id: SlitherID, join: PlayerJoin },
    Disconnected(SlitherID),
}

/// The fresh-ID source of the listener: IDs increase and are never
/// reused within a run.
pub struct IdCounter {
    pub next: u32,
}

impl IdCounter {
    pub fn new() -> (c: IdCounter)
        ensures
            c.next == 0,
    {
        IdCounter { next: 0 }
    }

    /// The next never-used ID.
    pub fn next_id(&mut self) -> (id: SlitherID)
        requires
            old(self).next < u32::MAX,
        ensures
            id == SlitherID(old(self).next),
            final(self).next == old(self).next + 1,
    {
        let id = SlitherID(self.next);
        self.next = self.next + 1;
        id
    }
}

/// What one tick asks the caller to do on the wire.
pub struct TickOutput {
    /// Handshake replies owed to peers that joined this tick, in join
    /// order; each goes to its peer before the broadcast.
    pub session_starts: Vec<(SlitherID, SessionStart)>,
    /// Peers eliminated by this tick: each gets the game-over message
    /// and its connection is closed.
    pub game_over: Vec<SlitherID>,
    /// Peers whose disconnect became final this tick: their
    /// connections are closed without a game-over message.
    pub closed: Vec<SlitherID>,
    /// The registry as it stands at broadcast time, before this
    /// tick's crashes and disconnects are struck off: the snapshot
    /// goes to every one of these peers, the dying included.
    pub broadcast_to: Vec<SlitherID>,
}

/// The leaderboard with its dead IDs dropped, order kept.
pub open spec fn spec_prune_top(w: World, top: Seq<SlitherID>) -> Seq<SlitherID>
    decreases top.len(),
{
    if top.len() == 0 {
        Seq::empty()
    } else {
        spec_prune_top(w, top.drop_last()) + (if w.slithers.spec_contains(top.last()) {
            seq![top.last()]
        } else {
            Seq::empty()
        })
    }
}

/// One leaderboard consideration: the first candidate seeds an empty
/// board, and a slither heavier than the current front entry is
/// pushed to the front.
pub open spec fn spec_top_step(
    w: World,
    top: Seq<SlitherID>,
    e: (SlitherID, crate::slither::Slither),
) -> Seq<SlitherID> {
    if top.len() == 0 {
        seq![e.0]
    } else if w.slithers.spec_contains(top[0]) && w.slithers.spec_get(top[0]).body.mass
        < e.1.body.mass {
        seq![e.0] + top
    } else {
        top
    }
}

/// The leaderboard after considering every slither from index `i` on.
pub open spec fn spec_top_fold(w: World, top: Seq<SlitherID>, i: int) -> Seq<SlitherID>
    decreases w.slithers.data@.len() - i,
{
    let d = w.slithers.data@;
    if i < 0 || i >= d.len() {
        top
    } else {
        spec_top_fold(w, spec_top_step(w, top, d[i]), i + 1)
    }
}

/// The recomputed leaderboard: pruned of the dead, refreshed by one
/// pass over the live slithers, trimmed to the size limit from the
/// back.
pub open spec fn spec_update_top(w: World, top0: Seq<SlitherID>) -> Seq<SlitherID> {
    let f = spec_top_fold(w, spec_prune_top(w, top0), 0);
    if f.len() > TOP_LIMIT {
        f.subrange(0, TOP_LIMIT as int)
    } else {
        f
    }
}

/// An ID list with every occurrence of `id` dropped, order kept.
pub open spec fn spec_remove_id(s: Seq<SlitherID>, id: SlitherID) -> Seq<SlitherID>
    decreases s.len(),
{
    if s.len() == 0 {
        Seq::empty()
    } else {
        spec_remove_id(s.drop_last(), id) + (if s.last() == id {
            Seq::empty()
        } else {
            seq![s.last()]
        })
    }
}

/// The IDs a disconnect pass finalizes: those of `queue`, in order,
/// whose slither is still live when reached — present in `s0` and not
/// already finalized by an earlier queue entry.
pub open spec fn spec_closed_ids(
    s0: crate::world::Slithers,
    queue: Seq<SlitherID>,
) -> Seq<SlitherID>
    decreases queue.len(),
{
    if queue.len() == 0 {
        Seq::empty()
    } else {
        let before = spec_closed_ids(s0, queue.drop_last());
        let id = queue.last();
        if s0.spec_contains(id) && !before.contains(id) {
            before.push(id)
        } else {
            before
        }
    }
}

/// An ID list with every occurrence of each of `ids` dropped, the
/// removals applied in list order.
pub open spec fn spec_remove_ids(s: Seq<SlitherID>, ids: Seq<SlitherID>) -> Seq<SlitherID>
    decreases ids.len(),
{
    if ids.len() == 0 {
        s
    } else {
        spec_remove_id(spec_remove_ids(s, ids.drop_last()), ids.last())
    }
}

proof fn lemma_push_contains(s: Seq<SlitherID>, v: SlitherID, x: SlitherID)
    ensures
        s.push(v).contains(x) == (s.contains(x) || x == v),
{
    if s.push(v).contains(x) {
        let i = choose|i: int| 0 <= i < s.push(v).len() && s.push(v)[i] == x;
        if i < s.len() {
            assert(s[i] == x);
        }
    }
    if s.contains(x) {
        let i = choose|i: int| 0 <= i < s.len() && s[i] == x;
        assert(s.push(v)[i] == x);
    }
    assert(s.push(v)[s.len() as int] == v);
}

/// Every queued ID that was live at the start of the pass ends up in
/// the finalized list.
proof fn lemma_closed_covers(s0: crate::world::Slithers, queue: Seq<SlitherID>, k: int)
    requires
        0 <= k < queue.len(),
        s0.spec_contains(queue[k]),
    ensures
        spec_closed_ids(s0, queue).contains(queue[k]),
    decreases queue.len(),
{
    let x = queue[k];
    let before = spec_closed_ids(s0, queue.drop_last());
    let id = queue.last();
    if k < queue.len() - 1 {
        assert(queue.drop_last()[k] == x);
        lemma_closed_covers(s0, queue.drop_last(), k);
    }
    if k == queue.len() - 1 && !before.contains(x) {
        lemma_push_contains(before, x, x);
    }
    if s0.spec_contains(id) && !before.contains(id) {
        lemma_push_contains(before, id, x);
    }
}

/// What processing one lifecycle event does, as a relation between
/// the updater states before and after it, with the handshake reply
/// it yields.
pub open spec fn spec_handle_msg_rel(
    u0: StateUpdater,
    u1: StateUpdater,
    msg: ConnectionMessage,
    reply: Option<(SlitherID, SessionStart)>,
) -> bool {
    &&& u1.well_formed()
    &&& u1.world_w_bits == u0.world_w_bits
    &&& u1.world_h_bits == u0.world_h_bits
    &&& u1.top@ == u0.top@
    &&& match msg {
        ConnectionMessage::Connected { id, join } => {
            if u0.game_state.world.slithers.spec_contains(id) {
                &&& reply is None
                &&& u1 == u0
            } else {
                &&& reply == Option::Some(
                    (
                        id,
                        SessionStart {
                            world_w: u0.world_w_bits,
                            world_h: u0.world_h_bits,
                            self_id: id,
                        },
                    ),
                )
                &&& u1.game_state.world.slithers.data@.len() == u0.game_state.world.slithers
                    .data@.len() + 1
                &&& u1.game_state.world.slithers.data@.drop_last()
                    == u0.game_state.world.slithers.data@
                &&& u1.game_state.world.slithers.spec_contains(id)
                &&& {
                    let s = u1.game_state.world.slithers.data@.last().1;
                    &&& u1.game_state.world.slithers.data@.last().0 == id
                    &&& s.body.mass == INIT_SLITHER_MASS
                    &&& s.body.dir == QUARTER_TURN
                    &&& s.nickname@ == join.nickname@
                    &&& s.boost == false
                    &&& s.body.cells@.len() == 1
                    &&& s.body.cells@[0].x == u0.game_state.world.width as int / 2
                    &&& s.body.cells@[0].y == u0.game_state.world.height as int / 2
                    &&& (join.color is Some ==> s.color == (Rgba {
                        r: join.color->0.r,
                        g: join.color->0.g,
                        b: join.color->0.b,
                        a: 255,
                    }))
                    &&& (join.color is None ==> 200 <= s.color.r < 255 && 200 <= s.color.g < 255
                        && 200 <= s.color.b < 255 && s.color.a == 255)
                }
                &&& u1.game_state.world.clots == u0.game_state.world.clots
                &&& u1.game_state.world.width == u0.game_state.world.width
                &&& u1.game_state.world.height == u0.game_state.world.height
                &&& u1.game_state.crashed@ == u0.game_state.crashed@
                &&& u1.connections@ == u0.connections@.push(id)
                &&& u1.to_disconnect@ == u0.to_disconnect@
                &&& spec_total_mass(u1.game_state.world) == spec_total_mass(u0.game_state.world)
                    + INIT_SLITHER_MASS
            }
        },
        ConnectionMessage::Disconnected(id) => {
            &&& reply is None
            &&& u1.to_disconnect@ == u0.to_disconnect@.push(id)
            &&& u1.connections@ == u0.connections@
            &&& u1.game_state == u0.game_state
        },
    }
}

/// What applying one direction intent does, as a relation between the
/// updater states before and after it.
pub open spec fn spec_apply_dir_rel(
    u0: StateUpdater,
    u1: StateUpdater,
    id: SlitherID,
    new_dir: int,
    dt: int,
) -> bool {
    &&& u1.well_formed()
    &&& u1.top@ == u0.top@
    &&& u1.connections@ == u0.connections@
    &&& u1.to_disconnect@ == u0.to_disconnect@
    &&& u1.world_w_bits == u0.world_w_bits
    &&& u1.world_h_bits == u0.world_h_bits
    &&& u1.game_state.crashed@ == u0.game_state.crashed@
    &&& if !u0.game_state.world.slithers.spec_contains(id) {
        u1 == u0
    } else {
        let d = u0.game_state.world.slithers.data@;
        let k = u0.game_state.world.slithers.spec_index_of(id);
        let s0 = d[k].1;
        let s1 = u1.game_state.world.slithers.data@[k].1;
        &&& u1.game_state.world.slithers.data@ == d.update(k, (id, s1))
        &&& s1.body.dir == crate::slither::spec_change_dir(s0.body.dir as int, new_dir, dt)
        &&& s1.body.cells@ == s0.body.cells@
        &&& s1.body.mass == s0.body.mass
        &&& s1.color == s0.color
        &&& s1.boost == s0.boost
        &&& s1.nickname@ == s0.nickname@
        &&& u1.game_state.world.clots == u0.game_state.world.clots
        &&& u1.game_state.world.width == u0.game_state.world.width
        &&& u1.game_state.world.height == u0.game_state.world.height
    }
}

/// What finalizing the queued disconnects does, as a relation between
/// the updater states before and after it, with the finalized IDs.
pub open spec fn spec_disconnects_rel(
    u0: StateUpdater,
    u1: StateUpdater,
    closed: Seq<SlitherID>,
) -> bool {
    &&& u1.well_formed()
    &&& u1.to_disconnect@.len() == 0
    &&& u1.top@ == u0.top@
    &&& u1.world_w_bits == u0.world_w_bits
    &&& u1.world_h_bits == u0.world_h_bits
    &&& u1.game_state.world.width == u0.game_state.world.width
    &&& u1.game_state.world.height == u0.game_state.world.height
    &&& u1.game_state.crashed@ == u0.game_state.crashed@
    &&& spec_total_mass(u1.game_state.world) == spec_total_mass(u0.game_state.world)
    &&& closed == spec_closed_ids(u0.game_state.world.slithers, u0.to_disconnect@)
    &&& u1.connections@ == spec_remove_ids(u0.connections@, closed)
    &&& forall|x: SlitherID|
        #[trigger] u1.game_state.world.slithers.spec_contains(x) == (
        u0.game_state.world.slithers.spec_contains(x) && !closed.contains(x))
    &&& forall|x: SlitherID|
        u1.game_state.world.slithers.spec_contains(x)
            ==> #[trigger] u1.game_state.world.slithers.spec_get(x)
            == u0.game_state.world.slithers.spec_get(x)
    &&& forall|k: int|
        0 <= k < u0.to_disconnect@.len() ==> !u1.game_state.world.slithers.spec_contains(
            #[trigger] u0.to_disconnect@[k],
        )
}

/// The handshake replies among a list of optional ones, in order.
pub open spec fn spec_some_replies(rs: Seq<Option<(SlitherID, SessionStart)>>) -> Seq<
    (SlitherID, SessionStart),
>
    decreases rs.len(),
{
    if rs.len() == 0 {
        Seq::empty()
    } else {
        spec_some_replies(rs.drop_last()) + (match rs.last() {
            Option::Some(r) => seq![r],
            Option::None => Seq::empty(),
        })
    }
}

/// A trace witnesses that every lifecycle event was processed, in
/// order, and that `starts` are exactly the handshake replies yielded.
pub open spec fn spec_msg_chain(
    u0: StateUpdater,
    u1: StateUpdater,
    msgs: Seq<ConnectionMessage>,
    starts: Seq<(SlitherID, SessionStart)>,
) -> bool {
    exists|tr: Seq<StateUpdater>, rs: Seq<Option<(SlitherID, SessionStart)>>|
        #![trigger tr.len(), rs.len()]
        {
            &&& tr.len() == msgs.len() + 1
            &&& rs.len() == msgs.len()
            &&& tr[0] == u0
            &&& tr[msgs.len() as int] == u1
            &&& (forall|k: int|
                0 <= k < msgs.len() ==> spec_handle_msg_rel(
                    tr[k],
                    tr[k + 1],
                    msgs[k],
                    #[trigger] rs[k],
                ))
            &&& starts == spec_some_replies(rs)
        }
}

/// A trace witnesses that every direction intent was applied, in
/// order, under the tick's rate limit.
pub open spec fn spec_dir_chain(
    u0: StateUpdater,
    u1: StateUpdater,
    dirs: Seq<(SlitherID, u64)>,
    dt: int,
) -> bool {
    exists|tr: Seq<StateUpdater>|
        #![trigger tr.len()]
        {
            &&& tr.len() == dirs.len() + 1
            &&& tr[0] == u0
            &&& tr[dirs.len() as int] == u1
            &&& (forall|k: int|
                0 <= k < dirs.len() ==> spec_apply_dir_rel(
                    #[trigger] tr[k],
                    tr[k + 1],
                    dirs[k].0,
                    dirs[k].1 as int,
                    dt,
                ))
        }
}

/// The game state advanced by one simulation tick; everything else of
/// the updater untouched.
pub open spec fn spec_game_step_rel(u0: StateUpdater, u1: StateUpdater, dt: int) -> bool {
    &&& crate::state::spec_tick_rel(u0.game_state, u1.game_state, dt)
    &&& u1.top@ == u0.top@
    &&& u1.connections@ == u0.connections@
    &&& u1.to_disconnect@ == u0.to_disconnect@
    &&& u1.world_w_bits == u0.world_w_bits
    &&& u1.world_h_bits == u0.world_h_bits
}

/// One whole server tick, end to end: the lifecycle events processed
/// in order (yielding exactly the handshake replies owed), then the
/// direction intents applied in order, then the simulation tick run,
/// then the leaderboard recomputed; the snapshot recipients are the
/// registry as of broadcast time, the game-over list is this tick's
/// crash list and those peers leave the registry, and finally the
/// queued disconnects are closed out.
pub open spec fn spec_tick_pipeline(
    u0: StateUpdater,
    u1: StateUpdater,
    dt: int,
    msgs: Seq<ConnectionMessage>,
    dirs: Seq<(SlitherID, u64)>,
    out: TickOutput,
) -> bool {
    exists|u_m: StateUpdater, u_d: StateUpdater, u_g: StateUpdater, u_r: StateUpdater|
        #![trigger spec_msg_chain(u0, u_m, msgs, out.session_starts@), spec_dir_chain(u_m, u_d, dirs, dt), spec_game_step_rel(u_d, u_g, dt), spec_disconnects_rel(u_r, u1, out.closed@)]
        {
            &&& spec_msg_chain(u0, u_m, msgs, out.session_starts@)
            &&& spec_dir_chain(u_m, u_d, dirs, dt)
            &&& spec_game_step_rel(u_d, u_g, dt)
            &&& out.broadcast_to@ == u_g.connections@
            &&& out.game_over@ == u_g.game_state.crashed@
            &&& u_r.game_state == u_g.game_state
            &&& u_r.top@ == spec_update_top(u_g.game_state.world, u_g.top@)
            &&& u_r.connections@ == spec_remove_ids(u_g.connections@, out.game_over@)
            &&& u_r.to_disconnect@ == u_g.to_disconnect@
            &&& u_r.world_w_bits == u_g.world_w_bits
            &&& u_r.world_h_bits == u_g.world_h_bits
            &&& spec_disconnects_rel(u_r, u1, out.closed@)
        }
}

/// The decision core of the server loop.
pub struct StateUpdater {
    pub game_state: GameState,
    /// The leaderboard: live IDs, at most `TOP_LIMIT` of them.
    pub top: Vec<SlitherID>,
    /// IDs with a registered write socket, in registration order.
    pub connections: Vec<SlitherID>,
    /// Disconnect notices waiting to be finalized.
    pub to_disconnect: Vec<SlitherID>,
    /// The arena size as the two wire bit patterns every handshake
    /// reply carries.
    pub world_w_bits: u32,
    pub world_h_bits: u32,
}

impl StateUpdater {
    pub open spec fn well_formed(self) -> bool {
        self.game_state.well_formed()
    }

    pub fn new(game_state: GameState, world_w_bits: u32, world_h_bits: u32) -> (u: StateUpdater)
        requires
            game_state.well_formed(),
        ensures
            u.well_formed(),
            u.game_state == game_state,
            u.top@.len() == 0,
            u.connections@.len() == 0,
            u.to_disconnect@.len() == 0,
            u.world_w_bits == world_w_bits,
            u.world_h_bits == world_h_bits,
    {
        StateUpdater {
            game_state,
            top: Vec::new(),
            connections: Vec::new(),
            to_disconnect: Vec::new(),
            world_w_bits,
            world_h_bits,
        }
    }

    /// Process one lifecycle event. A join spawns a slither of the
    /// initial mass at the world center heading straight up, wearing
    /// the chosen color made opaque — or a bright random one —
    /// registers the peer and returns the handshake reply it is owed;
    /// a join for an ID already live is refused. A disconnect notice
    /// is only queued; it is finalized at the end of the tick.
    pub fn handle_connection_message(&mut self, msg: ConnectionMessage) -> (reply: Option<
        (SlitherID, SessionStart),
    >)
        requires
            old(self).well_formed(),
        ensures
            final(self).well_formed(),
            spec_handle_msg_rel(*old(self), *final(self), msg, reply),
    {
        match msg {
            ConnectionMessage::Connected { id, join } => {
                if self.game_state.world.slithers.contains(id) {
                    return Option::None;
                }
                let color = match join.color {
                    Option::Some(c) => c.to_opaque(),
                    Option::None => {
                        let r = random_in_range(0, 55) + 200;
                        let g = random_in_range(0, 55) + 200;
                        let b = random_in_range(0, 55) + 200;
                        Rgba::from_rgb(r as u8, g as u8, b as u8)
                    },
                };
                let center: Pos = self.game_state.world.center();
                let slither = Slither::from_dir(
                    color,
                    center,
                    QUARTER_TURN,
                    INIT_SLITHER_MASS,
                    join.nickname,
                );
                let ghost data0 = self.game_state.world.slithers.data@;
                self.game_state.world.slithers.add(id, slither);
                proof {
                    assert(self.game_state.world.slithers.data@.drop_last() =~= data0);
                }
                self.connections.push(id);
                Option::Some(
                    (
                        id,
                        SessionStart {
                            world_w: self.world_w_bits,
                            world_h: self.world_h_bits,
                            self_id: id,
                        },
                    ),
                )
            },
            ConnectionMessage::Disconnected(id) => {
                self.to_disconnect.push(id);
                Option::None
            },
        }
    }

    /// Apply one direction intent, rate-limited by the tick's elapsed
    /// time; intents for IDs no longer live are dropped silently.
    pub fn apply_direction(&mut self, id: SlitherID, new_dir: u64, delta_time: u64)
        requires
            old(self).well_formed(),
            new_dir < crate::nums::FULL_TURN,
            delta_time <= MAX_TICK_MS,
        ensures
            final(self).well_formed(),
            spec_apply_dir_rel(
                *old(self),
                *final(self),
                id,
                new_dir as int,
                delta_time as int,
            ),
    {
        if !self.game_state.world.slithers.contains(id) {
            return ;
        }
        let k = self.game_state.world.slithers.index_of(id);
        let ghost data0 = self.game_state.world.slithers.data@;
        let (eid, mut s) = self.game_state.world.slithers.data.remove(k);
        s.change_dir(new_dir, delta_time);
        let entry = (eid, s);
        self.game_state.world.slithers.data.insert(k, entry);
        proof {
            assert(self.game_state.world.slithers.data@ =~= data0.update(k as int, entry));
            assert(self.game_state.world.slithers.well_formed()) by {
                assert(forall|a: int, b: int|
                    0 <= a < b < data0.len() ==> (#[trigger] data0[a]).0 != (
                    #[trigger] data0[b]).0);
            }
        }
    }

    /// Recompute the leaderboard: drop dead entries, push any slither
    /// heavier than the current leader to the front, and trim the
    /// back down to the size limit.
    pub fn update_top(&mut self)
        requires
            old(self).well_formed(),
        ensures
            final(self).well_formed(),
            final(self).game_state == old(self).game_state,
            final(self).connections@ == old(self).connections@,
            final(self).to_disconnect@ == old(self).to_disconnect@,
            final(self).world_w_bits == old(self).world_w_bits,
            final(self).world_h_bits == old(self).world_h_bits,
            final(self).top@ == spec_update_top(old(self).game_state.world, old(self).top@),
            final(self).top@.len() <= TOP_LIMIT,
            forall|k: int|
                0 <= k < final(self).top@.len() ==> final(self).game_state.world.slithers
                    .spec_contains(#[trigger] final(self).top@[k]),
    {
        let ghost w = self.game_state.world;
        let ghost top0 = self.top@;
        let mut pruned: Vec<SlitherID> = Vec::new();
        let mut i: usize = 0;
        while i < self.top.len()
            invariant
                0 <= i <= self.top@.len(),
                self.well_formed(),
                w == self.game_state.world,
                self.game_state == old(self).game_state,
                self.connections@ == old(self).connections@,
                self.to_disconnect@ == old(self).to_disconnect@,
                self.world_w_bits == old(self).world_w_bits,
                self.world_h_bits == old(self).world_h_bits,
                self.top@ == top0,
                pruned@ == spec_prune_top(w, self.top@.subrange(0, i as int)),
                forall|k: int|
                    0 <= k < pruned@.len() ==> w.slithers.spec_contains(#[trigger] pruned@[k]),
            decreases self.top@.len() - i,
        {
            let id = self.top[i];
            proof {
                assert(self.top@.subrange(0, i as int + 1).drop_last() =~= self.top@.subrange(
                    0,
                    i as int,
                ));
            }
            if self.game_state.world.slithers.contains(id) {
                pruned.push(id);
            }
            i = i + 1;
        }
        proof {
            assert(self.top@.subrange(0, self.top@.len() as int) =~= self.top@);
        }
        self.top = pruned;
        let ghost base = self.top@;
        let len = self.game_state.world.slithers.len();
        let mut j: usize = 0;
        while j < len
            invariant
                0 <= j <= len,
                self.well_formed(),
                w == self.game_state.world,
                self.game_state == old(self).game_state,
                self.connections@ == old(self).connections@,
                self.to_disconnect@ == old(self).to_disconnect@,
                self.world_w_bits == old(self).world_w_bits,
                self.world_h_bits == old(self).world_h_bits,
                len == w.slithers.data@.len(),
                spec_top_fold(w, self.top@, j as int) == spec_top_fold(w, base, 0),
                forall|k: int|
                    0 <= k < self.top@.len() ==> w.slithers.spec_contains(
                        #[trigger] self.top@[k],
                    ),
            decreases len - j,
        {
            let ghost topb = self.top@;
            let cand_mass: i64 = self.game_state.world.slithers.data[j].1.body.mass();
            let mut push_front = false;
            if self.top.len() == 0 {
                push_front = true;
            } else {
                let f: SlitherID = self.top[0];
                let front_mass: i64 = self.game_state.world.slithers.get(f).body.mass();
                if front_mass < cand_mass {
                    push_front = true;
                }
            }
            if push_front {
                let cid: SlitherID = self.game_state.world.slithers.data[j].0;
                self.top.insert(0, cid);
                proof {
                    assert(self.top@ =~= seq![cid] + topb);
                    if topb.len() == 0 {
                        assert(self.top@ =~= seq![cid]);
                    }
                    assert(self.top@ == spec_top_step(w, topb, w.slithers.data@[j as int]));
                }
            } else {
                proof {
                    assert(self.top@ == spec_top_step(w, topb, w.slithers.data@[j as int]));
                }
            }
            j = j + 1;
        }
        if self.top.len() > TOP_LIMIT {
            self.top.truncate(TOP_LIMIT);
        }
    }

    /// Drop every occurrence of `id` from the connection registry.
    fn remove_connection(&mut self, id: SlitherID)
        ensures
            final(self).connections@ == spec_remove_id(old(self).connections@, id),
            final(self).game_state == old(self).game_state,
            final(self).top@ == old(self).top@,
            final(self).to_disconnect@ == old(self).to_disconnect@,
            final(self).world_w_bits == old(self).world_w_bits,
            final(self).world_h_bits == old(self).world_h_bits,
    {
        let mut kept: Vec<SlitherID> = Vec::new();
        let mut i: usize = 0;
        while i < self.connections.len()
            invariant
                0 <= i <= self.connections@.len(),
                kept@ == spec_remove_id(self.connections@.subrange(0, i as int), id),
            decreases self.connections@.len() - i,
        {
            let x = self.connections[i];
            proof {
                assert(self.connections@.subrange(0, i as int + 1).drop_last()
                    =~= self.connections@.subrange(0, i as int));
            }
            if x.0 != id.0 {
                kept.push(x);
            }
            i = i + 1;
        }
        proof {
            assert(self.connections@.subrange(0, self.connections@.len() as int)
                =~= self.connections@);
        }
        self.connections = kept;
    }

    /// Finalize the queued disconnects: each queued ID whose slither
    /// is still live is removed from the world with its mass
    /// scattered back as clots — total mass is unchanged — its socket
    /// entry is dropped from the registry, and it is reported back in
    /// order; every other slither survives untouched; the queue is
    /// emptied.
    pub fn handle_disconnected(&mut self) -> (closed: Vec<SlitherID>)
        requires
            old(self).well_formed(),
        ensures
            final(self).well_formed(),
            spec_disconnects_rel(*old(self), *final(self), closed@),
    {
        let ghost s0 = old(self).game_state.world.slithers;
        let ghost c0 = old(self).connections@;
        let mut closed: Vec<SlitherID> = Vec::new();
        let n = self.to_disconnect.len();
        let mut i: usize = 0;
        while i < n
            invariant
                0 <= i <= n,
                self.well_formed(),
                n == self.to_disconnect@.len(),
                s0 == old(self).game_state.world.slithers,
                c0 == old(self).connections@,
                old(self).well_formed(),
                self.to_disconnect@ == old(self).to_disconnect@,
                self.top@ == old(self).top@,
                self.world_w_bits == old(self).world_w_bits,
                self.world_h_bits == old(self).world_h_bits,
                self.game_state.world.width == old(self).game_state.world.width,
                self.game_state.world.height == old(self).game_state.world.height,
                self.game_state.crashed@ == old(self).game_state.crashed@,
                spec_total_mass(self.game_state.world) == spec_total_mass(
                    old(self).game_state.world,
                ),
                closed@ == spec_closed_ids(s0, self.to_disconnect@.subrange(0, i as int)),
                self.connections@ == spec_remove_ids(c0, closed@),
                forall|x: SlitherID|
                    #[trigger] self.game_state.world.slithers.spec_contains(x) == (
                    s0.spec_contains(x) && !closed@.contains(x)),
                forall|x: SlitherID|
                    self.game_state.world.slithers.spec_contains(x)
                        ==> #[trigger] self.game_state.world.slithers.spec_get(x)
                        == s0.spec_get(x),
            decreases n - i,
        {
            let id = self.to_disconnect[i];
            proof {
                assert(self.to_disconnect@.subrange(0, i as int + 1).drop_last()
                    =~= self.to_disconnect@.subrange(0, i as int));
            }
            if self.game_state.world.slithers.contains(id) {
                self.remove_connection(id);
                let ghost data0 = self.game_state.world.slithers.data@;
                let ghost k0 = self.game_state.world.slithers.spec_index_of(id);
                let ghost closed_prev = closed@;
                let s = self.game_state.world.slithers.remove(id);
                proof {
                    lemma_sum_slither_remove(data0, k0);
                }
                self.game_state.world.distribute_slither_mass(s);
                closed.push(id);
                proof {
                    assert(closed@.drop_last() =~= closed_prev);
                    assert forall|x: SlitherID|
                        #[trigger] self.game_state.world.slithers.spec_contains(x) == (
                        s0.spec_contains(x) && !closed@.contains(x)) by {
                        lemma_push_contains(closed_prev, id, x);
                    }
                    assert(spec_remove_ids(c0, closed@) == spec_remove_id(
                        spec_remove_ids(c0, closed_prev),
                        id,
                    ));
                }
            } else {
                proof {
                    assert(closed@ == spec_closed_ids(
                        s0,
                        self.to_disconnect@.subrange(0, i as int + 1),
                    ));
                }
            }
            i = i + 1;
        }
        proof {
            assert(self.to_disconnect@.subrange(0, n as int) =~= self.to_disconnect@);
        }
        self.to_disconnect.clear();
        proof {
            assert forall|k: int| 0 <= k < old(self).to_disconnect@.len() implies !self.game_state
                .world.slithers.spec_contains(#[trigger] old(self).to_disconnect@[k]) by {
                let x = old(self).to_disconnect@[k];
                if self.game_state.world.slithers.spec_contains(x) {
                    lemma_closed_covers(s0, old(self).to_disconnect@, k);
                }
            }
        }
        closed
    }

    /// Drain the lifecycle queue: process every event in order and
    /// collect the handshake replies owed.
    fn drain_messages(&mut self, messages: Vec<ConnectionMessage>) -> (starts: Vec<
        (SlitherID, SessionStart),
    >)
        requires
            old(self).well_formed(),
        ensures
            final(self).well_formed(),
            spec_msg_chain(*old(self), *final(self), messages@, starts@),
    {
        let ghost msgs0 = messages@;
        let mut messages = messages;
        let mut session_starts: Vec<(SlitherID, SessionStart)> = Vec::new();
        let ghost mut tr: Seq<StateUpdater> = seq![*old(self)];
        let ghost mut rs: Seq<Option<(SlitherID, SessionStart)>> = Seq::empty();
        while messages.len() > 0
            invariant
                self.well_formed(),
                1 <= tr.len() <= msgs0.len() + 1,
                rs.len() == tr.len() - 1,
                tr[0] == *old(self),
                tr.last() == *self,
                messages@ == msgs0.subrange(tr.len() - 1, msgs0.len() as int),
                forall|k: int|
                    0 <= k < tr.len() - 1 ==> spec_handle_msg_rel(
                        tr[k],
                        tr[k + 1],
                        msgs0[k],
                        #[trigger] rs[k],
                    ),
                session_starts@ == spec_some_replies(rs),
            decreases messages@.len(),
        {
            let ghost i = tr.len() - 1;
            let msg = messages.remove(0);
            proof {
                assert(msg == msgs0[i]);
                assert(messages@ =~= msgs0.subrange(i + 1, msgs0.len() as int));
            }
            let ghost u_prev = *self;
            let reply = self.handle_connection_message(msg);
            let ghost starts_prev = session_starts@;
            match reply {
                Option::Some(r) => {
                    session_starts.push(r);
                },
                Option::None => {},
            }
            proof {
                let ghost tr_prev = tr;
                let ghost rs_prev = rs;
                tr = tr.push(*self);
                rs = rs.push(reply);
                assert(tr.drop_last() =~= tr_prev);
                assert(rs.drop_last() =~= rs_prev);
                assert(spec_handle_msg_rel(u_prev, *self, msg, reply));
                assert(session_starts@ == spec_some_replies(rs)) by {
                    match reply {
                        Option::Some(r) => {
                            assert(session_starts@ =~= starts_prev + seq![r]);
                        },
                        Option::None => {
                            assert(session_starts@ =~= starts_prev + Seq::empty());
                        },
                    }
                }
            }
        }
        proof {
            assert(tr.len() == msgs0.len() + 1);
            assert(tr[msgs0.len() as int] == *self);
        }
        session_starts
    }

    /// Drain the direction intents: apply every one in order, under
    /// the tick's rate limit.
    fn drain_directions(&mut self, directions: &Vec<(SlitherID, u64)>, delta_time: u64)
        requires
            old(self).well_formed(),
            delta_time <= MAX_TICK_MS,
            forall|k: int|
                0 <= k < directions@.len() ==> (#[trigger] directions@[k]).1
                    < crate::nums::FULL_TURN,
        ensures
            final(self).well_formed(),
            spec_dir_chain(*old(self), *final(self), directions@, delta_time as int),
    {
        let mut di: usize = 0;
        let ghost mut dtr: Seq<StateUpdater> = seq![*old(self)];
        while di < directions.len()
            invariant
                0 <= di <= directions@.len(),
                self.well_formed(),
                delta_time <= MAX_TICK_MS,
                forall|k: int|
                    0 <= k < directions@.len() ==> (#[trigger] directions@[k]).1
                        < crate::nums::FULL_TURN,
                dtr.len() == di + 1,
                dtr[0] == *old(self),
                dtr.last() == *self,
                forall|k: int|
                    0 <= k < di ==> spec_apply_dir_rel(
                        #[trigger] dtr[k],
                        dtr[k + 1],
                        directions@[k].0,
                        directions@[k].1 as int,
                        delta_time as int,
                    ),
            decreases directions@.len() - di,
        {
            let (id, dir) = directions[di];
            let ghost u_prev = *self;
            self.apply_direction(id, dir, delta_time);
            proof {
                let ghost dtr_prev = dtr;
                dtr = dtr.push(*self);
                assert(dtr.drop_last() =~= dtr_prev);
                assert(spec_apply_dir_rel(u_prev, *self, id, dir as int, delta_time as int));
            }
            di = di + 1;
        }
        proof {
            assert(dtr[directions@.len() as int] == *self);
        }
    }

    /// A copy of this tick's crash list.
    fn collect_crashed(&self) -> (game_over: Vec<SlitherID>)
        ensures
            game_over@ == self.game_state.crashed@,
    {
        let mut game_over: Vec<SlitherID> = Vec::new();
        let mut ci: usize = 0;
        while ci < self.game_state.crashed.len()
            invariant
                0 <= ci <= self.game_state.crashed@.len(),
                game_over@ == self.game_state.crashed@.subrange(0, ci as int),
            decreases self.game_state.crashed@.len() - ci,
        {
            let id = self.game_state.crashed[ci];
            game_over.push(id);
            proof {
                assert(game_over@ =~= self.game_state.crashed@.subrange(0, ci as int + 1));
            }
            ci = ci + 1;
        }
        proof {
            assert(game_over@ =~= self.game_state.crashed@);
        }
        game_over
    }

    /// A copy of the connection registry: the broadcast recipients.
    fn collect_broadcast(&self) -> (broadcast_to: Vec<SlitherID>)
        ensures
            broadcast_to@ == self.connections@,
    {
        let mut broadcast_to: Vec<SlitherID> = Vec::new();
        let mut bi: usize = 0;
        while bi < self.connections.len()
            invariant
                0 <= bi <= self.connections@.len(),
                broadcast_to@ == self.connections@.subrange(0, bi as int),
            decreases self.connections@.len() - bi,
        {
            let id = self.connections[bi];
            broadcast_to.push(id);
            proof {
                assert(broadcast_to@ =~= self.connections@.subrange(0, bi as int + 1));
            }
            bi = bi + 1;
        }
        proof {
            assert(broadcast_to@ =~= self.connections@);
        }
        broadcast_to
    }

    /// Strike this tick's crashed peers off the connection registry.
    fn drop_crashed_connections(&mut self, game_over: &Vec<SlitherID>)
        requires
            old(self).well_formed(),
        ensures
            final(self).well_formed(),
            final(self).game_state == old(self).game_state,
            final(self).top@ == old(self).top@,
            final(self).to_disconnect@ == old(self).to_disconnect@,
            final(self).world_w_bits == old(self).world_w_bits,
            final(self).world_h_bits == old(self).world_h_bits,
            final(self).connections@ == spec_remove_ids(old(self).connections@, game_over@),
    {
        let mut ri: usize = 0;
        while ri < game_over.len()
            invariant
                self.well_formed(),
                0 <= ri <= game_over@.len(),
                self.game_state == old(self).game_state,
                self.top@ == old(self).top@,
                self.to_disconnect@ == old(self).to_disconnect@,
                self.world_w_bits == old(self).world_w_bits,
                self.world_h_bits == old(self).world_h_bits,
                self.connections@ == spec_remove_ids(
                    old(self).connections@,
                    game_over@.subrange(0, ri as int),
                ),
            decreases game_over@.len() - ri,
        {
            let id = game_over[ri];
            proof {
                assert(game_over@.subrange(0, ri as int + 1).drop_last() =~= game_over@.subrange(
                    0,
                    ri as int,
                ));
            }
            self.remove_connection(id);
            ri = ri + 1;
        }
        proof {
            assert(game_over@.subrange(0, game_over@.len() as int) =~= game_over@);
        }
    }

    /// One whole server tick: drain the lifecycle events, drain the
    /// direction intents, run the simulation tick, refresh the
    /// leaderboard, then close out this tick's crashes and
    /// disconnects — exactly the pipeline `spec_tick_pipeline`
    /// states. Returns who is owed a handshake reply, who gets the
    /// game-over message, whose disconnect became final, and who
    /// receives the snapshot.
    pub fn update(
        &mut self,
        delta_time: u64,
        messages: Vec<ConnectionMessage>,
        directions: Vec<(SlitherID, u64)>,
    ) -> (out: TickOutput)
        requires
            old(self).well_formed(),
            delta_time <= MAX_TICK_MS,
            forall|k: int|
                0 <= k < directions@.len() ==> (#[trigger] directions@[k]).1
                    < crate::nums::FULL_TURN,
        ensures
            final(self).well_formed(),
            final(self).to_disconnect@.len() == 0,
            final(self).top@.len() <= TOP_LIMIT,
            out.game_over@ == final(self).game_state.crashed@,
            spec_tick_pipeline(
                *old(self),
                *final(self),
                delta_time as int,
                messages@,
                directions@,
                out,
            ),
    {
        let session_starts = self.drain_messages(messages);
        let ghost u_m = *self;
        let directions = directions;
        self.drain_directions(&directions, delta_time);
        let ghost u_d = *self;
        self.game_state.update(delta_time);
        let ghost u_g = *self;
        proof {
            assert(spec_game_step_rel(u_d, u_g, delta_time as int));
        }
        self.update_top();
        let game_over = self.collect_crashed();
        let broadcast_to = self.collect_broadcast();
        self.drop_crashed_connections(&game_over);
        let ghost u_r = *self;
        let closed = self.handle_disconnected();
        let out = TickOutput { session_starts, game_over, closed, broadcast_to };
        proof {
            assert(spec_disconnects_rel(u_r, *self, out.closed@));
            assert(spec_msg_chain(*old(self), u_m, messages@, out.session_starts@));
            assert(spec_dir_chain(u_m, u_d, directions@, delta_time as int));
            assert(out.broadcast_to@ == u_g.connections@);
            assert(out.game_over@ == u_g.game_state.crashed@);
            assert(u_r.top@ == spec_update_top(u_g.game_state.world, u_g.top@));
            assert(u_r.connections@ == spec_remove_ids(u_g.connections@, out.game_over@));
            assert(spec_tick_pipeline(
                *old(self),
                *self,
                delta_time as int,
                messages@,
                directions@,
                out,
            ));
        }
        out
    }
}

} // verus!