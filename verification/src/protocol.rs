//! The length-prefixed binary protocol between client and server:
//! every message is a 4-byte big-endian length followed by that many
//! payload bytes; the payload schemas are fixed little-endian records.
use vstd::prelude::*;
use crate::color::Rgba;
use crate::world::SlitherID;

verus! {

/// The handshake a client sends once: an optional preferred color and
/// a nickname.
pub struct PlayerJoin {
    pub color: Option<Rgba>,
    pub nickname: Vec<u8>,
}

/// A client's in-session message: a new heading — an IEEE-754 bit
/// pattern of radians, carried opaquely — or a goodbye.
#[derive(PartialEq, Eq, Structural, Debug, Clone, Copy)]
pub enum ClientUpdate {
    Direction(u32),
    Disconnect,
}

/// The handshake reply: the arena size (two IEEE-754 bit patterns,
/// carried opaquely) and the joining player's own ID.
#[derive(PartialEq, Eq, Structural, Debug, Clone, Copy)]
pub struct SessionStart {
    pub world_w: u32,
    pub world_h: u32,
    pub self_id: SlitherID,
}

/// The tag of a server-to-client update; `World` and `PlayersTop` are
/// followed by a frameless payload on the same connection.
#[derive(PartialEq, Eq, Structural, Debug, Clone, Copy)]
pub enum ServerUpdate {
    GameOver,
    World,
    PlayersTop,
}

pub open spec fn spec_u32_le(v: u32) -> Seq<u8> {
    seq![
        (v & 0xff) as u8,
        ((v >> 8) & 0xff) as u8,
        ((v >> 16) & 0xff) as u8,
        ((v >> 24) & 0xff) as u8,
    ]
}

pub open spec fn spec_u32_be(v: u32) -> Seq<u8> {
    seq![
        ((v >> 24) & 0xff) as u8,
        ((v >> 16) & 0xff) as u8,
        ((v >> 8) & 0xff) as u8,
        (v & 0xff) as u8,
    ]
}

pub open spec fn spec_u64_le(v: u64) -> Seq<u8> {
    seq![
        (v & 0xff) as u8,
        ((v >> 8) & 0xff) as u8,
        ((v >> 16) & 0xff) as u8,
        ((v >> 24) & 0xff) as u8,
        ((v >> 32) & 0xff) as u8,
        ((v >> 40) & 0xff) as u8,
        ((v >> 48) & 0xff) as u8,
        ((v >> 56) & 0xff) as u8,
    ]
}

/// The little-endian value the four bytes at `i` spell.
pub open spec fn spec_read_u32_le(b: Seq<u8>, i: int) -> u32 {
    (b[i] as u32) | ((b[i + 1] as u32) << 8) | ((b[i + 2] as u32) << 16) | ((b[i + 3] as u32)
        << 24)
}

/// The big-endian value the four bytes at `i` spell.
pub open spec fn spec_read_u32_be(b: Seq<u8>, i: int) -> u32 {
    ((b[i] as u32) << 24) | ((b[i + 1] as u32) << 16) | ((b[i + 2] as u32) << 8) | (b[i
        + 3] as u32)
}

/// The little-endian value the eight bytes at `i` spell.
pub open spec fn spec_read_u64_le(b: Seq<u8>, i: int) -> u64 {
    (b[i] as u64) | ((b[i + 1] as u64) << 8) | ((b[i + 2] as u64) << 16) | ((b[i + 3] as u64)
        << 24) | ((b[i + 4] as u64) << 32) | ((b[i + 5] as u64) << 40) | ((b[i + 6] as u64)
        << 48) | ((b[i + 7] as u64) << 56)
}

/// Reading back four little-endian bytes yields the written value.
pub proof fn lemma_u32_le_roundtrip(v: u32)
    ensures
        spec_read_u32_le(spec_u32_le(v), 0) == v,
{
    assert(((v & 0xff) as u8 as u32) | (((v >> 8) & 0xff) as u8 as u32) << 8 | (((v >> 16)
        & 0xff) as u8 as u32) << 16 | (((v >> 24) & 0xff) as u8 as u32) << 24 == v)
        by (bit_vector);
}

/// Reading back four big-endian bytes yields the written value.
pub proof fn lemma_u32_be_roundtrip(v: u32)
    ensures
        spec_read_u32_be(spec_u32_be(v), 0) == v,
{
    assert((((v >> 24) & 0xff) as u8 as u32) << 24 | (((v >> 16) & 0xff) as u8 as u32) << 16 | (((v
        >> 8) & 0xff) as u8 as u32) << 8 | ((v & 0xff) as u8 as u32) == v) by (bit_vector);
}

/// Reading back eight little-endian bytes yields the written value.
pub proof fn lemma_u64_le_roundtrip(v: u64)
    ensures
        spec_read_u64_le(spec_u64_le(v), 0) == v,
{
    assert(((v & 0xff) as u8 as u64) | (((v >> 8) & 0xff) as u8 as u64) << 8 | (((v >> 16)
        & 0xff) as u8 as u64) << 16 | (((v >> 24) & 0xff) as u8 as u64) << 24 | (((v >> 32)
        & 0xff) as u8 as u64) << 32 | (((v >> 40) & 0xff) as u8 as u64) << 40 | (((v >> 48)
        & 0xff) as u8 as u64) << 48 | (((v >> 56) & 0xff) as u8 as u64) << 56 == v)
        by (bit_vector);
}

fn push_u32_le(out: &mut Vec<u8>, v: u32)
    ensures
        final(out)@ == old(out)@ + spec_u32_le(v),
{
    let ghost prev = out@;
    out.push((v & 0xff) as u8);
    out.push(((v >> 8) & 0xff) as u8);
    out.push(((v >> 16) & 0xff) as u8);
    out.push(((v >> 24) & 0xff) as u8);
    proof {
        assert(out@ =~= prev + spec_u32_le(v));
    }
}

fn push_u64_le(out: &mut Vec<u8>, v: u64)
    ensures
        final(out)@ == old(out)@ + spec_u64_le(v),
{
    let ghost prev = out@;
    out.push((v & 0xff) as u8);
    out.push(((v >> 8) & 0xff) as u8);
    out.push(((v >> 16) & 0xff) as u8);
    out.push(((v >> 24) & 0xff) as u8);
    out.push(((v >> 32) & 0xff) as u8);
    out.push(((v >> 40) & 0xff) as u8);
    out.push(((v >> 48) & 0xff) as u8);
    out.push(((v >> 56) & 0xff) as u8);
    proof {
        assert(out@ =~= prev + spec_u64_le(v));
    }
}

fn read_u32_le(b: &Vec<u8>, i: usize) -> (v: u32)
    requires
        i + 4 <= b@.len(),
    ensures
        v == spec_read_u32_le(b@, i as int),
{
    let n: usize = b.len();
    (b[i] as u32) | ((b[i + 1] as u32) << 8) | ((b[i + 2] as u32) << 16) | ((b[i + 3] as u32)
        << 24)
}

fn read_u32_be(b: &Vec<u8>, i: usize) -> (v: u32)
    requires
        i + 4 <= b@.len(),
    ensures
        v == spec_read_u32_be(b@, i as int),
{
    let n: usize = b.len();
    ((b[i] as u32) << 24) | ((b[i + 1] as u32) << 16) | ((b[i + 2] as u32) << 8) | (b[i
        + 3] as u32)
}

fn read_u64_le(b: &Vec<u8>, i: usize) -> (v: u64)
    requires
        i + 8 <= b@.len(),
    ensures
        v == spec_read_u64_le(b@, i as int),
{
    let n: usize = b.len();
    (b[i] as u64) | ((b[i + 1] as u64) << 8) | ((b[i + 2] as u64) << 16) | ((b[i + 3] as u64)
        << 24) | ((b[i + 4] as u64) << 32) | ((b[i + 5] as u64) << 40) | ((b[i + 6] as u64)
        << 48) | ((b[i + 7] as u64) << 56)
}

/// A whole frame: the payload's length as four big-endian bytes, then
/// the payload.
pub open spec fn spec_frame(payload: Seq<u8>) -> Seq<u8> {
    spec_u32_be(payload.len() as u32) + payload
}

/// Wrap a payload in its length prefix.
pub fn frame_message(payload: &Vec<u8>) -> (out: Vec<u8>)
    requires
        payload@.len() < 0x1_0000_0000,
    ensures
        out@ == spec_frame(payload@),
        out@.len() == payload@.len() + 4,
{
    let mut out: Vec<u8> = Vec::new();
    let n: u32 = payload.len() as u32;
    out.push(((n >> 24) & 0xff) as u8);
    out.push(((n >> 16) & 0xff) as u8);
    out.push(((n >> 8) & 0xff) as u8);
    out.push((n & 0xff) as u8);
    let mut i: usize = 0;
    while i < payload.len()
        invariant
            0 <= i <= payload@.len(),
            payload@.len() < 0x1_0000_0000,
            n == payload@.len() as u32,
            out@ == spec_u32_be(n) + payload@.subrange(0, i as int),
        decreases payload@.len() - i,
    {
        let ghost prev = out@;
        out.push(payload[i]);
        proof {
            assert(out@ =~= spec_u32_be(n) + payload@.subrange(0, i as int + 1));
        }
        i = i + 1;
    }
    proof {
        assert(payload@.subrange(0, payload@.len() as int) =~= payload@);
        assert(out@ =~= spec_frame(payload@));
    }
    out
}

/// The length a received frame header announces.
pub fn frame_length(header: &Vec<u8>) -> (n: u32)
    requires
        header@.len() >= 4,
    ensures
        n == spec_read_u32_be(header@, 0),
{
    read_u32_be(header, 0)
}

/// The payload bytes of a join message: a presence-tagged color, then
/// the nickname's length as eight little-endian bytes, then the
/// nickname.
pub open spec fn spec_encode_player_join(color: Option<Rgba>, nickname: Seq<u8>) -> Seq<u8> {
    (match color {
        Option::None => seq![0u8],
        Option::Some(c) => seq![1u8, c.r, c.g, c.b, c.a],
    }) + spec_u64_le(nickname.len() as u64) + nickname
}

/// What join-message bytes decode to: the color choice and the
/// nickname, or nothing when the bytes are malformed.
pub open spec fn spec_decode_player_join(b: Seq<u8>) -> Option<(Option<Rgba>, Seq<u8>)> {
    if b.len() >= 9 && b[0] == 0 && spec_read_u64_le(b, 1) == b.len() - 9 {
        Option::Some((Option::None, b.subrange(9, b.len() as int)))
    } else if b.len() >= 13 && b[0] == 1 && spec_read_u64_le(b, 5) == b.len() - 13 {
        Option::Some(
            (
                Option::Some(Rgba { r: b[1], g: b[2], b: b[3], a: b[4] }),
                b.subrange(13, b.len() as int),
            ),
        )
    } else {
        Option::None
    }
}

/// Law: decoding an encoded join message gives back the color and
/// nickname exactly.
pub proof fn lemma_player_join_roundtrip(color: Option<Rgba>, nickname: Seq<u8>)
    requires
        nickname.len() < 0x1_0000_0000,
    ensures
        spec_decode_player_join(spec_encode_player_join(color, nickname)) == Option::Some(
            (color, nickname),
        ),
{
    let b = spec_encode_player_join(color, nickname);
    lemma_u64_le_roundtrip(nickname.len() as u64);
    match color {
        Option::None => {
            assert(spec_read_u64_le(b, 1) == spec_read_u64_le(
                spec_u64_le(nickname.len() as u64),
                0,
            ));
            assert(b.subrange(9, b.len() as int) =~= nickname);
        },
        Option::Some(c) => {
            assert(spec_read_u64_le(b, 5) == spec_read_u64_le(
                spec_u64_le(nickname.len() as u64),
                0,
            ));
            assert(b.subrange(13, b.len() as int) =~= nickname);
        },
    }
}

/// Encode a join message.
pub fn encode_player_join(join: &PlayerJoin) -> (out: Vec<u8>)
    requires
        join.nickname@.len() < 0x1_0000_0000,
    ensures
        out@ == spec_encode_player_join(join.color, join.nickname@),
{
    let mut out: Vec<u8> = Vec::new();
    match join.color {
        Option::None => {
            out.push(0);
        },
        Option::Some(c) => {
            out.push(1);
            out.push(c.r);
            out.push(c.g);
            out.push(c.b);
            out.push(c.a);
        },
    }
    let ghost mid = out@;
    push_u64_le(&mut out, join.nickname.len() as u64);
    let mut i: usize = 0;
    while i < join.nickname.len()
        invariant
            0 <= i <= join.nickname@.len(),
            out@ == mid + spec_u64_le(join.nickname@.len() as u64) + join.nickname@.subrange(
                0,
                i as int,
            ),
        decreases join.nickname@.len() - i,
    {
        out.push(join.nickname[i]);
        proof {
            assert(out@ =~= mid + spec_u64_le(join.nickname@.len() as u64)
                + join.nickname@.subrange(0, i as int + 1));
        }
        i = i + 1;
    }
    proof {
        assert(join.nickname@.subrange(0, join.nickname@.len() as int) =~= join.nickname@);
        assert(out@ =~= spec_encode_player_join(join.color, join.nickname@));
    }
    out
}

/// Decode a join message's payload bytes.
pub fn decode_player_join(b: &Vec<u8>) -> (r: Option<PlayerJoin>)
    ensures
        match r {
            Option::Some(pj) => spec_decode_player_join(b@) == Option::Some(
                (pj.color, pj.nickname@),
            ),
            Option::None => spec_decode_player_join(b@) is None,
        },
{
    let n = b.len();
    if n >= 9 && b[0] == 0 {
        let nick_len = read_u64_le(b, 1);
        if nick_len == (n - 9) as u64 {
            let nickname = copy_tail(b, 9);
            return Option::Some(PlayerJoin { color: Option::None, nickname });
        }
        return Option::None;
    }
    if n >= 13 && b[0] == 1 {
        let nick_len = read_u64_le(b, 5);
        if nick_len == (n - 13) as u64 {
            let color = Rgba { r: b[1], g: b[2], b: b[3], a: b[4] };
            let nickname = copy_tail(b, 13);
            return Option::Some(PlayerJoin { color: Option::Some(color), nickname });
        }
        return Option::None;
    }
    Option::None
}

/// The bytes of `b` from `start` on, as a fresh vector.
fn copy_tail(b: &Vec<u8>, start: usize) -> (out: Vec<u8>)
    requires
        start <= b@.len(),
    ensures
        out@ == b@.subrange(start as int, b@.len() as int),
{
    let mut out: Vec<u8> = Vec::new();
    let mut i: usize = start;
    while i < b.len()
        invariant
            start <= i <= b@.len(),
            out@ == b@.subrange(start as int, i as int),
        decreases b@.len() - i,
    {
        out.push(b[i]);
        proof {
            assert(out@ =~= b@.subrange(start as int, i as int + 1));
        }
        i = i + 1;
    }
    out
}

/// The payload bytes of a client update: a four-byte tag, then for a
/// direction its bit pattern.
pub open spec fn spec_encode_client_update(m: ClientUpdate) -> Seq<u8> {
    match m {
        ClientUpdate::Direction(bits) => spec_u32_le(0) + spec_u32_le(bits),
        ClientUpdate::Disconnect => spec_u32_le(1),
    }
}

/// What client-update bytes decode to.
pub open spec fn spec_decode_client_update(b: Seq<u8>) -> Option<ClientUpdate> {
    if b.len() == 8 && spec_read_u32_le(b, 0) == 0 {
        Option::Some(ClientUpdate::Direction(spec_read_u32_le(b, 4)))
    } else if b.len() == 4 && spec_read_u32_le(b, 0) == 1 {
        Option::Some(ClientUpdate::Disconnect)
    } else {
        Option::None
    }
}

/// Law: decoding an encoded client update gives it back exactly.
pub proof fn lemma_client_update_roundtrip(m: ClientUpdate)
    ensures
        spec_decode_client_update(spec_encode_client_update(m)) == Option::Some(m),
{
    lemma_u32_le_roundtrip(0);
    lemma_u32_le_roundtrip(1);
    match m {
        ClientUpdate::Direction(bits) => {
            let b = spec_encode_client_update(m);
            lemma_u32_le_roundtrip(bits);
            assert(b.subrange(0, 4) =~= spec_u32_le(0));
            assert(b.subrange(4, 8) =~= spec_u32_le(bits));
            assert(spec_read_u32_le(b, 0) == spec_read_u32_le(spec_u32_le(0), 0));
            assert(spec_read_u32_le(b, 4) == spec_read_u32_le(spec_u32_le(bits), 0));
        },
        ClientUpdate::Disconnect => {
            assert(spec_read_u32_le(spec_encode_client_update(m), 0) == spec_read_u32_le(
                spec_u32_le(1),
                0,
            ));
        },
    }
}

/// Encode a client update.
pub fn encode_client_update(m: &ClientUpdate) -> (out: Vec<u8>)
    ensures
        out@ == spec_encode_client_update(*m),
{
    let mut out: Vec<u8> = Vec::new();
    match m {
        ClientUpdate::Direction(bits) => {
            push_u32_le(&mut out, 0);
            push_u32_le(&mut out, *bits);
        },
        ClientUpdate::Disconnect => {
            push_u32_le(&mut out, 1);
        },
    }
    out
}

/// Decode a client update's payload bytes.
pub fn decode_client_update(b: &Vec<u8>) -> (r: Option<ClientUpdate>)
    ensures
        r == spec_decode_client_update(b@),
{
    let n = b.len();
    if n == 8 {
        let tag = read_u32_le(b, 0);
        if tag == 0 {
            return Option::Some(ClientUpdate::Direction(read_u32_le(b, 4)));
        }
        return Option::None;
    }
    if n == 4 {
        let tag = read_u32_le(b, 0);
        if tag == 1 {
            return Option::Some(ClientUpdate::Disconnect);
        }
        return Option::None;
    }
    Option::None
}

/// The payload bytes of the handshake reply: the arena size as two
/// bit patterns, then the player's own ID.
pub open spec fn spec_encode_session_start(s: SessionStart) -> Seq<u8> {
    spec_u32_le(s.world_w) + spec_u32_le(s.world_h) + spec_u32_le(s.self_id.0)
}

/// What handshake-reply bytes decode to.
pub open spec fn spec_decode_session_start(b: Seq<u8>) -> Option<SessionStart> {
    if b.len() == 12 {
        Option::Some(
            SessionStart {
                world_w: spec_read_u32_le(b, 0),
                world_h: spec_read_u32_le(b, 4),
                self_id: SlitherID(spec_read_u32_le(b, 8)),
            },
        )
    } else {
        Option::None
    }
}

/// Law: decoding an encoded handshake reply gives it back exactly.
pub proof fn lemma_session_start_roundtrip(s: SessionStart)
    ensures
        spec_decode_session_start(spec_encode_session_start(s)) == Option::Some(s),
{
    let b = spec_encode_session_start(s);
    lemma_u32_le_roundtrip(s.world_w);
    lemma_u32_le_roundtrip(s.world_h);
    lemma_u32_le_roundtrip(s.self_id.0);
    assert(b.subrange(0, 4) =~= spec_u32_le(s.world_w));
    assert(b.subrange(4, 8) =~= spec_u32_le(s.world_h));
    assert(b.subrange(8, 12) =~= spec_u32_le(s.self_id.0));
    assert(spec_read_u32_le(b, 0) == spec_read_u32_le(spec_u32_le(s.world_w), 0));
    assert(spec_read_u32_le(b, 4) == spec_read_u32_le(spec_u32_le(s.world_h), 0));
    assert(spec_read_u32_le(b, 8) == spec_read_u32_le(spec_u32_le(s.self_id.0), 0));
}

/// Encode the handshake reply.
pub fn encode_session_start(s: &SessionStart) -> (out: Vec<u8>)
    ensures
        out@ == spec_encode_session_start(*s),
{
    let mut out: Vec<u8> = Vec::new();
    push_u32_le(&mut out, s.world_w);
    push_u32_le(&mut out, s.world_h);
    push_u32_le(&mut out, s.self_id.0);
    out
}

/// Decode the handshake reply's payload bytes.
pub fn decode_session_start(b: &Vec<u8>) -> (r: Option<SessionStart>)
    ensures
        r == spec_decode_session_start(b@),
{
    if b.len() == 12 {
        Option::Some(
            SessionStart {
                world_w: read_u32_le(b, 0),
                world_h: read_u32_le(b, 4),
                self_id: SlitherID(read_u32_le(b, 8)),
            },
        )
    } else {
        Option::None
    }
}

/// The tag value of a server update.
pub open spec fn spec_server_update_tag(u: ServerUpdate) -> u32 {
    match u {
        ServerUpdate::GameOver => 0,
        ServerUpdate::World => 1,
        ServerUpdate::PlayersTop => 2,
    }
}

/// The payload bytes of a server-update tag.
pub open spec fn spec_encode_server_update(u: ServerUpdate) -> Seq<u8> {
    spec_u32_le(spec_server_update_tag(u))
}

/// What server-update bytes decode to.
pub open spec fn spec_decode_server_update(b: Seq<u8>) -> Option<ServerUpdate> {
    if b.len() == 4 && spec_read_u32_le(b, 0) == 0 {
        Option::Some(ServerUpdate::GameOver)
    } else if b.len() == 4 && spec_read_u32_le(b, 0) == 1 {
        Option::Some(ServerUpdate::World)
    } else if b.len() == 4 && spec_read_u32_le(b, 0) == 2 {
        Option::Some(ServerUpdate::PlayersTop)
    } else {
        Option::None
    }
}

/// Law: decoding an encoded server-update tag gives it back exactly.
pub proof fn lemma_server_update_roundtrip(u: ServerUpdate)
    ensures
        spec_decode_server_update(spec_encode_server_update(u)) == Option::Some(u),
{
    lemma_u32_le_roundtrip(spec_server_update_tag(u));
}

/// Encode a server-update tag.
pub fn encode_server_update(u: &ServerUpdate) -> (out: Vec<u8>)
    ensures
        out@ == spec_encode_server_update(*u),
{
    let mut out: Vec<u8> = Vec::new();
    let tag: u32 = match u {
        ServerUpdate::GameOver => 0,
        ServerUpdate::World => 1,
        ServerUpdate::PlayersTop => 2,
    };
    push_u32_le(&mut out, tag);
    out
}

/// Decode a server-update tag.
pub fn decode_server_update(b: &Vec<u8>) -> (r: Option<ServerUpdate>)
    ensures
        r == spec_decode_server_update(b@),
{
    if b.len() == 4 {
        let tag = read_u32_le(b, 0);
        if tag == 0 {
            return Option::Some(ServerUpdate::GameOver);
        }
        if tag == 1 {
            return Option::Some(ServerUpdate::World);
        }
        if tag == 2 {
            return Option::Some(ServerUpdate::PlayersTop);
        }
        return Option::None;
    }
    Option::None
}

/// The IDs of the leaderboard, one four-byte value each, in order.
pub open spec fn spec_top_ids_bytes(ids: Seq<SlitherID>) -> Seq<u8>
    decreases ids.len(),
{
    if ids.len() == 0 {
        Seq::empty()
    } else {
        spec_top_ids_bytes(ids.drop_last()) + spec_u32_le(ids.last().0)
    }
}

/// The payload bytes of the leaderboard: its length as eight
/// little-endian bytes, then each ID.
pub open spec fn spec_encode_players_top(ids: Seq<SlitherID>) -> Seq<u8> {
    spec_u64_le(ids.len() as u64) + spec_top_ids_bytes(ids)
}

/// Encode the leaderboard.
pub fn encode_players_top(ids: &Vec<SlitherID>) -> (out: Vec<u8>)
    ensures
        out@ == spec_encode_players_top(ids@),
{
    let mut out: Vec<u8> = Vec::new();
    push_u64_le(&mut out, ids.len() as u64);
    let mut i: usize = 0;
    while i < ids.len()
        invariant
            0 <= i <= ids@.len(),
            out@ == spec_u64_le(ids@.len() as u64) + spec_top_ids_bytes(ids@.subrange(0, i as int)),
        decreases ids@.len() - i,
    {
        push_u32_le(&mut out, ids[i].0);
        proof {
            assert(ids@.subrange(0, i as int + 1).drop_last() =~= ids@.subrange(0, i as int));
            assert(out@ =~= spec_u64_le(ids@.len() as u64) + spec_top_ids_bytes(
                ids@.subrange(0, i as int + 1),
            ));
        }
        i = i + 1;
    }
    proof {
        assert(ids@.subrange(0, ids@.len() as int) =~= ids@);
    }
    out
}

} // verus!
