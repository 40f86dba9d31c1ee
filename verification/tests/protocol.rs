use slither_server::color::Rgba;
use slither_server::protocol::{
    decode_client_update, decode_player_join, decode_server_update, decode_session_start,
    encode_client_update, encode_player_join, encode_players_top, encode_server_update,
    encode_session_start, frame_length, frame_message, ClientUpdate, PlayerJoin, ServerUpdate,
    SessionStart,
};
use slither_server::world::SlitherID;

#[test]
fn frame_prefixes_big_endian_length() {
    let framed = frame_message(&vec![1, 2, 3]);
    assert_eq!(framed, vec![0, 0, 0, 3, 1, 2, 3]);
    assert_eq!(frame_length(&framed), 3);
    let empty = frame_message(&Vec::new());
    assert_eq!(empty, vec![0, 0, 0, 0]);
}

#[test]
fn client_update_round_trip() {
    let bits = 0x3f80_0000u32;
    let dir = encode_client_update(&ClientUpdate::Direction(bits));
    assert_eq!(dir, vec![0, 0, 0, 0, 0, 0, 0x80, 0x3f]);
    assert_eq!(decode_client_update(&dir), Some(ClientUpdate::Direction(bits)));
    let bye = encode_client_update(&ClientUpdate::Disconnect);
    assert_eq!(bye, vec![1, 0, 0, 0]);
    assert_eq!(decode_client_update(&bye), Some(ClientUpdate::Disconnect));
}

#[test]
fn client_update_rejects_malformed_bytes() {
    assert_eq!(decode_client_update(&vec![]), None);
    assert_eq!(decode_client_update(&vec![9, 0, 0, 0]), None);
    assert_eq!(decode_client_update(&vec![0, 0, 0, 0, 1]), None);
}

#[test]
fn player_join_round_trip_with_color() {
    let join = PlayerJoin {
        color: Some(Rgba { r: 1, g: 2, b: 3, a: 4 }),
        nickname: b"zik".to_vec(),
    };
    let bytes = encode_player_join(&join);
    assert_eq!(
        bytes,
        vec![1, 1, 2, 3, 4, 3, 0, 0, 0, 0, 0, 0, 0, b'z', b'i', b'k']
    );
    let back = decode_player_join(&bytes).unwrap();
    assert_eq!(back.color, Some(Rgba { r: 1, g: 2, b: 3, a: 4 }));
    assert_eq!(back.nickname, b"zik".to_vec());
}

#[test]
fn player_join_round_trip_without_color() {
    let join = PlayerJoin { color: None, nickname: Vec::new() };
    let bytes = encode_player_join(&join);
    assert_eq!(bytes, vec![0, 0, 0, 0, 0, 0, 0, 0, 0]);
    let back = decode_player_join(&bytes).unwrap();
    assert_eq!(back.color, None);
    assert_eq!(back.nickname, Vec::<u8>::new());
}

#[test]
fn player_join_rejects_wrong_length() {
    // announced nickname length disagrees with the payload
    assert_eq!(decode_player_join(&vec![0, 9, 0, 0, 0, 0, 0, 0, 0]).map(|j| j.nickname), None);
    assert!(decode_player_join(&vec![]).is_none());
    assert!(decode_player_join(&vec![2, 0, 0, 0, 0, 0, 0, 0, 0]).is_none());
}

#[test]
fn session_start_round_trip() {
    let s = SessionStart { world_w: 0x4500_0000, world_h: 0x4520_0000, self_id: SlitherID(9) };
    let bytes = encode_session_start(&s);
    assert_eq!(bytes.len(), 12);
    assert_eq!(decode_session_start(&bytes), Some(s));
    assert_eq!(decode_session_start(&vec![0; 11]), None);
}

#[test]
fn server_update_tags() {
    assert_eq!(encode_server_update(&ServerUpdate::GameOver), vec![0, 0, 0, 0]);
    assert_eq!(encode_server_update(&ServerUpdate::World), vec![1, 0, 0, 0]);
    assert_eq!(encode_server_update(&ServerUpdate::PlayersTop), vec![2, 0, 0, 0]);
    for u in [ServerUpdate::GameOver, ServerUpdate::World, ServerUpdate::PlayersTop] {
        assert_eq!(decode_server_update(&encode_server_update(&u)), Some(u));
    }
    assert_eq!(decode_server_update(&vec![3, 0, 0, 0]), None);
}

#[test]
fn players_top_lists_ids_in_order() {
    let ids = vec![SlitherID(1), SlitherID(258)];
    let bytes = encode_players_top(&ids);
    assert_eq!(
        bytes,
        vec![2, 0, 0, 0, 0, 0, 0, 0, 1, 0, 0, 0, 2, 1, 0, 0]
    );
    assert_eq!(encode_players_top(&Vec::new()), vec![0; 8]);
}
