use obelisk::entities::player::Gamemode;
use obelisk::error::ProtocolError;
use obelisk::identity::player_uuid;
use obelisk::net::codec::{encode_string, encode_varint, read_string};
use obelisk::net::login::{handle_login, send_login_disconnect};
use obelisk::net::play::{handle_play, spawn};
use obelisk::net::status::handle_status;
use obelisk::net::{NetState, Packet, PlayerSocket};
use obelisk::world::{Difficulty, Dimension, LevelType, Location, World};
use obelisk::Obelisk;
use std::collections::HashMap;

fn hyphenated(id: u128) -> String {
    uuid::Uuid::from_u128(id).hyphenated().to_string()
}

fn server() -> Obelisk {
    Obelisk {
        players: HashMap::new(),
        max_players: 10,
        worlds: vec![World {
            gamemode: Gamemode::Creative,
            hardcore: false,
            dimension: Dimension::Overworld,
            difficulty: Difficulty::Peaceful,
            level_type: LevelType::Default,
        }],
        spawn_location: Location { x: 0, y: 128, z: 0, world: 0 },
    }
}

fn handshake(next_state: i32) -> Packet {
    let mut data = encode_varint(404);
    data.extend(encode_string("localhost"));
    data.extend_from_slice(&[0x63, 0xdd]);
    data.extend(encode_varint(next_state));
    Packet::new(0, data)
}

fn drain(socket: &mut PlayerSocket) -> Vec<Packet> {
    let mut out = Vec::new();
    while let Some(packet) = socket.next_outbound() {
        out.push(packet);
    }
    out
}

#[test]
fn a_new_connection_is_in_handshake_with_nothing_to_send() {
    let mut socket = PlayerSocket::new();
    assert_eq!(socket.state(), NetState::Handshake);
    assert_eq!(socket.pending(), 0);
    assert!(socket.next_outbound().is_none());
}

#[test]
fn handshake_selects_status_or_login() {
    let mut server = server();
    let mut socket = PlayerSocket::new();
    assert_eq!(socket.handle_packet(&mut server, handshake(1)), Ok(()));
    assert_eq!(socket.state(), NetState::Status);

    let mut socket = PlayerSocket::new();
    assert_eq!(socket.handle_packet(&mut server, handshake(2)), Ok(()));
    assert_eq!(socket.state(), NetState::Login);
    assert_eq!(socket.pending(), 0);
}

#[test]
fn status_only_packet_in_handshake_is_unexpected() {
    let mut server = server();
    let mut socket = PlayerSocket::new();
    let ping = Packet::new(1, vec![0, 0, 0, 0, 0, 0, 0, 1]);
    assert_eq!(socket.handle_packet(&mut server, ping), Err(ProtocolError::UnexpectedPacket));
    assert_eq!(socket.state(), NetState::Handshake);
    assert_eq!(socket.pending(), 0);
}

#[test]
fn handshake_with_next_state_three_is_invalid() {
    let mut server = server();
    for next in [0, 3, -1, 255] {
        let mut socket = PlayerSocket::new();
        assert_eq!(
            socket.handle_packet(&mut server, handshake(next)),
            Err(ProtocolError::InvalidHandshakeState)
        );
        assert_eq!(socket.state(), NetState::Handshake);
    }
}

#[test]
fn truncated_handshake_overruns_its_frame() {
    let mut server = server();
    let mut socket = PlayerSocket::new();
    let whole = handshake(1);
    for cut in 0..whole.data.len() {
        let packet = Packet::new(0, whole.data[..cut].to_vec());
        assert_eq!(
            socket.handle_packet(&mut server, packet),
            Err(ProtocolError::FrameOverrun)
        );
        assert_eq!(socket.state(), NetState::Handshake);
    }
    let mut data = vec![0x80, 0x80, 0x80, 0x80, 0x80, 0x80];
    data.extend(whole.data.iter());
    assert_eq!(
        socket.handle_packet(&mut server, Packet::new(0, data)),
        Err(ProtocolError::MalformedVarInt)
    );
    let mut data = encode_varint(404);
    data.extend_from_slice(&[2, 0xc3, 0x28, 0x63, 0xdd, 1]);
    assert_eq!(
        socket.handle_packet(&mut server, Packet::new(0, data)),
        Err(ProtocolError::InvalidUtf8)
    );
}

#[test]
fn status_request_reports_limit_count_and_an_empty_sample() {
    let mut server = server();
    let mut socket = PlayerSocket::new();
    socket.handle_packet(&mut server, handshake(1)).unwrap();
    assert_eq!(socket.handle_packet(&mut server, Packet::new(0, vec![])), Ok(()));
    assert_eq!(socket.state(), NetState::Status);
    let mut sent = drain(&mut socket);
    assert_eq!(sent.len(), 1);
    assert_eq!(sent[0].id, 0);
    let text = read_string(&mut sent[0].data).unwrap();
    assert!(sent[0].data.is_empty());
    let document: serde_json::Value = serde_json::from_str(&text).unwrap();
    assert_eq!(document["players"]["max"], serde_json::Value::from(10));
    assert_eq!(document["players"]["online"], serde_json::Value::from(0));
    assert_eq!(document["players"]["sample"], serde_json::Value::Array(vec![]));
    assert_eq!(document["version"]["name"], serde_json::Value::from("1.13.2"));
    assert_eq!(document["version"]["protocol"], serde_json::Value::from(404));
    assert_eq!(document["description"]["text"], serde_json::Value::from("Hello world"));
}

#[test]
fn status_sample_is_capped_at_five_distinct_players() {
    let mut server = server();
    let names = ["a", "b", "c", "d", "e", "f", "g"];
    for (i, name) in names.iter().enumerate() {
        server.register_player(player_uuid(name), name.to_string(), i as i32);
    }
    assert_eq!(server.count_online(), 7);
    let mut socket = PlayerSocket::new();
    socket.handle_packet(&mut server, handshake(1)).unwrap();
    socket.handle_packet(&mut server, Packet::new(0, vec![])).unwrap();
    let mut sent = drain(&mut socket);
    let text = read_string(&mut sent[0].data).unwrap();
    let document: serde_json::Value = serde_json::from_str(&text).unwrap();
    assert_eq!(document["players"]["online"], serde_json::Value::from(7));
    let sample = document["players"]["sample"].as_array().unwrap();
    assert_eq!(sample.len(), 5);
    let mut seen = Vec::new();
    for entry in sample {
        let name = entry["name"].as_str().unwrap();
        assert!(names.contains(&name));
        assert_eq!(entry["id"].as_str().unwrap(), hyphenated(player_uuid(name)));
        assert!(!seen.contains(&name.to_string()));
        seen.push(name.to_string());
    }

    let three = server.sample_players(3);
    assert_eq!(three.len(), 3);
    let all = server.sample_players(100);
    assert_eq!(all.len(), 7);
}

#[test]
fn ping_is_echoed_and_the_phase_stays() {
    let mut server = server();
    let mut socket = PlayerSocket::new();
    socket.handle_packet(&mut server, handshake(1)).unwrap();
    let payload = vec![1, 2, 3, 4, 5, 6, 7, 8];
    assert_eq!(socket.handle_packet(&mut server, Packet::new(1, payload.clone())), Ok(()));
    assert_eq!(socket.handle_packet(&mut server, Packet::new(0, vec![])), Ok(()));
    assert_eq!(socket.handle_packet(&mut server, Packet::new(1, payload.clone())), Ok(()));
    assert_eq!(socket.state(), NetState::Status);
    let sent = drain(&mut socket);
    assert_eq!(sent.len(), 3);
    assert_eq!((sent[0].id, &sent[0].data), (1, &payload));
    assert_eq!(sent[1].id, 0);
    assert_eq!((sent[2].id, &sent[2].data), (1, &payload));
}

#[test]
fn unknown_id_in_status_is_unexpected() {
    let mut server = server();
    let mut socket = PlayerSocket::new();
    socket.handle_packet(&mut server, handshake(1)).unwrap();
    assert_eq!(
        socket.handle_packet(&mut server, Packet::new(2, vec![])),
        Err(ProtocolError::UnexpectedPacket)
    );
    assert_eq!(socket.pending(), 0);
    let lone = PlayerSocket::new();
    let mut lone = lone;
    assert_eq!(
        handle_status(&mut lone, &server, &Packet::new(-1, vec![])),
        Err(ProtocolError::UnexpectedPacket)
    );
}

#[test]
fn login_registers_the_player_and_opens_play_with_one_join_game() {
    let mut server = server();
    server.worlds[0].gamemode = Gamemode::Adventure;
    server.worlds[0].hardcore = true;
    server.worlds[0].dimension = Dimension::Nether;
    server.worlds[0].difficulty = Difficulty::Hard;
    server.worlds[0].level_type = LevelType::LargeBiomes;
    let mut socket = PlayerSocket::new();
    socket.handle_packet(&mut server, handshake(2)).unwrap();
    let login = Packet::new(0, encode_string("Notch"));
    assert_eq!(socket.handle_packet(&mut server, login), Ok(()));
    assert_eq!(socket.state(), NetState::Play);

    let uuid = player_uuid("Notch");
    assert_eq!(server.count_online(), 1);
    let player = server.lookup_player(uuid).unwrap();
    assert_eq!(player.username, "Notch");
    assert_eq!(player.uuid, uuid);
    assert_eq!(player.location, server.spawn_location);
    let entity_id = player.entity_id;

    let sent = drain(&mut socket);
    assert_eq!(sent.len(), 2);
    assert_eq!(sent[0].id, 2);
    let mut success = encode_string(&hyphenated(uuid));
    success.extend(encode_string("Notch"));
    assert_eq!(sent[0].data, success);

    assert_eq!(sent[1].id, 0x25);
    let mut join = entity_id.to_be_bytes().to_vec();
    join.push(2 | 0b100);
    join.extend_from_slice(&(-1i32).to_be_bytes());
    join.push(3);
    join.push(0);
    join.extend(encode_string("largeBiomes"));
    join.push(0);
    assert_eq!(sent[1].data, join);

    // Play drops whatever arrives and never registers again.
    for id in [0, 1, 2, 0x25, -7] {
        assert_eq!(socket.handle_packet(&mut server, Packet::new(id, encode_string("x"))), Ok(()));
    }
    assert_eq!(socket.state(), NetState::Play);
    assert_eq!(socket.pending(), 0);
    assert_eq!(server.count_online(), 1);
}

#[test]
fn the_same_username_gives_the_same_identifier() {
    let mut server = server();
    for _ in 0..2 {
        let mut socket = PlayerSocket::new();
        socket.handle_packet(&mut server, handshake(2)).unwrap();
        socket.handle_packet(&mut server, Packet::new(0, encode_string("Steve"))).unwrap();
    }
    assert_eq!(server.count_online(), 1);
    assert!(server.lookup_player(player_uuid("Steve")).is_some());
    assert!(server.lookup_player(player_uuid("Alex")).is_none());
}

#[test]
fn login_refuses_other_ids_and_bad_usernames() {
    let mut server = server();
    let mut socket = PlayerSocket::new();
    socket.handle_packet(&mut server, handshake(2)).unwrap();
    assert_eq!(
        socket.handle_packet(&mut server, Packet::new(1, encode_string("Notch"))),
        Err(ProtocolError::UnexpectedPacket)
    );
    assert_eq!(
        socket.handle_packet(&mut server, Packet::new(0, vec![3, b'a'])),
        Err(ProtocolError::FrameOverrun)
    );
    assert_eq!(
        socket.handle_packet(&mut server, Packet::new(0, vec![])),
        Err(ProtocolError::FrameOverrun)
    );
    assert_eq!(
        socket.handle_packet(&mut server, Packet::new(0, vec![1, 0xff])),
        Err(ProtocolError::InvalidUtf8)
    );
    assert_eq!(socket.state(), NetState::Login);
    assert_eq!(socket.pending(), 0);
    assert_eq!(server.count_online(), 0);
}

#[test]
fn login_without_a_spawn_world_changes_nothing() {
    let mut server = server();
    server.spawn_location.world = 1;
    let mut socket = PlayerSocket::new();
    socket.handle_packet(&mut server, handshake(2)).unwrap();
    assert_eq!(
        socket.handle_packet(&mut server, Packet::new(0, encode_string("Notch"))),
        Err(ProtocolError::WorldUnavailable)
    );
    assert_eq!(socket.state(), NetState::Login);
    assert_eq!(socket.pending(), 0);
    assert_eq!(server.count_online(), 0);
}

#[test]
fn handle_login_consumes_the_username_and_returns_the_identifier() {
    let mut server = server();
    let mut socket = PlayerSocket::new();
    let mut data = encode_string("Alex");
    data.push(0x77);
    let mut packet = Packet::new(0, data);
    assert_eq!(handle_login(&mut socket, &mut server, &mut packet), Ok(Some(player_uuid("Alex"))));
    assert_eq!(packet.data, vec![0x77]);
    assert_eq!(socket.pending(), 1);
    assert_eq!(socket.state(), NetState::Handshake);
}

#[test]
fn spawn_needs_the_player_and_the_world() {
    let mut server = server();
    let mut socket = PlayerSocket::new();
    assert_eq!(spawn(&mut socket, &server, 42), Err(ProtocolError::UnknownPlayer));
    server.register_player(42, "x".to_string(), 7);
    assert_eq!(spawn(&mut socket, &server, 42), Ok(()));
    let sent = drain(&mut socket);
    assert_eq!(sent.len(), 1);
    assert_eq!(sent[0].data[..5], [0, 0, 0, 7, 1]);
    server.worlds.clear();
    assert_eq!(spawn(&mut socket, &server, 42), Err(ProtocolError::WorldUnavailable));
    assert_eq!(socket.pending(), 0);
    assert_eq!(handle_play(&mut socket), Ok(()));
}

#[test]
fn create_player_stores_the_entity_id_it_drew() {
    let mut server = server();
    let entity_id = server.create_player(5, "five".to_string()).entity_id;
    let stored = server.lookup_player(5).unwrap();
    assert_eq!(stored.entity_id, entity_id);
    assert_eq!(stored.username, "five");
    assert_eq!(server.count_online(), 1);
}

#[test]
fn the_send_queue_is_first_in_first_out_and_retries_at_the_front() {
    let mut socket = PlayerSocket::new();
    socket.send_packet(1, vec![1]);
    socket.send_packet(2, vec![2]);
    socket.send_packet(3, vec![3]);
    let first = socket.next_outbound().unwrap();
    assert_eq!(first.id, 1);
    socket.retry_outbound(first);
    assert_eq!(socket.pending(), 3);
    let ids: Vec<i32> = drain(&mut socket).iter().map(|p| p.id).collect();
    assert_eq!(ids, vec![1, 2, 3]);
}

#[test]
fn login_disconnect_is_a_chat_text_on_id_zero() {
    let mut socket = PlayerSocket::new();
    assert_eq!(send_login_disconnect(&mut socket), Ok(()));
    let mut sent = drain(&mut socket);
    assert_eq!(sent[0].id, 0);
    assert_eq!(read_string(&mut sent[0].data).unwrap(), "{\"text\":\"Login failed\"}");
    assert_eq!(socket.send_string(9, "ok"), Ok(()));
    assert_eq!(drain(&mut socket)[0].data, vec![2, b'o', b'k']);
}

#[test]
fn only_insufficient_data_is_recoverable() {
    assert!(ProtocolError::InsufficientData.is_recoverable());
    for e in [
        ProtocolError::MalformedVarInt,
        ProtocolError::FrameLengthTooLong,
        ProtocolError::FrameOverrun,
        ProtocolError::InvalidBoolean,
        ProtocolError::InvalidUtf8,
        ProtocolError::UnexpectedPacket,
        ProtocolError::InvalidHandshakeState,
        ProtocolError::StringTooLong,
        ProtocolError::WorldUnavailable,
        ProtocolError::UnknownPlayer,
    ] {
        assert!(!e.is_recoverable());
    }
}

#[test]
fn failures_say_what_went_wrong() {
    assert_eq!(ProtocolError::InsufficientData.message(), "Byte buffer too short to parse data");
    assert_eq!(ProtocolError::MalformedVarInt.message(), "VarInt is too long");
    assert_eq!(ProtocolError::FrameLengthTooLong.message(), "Frame length is too long");
    assert_eq!(ProtocolError::FrameOverrun.message(), "Data longer than packet length");
    assert_eq!(ProtocolError::InvalidBoolean.message(), "Received invalid boolean value");
    assert_eq!(ProtocolError::InvalidUtf8.message(), "String contains malformed data");
    assert_eq!(ProtocolError::UnexpectedPacket.message(), "Unexpected packet id");
    assert_eq!(ProtocolError::InvalidHandshakeState.message(), "Invalid handshake state");
    assert_eq!(ProtocolError::StringTooLong.message(), "String too long to send");
    assert_eq!(ProtocolError::WorldUnavailable.message(), "Spawn world does not exist");
    assert_eq!(ProtocolError::UnknownPlayer.message(), "Player is not registered");
}

#[test]
fn protocol_numbers_of_the_world_metadata() {
    assert_eq!(Gamemode::Survival.id(), 0);
    assert_eq!(Gamemode::Spectator.id(), 3);
    assert_eq!(Dimension::Overworld.id(), 0);
    assert_eq!(Dimension::End.id(), 1);
    assert_eq!(Dimension::Nether.id(), -1);
    assert_eq!(Difficulty::Peaceful.id(), 0);
    assert_eq!(Difficulty::Hard.id(), 3);
    assert_eq!(LevelType::Default.to_string(), "default");
    assert_eq!(LevelType::Flat.to_string(), "flat");
    assert_eq!(LevelType::LargeBiomes.to_string(), "largeBiomes");
    assert_eq!(LevelType::Amplified.to_string(), "amplified");
    assert_eq!(LevelType::Default_1_1.to_string(), "default_1_1");
    let location = Location { x: 1, y: 2, z: 3, world: 0 };
    let vector = location.to_vector();
    assert_eq!((vector.x, vector.y, vector.z), (1, 2, 3));
}
