//! The play phase: the join-game packet that opens it.

use crate::error::ProtocolError;
use crate::net::codec::{encode_bool, encode_int, encode_string, encode_ubyte};
use crate::net::framing::PacketView;
use crate::net::PlayerSocket;
use crate::primitive::{string_encodable, string_wire};
use crate::wire::{be_bytes, pattern_of};
use crate::world::{LevelType, World};
use crate::Obelisk;
use vstd::prelude::*;
use vstd::utf8::{is_ascii_chars, is_ascii_chars_encode_utf8};

verus! {

/// The id of the join-game packet.
pub const JOIN_GAME: i32 = 0x25;

/// The game mode byte of a world: the number of its game mode, with the
/// third bit set for a hardcore world.
pub open spec fn gamemode_byte(world: World) -> nat {
    if world.hardcore {
        (world.gamemode.spec_id() + 4) as nat
    } else {
        world.gamemode.spec_id() as nat
    }
}

/// The payload of the join-game packet: the entity id, the game mode byte,
/// the dimension, the difficulty, a player limit that clients ignore, the
/// level type, and the reduced-debug-info flag, which is off.
pub open spec fn join_game_payload(entity_id: i32, world: World) -> Seq<u8> {
    be_bytes(pattern_of(entity_id as int, 0x1_0000_0000), 4) + be_bytes(gamemode_byte(world), 1)
        + be_bytes(pattern_of(world.dimension.spec_id() as int, 0x1_0000_0000), 4) + be_bytes(
        world.difficulty.spec_id() as nat,
        1,
    ) + be_bytes(0, 1) + string_wire(world.level_type.name()) + seq![0u8]
}

/// The names of the level types are short enough to be sent.
pub proof fn lemma_level_name_encodable(level_type: LevelType)
    ensures
        string_encodable(level_type.name()),
{
    reveal_strlit("default");
    reveal_strlit("flat");
    reveal_strlit("largeBiomes");
    reveal_strlit("amplified");
    reveal_strlit("default_1_1");
    let name = level_type.name();
    assert(name.len() <= 11);
    assert(is_ascii_chars(name));
    is_ascii_chars_encode_utf8(name);
}

/// Handles a packet in the play phase. No packet of this phase is
/// recognised yet: each is dropped, and none is an error.
pub fn handle_play(socket: &mut PlayerSocket) -> (r: Result<(), ProtocolError>)
    ensures
        r is Ok,
        final(socket).queue() == old(socket).queue(),
        final(socket).spec_state() == old(socket).spec_state(),
{
    Ok(())
}

/// What entering the play phase does for the player `uuid`: the join-game
/// packet for that player and the spawn world is queued. It fails, and
/// nothing is queued, where no such player is registered or the spawn world
/// no longer exists.
pub open spec fn spawned(
    before: Seq<PacketView>,
    after: Seq<PacketView>,
    result: Result<(), ProtocolError>,
    server: Obelisk,
    uuid: u128,
) -> bool {
    if !server.players@.contains_key(uuid) {
        result == Err::<(), ProtocolError>(ProtocolError::UnknownPlayer) && after == before
    } else {
        match server.spec_spawn_world() {
            None => result == Err::<(), ProtocolError>(ProtocolError::WorldUnavailable) && after
                == before,
            Some(world) => result is Ok && after == before.push(
                PacketView {
                    id: JOIN_GAME,
                    data: join_game_payload(server.players@[uuid].entity_id, world),
                },
            ),
        }
    }
}

/// Opens the play phase for the player `uuid`.
pub fn spawn(socket: &mut PlayerSocket, server: &Obelisk, uuid: u128) -> (r: Result<
    (),
    ProtocolError,
>)
    ensures
        spawned(old(socket).queue(), final(socket).queue(), r, *server, uuid),
        final(socket).spec_state() == old(socket).spec_state(),
{
    send_join_game(socket, server, uuid)
}

fn send_join_game(socket: &mut PlayerSocket, server: &Obelisk, uuid: u128) -> (r: Result<
    (),
    ProtocolError,
>)
    ensures
        spawned(old(socket).queue(), final(socket).queue(), r, *server, uuid),
        final(socket).spec_state() == old(socket).spec_state(),
{
    let mut data: Vec<u8> = Vec::new();
    let player = match server.lookup_player(uuid) {
        Some(player) => player,
        None => {
            return Err(ProtocolError::UnknownPlayer);
        },
    };
    let spawn_world = match server.spawn_world() {
        Some(world) => world,
        None => {
            return Err(ProtocolError::WorldUnavailable);
        },
    };
    data.append(&mut encode_int(player.entity_id));

    let mut gamemode: u8 = spawn_world.gamemode.id();
    if spawn_world.hardcore {
        assert(gamemode < 4 ==> (gamemode | 0b100) == gamemode + 4) by (bit_vector);
        gamemode = gamemode | 0b100;
    }
    proof {
        lemma_level_name_encodable(spawn_world.level_type);
    }
    data.append(&mut encode_ubyte(gamemode));
    data.append(&mut encode_int(spawn_world.dimension.id()));
    data.append(&mut encode_ubyte(spawn_world.difficulty.id()));
    data.append(&mut encode_ubyte(0));
    data.append(&mut encode_string(spawn_world.level_type.to_string()));
    data.append(&mut encode_bool(false));
    assert(data@ =~= join_game_payload(player.entity_id, *spawn_world));

    socket.send_packet(JOIN_GAME, data);
    Ok(())
}

} // verus!
