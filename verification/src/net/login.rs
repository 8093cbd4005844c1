//! The login phase: the username comes in, the player is registered under
//! the identifier derived from it, and the login is confirmed.

use crate::entities::player::PlayerView;
use crate::error::{field, ProtocolError};
use crate::identity::{
    hyphenated_text, lemma_hyphenated_is_ascii, player_uuid, spec_player_uuid, uuid_hyphenated,
};
use crate::json::{json_string, json_string_text};
use crate::net::codec::{encode_string, read_string};
use crate::net::framing::PacketView;
use crate::net::{string_queued, Packet, PlayerSocket};
use crate::primitive::{lemma_parsed_string_encodable, string_encodable, string_parse, string_wire};
use crate::Obelisk;
use vstd::prelude::*;
use vstd::string::StringExecFns;

verus! {

/// The payload that confirms a login: the identifier in hyphenated form and
/// the username, each as a string.
pub open spec fn login_success_payload(uuid: u128, username: Seq<char>) -> Seq<u8> {
    string_wire(hyphenated_text(uuid)) + string_wire(username)
}

/// What a successful login does to the shared state: one player is
/// registered under `uuid`, with the username, at the spawn location, and
/// nothing else changes.
pub open spec fn player_registered(
    before: Obelisk,
    after: Obelisk,
    uuid: u128,
    username: Seq<char>,
) -> bool {
    &&& after.players@.contains_key(uuid)
    &&& after.players@ == before.players@.insert(uuid, after.players@[uuid])
    &&& after.players@[uuid]@ == (PlayerView {
        uuid,
        username,
        entity_id: after.players@[uuid].entity_id,
        location: before.spawn_location,
    })
    &&& after.max_players == before.max_players
    &&& after.worlds == before.worlds
    &&& after.spawn_location == before.spawn_location
}

/// A registration leaves every player under its own identifier.
pub proof fn lemma_registration_keeps_well_formed(
    before: Obelisk,
    after: Obelisk,
    uuid: u128,
    username: Seq<char>,
)
    requires
        before.well_formed(),
        player_registered(before, after, uuid, username),
    ensures
        after.well_formed(),
{
    assert forall|k: u128| #[trigger] after.players@.contains_key(k) implies after.players@[k].uuid
        == k by {
        if k != uuid {
            assert(before.players@.contains_key(k));
        }
    }
}

/// Handles a packet in the login phase.
///
/// Id 0 carries the username. The player is registered under the identifier
/// derived from the username, the login is confirmed on outbound id 2, and
/// the identifier is returned. Where the username cannot be decoded nothing
/// is registered or sent; a username that runs out of bytes overruns its
/// frame. Any other id is refused.
pub fn handle_login(socket: &mut PlayerSocket, server: &mut Obelisk, packet: &mut Packet) -> (r:
    Result<Option<u128>, ProtocolError>)
    ensures
        final(socket).spec_state() == old(socket).spec_state(),
        final(packet)@.id == old(packet)@.id,
        old(packet)@.id != 0 ==> {
            &&& r == Err::<Option<u128>, ProtocolError>(ProtocolError::UnexpectedPacket)
            &&& final(packet)@ == old(packet)@
            &&& final(socket).queue() == old(socket).queue()
            &&& *final(server) == *old(server)
        },
        old(packet)@.id == 0 ==> {
            &&& final(packet)@.data == old(packet)@.data.skip(
                string_parse(old(packet)@.data).1 as int,
            )
            &&& match string_parse(old(packet)@.data).0 {
                Ok(username) => {
                    let uuid = spec_player_uuid(username);
                    &&& r == Ok::<Option<u128>, ProtocolError>(Some(uuid))
                    &&& player_registered(*old(server), *final(server), uuid, username)
                    &&& final(socket).queue() == old(socket).queue().push(
                        PacketView { id: 2, data: login_success_payload(uuid, username) },
                    )
                },
                Err(e) => {
                    &&& r == Err::<Option<u128>, ProtocolError>(e.in_packet())
                    &&& final(socket).queue() == old(socket).queue()
                    &&& *final(server) == *old(server)
                },
            }
        },
{
    if packet.id == 0 {
        let username = field(read_login_start(packet))?;
        let uuid = player_uuid(username.as_str());
        proof {
            lemma_parsed_string_encodable(old(packet)@.data);
        }
        server.create_player(uuid, username.clone());
        send_login_success(socket, uuid, username.as_str());
        Ok(Some(uuid))
    } else {
        Err(ProtocolError::UnexpectedPacket)
    }
}

fn read_login_start(packet: &mut Packet) -> (r: Result<String, ProtocolError>)
    ensures
        match r {
            Ok(s) => string_parse(old(packet)@.data).0 == Ok::<Seq<char>, ProtocolError>(s@),
            Err(e) => string_parse(old(packet)@.data).0 == Err::<Seq<char>, ProtocolError>(e),
        },
        final(packet)@.id == old(packet)@.id,
        final(packet)@.data == old(packet)@.data.skip(string_parse(old(packet)@.data).1 as int),
{
    read_string(&mut packet.data)
}

fn send_login_success(socket: &mut PlayerSocket, uuid: u128, username: &str)
    requires
        string_encodable(username@),
    ensures
        final(socket).queue() == old(socket).queue().push(
            PacketView { id: 2, data: login_success_payload(uuid, username@) },
        ),
        final(socket).spec_state() == old(socket).spec_state(),
{
    proof {
        lemma_hyphenated_is_ascii(uuid);
    }
    let mut data: Vec<u8> = Vec::new();
    data.append(&mut encode_string(uuid_hyphenated(uuid).as_str()));
    data.append(&mut encode_string(username));
    assert(data@ =~= login_success_payload(uuid, username@));
    socket.send_packet(0x2, data)
}

/// The chat text that tells the client that its login has failed.
pub open spec fn login_failed_text() -> Seq<char> {
    "{\"text\":"@ + json_string_text("Login failed"@) + "}"@
}

/// Tells the client that its login has failed, on outbound id 0.
pub fn send_login_disconnect(socket: &mut PlayerSocket) -> (r: Result<(), ProtocolError>)
    ensures
        string_queued(old(socket).queue(), final(socket).queue(), r, 0, login_failed_text()),
        final(socket).spec_state() == old(socket).spec_state(),
{
    let mut chat = String::from_str("{\"text\":");
    chat.append(json_string("Login failed").as_str());
    chat.append("}");
    assert(chat@ =~= login_failed_text());
    socket.send_string(0x0, chat.as_str())
}

} // verus!
