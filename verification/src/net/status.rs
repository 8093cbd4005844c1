//! The status phase: the status document and the ping echo.

use crate::error::ProtocolError;
use crate::identity::{hyphenated_text, uuid_hyphenated};
use crate::json::{decimal_text, json_number, json_string, json_string_text};
use crate::net::framing::PacketView;
use crate::net::{string_queued, Packet, PlayerSocket};
use crate::{is_sample, Obelisk, PROTOCOL, VERSION};
use vstd::prelude::*;
use vstd::string::StringExecFns;

verus! {

/// The description that the server reports of itself.
pub const DESCRIPTION: &'static str = "Hello world";

/// How many players the status document names at most.
pub const SAMPLE_SIZE: usize = 5;

/// The JSON text of one sampled player.
pub open spec fn sample_text(name: Seq<char>, id: u128) -> Seq<char> {
    "{\"id\":"@ + json_string_text(hyphenated_text(id)) + ",\"name\":"@ + json_string_text(name)
        + "}"@
}

/// The JSON texts of the sampled players, with commas between.
pub open spec fn samples_text(sample: Seq<(String, u128)>) -> Seq<char>
    decreases sample.len(),
{
    if sample.len() == 0 {
        Seq::empty()
    } else if sample.len() == 1 {
        sample_text(sample[0].0@, sample[0].1)
    } else {
        samples_text(sample.drop_last()) + ","@ + sample_text(sample.last().0@, sample.last().1)
    }
}

/// The status document: the description, the player limit, the number of
/// players online with a sample of them, and the version with its protocol
/// number. Object keys stand in alphabetical order.
pub open spec fn status_text(max_players: u32, online: nat, sample: Seq<(String, u128)>) -> Seq<
    char,
> {
    "{\"description\":{\"text\":"@ + json_string_text(DESCRIPTION@) + "},\"players\":{\"max\":"@
        + decimal_text(max_players as nat) + ",\"online\":"@ + decimal_text(online)
        + ",\"sample\":["@ + samples_text(sample) + "]},\"version\":{\"name\":"@
        + json_string_text(VERSION@) + ",\"protocol\":"@ + decimal_text(PROTOCOL as nat) + "}}"@
}

/// The text of the status document for the given numbers and sample.
pub fn status_document(max_players: u32, online: usize, sample: &Vec<(String, u128)>) -> (text:
    String)
    ensures
        text@ == status_text(max_players, online as nat, sample@),
{
    let mut text = String::from_str("{\"description\":{\"text\":");
    text.append(json_string(DESCRIPTION).as_str());
    text.append("},\"players\":{\"max\":");
    text.append(json_number(max_players as u64).as_str());
    text.append(",\"online\":");
    text.append(json_number(online as u64).as_str());
    text.append(",\"sample\":[");
    let ghost head = text@;
    let mut i: usize = 0;
    assert(sample@.take(0) =~= Seq::<(String, u128)>::empty());
    while i < sample.len()
        invariant
            i <= sample.len(),
            text@ == head + samples_text(sample@.take(i as int)),
        decreases sample.len() - i,
    {
        if i > 0 {
            text.append(",");
        }
        text.append("{\"id\":");
        text.append(json_string(uuid_hyphenated(sample[i].1).as_str()).as_str());
        text.append(",\"name\":");
        text.append(json_string(sample[i].0.as_str()).as_str());
        text.append("}");
        proof {
            let next = sample@.take(i + 1);
            assert(next.drop_last() =~= sample@.take(i as int));
            assert(next.last() == sample@[i as int]);
            assert(text@ =~= head + samples_text(next));
        }
        i += 1;
    }
    assert(sample@.take(sample.len() as int) =~= sample@);
    text.append("]},\"version\":{\"name\":");
    text.append(json_string(VERSION).as_str());
    text.append(",\"protocol\":");
    text.append(json_number(PROTOCOL as u64).as_str());
    text.append("}}");
    assert(text@ =~= status_text(max_players, online as nat, sample@));
    text
}

/// Answers a status request with the document for the given numbers and
/// sample: the document is queued on id 0 as a string.
pub fn answer_status(
    socket: &mut PlayerSocket,
    max_players: u32,
    online: usize,
    sample: &Vec<(String, u128)>,
) -> (r: Result<(), ProtocolError>)
    ensures
        string_queued(
            old(socket).queue(),
            final(socket).queue(),
            r,
            0,
            status_text(max_players, online as nat, sample@),
        ),
        final(socket).spec_state() == old(socket).spec_state(),
{
    let text = status_document(max_players, online, sample);
    socket.send_string(0x0, text.as_str())
}

/// What a status request does: the document names the player limit, the
/// number of registered players and up to five of them.
pub open spec fn status_sent(
    before: Seq<PacketView>,
    after: Seq<PacketView>,
    result: Result<(), ProtocolError>,
    server: Obelisk,
) -> bool {
    exists|sample: Seq<(String, u128)>|
        is_sample(server.players@, sample, SAMPLE_SIZE as nat) && #[trigger] string_queued(
            before,
            after,
            result,
            0,
            status_text(server.max_players, server.players@.dom().len(), sample),
        )
}

/// What a packet does, received in the status phase: id 0 is answered with
/// the status document, id 1 with an echo of its payload, and any other id
/// is refused.
pub open spec fn status_step(
    before: Seq<PacketView>,
    after: Seq<PacketView>,
    server: Obelisk,
    packet: PacketView,
    result: Result<(), ProtocolError>,
) -> bool {
    if packet.id == 0 {
        status_sent(before, after, result, server)
    } else if packet.id == 1 {
        result is Ok && after == before.push(PacketView { id: 1, data: packet.data })
    } else {
        result == Err::<(), ProtocolError>(ProtocolError::UnexpectedPacket) && after == before
    }
}

fn send_status(socket: &mut PlayerSocket, server: &Obelisk) -> (r: Result<(), ProtocolError>)
    ensures
        status_sent(old(socket).queue(), final(socket).queue(), r, *server),
        final(socket).spec_state() == old(socket).spec_state(),
{
    let sample = server.sample_players(SAMPLE_SIZE);
    let online = server.count_online();
    let r = answer_status(socket, server.max_players, online, &sample);
    proof {
        assert(string_queued(
            old(socket).queue(),
            socket.queue(),
            r,
            0,
            status_text(server.max_players, server.players@.dom().len(), sample@),
        ));
    }
    r
}

fn send_ping(socket: &mut PlayerSocket, packet: &Packet)
    ensures
        final(socket).queue() == old(socket).queue().push(
            PacketView { id: 1, data: packet@.data },
        ),
        final(socket).spec_state() == old(socket).spec_state(),
{
    let payload = packet.data.clone();
    socket.send_packet(0x1, payload);
}

/// Handles a packet in the status phase: id 0 is answered with the status
/// document, id 1 with an echo of its payload; any other id is refused.
pub fn handle_status(socket: &mut PlayerSocket, server: &Obelisk, packet: &Packet) -> (r: Result<
    (),
    ProtocolError,
>)
    ensures
        status_step(old(socket).queue(), final(socket).queue(), *server, packet@, r),
        final(socket).spec_state() == old(socket).spec_state(),
{
    if packet.id == 0 {
        send_status(socket, server)
    } else if packet.id == 1 {
        send_ping(socket, packet);
        Ok(())
    } else {
        Err(ProtocolError::UnexpectedPacket)
    }
}

} // verus!
