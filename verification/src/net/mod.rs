//! Packets, the framer that cuts a byte stream into packets and back, and
//! the per-connection protocol state.

use crate::error::{field, ProtocolError};
use crate::identity::spec_player_uuid;
use crate::net::codec::{read_string, read_ushort, read_varint};
use crate::net::framing::{frame_bytes, frame_encodable, frame_parse, FrameOutcome, PacketView};
use crate::net::login::{login_success_payload, player_registered};
use crate::net::play::{join_game_payload, JOIN_GAME};
use crate::net::status::status_step;
use crate::primitive::{
    drop_front, encode_str, fits_string, string_encodable, string_parse, string_wire,
    MCPacketCodec,
};
use crate::varint::{decode_varint32, encode_varint32, varint32_parse};
use crate::Obelisk;
use std::collections::VecDeque;
use vstd::prelude::*;

pub mod codec;
pub mod framing;
pub mod login;
pub mod packing;
pub mod play;
pub mod status;

verus! {

/// One protocol packet: an id and a payload.
pub struct Packet {
    pub id: i32,
    pub data: Vec<u8>,
}

impl View for Packet {
    type V = PacketView;

    open spec fn view(&self) -> PacketView {
        PacketView { id: self.id, data: self.data@ }
    }
}

impl Packet {
    /// A packet with the given id and payload.
    pub fn new(id: i32, data: Vec<u8>) -> (p: Packet)
        ensures
            p@ == (PacketView { id, data: data@ }),
    {
        Packet { id, data }
    }

    /// Whether the packet fits in a frame, so that the framer can encode it.
    pub fn fits_frame(&self) -> (fits: bool)
        ensures
            fits == frame_encodable(self@),
    {
        let id = encode_varint32(self.id);
        self.data.len() <= 0x7fff_ffff - id.len()
    }
}

/// The framer. It keeps no state of its own: all state is in the buffers it
/// is handed.
pub struct PacketCodec;

impl PacketCodec {
    /// A framer.
    pub fn new() -> PacketCodec {
        PacketCodec {  }
    }

    /// Takes one frame off the front of the receive buffer, if a whole frame
    /// is there.
    ///
    /// `Ok(None)` means that more bytes are needed. Unless a packet is
    /// returned the buffer is left as it was, so the call can be repeated
    /// once more bytes have arrived.
    pub fn decode(&mut self, src: &mut Vec<u8>) -> (r: Result<Option<Packet>, ProtocolError>)
        ensures
            match frame_parse(old(src)@) {
                FrameOutcome::Complete(p, n) => r matches Ok(Some(packet)) && packet@ == p && n
                    <= old(src)@.len() && final(src)@ == old(src)@.skip(n as int),
                FrameOutcome::NeedMore => r matches Ok(None) && final(src)@ == old(src)@,
                FrameOutcome::Failed(e) => r == Err::<Option<Packet>, ProtocolError>(e)
                    && final(src)@ == old(src)@,
            },
    {
        let ghost buf = src@;
        assert(buf.subrange(0, buf.len() as int) =~= buf);
        let (len, k) = match decode_varint32(src, 0, src.len()) {
            Ok(found) => found,
            Err(_) => {
                if src.len() < 5 {
                    return Ok(None);
                } else {
                    return Err(ProtocolError::FrameLengthTooLong);
                }
            },
        };
        if len < 0 {
            return Err(ProtocolError::FrameOverrun);
        }
        let len = len as usize;
        if src.len() - k < len {
            return Ok(None);
        }
        let ghost body = buf.subrange(k as int, k + len);
        let (id, n) = field(decode_varint32(src, k, k + len))?;
        drop_front(src, k + n);
        let mut rest = src.split_off(len - n);
        core::mem::swap(src, &mut rest);
        assert(rest@ =~= body.skip(n as int));
        assert(src@ =~= buf.skip(k + len));
        Ok(Some(Packet { id, data: rest }))
    }

    /// Appends the frame of `item` to the send buffer.
    pub fn encode(&mut self, item: Packet, dst: &mut Vec<u8>)
        requires
            frame_encodable(item@),
        ensures
            final(dst)@ == old(dst)@ + frame_bytes(item@),
    {
        let mut id = encode_varint32(item.id);
        let mut data = item.data;
        let length: usize = id.len() + data.len();
        let mut prefix = encode_varint32(length as i32);
        let ghost before = dst@;
        dst.append(&mut prefix);
        dst.append(&mut id);
        dst.append(&mut data);
        assert(dst@ =~= before + frame_bytes(item@));
    }
}

/// What queueing the string `text` on the id `id` does to the send queue:
/// one packet is added, unless the string is too long to be sent.
pub open spec fn string_queued(
    before: Seq<PacketView>,
    after: Seq<PacketView>,
    result: Result<(), ProtocolError>,
    id: i32,
    text: Seq<char>,
) -> bool {
    if string_encodable(text) {
        result is Ok && after == before.push(PacketView { id, data: string_wire(text) })
    } else {
        result == Err::<(), ProtocolError>(ProtocolError::StringTooLong) && after == before
    }
}

/// The protocol phase that a connection is in.
#[derive(Clone, Copy, Debug, PartialEq, Eq, Structural)]
pub enum NetState {
    Handshake,
    Status,
    Login,
    Play,
}

/// The fields of a handshake.
pub struct HandshakeView {
    pub protocol_version: i32,
    pub server_address: Seq<char>,
    pub server_port: u16,
    pub next_state: i32,
}

/// The fields that a handshake payload holds: the protocol version, the
/// server address, the server port and the requested next state, in that
/// order. What follows them is ignored. A payload that ends inside a field
/// overruns its frame; a field that is malformed fails as its decoding does.
pub open spec fn handshake_parse(payload: Seq<u8>) -> Result<HandshakeView, ProtocolError> {
    match varint32_parse(payload) {
        (Err(e), _) => Err(e.in_packet()),
        (Ok(protocol_version), a) => match string_parse(payload.skip(a as int)) {
            (Err(e), _) => Err(e.in_packet()),
            (Ok(server_address), b) => match <u16 as MCPacketCodec>::parse(
                payload.skip(a as int).skip(b as int),
            ) {
                (Err(e), _) => Err(e.in_packet()),
                (Ok(server_port), c) => match varint32_parse(
                    payload.skip(a as int).skip(b as int).skip(c as int),
                ) {
                    (Err(e), _) => Err(e.in_packet()),
                    (Ok(next_state), _) => Ok(
                        HandshakeView {
                            protocol_version,
                            server_address,
                            server_port,
                            next_state,
                        },
                    ),
                },
            },
        },
    }
}

/// The phase that a handshake asks for: 1 is status, 2 is login, and
/// nothing else is valid.
pub open spec fn handshake_target(next_state: i32) -> Result<NetState, ProtocolError> {
    if next_state == 1 {
        Ok(NetState::Status)
    } else if next_state == 2 {
        Ok(NetState::Login)
    } else {
        Err(ProtocolError::InvalidHandshakeState)
    }
}

/// The phase that follows a packet received in the handshake phase, or why
/// the packet is refused. Only id 0 is a handshake.
pub open spec fn handshake_outcome(packet: PacketView) -> Result<NetState, ProtocolError> {
    if packet.id != 0 {
        Err(ProtocolError::UnexpectedPacket)
    } else {
        match handshake_parse(packet.data) {
            Err(e) => Err(e),
            Ok(fields) => handshake_target(fields.next_state),
        }
    }
}

/// What a packet does to the phase, received in the handshake phase: a
/// handshake moves the connection to the phase it asks for, and a packet that
/// is refused leaves the phase as it is.
pub open spec fn handshake_step(
    before: NetState,
    after: NetState,
    packet: PacketView,
    result: Result<(), ProtocolError>,
) -> bool {
    match handshake_outcome(packet) {
        Ok(state) => result is Ok && after == state,
        Err(e) => result == Err::<(), ProtocolError>(e) && after == before,
    }
}

/// What a login packet does, received in the login phase.
///
/// Id 0 carries the username. Provided the spawn world exists and the
/// username can be decoded, the player is registered, the connection enters
/// the play phase, and the confirmation of the login and then the join-game
/// packet are queued. Otherwise the packet is refused and nothing changes; a
/// username that runs out of bytes overruns its frame.
pub open spec fn login_step(
    before: PlayerSocket,
    after: PlayerSocket,
    server_before: Obelisk,
    server_after: Obelisk,
    packet: PacketView,
    result: Result<(), ProtocolError>,
) -> bool {
    let unchanged = after.queue() == before.queue() && after.spec_state() == before.spec_state()
        && server_after == server_before;
    if packet.id != 0 {
        result == Err::<(), ProtocolError>(ProtocolError::UnexpectedPacket) && unchanged
    } else {
        match server_before.spec_spawn_world() {
            None => result == Err::<(), ProtocolError>(ProtocolError::WorldUnavailable)
                && unchanged,
            Some(world) => match string_parse(packet.data).0 {
                Err(e) => result == Err::<(), ProtocolError>(e.in_packet()) && unchanged,
                Ok(username) => {
                    let uuid = spec_player_uuid(username);
                    &&& result is Ok
                    &&& after.spec_state() == NetState::Play
                    &&& player_registered(server_before, server_after, uuid, username)
                    &&& after.queue() == before.queue().push(
                        PacketView { id: 2, data: login_success_payload(uuid, username) },
                    ).push(
                        PacketView {
                            id: JOIN_GAME,
                            data: join_game_payload(server_after.players@[uuid].entity_id, world),
                        },
                    )
                },
            },
        }
    }
}

/// The protocol side of one connection: its phase and the packets waiting to
/// be sent, oldest first.
pub struct PlayerSocket {
    state: NetState,
    output: VecDeque<Packet>,
}

impl PlayerSocket {
    /// The phase that the connection is in.
    pub closed spec fn spec_state(&self) -> NetState {
        self.state
    }

    /// The packets waiting to be sent, oldest first.
    pub closed spec fn queue(&self) -> Seq<PacketView> {
        self.output@.map_values(|p: Packet| p@)
    }

    /// A connection that has just been accepted: in the handshake phase, with
    /// nothing to send.
    pub fn new() -> (socket: PlayerSocket)
        ensures
            socket.spec_state() == NetState::Handshake,
            socket.queue() == Seq::<PacketView>::empty(),
    {
        let socket = PlayerSocket { state: NetState::Handshake, output: VecDeque::new() };
        assert(socket.queue() =~= Seq::<PacketView>::empty());
        socket
    }

    /// The phase that the connection is in.
    pub fn state(&self) -> (state: NetState)
        ensures
            state == self.spec_state(),
    {
        self.state
    }

    /// The number of packets waiting to be sent.
    pub fn pending(&self) -> (n: usize)
        ensures
            n == self.queue().len(),
    {
        self.output.len()
    }

    /// Reads a handshake and moves to the phase it asks for. A packet that
    /// is refused leaves the phase as it is.
    fn read_handshake(&mut self, packet: Packet) -> (r: Result<(), ProtocolError>)
        ensures
            handshake_step(old(self).spec_state(), final(self).spec_state(), packet@, r),
            final(self).queue() == old(self).queue(),
    {
        if packet.id != 0 {
            return Err(ProtocolError::UnexpectedPacket);
        }
        let mut data = packet.data;
        let _version = field(read_varint(&mut data))?;
        let _address = field(read_string(&mut data))?;
        let _port = field(read_ushort(&mut data))?;
        let state = field(read_varint(&mut data))?;

        if state == 1 {
            self.state = NetState::Status;
        } else if state == 2 {
            self.state = NetState::Login;
        } else {
            return Err(ProtocolError::InvalidHandshakeState);
        }

        Ok(())
    }

    /// Handles one received packet according to the phase of the connection.
    ///
    /// In the handshake phase the packet must be a handshake, which decides
    /// the next phase. In the status phase requests are answered and the
    /// phase stays. In the login phase a login registers the player and
    /// opens the play phase. In the play phase every packet is dropped.
    /// Whenever the packet is refused, the connection and the shared state
    /// are left as they were. No refusal is a call for more data: a packet
    /// is whole when it gets here.
    pub fn handle_packet(&mut self, server: &mut Obelisk, packet: Packet) -> (r: Result<
        (),
        ProtocolError,
    >)
        ensures
            r != Err::<(), ProtocolError>(ProtocolError::InsufficientData),
            match old(self).spec_state() {
                NetState::Handshake => {
                    &&& handshake_step(NetState::Handshake, final(self).spec_state(), packet@, r)
                    &&& final(self).queue() == old(self).queue()
                    &&& *final(server) == *old(server)
                },
                NetState::Status => {
                    &&& status_step(
                        old(self).queue(),
                        final(self).queue(),
                        *old(server),
                        packet@,
                        r,
                    )
                    &&& final(self).spec_state() == NetState::Status
                    &&& *final(server) == *old(server)
                },
                NetState::Login => login_step(
                    *old(self),
                    *final(self),
                    *old(server),
                    *final(server),
                    packet@,
                    r,
                ),
                NetState::Play => {
                    &&& r is Ok
                    &&& final(self).queue() == old(self).queue()
                    &&& final(self).spec_state() == NetState::Play
                    &&& *final(server) == *old(server)
                },
            },
    {
        match self.state {
            NetState::Handshake => self.read_handshake(packet),
            NetState::Status => status::handle_status(self, server, &packet),
            NetState::Login => {
                let mut packet = packet;
                if packet.id == 0 && server.spawn_world().is_none() {
                    return Err(ProtocolError::WorldUnavailable);
                }
                match login::handle_login(self, server, &mut packet)? {
                    Some(uuid) => {
                        self.state = NetState::Play;
                        play::spawn(self, server, uuid)
                    },
                    None => Ok(()),
                }
            },
            NetState::Play => play::handle_play(self),
        }
    }

    /// Puts a packet at the end of the send queue.
    pub fn send_packet(&mut self, id: i32, data: Vec<u8>)
        ensures
            final(self).queue() == old(self).queue().push(PacketView { id, data: data@ }),
            final(self).spec_state() == old(self).spec_state(),
    {
        self.output.push_back(Packet::new(id, data));
        assert(self.queue() =~= old(self).queue().push(PacketView { id, data: data@ }));
    }

    /// Puts a packet whose payload is the string `text` at the end of the
    /// send queue, unless the string is too long to be sent.
    pub fn send_string(&mut self, id: i32, text: &str) -> (r: Result<(), ProtocolError>)
        ensures
            string_queued(old(self).queue(), final(self).queue(), r, id, text@),
            final(self).spec_state() == old(self).spec_state(),
    {
        if !fits_string(text) {
            return Err(ProtocolError::StringTooLong);
        }
        self.send_packet(id, encode_str(text));
        Ok(())
    }

    /// Takes the oldest waiting packet off the send queue.
    pub fn next_outbound(&mut self) -> (r: Option<Packet>)
        ensures
            match r {
                Some(packet) => old(self).queue().len() > 0 && packet@ == old(self).queue()[0]
                    && final(self).queue() == old(self).queue().drop_first(),
                None => old(self).queue().len() == 0 && final(self).queue() == old(self).queue(),
            },
            final(self).spec_state() == old(self).spec_state(),
    {
        let r = self.output.pop_front();
        proof {
            if r is Some {
                assert(self.queue() =~= old(self).queue().drop_first());
            }
        }
        r
    }

    /// Puts a packet that could not be written back at the front of the send
    /// queue, so that it is sent before any later packet.
    pub fn retry_outbound(&mut self, packet: Packet)
        ensures
            final(self).queue() == seq![packet@] + old(self).queue(),
            final(self).spec_state() == old(self).spec_state(),
    {
        self.output.push_front(packet);
        assert(self.queue() =~= seq![packet@] + old(self).queue());
    }
}

} // verus!
