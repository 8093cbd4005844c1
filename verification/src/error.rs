use vstd::prelude::*;

verus! {

/// Everything that can go wrong while decoding bytes or handling a packet.
///
/// `InsufficientData` is the only recoverable condition: the input seen so
/// far is a proper prefix of something valid, and more bytes may complete it.
/// Every other variant is fatal for the connection it occurred on.
#[derive(Clone, Copy, Debug, PartialEq, Eq, Structural)]
pub enum ProtocolError {
    /// Fewer bytes remain than the value being decoded needs.
    InsufficientData,
    /// A variable-length integer ran past its maximum width without a
    /// terminating byte.
    MalformedVarInt,
    /// Five bytes of a frame length prefix were scanned without a terminator.
    FrameLengthTooLong,
    /// The content of a frame does not fit inside its declared length.
    FrameOverrun,
    /// A boolean byte was neither 0 nor 1.
    InvalidBoolean,
    /// String bytes were not valid UTF-8.
    InvalidUtf8,
    /// The packet id is not legal in the current protocol state.
    UnexpectedPacket,
    /// A handshake asked for a next state other than status or login.
    InvalidHandshakeState,
    /// A string to be sent is longer than its length prefix can say.
    StringTooLong,
    /// The spawn location names a world that no longer exists.
    WorldUnavailable,
    /// No player with the given identifier is registered.
    UnknownPlayer,
}

impl ProtocolError {
    /// True for the one condition that more input can cure.
    pub open spec fn recoverable(self) -> bool {
        self == ProtocolError::InsufficientData
    }

    /// The failure of a packet whose field failed to decode with `self`.
    ///
    /// A packet is a whole frame, so a field that runs out of bytes will
    /// never be completed: the content of the frame overruns its declared
    /// length. Every other failure stands as it is.
    pub open spec fn in_packet(self) -> ProtocolError {
        if self == ProtocolError::InsufficientData {
            ProtocolError::FrameOverrun
        } else {
            self
        }
    }

    /// What the failure says of itself.
    pub open spec fn spec_message(self) -> Seq<char> {
        match self {
            ProtocolError::InsufficientData => "Byte buffer too short to parse data"@,
            ProtocolError::MalformedVarInt => "VarInt is too long"@,
            ProtocolError::FrameLengthTooLong => "Frame length is too long"@,
            ProtocolError::FrameOverrun => "Data longer than packet length"@,
            ProtocolError::InvalidBoolean => "Received invalid boolean value"@,
            ProtocolError::InvalidUtf8 => "String contains malformed data"@,
            ProtocolError::UnexpectedPacket => "Unexpected packet id"@,
            ProtocolError::InvalidHandshakeState => "Invalid handshake state"@,
            ProtocolError::StringTooLong => "String too long to send"@,
            ProtocolError::WorldUnavailable => "Spawn world does not exist"@,
            ProtocolError::UnknownPlayer => "Player is not registered"@,
        }
    }

    /// What the failure says of itself.
    pub fn message(&self) -> (s: &'static str)
        ensures
            s@ == self.spec_message(),
    {
        match self {
            ProtocolError::InsufficientData => "Byte buffer too short to parse data",
            ProtocolError::MalformedVarInt => "VarInt is too long",
            ProtocolError::FrameLengthTooLong => "Frame length is too long",
            ProtocolError::FrameOverrun => "Data longer than packet length",
            ProtocolError::InvalidBoolean => "Received invalid boolean value",
            ProtocolError::InvalidUtf8 => "String contains malformed data",
            ProtocolError::UnexpectedPacket => "Unexpected packet id",
            ProtocolError::InvalidHandshakeState => "Invalid handshake state",
            ProtocolError::StringTooLong => "String too long to send",
            ProtocolError::WorldUnavailable => "Spawn world does not exist",
            ProtocolError::UnknownPlayer => "Player is not registered",
        }
    }

    /// Whether the caller may retry after more bytes have arrived.
    pub fn is_recoverable(&self) -> (r: bool)
        ensures
            r == self.recoverable(),
    {
        match self {
            ProtocolError::InsufficientData => true,
            _ => false,
        }
    }
}

/// Passes on a field decoded from a packet, with its failure as the failure
/// of the packet.
pub fn field<T>(r: Result<T, ProtocolError>) -> (out: Result<T, ProtocolError>)
    ensures
        match r {
            Ok(v) => out == Ok::<T, ProtocolError>(v),
            Err(e) => out == Err::<T, ProtocolError>(e.in_packet()),
        },
{
    match r {
        Ok(v) => Ok(v),
        Err(ProtocolError::InsufficientData) => Err(ProtocolError::FrameOverrun),
        Err(e) => Err(e),
    }
}

} // verus!
