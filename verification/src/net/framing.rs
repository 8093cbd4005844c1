//! The model of the wire frame: a variable-length integer giving the length
//! of the body, then the body, which is the packet id as a variable-length
//! integer followed by the payload.

use crate::error::ProtocolError;
use crate::varint::{
    lemma_digits_len_words, lemma_digits_prefix_incomplete, lemma_varint32_round_trip,
    varint32_parse, varint32_wire, word32,
};
use crate::wire::pattern_of;
use vstd::prelude::*;

verus! {

/// What a packet is: its id and its payload.
pub struct PacketView {
    pub id: i32,
    pub data: Seq<u8>,
}

/// What the framer makes of a receive buffer.
pub enum FrameOutcome {
    /// A whole frame stands at the front: the packet it holds, and the number
    /// of bytes the frame takes.
    Complete(PacketView, nat),
    /// The buffer is a proper prefix of a frame.
    NeedMore,
    /// The buffer cannot be the start of a frame.
    Failed(ProtocolError),
}

/// The packets that fit in a frame: id and payload together stay within the
/// signed 32-bit length.
pub open spec fn frame_encodable(p: PacketView) -> bool {
    varint32_wire(p.id).len() + p.data.len() <= i32::MAX
}

/// The body of the frame of `p`: its id, then its payload.
pub open spec fn frame_body(p: PacketView) -> Seq<u8> {
    varint32_wire(p.id) + p.data
}

/// The frame of `p`.
pub open spec fn frame_bytes(p: PacketView) -> Seq<u8> {
    varint32_wire(frame_body(p).len() as i32) + frame_body(p)
}

/// What stands in a body of the declared length.
///
/// An id that does not end inside the body makes the frame overrun its
/// declared length; an id of more than five bytes is malformed.
pub open spec fn body_parse(body: Seq<u8>, frame_len: nat) -> FrameOutcome {
    match varint32_parse(body) {
        (Ok(id), n) => FrameOutcome::Complete(
            PacketView { id, data: body.skip(n as int) },
            frame_len,
        ),
        (Err(e), _) => FrameOutcome::Failed(e.in_packet()),
    }
}

/// What the framer makes of the buffer `buf`.
///
/// The length prefix must end within five bytes. A negative declared length
/// is an overrun. While fewer bytes than declared are buffered nothing is
/// decided and nothing consumed.
pub open spec fn frame_parse(buf: Seq<u8>) -> FrameOutcome {
    match varint32_parse(buf) {
        (Err(_), _) => if buf.len() < 5 {
            FrameOutcome::NeedMore
        } else {
            FrameOutcome::Failed(ProtocolError::FrameLengthTooLong)
        },
        (Ok(len), k) => if len < 0 {
            FrameOutcome::Failed(ProtocolError::FrameOverrun)
        } else if buf.len() - k < len {
            FrameOutcome::NeedMore
        } else {
            body_parse(buf.subrange(k as int, k + len), (k + len) as nat)
        },
    }
}

/// The frame of a packet, whatever follows it in the buffer, decodes to that
/// packet and takes exactly the frame.
pub proof fn lemma_frame_round_trip(p: PacketView, rest: Seq<u8>)
    requires
        frame_encodable(p),
    ensures
        frame_parse(frame_bytes(p) + rest) == FrameOutcome::Complete(p, frame_bytes(p).len()),
{
    let body = frame_body(p);
    let len = body.len() as i32;
    let prefix = varint32_wire(len);
    let buf = frame_bytes(p) + rest;
    lemma_varint32_round_trip(len, body + rest);
    assert(buf =~= prefix + (body + rest));
    let k = prefix.len();
    assert(buf.subrange(k as int, k + len) =~= body);
    lemma_varint32_round_trip(p.id, p.data);
    assert(body.skip(varint32_wire(p.id).len() as int) =~= p.data);
}

/// Every proper prefix of a frame leaves the framer waiting: fed one byte at
/// a time, it reports nothing until the last byte has arrived.
pub proof fn lemma_frame_prefix_needs_more(p: PacketView, n: nat)
    requires
        frame_encodable(p),
        n < frame_bytes(p).len(),
    ensures
        frame_parse(frame_bytes(p).take(n as int)) == FrameOutcome::NeedMore,
{
    let body = frame_body(p);
    let len = body.len() as i32;
    let prefix = varint32_wire(len);
    let frame = frame_bytes(p);
    let buf = frame.take(n as int);
    let pat = pattern_of(len as int, 0x1_0000_0000);
    lemma_digits_len_words(pat);
    if n < prefix.len() {
        assert(buf =~= prefix.take(n as int));
        lemma_digits_prefix_incomplete(pat, n, 5, word32());
    } else {
        let part = body.take(n - prefix.len());
        assert(buf =~= prefix + part);
        lemma_varint32_round_trip(len, part);
    }
}

/// A declared length too short to hold even the packet id is an overrun,
/// whatever follows: the framer does not go on to read the bytes behind it
/// as another frame.
pub proof fn lemma_short_length_overruns(declared: i32, p: PacketView, rest: Seq<u8>)
    requires
        declared < varint32_wire(p.id).len(),
    ensures
        frame_parse(varint32_wire(declared) + (frame_body(p) + rest)) == FrameOutcome::Failed(
            ProtocolError::FrameOverrun,
        ),
{
    let id_bytes = varint32_wire(p.id);
    let behind = frame_body(p) + rest;
    let prefix = varint32_wire(declared);
    let buf = prefix + behind;
    lemma_varint32_round_trip(declared, behind);
    if declared >= 0 {
        let k = prefix.len();
        let body = buf.subrange(k as int, k + declared);
        assert(body =~= id_bytes.take(declared as int));
        let pat = pattern_of(p.id as int, 0x1_0000_0000);
        lemma_digits_len_words(pat);
        lemma_digits_prefix_incomplete(pat, declared as nat, 5, word32());
    }
}

} // verus!
