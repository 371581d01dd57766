use vstd::prelude::*;
use vstd::slice::slice_to_vec;
use crate::connection::handshake_parse;
use crate::data_types::{
    create_varint, scan_varint, varint_round_trip, lemma_varint_extent_bound, read_string,
    read_unsigned_short, read_varint, varint_bytes, varint_decode, DataError,
};
use crate::net::{sendable_frame, state_named, ConnectionState};
use crate::packet::Packet;

verus! {

/// What the length prefix at the front of `bytes` says: the packet's length
/// and the prefix's own length in bytes, `None` while the prefix is not
/// complete, or the error. A negative length is refused as `NegativeLength`.
pub open spec fn length_prefix(bytes: Seq<u8>) -> Result<Option<(usize, usize)>, DataError> {
    match varint_decode(bytes) {
        Ok((v, n)) => if v < 0 {
            Err(DataError::NegativeLength)
        } else {
            Ok(Some((v as usize, n as usize)))
        },
        Err(DataError::NotEnoughBytes) => Ok(None),
        Err(e) => Err(e),
    }
}

/// Reads the VarInt length prefix at the front of `bytes` without consuming
/// anything.
pub fn try_read_varint_len(bytes: &[u8]) -> (r: Result<Option<(usize, usize)>, DataError>)
    ensures
        r == length_prefix(bytes@),
{
    proof {
        lemma_varint_extent_bound(bytes@);
    }
    match scan_varint(bytes) {
        Ok((v, n)) => {
            if v < 0 {
                Err(DataError::NegativeLength)
            } else {
                Ok(Some((v as usize, n)))
            }
        },
        Err(DataError::NotEnoughBytes) => Ok(None),
        Err(e) => Err(e),
    }
}

/// Where reading a frame stands, given the bytes read so far.
#[derive(Debug, Clone, Copy, PartialEq, Eq, Structural)]
pub enum FrameStatus {
    /// More bytes are needed: the frame takes `wanted` bytes in all.
    Incomplete { wanted: usize },
    /// The bytes are exactly one frame: a prefix of `header_len` bytes and a
    /// packet of `packet_len` bytes.
    Complete { header_len: usize, packet_len: usize },
    /// More bytes arrived than the frame takes.
    Overrun,
}

/// The prefix and packet lengths that the frame reader works with: those of
/// the length prefix once it is complete, zero while it is not.
pub open spec fn frame_lengths(p: Option<(usize, usize)>) -> (usize, usize) {
    match p {
        Some((packet_len, header_len)) => (packet_len, header_len),
        None => (0, 0),
    }
}

/// Where reading a frame stands after the bytes `buf` have arrived: complete
/// when they are exactly the length prefix plus the packet it announces,
/// incomplete when fewer, overrun when more. While the prefix itself is
/// incomplete, both lengths count as zero, so any byte is an overrun.
pub fn frame_status(buf: &[u8]) -> (r: Result<FrameStatus, DataError>)
    ensures
        match length_prefix(buf@) {
            Err(e) => r == Err::<FrameStatus, DataError>(e),
            Ok(p) => {
                let (packet_len, header_len) = frame_lengths(p);
                let total = packet_len + header_len;
                &&& buf@.len() == total ==> r == Ok::<FrameStatus, DataError>(
                    FrameStatus::Complete { header_len, packet_len },
                )
                &&& buf@.len() < total ==> r == Ok::<FrameStatus, DataError>(
                    FrameStatus::Incomplete { wanted: total as usize },
                )
                &&& buf@.len() > total ==> r == Ok::<FrameStatus, DataError>(FrameStatus::Overrun)
            },
        },
{
    let mut packet_len: usize = 0;
    let mut header_len: usize = 0;
    proof {
        lemma_varint_extent_bound(buf@);
    }
    match try_read_varint_len(buf) {
        Ok(Some((p, h))) => {
            packet_len = p;
            header_len = h;
        },
        Ok(None) => {},
        Err(e) => return Err(e),
    }
    assert(packet_len <= i32::MAX && header_len <= 5);
    let total = packet_len + header_len;
    if buf.len() == total {
        Ok(FrameStatus::Complete { header_len, packet_len })
    } else if buf.len() < total {
        Ok(FrameStatus::Incomplete { wanted: total })
    } else {
        Ok(FrameStatus::Overrun)
    }
}

/// The packet framed for sending: the VarInt of its length, then its bytes
/// (id first).
pub fn create_sendable_packet(packet: Packet) -> (r: Vec<u8>)
    ensures
        r@ == varint_bytes((packet@.len() as usize) as i32) + packet@,
        r@ == sendable_frame(packet@),
{
    let mut bytes = create_varint(packet.len() as i32);
    let mut body = slice_to_vec(packet.payload());
    bytes.append(&mut body);
    bytes
}

/// Why a handshake did not name a state to move to.
#[derive(Debug, Clone, Copy, PartialEq, Eq, Structural)]
pub enum HandshakeError {
    /// A field of the handshake could not be read.
    Data(DataError),
    /// The requested next state is not 1, 2 or 3.
    UnknownNextState(i32),
}

/// The state that the handshake in `packet` (id byte, then the fields) asks
/// to move to.
pub fn parse_handshake_next_state(packet: &Packet) -> (r: Result<ConnectionState, HandshakeError>)
    requires
        packet@.len() > 0,
    ensures
        match handshake_parse(packet@.skip(1)) {
            Ok((_, _, _, next, _)) => match state_named(next) {
                Some(s) => r == Ok::<ConnectionState, HandshakeError>(s),
                None => r == Err::<ConnectionState, HandshakeError>(
                    HandshakeError::UnknownNextState(next),
                ),
            },
            Err(e) => r == Err::<ConnectionState, HandshakeError>(HandshakeError::Data(e)),
        },
{
    let mut data = packet.data_owned();
    if let Err(e) = read_varint(&mut data) {
        return Err(HandshakeError::Data(e));
    }
    if let Err(e) = read_string(&mut data) {
        return Err(HandshakeError::Data(e));
    }
    if read_unsigned_short(&mut data).is_err() {
        return Err(HandshakeError::Data(DataError::NotEnoughBytes));
    }
    let next = match read_varint(&mut data) {
        Ok(v) => v,
        Err(e) => return Err(HandshakeError::Data(e)),
    };
    if next == 1 {
        Ok(ConnectionState::Status)
    } else if next == 2 {
        Ok(ConnectionState::Login)
    } else if next == 3 {
        Ok(ConnectionState::Transfer)
    } else {
        Err(HandshakeError::UnknownNextState(next))
    }
}


/// The length prefix that `create_sendable_packet` writes is read back by
/// `try_read_varint_len`: the packet's length and the prefix's length,
/// whatever follows, when the length fits in an `i32`.
pub proof fn length_prefix_round_trip(len: usize, rest: Seq<u8>)
    requires
        len <= i32::MAX,
    ensures
        length_prefix(varint_bytes(len as i32) + rest) == Ok::<Option<(usize, usize)>, DataError>(
            Some((len, varint_bytes(len as i32).len() as usize)),
        ),
{
    varint_round_trip(len as i32, rest);
}


/// The bytes that `create_sendable_packet` writes for a packet are, to the
/// frame reader, exactly one complete frame.
pub proof fn sendable_frame_is_complete(body: Seq<u8>)
    requires
        body.len() <= i32::MAX,
    ensures
        ({
            let bytes = varint_bytes((body.len() as usize) as i32) + body;
            let header_len = varint_bytes((body.len() as usize) as i32).len() as usize;
            &&& length_prefix(bytes) == Ok::<Option<(usize, usize)>, DataError>(
                Some((body.len() as usize, header_len)),
            )
            &&& bytes.len() == body.len() + header_len
        }),
{
    let len = body.len() as usize;
    assert((len as i32) as usize == len);
    length_prefix_round_trip(len, body);
    varint_round_trip(len as i32, body);
}

} // verus!
