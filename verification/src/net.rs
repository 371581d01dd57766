use vstd::prelude::*;
use crate::connection::handshake_parse;
use crate::packet::Packet;
use crate::data_types::{create_string, string_bytes, varint_bytes, varint_round_trip};
use crate::messages::ServerPacket;
use crate::protocol::{
    create_sendable_packet, length_prefix, parse_handshake_next_state, sendable_frame_is_complete,
    HandshakeError,
};

verus! {

/// The phase a client connection is in.
#[derive(Debug, PartialEq, Eq, Clone, Copy, Structural)]
pub enum ConnectionState {
    Handshake,
    Status,
    Login,
    Transfer,
}

/// The state that a handshake's requested next state names: 1 is Status, 2
/// is Login, 3 is Transfer; any other number names none.
pub open spec fn state_named(next: i32) -> Option<ConnectionState> {
    if next == 1 {
        Some(ConnectionState::Status)
    } else if next == 2 {
        Some(ConnectionState::Login)
    } else if next == 3 {
        Some(ConnectionState::Transfer)
    } else {
        None
    }
}


/// What the reader does with a packet after [`reader_step`] handled it.
pub enum ReaderAction {
    /// The handshake moved the connection to a new state; nothing to send.
    HandshakeDone,
    /// Ask the server core for the status answer.
    RequestStatus,
    /// Pass these ping bytes to the server core to be echoed.
    Ping(Vec<u8>),
    /// No packet with this id is known in this state; it is skipped.
    Unknown,
}

/// Why the reader stops serving a connection.
#[derive(Debug, Clone, Copy, PartialEq, Eq, Structural)]
pub enum ReaderError {
    /// The handshake could not be read or named no state.
    Handshake(HandshakeError),
    /// A handshake asked for another handshake.
    RepeatedHandshake,
    /// A handshake asked for a transfer, which this server does not support.
    TransferUnsupported,
}

/// What a handshake that names `requested` makes of the connection: Status
/// and Login are entered; Handshake and Transfer are refused.
pub open spec fn handshake_outcome(requested: ConnectionState) -> Result<ConnectionState, ReaderError> {
    match requested {
        ConnectionState::Handshake => Err(ReaderError::RepeatedHandshake),
        ConnectionState::Login => Ok(ConnectionState::Login),
        ConnectionState::Status => Ok(ConnectionState::Status),
        ConnectionState::Transfer => Err(ReaderError::TransferUnsupported),
    }
}

/// The state the reader is in after it handled the packet `frame` (id byte,
/// then data) in state `state`, or why it stopped: only a handshake (state
/// Handshake, id 0) moves the connection, as `handshake_outcome` says.
pub open spec fn reader_next(state: ConnectionState, frame: Seq<u8>) -> Result<ConnectionState, ReaderError> {
    if state == ConnectionState::Handshake && frame[0] == 0 {
        match handshake_parse(frame.skip(1)) {
            Ok((_, _, _, next, _)) => match state_named(next) {
                Some(requested) => handshake_outcome(requested),
                None => Err(ReaderError::Handshake(HandshakeError::UnknownNextState(next))),
            },
            Err(e) => Err(ReaderError::Handshake(HandshakeError::Data(e))),
        }
    } else {
        Ok(state)
    }
}

/// The state the reader is in after it handled the packets `frames` one
/// after the other from state `state`, or the error at which it stopped.
pub open spec fn reader_final(state: ConnectionState, frames: Seq<Seq<u8>>) -> Result<ConnectionState, ReaderError>
    decreases frames.len(),
{
    if frames.len() == 0 {
        Ok(state)
    } else {
        match reader_next(state, frames[0]) {
            Ok(next) => reader_final(next, frames.drop_first()),
            Err(e) => Err(e),
        }
    }
}

/// Once a connection has left the Handshake state, no sequence of packets
/// changes its state again, and none makes the reader stop with an error.
pub proof fn settled_state_never_changes(state: ConnectionState, frames: Seq<Seq<u8>>)
    requires
        state != ConnectionState::Handshake,
    ensures
        reader_final(state, frames) == Ok::<ConnectionState, ReaderError>(state),
    decreases frames.len(),
{
    if frames.len() > 0 {
        settled_state_never_changes(state, frames.drop_first());
    }
}

/// From the Handshake state, whatever packets arrive, the reader ends in
/// Handshake, Status or Login (or stops with an error): it leaves Handshake
/// at most once, and only for Status or Login.
pub proof fn handshake_leads_to_status_or_login(frames: Seq<Seq<u8>>)
    ensures
        reader_final(ConnectionState::Handshake, frames) matches Ok(s) ==> s
            == ConnectionState::Handshake || s == ConnectionState::Status || s
            == ConnectionState::Login,
    decreases frames.len(),
{
    if frames.len() > 0 {
        handshake_leads_to_status_or_login(frames.drop_first());
        match reader_next(ConnectionState::Handshake, frames[0]) {
            Ok(next) => {
                if next != ConnectionState::Handshake {
                    settled_state_never_changes(next, frames.drop_first());
                }
            },
            Err(_) => {},
        }
    }
}

/// A handshake never leads back to the Handshake state, and never enters
/// Transfer: the reader only moves a connection on, to Status or Login.
pub proof fn handshake_only_moves_on(next: i32)
    ensures
        state_named(next) matches Some(requested) ==> match handshake_outcome(requested) {
            Ok(entered) => entered == ConnectionState::Status || entered == ConnectionState::Login,
            Err(_) => true,
        },
        state_named(next) != Some(ConnectionState::Handshake),
{
}

/// Handles one packet (id byte, then data) that the reader got in the
/// connection's current state: a handshake (state Handshake, id 0) moves the
/// connection on, a status request (state Status, id 0) and a ping (state
/// Status, id 1) are passed on, anything else is skipped. On an error the
/// state is left as it was.
pub fn reader_step(state: &mut ConnectionState, packet: &Packet) -> (r: Result<ReaderAction, ReaderError>)
    requires
        packet@.len() > 0,
    ensures
        reader_next(*old(state), packet@) == match r {
            Ok(_) => Ok::<ConnectionState, ReaderError>(*final(state)),
            Err(e) => Err::<ConnectionState, ReaderError>(e),
        },
        (*old(state), packet@[0]) matches (ConnectionState::Handshake, 0) ==> match handshake_parse(
            packet@.skip(1),
        ) {
            Ok((_, _, _, next, _)) => match state_named(next) {
                Some(requested) => match handshake_outcome(requested) {
                    Ok(entered) => *final(state) == entered && r matches Ok(ReaderAction::HandshakeDone),
                    Err(e) => *final(state) == *old(state) && r == Err::<ReaderAction, ReaderError>(e),
                },
                None => *final(state) == *old(state) && r == Err::<ReaderAction, ReaderError>(
                    ReaderError::Handshake(HandshakeError::UnknownNextState(next)),
                ),
            },
            Err(e) => *final(state) == *old(state) && r == Err::<ReaderAction, ReaderError>(
                ReaderError::Handshake(HandshakeError::Data(e)),
            ),
        },
        !((*old(state), packet@[0]) matches (ConnectionState::Handshake, 0)) ==> *final(state)
            == *old(state),
        (*old(state), packet@[0]) matches (ConnectionState::Status, 0) ==> r matches Ok(
            ReaderAction::RequestStatus,
        ),
        (*old(state), packet@[0]) matches (ConnectionState::Status, 1) ==> (r matches Ok(
            ReaderAction::Ping(data),
        ) && data@ == packet@.skip(1)),
        !((*old(state), packet@[0]) matches (ConnectionState::Handshake, 0)) && !((*old(state), packet@[0]) matches (ConnectionState::Status, 0))
            && !((*old(state), packet@[0]) matches (ConnectionState::Status, 1)) ==> r matches Ok(
            ReaderAction::Unknown,
        ),
{
    match (*state, packet.id()) {
        (ConnectionState::Handshake, 0x00) => {
            let next_state = match parse_handshake_next_state(packet) {
                Ok(s) => s,
                Err(e) => return Err(ReaderError::Handshake(e)),
            };
            *state = match next_state {
                ConnectionState::Handshake => return Err(ReaderError::RepeatedHandshake),
                ConnectionState::Login => ConnectionState::Login,
                ConnectionState::Status => ConnectionState::Status,
                ConnectionState::Transfer => return Err(ReaderError::TransferUnsupported),
            };
            Ok(ReaderAction::HandshakeDone)
        },
        (ConnectionState::Status, 0x00) => Ok(ReaderAction::RequestStatus),
        (ConnectionState::Status, 0x01) => Ok(ReaderAction::Ping(packet.data_owned())),
        _ => Ok(ReaderAction::Unknown),
    }
}


/// A packet's bytes (id first) framed for sending: the VarInt of their count,
/// then the bytes.
pub open spec fn sendable_frame(bytes: Seq<u8>) -> Seq<u8> {
    varint_bytes((bytes.len() as usize) as i32) + bytes
}

/// The bytes the writer sends for an answer of the server core: a status
/// answer is packet 0 carrying the description as a string, a pong is packet
/// 1 carrying the ping's bytes; each framed with its length.
pub fn encode_server_packet(pkt: ServerPacket) -> (r: Vec<u8>)
    ensures
        match pkt {
            ServerPacket::Status(answer) => r@ == sendable_frame(seq![0u8] + string_bytes(answer@)),
            ServerPacket::Pong(answer) => r@ == sendable_frame(seq![1u8] + answer@),
        },
{
    match pkt {
        ServerPacket::Status(answer) => {
            let data = create_string(answer.as_str());
            let packet = Packet::create(0x00, data);
            create_sendable_packet(packet)
        },
        ServerPacket::Pong(answer) => {
            let packet = Packet::create(0x01, answer);
            create_sendable_packet(packet)
        },
    }
}


/// Every answer the writer sends is, to the frame reader, one complete
/// frame: its length prefix reads back as the length of the packet bytes
/// (id first), and the prefix and those bytes make up the whole frame.
pub proof fn answer_frame_reads_back(bytes: Seq<u8>)
    requires
        bytes.len() <= i32::MAX,
    ensures
        ({
            let f = sendable_frame(bytes);
            &&& length_prefix(f) matches Ok(Some((len, header_len))) && len == bytes.len()
                && header_len + bytes.len() == f.len() && f.skip(header_len as int) == bytes
        }),
{
    sendable_frame_is_complete(bytes);
    let len = (bytes.len() as usize) as i32;
    varint_round_trip(len, bytes);
    let f = sendable_frame(bytes);
    assert(f.skip(varint_bytes(len).len() as int) =~= bytes);
}

} // verus!
