use vstd::prelude::*;
use crate::data_types::{
    be_value_u16, create_long, create_string, le_bytes, le_value, read_long, read_string,
    read_unsigned_short, read_varint, string_bytes, string_decode,
    varint_decode, lemma_varint_extent_bound, DataError, lemma_le_value_bound, lemma_byte_weights, long_bytes_round_trip,
};
use crate::packets::Packet;

verus! {

/// The phase a client connection is in.
#[derive(Debug, Clone, Copy, PartialEq, Eq, Structural)]
pub enum ConnectionState {
    Handshake,
    Status,
    Login,
    Transfer,
}

/// The fields of a handshake packet.
pub struct Handshake {
    pub protocol_version: i32,
    pub server_address: String,
    pub server_port: u16,
    pub next_state: i32,
}

impl Handshake {
    /// Protocol version, server address, server port and requested next state.
    pub open spec fn fields(&self) -> (i32, Seq<char>, u16, i32) {
        (self.protocol_version, self.server_address@, self.server_port, self.next_state)
    }
}

/// What a handshake payload `s` holds, read field by field (protocol
/// version, server address, server port, requested next state), with the
/// count of bytes the fields take; or the error of the first field that
/// cannot be read. A server address whose length prefix is negative or runs
/// past the payload gives `NotEnoughBytes`.
pub open spec fn handshake_parse(s: Seq<u8>) -> Result<(i32, Seq<char>, u16, i32, nat), DataError> {
    match varint_decode(s) {
        Ok((version, n1)) => {
            let s1 = s.skip(n1 as int);
            match string_decode(s1) {
                Ok((address, n2)) => {
                    let s2 = s1.skip(n2 as int);
                    if s2.len() < 2 {
                        Err(DataError::NotEnoughBytes)
                    } else {
                        match varint_decode(s2.skip(2)) {
                            Ok((next, n4)) => Ok(
                                (version, address, be_value_u16(s2), next, n1 + n2 + 2 + n4),
                            ),
                            Err(e) => Err(e),
                        }
                    }
                },
                Err(e) => Err(e),
            }
        },
        Err(e) => Err(e),
    }
}

/// The state a handshake's requested next state names: 1 is Status, 2 is
/// Login, 3 is Transfer; any other number names none.
pub open spec fn requested_state(next: i32) -> Option<ConnectionState> {
    if next == 1 {
        Some(ConnectionState::Status)
    } else if next == 2 {
        Some(ConnectionState::Login)
    } else if next == 3 {
        Some(ConnectionState::Transfer)
    } else {
        None
    }
}

/// What the connection does after a packet was processed.
pub enum Reply {
    /// The handshake was read and the connection moved to the state it asked for.
    Handshook(Handshake),
    /// The handshake was read but asked for a state that does not exist; the
    /// connection stays where it was.
    UnknownNextState(Handshake),
    /// The client asked for the server's status: answer with
    /// [`status_response`] of the server's description.
    StatusRequested,
    /// Send this packet back.
    Send(Packet),
}

/// Whether `process_packet` can handle a packet with this id and payload in
/// this state: handshakes must be readable, and in the Status state only a
/// status request (id 0) or a ping (id 1) carrying eight bytes is known.
pub open spec fn processable(state: ConnectionState, id: u8, payload: Seq<u8>) -> bool {
    match state {
        ConnectionState::Handshake => handshake_parse(payload) is Ok,
        ConnectionState::Status => id == 0 || (id == 1 && payload.len() >= 8),
        _ => false,
    }
}

/// The status response packet (id 0) that carries `json` as a string.
pub fn status_response(json: &str) -> (r: Packet)
    ensures
        r.id == 0,
        r.payload@ == string_bytes(json@),
{
    let mut packet = Packet::new(0x00);
    let s = create_string(json);
    packet.add_payload(s);
    packet
}

/// Handles one packet from the client in the connection's current state.
/// A handshake is read from the payload and moves the connection to the
/// state it asks for; in the Status state a status request is passed on and
/// a ping is answered with a pong (id 1) that carries the ping's eight bytes.
pub fn process_packet(state: &mut ConnectionState, packet: &mut Packet) -> (r: Reply)
    requires
        processable(*old(state), old(packet).id, old(packet).payload@),
    ensures
        final(packet).id == old(packet).id,
        match *old(state) {
            ConnectionState::Handshake => {
                let (version, address, port, next, n) = handshake_parse(old(packet).payload@)->Ok_0;
                &&& final(packet).payload@ == old(packet).payload@.skip(n as int)
                &&& match requested_state(next) {
                    Some(s) => {
                        &&& *final(state) == s
                        &&& r matches Reply::Handshook(h) && h.fields() == (version, address, port, next)
                    },
                    None => {
                        &&& *final(state) == *old(state)
                        &&& r matches Reply::UnknownNextState(h) && h.fields() == (
                            version,
                            address,
                            port,
                            next,
                        )
                    },
                }
            },
            _ => {
                &&& *final(state) == *old(state)
                &&& old(packet).id == 0 ==> r is StatusRequested && final(packet).payload@ == old(
                    packet,
                ).payload@
                &&& old(packet).id == 1 ==> final(packet).payload@ == old(packet).payload@.skip(8)
                &&& old(packet).id == 1 ==> (r matches Reply::Send(p) && p.id == 1 && p.payload@
                    == le_bytes(le_value(old(packet).payload@.take(8)), 8))
            },
        },
{
    match *state {
        ConnectionState::Handshake => {
            let ghost s = packet.payload@;
            let protocol_version = read_varint(&mut packet.payload).unwrap();
            let ghost s1 = packet.payload@;
            let server_address = read_string(&mut packet.payload).unwrap();
            let ghost s2 = packet.payload@;
            let server_port = read_unsigned_short(&mut packet.payload).unwrap();
            let ghost s3 = packet.payload@;
            let next_state = read_varint(&mut packet.payload).unwrap();
            proof {
                let (v, n1) = varint_decode(s)->Ok_0;
                let (a, n2) = string_decode(s1)->Ok_0;
                let (x, n4) = varint_decode(s2.skip(2))->Ok_0;
                lemma_varint_extent_bound(s);
                lemma_varint_extent_bound(s1);
                lemma_varint_extent_bound(s2.skip(2));
                assert(s1 == s.skip(n1 as int));
                assert(s2 == s1.skip(n2 as int));
                assert(s3 == s2.skip(2));
                assert(packet.payload@ == s3.skip(n4 as int));
                assert(s2 =~= s.skip((n1 + n2) as int));
                assert(s3 =~= s.skip((n1 + n2 + 2) as int));
                assert(packet.payload@ =~= s.skip((n1 + n2 + 2 + n4) as int));
            }
            let handshake = Handshake { protocol_version, server_address, server_port, next_state };
            if next_state == 1 {
                *state = ConnectionState::Status;
            } else if next_state == 2 {
                *state = ConnectionState::Login;
            } else if next_state == 3 {
                *state = ConnectionState::Transfer;
            } else {
                return Reply::UnknownNextState(handshake);
            }
            Reply::Handshook(handshake)
        },
        _ => {
            if packet.id == 0x00 {
                Reply::StatusRequested
            } else {
                proof {
                    lemma_le_value_bound(packet.payload@.take(8));
                    lemma_byte_weights();
                }
                let payload = read_long(&mut packet.payload).unwrap();
                let mut pong = Packet::new(0x01);
                pong.add_payload(create_long(payload));
                Reply::Send(pong)
            }
        },
    }
}


/// A pong carries exactly the eight bytes of the ping it answers.
pub proof fn pong_echoes_ping(payload: Seq<u8>)
    requires
        payload.len() >= 8,
    ensures
        le_bytes(le_value(payload.take(8)), 8) == payload.take(8),
{
    long_bytes_round_trip(payload.take(8));
}

} // verus!
