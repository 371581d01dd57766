use vstd::prelude::*;
use vstd::slice::{slice_subrange, slice_to_vec};
use crate::buffer::BufferReader;
use crate::data_types::{
    create_varint, lemma_varint_extent_bound, leb128, try_read_varint, varint_bytes, varint_decode,
    varint_round_trip, DataError,
};

verus! {

/// A packet: its id and the bytes that follow the id.
pub struct Packet {
    pub id: u8,
    pub payload: Vec<u8>,
}

/// The frame that `Packet::sendable` writes: the VarInt of the body's length,
/// then the body, which is the VarInt of the id followed by the payload.
pub open spec fn frame_bytes(id: u8, payload: Seq<u8>) -> Seq<u8> {
    let body = varint_bytes(id as i32) + payload;
    varint_bytes((body.len() as usize) as i32) + body
}

/// The frame that `Packet::sendable_with_id` writes: the VarInt of the
/// payload's length (the id byte not counted), the id byte, the payload.
pub open spec fn frame_with_id_bytes(id: u8, payload: Seq<u8>) -> Seq<u8> {
    varint_bytes((payload.len() as usize) as i32) + seq![id] + payload
}

/// What `try_next_packet` makes of the unread bytes `u`: the packet's id and
/// payload if a whole packet is there, `None` if not yet, or the error. The
/// length prefix is a VarInt that counts the id byte and the payload; a
/// negative length is refused.
pub open spec fn next_packet(u: Seq<u8>) -> Result<Option<(u8, Seq<u8>)>, DataError> {
    match varint_decode(u) {
        Ok((v, n)) => if v < 0 {
            Err(DataError::NegativeLength)
        } else if u.len() - n < v {
            Ok(None)
        } else {
            Ok(Some((u[n as int], u.subrange(n + 1 as int, n + v))))
        },
        Err(DataError::NotEnoughBytes) => Ok(None),
        Err(e) => Err(e),
    }
}

/// How many of the unread bytes `u` `try_next_packet` consumes: the length
/// prefix once it is complete (and the packet after it when that is complete
/// too); nothing while the prefix is incomplete or too long.
pub open spec fn next_packet_consumed(u: Seq<u8>) -> nat {
    match varint_decode(u) {
        Ok((v, n)) => if 0 <= v && u.len() - n >= v {
            (n + v) as nat
        } else {
            n
        },
        Err(_) => 0,
    }
}

impl Packet {
    /// A packet with id `id` and an empty payload.
    pub fn new(id: u8) -> (r: Self)
        ensures
            r.id == id,
            r.payload@ == Seq::<u8>::empty(),
    {
        Packet { id, payload: Vec::new() }
    }

    /// Appends `payload` to the packet's payload.
    pub fn add_payload(&mut self, payload: Vec<u8>)
        ensures
            final(self).id == old(self).id,
            final(self).payload@ == old(self).payload@ + payload@,
    {
        let mut payload = payload;
        self.payload.append(&mut payload);
    }

    /// Appends a copy of `bytes` to the packet's payload.
    pub fn add_payload_from_bytes(&mut self, bytes: &[u8])
        ensures
            final(self).id == old(self).id,
            final(self).payload@ == old(self).payload@ + bytes@,
    {
        let mut copy = slice_to_vec(bytes);
        self.payload.append(&mut copy);
    }

    /// The packet framed for sending: length, id as a VarInt, payload.
    pub fn sendable(&self) -> (r: Vec<u8>)
        ensures
            r@ == frame_bytes(self.id, self.payload@),
    {
        let mut buffer: Vec<u8> = Vec::new();
        let mut full_payload = create_varint(self.id as i32);
        let mut payload = slice_to_vec(self.payload.as_slice());
        full_payload.append(&mut payload);
        let mut len = create_varint(full_payload.len() as i32);
        buffer.append(&mut len);
        buffer.append(&mut full_payload);
        buffer
    }

    /// The packet framed with the payload's length, then the id byte, then
    /// the payload.
    pub fn sendable_with_id(&self) -> (r: Vec<u8>)
        ensures
            r@ == frame_with_id_bytes(self.id, self.payload@),
    {
        let mut buffer: Vec<u8> = Vec::new();
        let mut len = create_varint(self.payload.len() as i32);
        buffer.append(&mut len);
        buffer.push(self.id);
        let mut payload = slice_to_vec(self.payload.as_slice());
        buffer.append(&mut payload);
        assert(buffer@ =~= frame_with_id_bytes(self.id, self.payload@));
        buffer
    }
}

/// Takes the next whole packet from the unread bytes of `buf`: its length
/// prefix, then the id byte and the payload. When the prefix is there but
/// the packet is not complete yet, the prefix is consumed and `Ok(None)`
/// comes back; a negative length consumes the prefix and gives
/// `NegativeLength`.
pub fn try_next_packet(buf: &mut BufferReader) -> (r: Result<Option<Packet>, DataError>)
    requires
        old(buf).wf(),
        !(varint_decode(old(buf).unread_view()) matches Ok((v, _)) && v == 0),
    ensures
        final(buf).wf(),
        final(buf).spec_buf() == old(buf).spec_buf(),
        final(buf).spec_len() == old(buf).spec_len(),
        final(buf).spec_pos() == old(buf).spec_pos() + next_packet_consumed(old(buf).unread_view()),
        match next_packet(old(buf).unread_view()) {
            Ok(None) => r matches Ok(None),
            Ok(Some((id, payload))) => r matches Ok(Some(p)) && p.id == id && p.payload@ == payload,
            Err(e) => r == Err::<Option<Packet>, DataError>(e),
        },
{
    let ghost u = buf.unread_view();
    proof {
        lemma_varint_extent_bound(u);
    }
    let packet_len_i32 = match try_read_varint(buf) {
        Ok(Some(v)) => v,
        Ok(None) => return Ok(None),
        Err(e) => return Err(e),
    };
    if packet_len_i32 < 0 {
        return Err(DataError::NegativeLength);
    }
    let packet_len = packet_len_i32 as usize;
    if buf.unread().len() < packet_len {
        return Ok(None);
    }
    let packet = slice_to_vec(slice_subrange(buf.unread(), 0, packet_len));
    let packet_id = packet[0];
    let packet_payload = slice_to_vec(slice_subrange(packet.as_slice(), 1, packet.len()));
    let packet = Packet { id: packet_id, payload: packet_payload };
    buf.advance(packet_len);
    proof {
        let n = varint_decode(u)->Ok_0.1;
        assert(packet.payload@ =~= u.subrange(n + 1 as int, n + packet_len));
    }
    Ok(Some(packet))
}

/// A packet that `sendable` frames is read back whole by `try_next_packet`,
/// with the bytes after it left unread, when its id is below 0x80 (a one-byte
/// VarInt, as the reader takes the id as one byte) and its framed length
/// fits in an `i32`.
pub proof fn frame_round_trip(id: u8, payload: Seq<u8>, rest: Seq<u8>)
    requires
        id < 0x80,
        payload.len() < i32::MAX,
    ensures
        next_packet(frame_bytes(id, payload) + rest) == Ok::<Option<(u8, Seq<u8>)>, DataError>(
            Some((id, payload)),
        ),
        next_packet_consumed(frame_bytes(id, payload) + rest) == frame_bytes(id, payload).len(),
{
    let body = varint_bytes(id as i32) + payload;
    reveal_with_fuel(leb128, 2);
    assert(varint_bytes(id as i32) =~= seq![id]);
    assert(body.len() == 1 + payload.len());
    let len = (body.len() as usize) as i32;
    assert(len == body.len());
    varint_round_trip(len, body + rest);
    let u = frame_bytes(id, payload) + rest;
    assert(u =~= varint_bytes(len) + (body + rest));
    let n = varint_bytes(len).len();
    assert(u[n as int] == id);
    assert(u.subrange(n + 1 as int, n + len) =~= payload);
}


/// The frame of `sendable_with_id` starts with a VarInt that reads back as
/// the payload's length, followed by the id byte and the payload.
pub proof fn frame_with_id_reads_back(id: u8, payload: Seq<u8>)
    requires
        payload.len() <= i32::MAX,
    ensures
        ({
            let f = frame_with_id_bytes(id, payload);
            &&& varint_decode(f) matches Ok((len, k)) && len == payload.len() && f.skip(k as int)
                == seq![id] + payload
        }),
{
    let len = (payload.len() as usize) as i32;
    assert(len == payload.len());
    let tail = seq![id] + payload;
    varint_round_trip(len, tail);
    let f = frame_with_id_bytes(id, payload);
    assert(f =~= varint_bytes(len) + tail);
    assert(f.skip(varint_bytes(len).len() as int) =~= tail);
}

/// The frame of `sendable` starts with a VarInt that reads back as the
/// length of the rest, which is the id's VarInt followed by the payload.
pub proof fn frame_reads_back(id: u8, payload: Seq<u8>)
    requires
        payload.len() < i32::MAX - 5,
    ensures
        ({
            let f = frame_bytes(id, payload);
            let body = varint_bytes(id as i32) + payload;
            &&& varint_decode(f) matches Ok((len, k)) && len == f.len() - k && f.skip(k as int)
                == body
            &&& varint_decode(body) == Ok::<(i32, nat), DataError>(
                (id as i32, varint_bytes(id as i32).len()),
            )
        }),
{
    let body = varint_bytes(id as i32) + payload;
    varint_round_trip(id as i32, payload);
    assert(body.len() <= i32::MAX);
    let len = (body.len() as usize) as i32;
    assert(len == body.len());
    varint_round_trip(len, body);
    let f = frame_bytes(id, payload);
    assert(f.skip(varint_bytes(len).len() as int) =~= body);
}

} // verus!
