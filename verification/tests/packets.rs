use mcserver::buffer::{BufferReader, BUFFER_SIZE};
use mcserver::data_types::DataError;
use mcserver::packets::{try_next_packet, Packet};

fn buffer_of(bytes: &[u8]) -> BufferReader {
    let mut a = [0u8; BUFFER_SIZE];
    a[..bytes.len()].copy_from_slice(bytes);
    BufferReader::from_list(a, bytes.len())
}

#[test]
fn new_packet_and_payloads() {
    let mut p = Packet::new(0x01);
    assert_eq!(p.id, 0x01);
    assert!(p.payload.is_empty());
    p.add_payload(vec![1, 2]);
    p.add_payload_from_bytes(&[3, 4]);
    assert_eq!(p.payload, vec![1, 2, 3, 4]);
}

#[test]
fn sendable_frames_length_id_payload() {
    let mut p = Packet::new(0x01);
    p.add_payload(vec![9, 8, 7]);
    assert_eq!(p.sendable(), vec![4, 0x01, 9, 8, 7]);
    let big = Packet::new(200);
    assert_eq!(big.sendable(), vec![2, 0xc8, 0x01]);
}

#[test]
fn sendable_with_id_counts_payload_only() {
    let mut p = Packet::new(0x05);
    p.add_payload(vec![1, 2]);
    assert_eq!(p.sendable_with_id(), vec![2, 0x05, 1, 2]);
}

#[test]
fn next_packet_reads_a_sent_frame() {
    let mut p = Packet::new(0x01);
    p.add_payload(vec![1, 2, 3, 4, 5, 6, 7, 8]);
    let mut bytes = p.sendable();
    bytes.extend_from_slice(&[0x63]);
    let mut buf = buffer_of(&bytes);
    let got = try_next_packet(&mut buf).unwrap().unwrap();
    assert_eq!(got.id, 0x01);
    assert_eq!(got.payload, vec![1, 2, 3, 4, 5, 6, 7, 8]);
    assert_eq!(buf.unread(), &[0x63]);
}

#[test]
fn next_packet_incomplete_consumes_prefix() {
    let mut buf = buffer_of(&[5, 0x00, 1]);
    assert!(try_next_packet(&mut buf).unwrap().is_none());
    assert_eq!(buf.unread(), &[0x00, 1]);
}

#[test]
fn next_packet_empty_and_incomplete_prefix() {
    let mut buf = BufferReader::new();
    assert!(try_next_packet(&mut buf).unwrap().is_none());
    let mut buf = buffer_of(&[0x80]);
    assert!(try_next_packet(&mut buf).unwrap().is_none());
    assert_eq!(buf.unread(), &[0x80]);
}

#[test]
fn next_packet_two_byte_prefix_waits_for_packet() {
    let mut buf = buffer_of(&[0x80, 0x01, 0x00]);
    assert!(try_next_packet(&mut buf).unwrap().is_none());
    assert_eq!(buf.unread(), &[0x00]);
}

#[test]
fn next_packet_reads_a_long_frame() {
    let mut p = Packet::new(0x01);
    p.add_payload(vec![0x5a; 300]);
    let mut bytes = p.sendable();
    assert_eq!(&bytes[..3], &[0xad, 0x02, 0x01]);
    bytes.push(0x11);
    let mut buf = buffer_of(&bytes);
    let got = try_next_packet(&mut buf).unwrap().unwrap();
    assert_eq!(got.id, 0x01);
    assert_eq!(got.payload, vec![0x5a; 300]);
    assert_eq!(buf.unread(), &[0x11]);
}

#[test]
fn next_packet_errors() {
    let mut buf = buffer_of(&[0xff, 0xff, 0xff, 0xff, 0x0f, 0x00]);
    assert!(matches!(try_next_packet(&mut buf), Err(DataError::NegativeLength)));
    assert_eq!(buf.unread(), &[0x00]);
    let mut buf = buffer_of(&[0xff, 0xff, 0xff, 0xff, 0xff, 0x01]);
    assert!(matches!(try_next_packet(&mut buf), Err(DataError::VarIntTooBig)));
    assert_eq!(buf.unread().len(), 6);
}

#[test]
fn next_packet_with_only_an_id() {
    let mut buf = buffer_of(&[1, 0x00]);
    let got = try_next_packet(&mut buf).unwrap().unwrap();
    assert_eq!(got.id, 0);
    assert!(got.payload.is_empty());
    assert!(buf.unread().is_empty());
}
