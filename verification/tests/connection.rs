use mcserver::connection::{process_packet, status_response, ConnectionState, Reply};
use mcserver::data_types::{create_long, create_string, create_unsigned_short, create_varint};
use mcserver::packets::Packet;

fn handshake(next: i32) -> Packet {
    let mut p = Packet::new(0x00);
    p.add_payload(create_varint(765));
    p.add_payload(create_string("localhost"));
    p.add_payload(create_unsigned_short(25565));
    p.add_payload(create_varint(next));
    p
}

#[test]
fn handshake_moves_to_requested_state() {
    for (next, expected) in [
        (1, ConnectionState::Status),
        (2, ConnectionState::Login),
        (3, ConnectionState::Transfer),
    ] {
        let mut state = ConnectionState::Handshake;
        let mut p = handshake(next);
        match process_packet(&mut state, &mut p) {
            Reply::Handshook(h) => {
                assert_eq!(h.protocol_version, 765);
                assert_eq!(h.server_address, "localhost");
                assert_eq!(h.server_port, 25565);
                assert_eq!(h.next_state, next);
            }
            _ => panic!("expected a handshake"),
        }
        assert_eq!(state, expected);
        assert!(p.payload.is_empty());
    }
}

#[test]
fn handshake_with_unknown_state_stays() {
    let mut state = ConnectionState::Handshake;
    let mut p = handshake(7);
    match process_packet(&mut state, &mut p) {
        Reply::UnknownNextState(h) => assert_eq!(h.next_state, 7),
        _ => panic!("expected an unknown state"),
    }
    assert_eq!(state, ConnectionState::Handshake);
}

#[test]
fn status_request_is_passed_on() {
    let mut state = ConnectionState::Status;
    let mut p = Packet::new(0x00);
    assert!(matches!(process_packet(&mut state, &mut p), Reply::StatusRequested));
    assert_eq!(state, ConnectionState::Status);
}

#[test]
fn ping_is_answered_with_same_bytes() {
    let mut state = ConnectionState::Status;
    let mut p = Packet::new(0x01);
    p.add_payload(vec![1, 2, 3, 4, 5, 6, 7, 8, 9]);
    match process_packet(&mut state, &mut p) {
        Reply::Send(pong) => {
            assert_eq!(pong.id, 0x01);
            assert_eq!(pong.payload, vec![1, 2, 3, 4, 5, 6, 7, 8]);
            assert_eq!(pong.sendable(), vec![9, 0x01, 1, 2, 3, 4, 5, 6, 7, 8]);
        }
        _ => panic!("expected a pong"),
    }
    assert_eq!(p.payload, vec![9]);
    let mut q = Packet::new(0x01);
    q.add_payload(create_long(123456789));
    match process_packet(&mut state, &mut q) {
        Reply::Send(pong) => assert_eq!(pong.payload, create_long(123456789)),
        _ => panic!("expected a pong"),
    }
}

#[test]
fn status_response_carries_json() {
    let p = status_response("{\"a\":1}");
    assert_eq!(p.id, 0x00);
    assert_eq!(p.payload, create_string("{\"a\":1}"));
}
