use mcserver::data_types::{create_string, create_unsigned_short, create_varint, DataError};
use mcserver::messages::ServerPacket;
use mcserver::net::{encode_server_packet, reader_step, ConnectionState, ReaderAction, ReaderError};
use mcserver::packet::Packet;
use mcserver::protocol::HandshakeError;

fn handshake(next: i32) -> Packet {
    let mut data = create_varint(765);
    data.extend(create_string("example.org"));
    data.extend(create_unsigned_short(25565));
    data.extend(create_varint(next));
    Packet::create(0x00, data)
}

#[test]
fn reader_handshake_enters_status_or_login() {
    let mut state = ConnectionState::Handshake;
    assert!(matches!(reader_step(&mut state, &handshake(1)), Ok(ReaderAction::HandshakeDone)));
    assert_eq!(state, ConnectionState::Status);
    let mut state = ConnectionState::Handshake;
    assert!(matches!(reader_step(&mut state, &handshake(2)), Ok(ReaderAction::HandshakeDone)));
    assert_eq!(state, ConnectionState::Login);
}

#[test]
fn reader_handshake_refusals() {
    let mut state = ConnectionState::Handshake;
    assert!(matches!(reader_step(&mut state, &handshake(3)), Err(ReaderError::TransferUnsupported)));
    assert_eq!(state, ConnectionState::Handshake);
    assert!(matches!(
        reader_step(&mut state, &handshake(9)),
        Err(ReaderError::Handshake(HandshakeError::UnknownNextState(9)))
    ));
    let truncated = Packet::create(0x00, create_varint(765));
    assert!(matches!(
        reader_step(&mut state, &truncated),
        Err(ReaderError::Handshake(HandshakeError::Data(DataError::NotEnoughBytes)))
    ));
    assert_eq!(state, ConnectionState::Handshake);
}

#[test]
fn reader_status_ping_and_unknown() {
    let mut state = ConnectionState::Status;
    assert!(matches!(reader_step(&mut state, &Packet::create(0x00, vec![])), Ok(ReaderAction::RequestStatus)));
    match reader_step(&mut state, &Packet::create(0x01, vec![1, 2, 3])) {
        Ok(ReaderAction::Ping(data)) => assert_eq!(data, vec![1, 2, 3]),
        _ => panic!("expected a ping"),
    }
    assert!(matches!(reader_step(&mut state, &Packet::create(0x05, vec![])), Ok(ReaderAction::Unknown)));
    let mut login = ConnectionState::Login;
    assert!(matches!(reader_step(&mut login, &Packet::create(0x00, vec![])), Ok(ReaderAction::Unknown)));
    assert_eq!(state, ConnectionState::Status);
    assert_eq!(login, ConnectionState::Login);
}

#[test]
fn writer_encodes_answers() {
    assert_eq!(encode_server_packet(ServerPacket::Pong(vec![1, 2])), vec![3, 0x01, 1, 2]);
    assert_eq!(
        encode_server_packet(ServerPacket::Status("hi".to_string())),
        vec![4, 0x00, 2, b'h', b'i']
    );
}

#[test]
fn reader_state_settles_after_handshake() {
    let mut state = ConnectionState::Handshake;
    assert!(matches!(reader_step(&mut state, &Packet::create(0x01, vec![1])), Ok(ReaderAction::Unknown)));
    assert_eq!(state, ConnectionState::Handshake);
    assert!(matches!(reader_step(&mut state, &handshake(1)), Ok(ReaderAction::HandshakeDone)));
    assert_eq!(state, ConnectionState::Status);
    assert!(matches!(reader_step(&mut state, &handshake(2)), Ok(ReaderAction::RequestStatus)));
    assert_eq!(state, ConnectionState::Status);
    assert!(matches!(reader_step(&mut state, &Packet::create(0x01, vec![9; 8])), Ok(ReaderAction::Ping(_))));
    assert_eq!(state, ConnectionState::Status);
}
