use mcserver::messages::ServerMsg;
use mcserver::server::{CoreAction, Registry};

#[test]
fn registered_connections_are_answered() {
    let mut reg: Registry<&'static str> = Registry::new();
    assert!(matches!(reg.handle(ServerMsg::Register { conn_id: 1, out_tx: "one" }), CoreAction::Nothing));
    assert_eq!(reg.sender(1), Some(&"one"));
    match reg.handle(ServerMsg::Ping { conn_id: 1, data: vec![1, 2] }) {
        CoreAction::Pong { to, data } => {
            assert_eq!(to, 1);
            assert_eq!(data, vec![1, 2]);
        }
        _ => panic!("expected a pong"),
    }
    assert!(matches!(reg.handle(ServerMsg::Status { conn_id: 1 }), CoreAction::Status { to: 1 }));
}

#[test]
fn unknown_and_unregistered_connections_are_not_answered() {
    let mut reg: Registry<u32> = Registry::new();
    assert!(matches!(reg.handle(ServerMsg::Status { conn_id: 4 }), CoreAction::Nothing));
    reg.handle(ServerMsg::Register { conn_id: 4, out_tx: 40 });
    reg.handle(ServerMsg::Unregister { conn_id: 4 });
    assert_eq!(reg.sender(4), None);
    assert!(matches!(reg.handle(ServerMsg::Ping { conn_id: 4, data: vec![] }), CoreAction::Nothing));
    assert!(matches!(reg.handle(ServerMsg::Status { conn_id: 4 }), CoreAction::Nothing));
}
