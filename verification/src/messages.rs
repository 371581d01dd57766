use vstd::prelude::*;

verus! {

/// A message from a connection to the server core. `S` is the sender on
/// which the core answers the connection.
#[derive(Debug)]
pub enum ServerMsg<S> {
    /// A connection opened; answers for it go to `out_tx`.
    Register { conn_id: usize, out_tx: S },
    /// A connection closed.
    Unregister { conn_id: usize },
    /// A connection got a ping carrying `data`.
    Ping { conn_id: usize, data: Vec<u8> },
    /// A connection asked for the server's status.
    Status { conn_id: usize },
}

/// An answer from the server core to a connection.
#[derive(Debug)]
pub enum ServerPacket {
    /// Echo of a ping's bytes.
    Pong(Vec<u8>),
    /// The server's status description.
    Status(String),
}

} // verus!
