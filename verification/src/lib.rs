//! Building blocks of a Minecraft-style server protocol: a fixed-size read
//! buffer, the wire data types (VarInt, big- and little-endian integers,
//! length-prefixed strings), packet framing, and the per-connection and
//! server-core decisions.

pub mod data_types;
pub mod buffer;
pub mod packets;
pub mod packet;
pub mod connection;
pub mod net;
pub mod protocol;
pub mod messages;
pub mod server;
