//! A small instant-messaging protocol: length-delimited protobuf frames,
//! the messages they carry, and the client and server decision logic.

pub mod buffer;
pub mod varint;
pub mod wire;
pub mod message;
pub mod types;
pub mod msg_types;
pub mod codec;
pub mod text;
pub mod client;
pub mod server;
pub mod line_server;
pub mod chat_server;

