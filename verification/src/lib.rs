//! The Nautilus client without its sockets and its window: the wire format of the packets,
//! and the decisions that are taken on what the server and the user send.

pub mod client;
pub mod net;
