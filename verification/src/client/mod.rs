//! The decisions of the client: what it answers the server, what it makes of the packets
//! that change the world, and what it does in a frame.

pub mod chunk_data;
pub mod drawing;
pub mod frame;
pub mod laws;
pub mod packets;
pub mod sections;
pub mod session;
pub mod window;
