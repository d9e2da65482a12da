//! The packets that the client sends and acts on, with what it reads of them.

use crate::net::float_bits::{Float32, Float64};
use crate::net::types::chunk::{BlockChangeRecord, ChunkMetadata};
use crate::net::types::position::PositionIBI;
use crate::net::varint::VarInt;
use vstd::prelude::*;

verus! {

/// The stage of the protocol that a packet belongs to.
#[derive(Debug, Clone, Copy, PartialEq, Eq, Structural)]
pub enum ClientState {
    Handshaking,
    Login,
    Play,
}

/// Where a player stands and looks.
///
/// A packet to the server holds the stance too. It is a fixed distance from `y`, and is
/// worked out where the packet is put together.
#[derive(Debug, Clone, Copy, PartialEq)]
pub struct PlayerPosition {
    pub x: Float64,
    pub y: Float64,
    pub z: Float64,
    pub yaw: Float32,
    pub pitch: Float32,
    pub on_ground: bool,
}

/// A point in the world, or a way through it, in blocks.
#[derive(Debug, Clone, Copy, PartialEq)]
pub struct Offset {
    pub x: Float32,
    pub y: Float32,
    pub z: Float32,
}

/// A velocity in the units of the protocol.
#[derive(Debug, Clone, Copy, PartialEq, Eq, Structural)]
pub struct EntitySpeed {
    pub x: i16,
    pub y: i16,
    pub z: i16,
}

/// Several chunks with their data in one compressed block.
#[derive(Debug, Clone, PartialEq)]
pub struct MapChunkBulk {
    pub sky_light_sent: bool,
    pub data: Vec<u8>,
    pub meta: Vec<ChunkMetadata>,
}

/// One chunk with its compressed data.
#[derive(Debug, Clone, PartialEq)]
pub struct MapChunk {
    pub x: i32,
    pub z: i32,
    pub ground_up: bool,
    pub bit_map: u16,
    pub add_bit_map: u16,
    pub compressed_chunk_data: Vec<u8>,
}

/// Blocks of one chunk that have changed.
#[derive(Debug, Clone, PartialEq)]
pub struct MultiBlockChange {
    pub chunk_x: i32,
    pub chunk_z: i32,
    pub records: Vec<BlockChangeRecord>,
}

/// A packet of either direction.
#[derive(Debug, Clone, PartialEq)]
pub enum Packet {
    // To the server
    SetProtocol {
        protocol_version: VarInt,
        server_host: String,
        server_port: u16,
        next_state: VarInt,
    },
    LoginStart { username: String },
    KeepAliveServerbound { keep_alive_id: i32 },
    PositionLook(PlayerPosition),
    ClientCommand { payload: u8 },
    // From the server
    KeepAliveClientbound { keep_alive_id: i32 },
    ChatClientbound { message: String },
    Respawn,
    PositionClientbound(PlayerPosition),
    NamedEntitySpawn { entity_id: VarInt, at: Offset },
    SpawnEntity { entity_id: VarInt, at: Offset },
    SpawnEntityLiving { entity_id: VarInt, at: Offset, velocity: EntitySpeed },
    EntityVelocity { entity_id: i32, velocity: EntitySpeed },
    EntityDestroy { entity_ids: Vec<i32> },
    RelEntityMove { entity_id: i32, by: Offset },
    EntityLook,
    EntityMoveLook { entity_id: i32, by: Offset },
    EntityHeadRotation,
    EntityMetadata,
    UpdateAttributes,
    MapChunk(MapChunk),
    MultiBlockChange(MultiBlockChange),
    BlockChange { location: PositionIBI, kind: VarInt },
    MapChunkBulk(MapChunkBulk),
    ScoreboardObjective { text: String },
    ScoreboardScore { text: String },
    Disconnect { reason: String },
    /// Any packet that the client leaves alone.
    Other { text: String },
}

/// Whether a packet is too frequent to be worth a line in the log.
pub open spec fn is_frequent(p: Packet) -> bool {
    ||| p is MapChunk
    ||| p is MapChunkBulk
    ||| p is RelEntityMove
    ||| p is EntityVelocity
    ||| p is EntityMoveLook
    ||| p is EntityHeadRotation
    ||| p is EntityMetadata
    ||| p is EntityDestroy
    ||| p is UpdateAttributes
    ||| p is SpawnEntity
    ||| p is SpawnEntityLiving
    ||| p is NamedEntitySpawn
    ||| p is EntityLook
}

/// Whether a packet that was received gets a line in the log.
pub fn print_packet_filtered(p: &Packet) -> (printed: bool)
    ensures
        printed == !is_frequent(*p),
{
    match p {
        Packet::MapChunk(_)
        | Packet::MapChunkBulk(_)
        | Packet::RelEntityMove { .. }
        | Packet::EntityVelocity { .. }
        | Packet::EntityMoveLook { .. }
        | Packet::EntityHeadRotation
        | Packet::EntityMetadata
        | Packet::EntityDestroy { .. }
        | Packet::UpdateAttributes
        | Packet::SpawnEntity { .. }
        | Packet::SpawnEntityLiving { .. }
        | Packet::NamedEntitySpawn { .. }
        | Packet::EntityLook => false,
        _ => true,
    }
}

} // verus!
