//! What the packets that have come since the last frame change in the world.

use crate::client::chunk_data::{header_of, inflate, ChunkBatch, ChunkHeader};
#[allow(unused_imports)]
use crate::client::chunk_data::{single_header, zlib_inflated};
use crate::client::packets::{
    EntitySpeed, MapChunk, MapChunkBulk, MultiBlockChange, Offset, Packet, PlayerPosition,
};
#[allow(unused_imports)]
use crate::client::session::is_for_frame;
use crate::net::types::chunk::BlockChangeRecord;
use vstd::prelude::*;

verus! {

/// A block that gets another kind.
#[derive(Debug, Clone, Copy, PartialEq, Eq, Structural)]
pub struct BlockUpdate {
    pub x: i32,
    pub y: i32,
    pub z: i32,
    pub block: u8,
}

/// What happens to an entity.
#[derive(Debug, Clone, Copy, PartialEq)]
pub enum EntityChange {
    /// It goes on from where it is.
    MoveBy(Offset),
    /// It gets another velocity.
    Accelerate(EntitySpeed),
    /// It is put somewhere.
    Place(Offset),
    /// It is put somewhere, with a velocity.
    Launch(Offset, EntitySpeed),
}

/// What a packet changes in the world.
#[derive(Debug, PartialEq)]
pub enum Change {
    /// The data of a chunk cannot be decompressed. All that is owed is a warning.
    BadChunkData,
    /// Several chunks are loaded.
    LoadBatch(ChunkBatch),
    /// One chunk is loaded from its data.
    LoadChunk(ChunkHeader, Vec<u8>),
    /// All chunks go.
    ClearChunks,
    /// Blocks are set, in this order.
    SetBlocks(Vec<BlockUpdate>),
    /// Something happens to the entity with this number; it is created if it is not there.
    Entity(i32, EntityChange),
    /// The entities with these numbers go.
    RemoveEntities(Vec<i32>),
    /// The camera goes where the player is; it keeps its direction.
    MoveCamera(PlayerPosition),
    /// Nothing.
    Nothing,
}

/// The change that a batch of chunks brings, when its data decompresses to `inflated`.
pub open spec fn is_bulk_change(p: MapChunkBulk, inflated: Option<Seq<u8>>, c: Change) -> bool {
    match inflated {
        Some(bytes) => {
            &&& c matches Change::LoadBatch(batch)
            &&& batch.meta == p.meta
            &&& batch.sky_light_sent == p.sky_light_sent
            &&& batch.data@ == bytes
            &&& batch.loaded == 0
            &&& batch.offset == 0
        },
        None => c == Change::BadChunkData,
    }
}

/// The change that a single chunk brings, when its data decompresses to `inflated`.
pub open spec fn is_chunk_change(p: MapChunk, inflated: Option<Seq<u8>>, c: Change) -> bool {
    match inflated {
        Some(bytes) => {
            &&& c matches Change::LoadChunk(header, data)
            &&& header == single_header(p)
            &&& data@ == bytes
        },
        None => c == Change::BadChunkData,
    }
}

/// Where a record of a chunk puts which block.
pub open spec fn update_of(chunk_x: i32, chunk_z: i32, r: BlockChangeRecord) -> BlockUpdate {
    BlockUpdate {
        x: (chunk_x * 16 + r.x) as i32,
        y: r.y as i32,
        z: (chunk_z * 16 + r.z) as i32,
        block: (r.block_id % 0x100) as u8,
    }
}

/// Whether a block `within` a chunk has a coordinate.
pub open spec fn has_coordinate(chunk: i32, within: u8) -> bool {
    i32::MIN <= chunk * 16 && chunk * 16 + within <= i32::MAX
}

/// Whether all the blocks that a packet speaks of have coordinates.
pub open spec fn has_coordinates(p: MultiBlockChange) -> bool {
    forall|i: int|
        0 <= i < p.records@.len() ==> has_coordinate(p.chunk_x, (#[trigger] p.records@[i]).x)
            && has_coordinate(p.chunk_z, p.records@[i].z)
}

/// The blocks that a packet sets, in the order of its records.
pub open spec fn updates_of(p: MultiBlockChange) -> Seq<BlockUpdate> {
    p.records@.map_values(|r: BlockChangeRecord| update_of(p.chunk_x, p.chunk_z, r))
}

/// Whether `c` is what the packet changes in the world.
pub open spec fn is_change(p: Packet, c: Change) -> bool {
    match p {
        Packet::MapChunkBulk(b) => is_bulk_change(b, zlib_inflated(b.data@), c),
        Packet::MapChunk(m) => is_chunk_change(
            m,
            zlib_inflated(m.compressed_chunk_data@),
            c,
        ),
        Packet::Respawn => c == Change::ClearChunks,
        Packet::BlockChange { location, kind } => c matches Change::SetBlocks(v) && v@ == seq![
            BlockUpdate {
                x: location.x,
                y: location.y as i32,
                z: location.z,
                block: (kind.0 % 0x100) as u8,
            },
        ],
        Packet::MultiBlockChange(m) => c matches Change::SetBlocks(v) && v@ == updates_of(m),
        Packet::EntityMoveLook { entity_id, by } => c == Change::Entity(
            entity_id,
            EntityChange::MoveBy(by),
        ),
        Packet::RelEntityMove { entity_id, by } => c == Change::Entity(
            entity_id,
            EntityChange::MoveBy(by),
        ),
        Packet::EntityVelocity { entity_id, velocity } => c == Change::Entity(
            entity_id,
            EntityChange::Accelerate(velocity),
        ),
        Packet::SpawnEntityLiving { entity_id, at, velocity } => c == Change::Entity(
            entity_id.0,
            EntityChange::Launch(at, velocity),
        ),
        Packet::SpawnEntity { entity_id, at } => c == Change::Entity(
            entity_id.0,
            EntityChange::Place(at),
        ),
        Packet::NamedEntitySpawn { entity_id, at } => c == Change::Entity(
            entity_id.0,
            EntityChange::Place(at),
        ),
        Packet::EntityDestroy { entity_ids } => c == Change::RemoveEntities(entity_ids),
        Packet::PositionClientbound(at) => c == Change::MoveCamera(at),
        _ => c == Change::Nothing,
    }
}

/// Decides on a batch of chunks by what its data decompressed to.
pub fn bulk_change(p: MapChunkBulk, inflated: Option<Vec<u8>>) -> (c: Change)
    ensures
        is_bulk_change(
            p,
            match inflated {
                Some(v) => Some(v@),
                None => None,
            },
            c,
        ),
{
    match inflated {
        Some(data) => Change::LoadBatch(ChunkBatch::new(p, data)),
        None => Change::BadChunkData,
    }
}

/// Decides on a single chunk by what its data decompressed to.
pub fn chunk_change(p: &MapChunk, inflated: Option<Vec<u8>>) -> (c: Change)
    ensures
        is_chunk_change(
            *p,
            match inflated {
                Some(v) => Some(v@),
                None => None,
            },
            c,
        ),
{
    match inflated {
        Some(data) => Change::LoadChunk(header_of(p), data),
        None => Change::BadChunkData,
    }
}

/// Whether all the blocks that a packet speaks of have coordinates.
pub fn check_coordinates(p: &MultiBlockChange) -> (fit: bool)
    ensures
        fit == has_coordinates(*p),
{
    let mut i: usize = 0;
    while i < p.records.len()
        invariant
            i <= p.records@.len(),
            forall|j: int|
                0 <= j < i ==> has_coordinate(p.chunk_x, (#[trigger] p.records@[j]).x)
                    && has_coordinate(p.chunk_z, p.records@[j].z),
        decreases p.records@.len() - i,
    {
        let r: BlockChangeRecord = p.records[i];
        let x: i64 = p.chunk_x as i64 * 16;
        let z: i64 = p.chunk_z as i64 * 16;
        if x < i32::MIN as i64 || x + r.x as i64 > i32::MAX as i64 || z < i32::MIN as i64 || z
            + r.z as i64 > i32::MAX as i64 {
            assert(!has_coordinates(*p)) by {
                assert(p.records@[i as int] == r);
            }
            return false;
        }
        i = i + 1;
    }
    true
}

/// The blocks that a packet sets.
pub fn block_updates(p: &MultiBlockChange) -> (updates: Vec<BlockUpdate>)
    requires
        has_coordinates(*p),
    ensures
        updates@ == updates_of(*p),
        updates@.len() == p.records@.len(),
        forall|i: int|
            #![trigger updates@[i]]
            0 <= i < updates@.len() ==> {
                &&& updates@[i].x == 16 * p.chunk_x + p.records@[i].x
                &&& updates@[i].y == p.records@[i].y
                &&& updates@[i].z == 16 * p.chunk_z + p.records@[i].z
                &&& updates@[i].block == p.records@[i].block_id % 256
            },
{
    let mut updates: Vec<BlockUpdate> = Vec::new();
    let mut i: usize = 0;
    while i < p.records.len()
        invariant
            i <= p.records@.len(),
            has_coordinates(*p),
            updates@ == updates_of(*p).take(i as int),
        decreases p.records@.len() - i,
    {
        let r: BlockChangeRecord = p.records[i];
        let id: u16 = r.block_id;
        assert(has_coordinate(p.chunk_x, p.records@[i as int].x));
        assert(id as u8 == id % 0x100) by (bit_vector);
        updates.push(
            BlockUpdate {
                x: p.chunk_x * 16 + r.x as i32,
                y: r.y as i32,
                z: p.chunk_z * 16 + r.z as i32,
                block: id as u8,
            },
        );
        i = i + 1;
        assert(updates@ =~= updates_of(*p).take(i as int));
    }
    assert(updates_of(*p).take(i as int) =~= updates_of(*p));
    assert forall|i: int|
        #![trigger updates@[i]]
        0 <= i < updates@.len() implies updates@[i].x == 16 * p.chunk_x + p.records@[i].x
        && updates@[i].y == p.records@[i].y && updates@[i].z == 16 * p.chunk_z + p.records@[i].z
        && updates@[i].block == p.records@[i].block_id % 256 by {
        assert(has_coordinate(p.chunk_x, p.records@[i].x));
        assert(updates@[i] == update_of(p.chunk_x, p.chunk_z, p.records@[i]));
    }
    updates
}

/// Decides what a packet changes in the world.
pub fn change_of(p: Packet) -> (c: Change)
    requires
        p matches Packet::MultiBlockChange(m) ==> has_coordinates(m),
    ensures
        is_change(p, c),
{
    match p {
        Packet::MapChunkBulk(b) => {
            let inflated: Option<Vec<u8>> = inflate(b.data.as_slice());
            bulk_change(b, inflated)
        },
        Packet::MapChunk(m) => {
            let inflated: Option<Vec<u8>> = inflate(m.compressed_chunk_data.as_slice());
            chunk_change(&m, inflated)
        },
        Packet::Respawn => Change::ClearChunks,
        Packet::BlockChange { location, kind } => {
            let k: i32 = kind.0;
            assert(k as u8 == k % 0x100) by (bit_vector);
            let update = BlockUpdate {
                x: location.x,
                y: location.y as i32,
                z: location.z,
                block: k as u8,
            };
            let updates = vec![update];
            assert(updates@ =~= seq![update]);
            Change::SetBlocks(updates)
        },
        Packet::MultiBlockChange(m) => Change::SetBlocks(block_updates(&m)),
        Packet::EntityMoveLook { entity_id, by } => Change::Entity(
            entity_id,
            EntityChange::MoveBy(by),
        ),
        Packet::RelEntityMove { entity_id, by } => Change::Entity(
            entity_id,
            EntityChange::MoveBy(by),
        ),
        Packet::EntityVelocity { entity_id, velocity } => Change::Entity(
            entity_id,
            EntityChange::Accelerate(velocity),
        ),
        Packet::SpawnEntityLiving { entity_id, at, velocity } => Change::Entity(
            entity_id.0,
            EntityChange::Launch(at, velocity),
        ),
        Packet::SpawnEntity { entity_id, at } => Change::Entity(
            entity_id.0,
            EntityChange::Place(at),
        ),
        Packet::NamedEntitySpawn { entity_id, at } => Change::Entity(
            entity_id.0,
            EntityChange::Place(at),
        ),
        Packet::EntityDestroy { entity_ids } => Change::RemoveEntities(entity_ids),
        Packet::PositionClientbound(at) => Change::MoveCamera(at),
        _ => Change::Nothing,
    }
}

/// The frame loop is handed the packets that change the world and no others.
pub proof fn forwarded_packets_change_the_world(p: Packet, c: Change)
    requires
        is_change(p, c),
    ensures
        is_for_frame(p) <==> !(c is Nothing),
{
}

/// How many packets a frame deals with.
pub const PACKET_QUOTA: u32 = 64;

/// How many packets a frame may still deal with.
#[derive(Debug, Clone, Copy, PartialEq, Eq, Structural)]
pub struct PacketQuota {
    pub left: u32,
}

/// Whether a packet counts: one whose data is broken does not.
pub open spec fn counts(c: Change) -> bool {
    !(c is BadChunkData)
}

impl PacketQuota {
    /// What is left after one more packet.
    pub open spec fn less(self, c: Change) -> int {
        if counts(c) {
            self.left - 1
        } else {
            self.left as int
        }
    }

    /// The quota of a new frame.
    pub fn new() -> (quota: PacketQuota)
        ensures
            quota.left == PACKET_QUOTA,
    {
        PacketQuota { left: PACKET_QUOTA }
    }

    /// Counts a packet by what it changed, and says whether that was the last for this
    /// frame.
    pub fn count(&mut self, c: &Change) -> (reached: bool)
        requires
            old(self).left > 0,
        ensures
            final(self).left == old(self).less(*c),
            c is BadChunkData ==> final(self).left == old(self).left,
            !(c is BadChunkData) ==> final(self).left + 1 == old(self).left,
            reached == (final(self).left == 0),
    {
        match c {
            Change::BadChunkData => false,
            _ => {
                self.left = self.left - 1;
                self.left == 0
            },
        }
    }
}

/// How many of the packets count.
pub open spec fn counted(changes: Seq<Change>) -> int
    decreases changes.len(),
{
    if changes.len() == 0 {
        0
    } else {
        counted(changes.drop_last()) + if counts(changes.last()) {
            1int
        } else {
            0int
        }
    }
}

/// Whether `quotas` are the states of a new frame's quota as packets that bring `changes`
/// are dealt with, none of them after it was reached.
pub open spec fn is_frame(quotas: Seq<PacketQuota>, changes: Seq<Change>) -> bool {
    &&& quotas.len() == changes.len() + 1
    &&& quotas[0].left == PACKET_QUOTA
    &&& forall|i: int| 0 <= i < changes.len() ==> (#[trigger] quotas[i]).left > 0
    &&& forall|i: int|
        0 <= i < changes.len() ==> quotas[i + 1].left == quotas[i].less(#[trigger] changes[i])
}

/// A frame deals with no more packets than its quota, and the quota is reached with the last
/// of them and not before. Packets with broken data come on top.
pub proof fn frame_keeps_to_its_quota(quotas: Seq<PacketQuota>, changes: Seq<Change>)
    requires
        is_frame(quotas, changes),
    ensures
        counted(changes) == PACKET_QUOTA - quotas.last().left,
        counted(changes) <= PACKET_QUOTA,
        quotas.last().left == 0 <==> counted(changes) == PACKET_QUOTA,
    decreases changes.len(),
{
    if changes.len() > 0 {
        let before = changes.drop_last();
        let earlier = quotas.drop_last();
        assert forall|i: int| 0 <= i < before.len() implies earlier[i + 1].left
            == earlier[i].less(#[trigger] before[i]) by {
            assert(before[i] == changes[i]);
        }
        frame_keeps_to_its_quota(earlier, before);
        assert(quotas[changes.len() as int].left == quotas[changes.len() - 1].less(
            changes[changes.len() - 1],
        ));
    }
}

} // verus!
