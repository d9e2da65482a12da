//! What packets say of chunks and of the blocks in them.

use crate::net::error::PacketError;
use crate::net::packet_helpers::{Encoded, Serializable};
use vstd::prelude::*;

verus! {

/// Which sections of a chunk a bulk packet holds.
#[derive(Debug, Clone, Copy, PartialEq, Eq, Structural)]
pub struct ChunkMetadata {
    pub chunk_x: i32,
    pub chunk_z: i32,
    pub primary_bitmap: u16,
    pub add_bitmap: u16,
}

impl View for ChunkMetadata {
    type V = ChunkMetadata;

    open spec fn view(&self) -> ChunkMetadata {
        *self
    }
}

impl Default for ChunkMetadata {
    fn default() -> (m: ChunkMetadata)
        ensures
            m == (ChunkMetadata { chunk_x: 0, chunk_z: 0, primary_bitmap: 0, add_bitmap: 0 }),
    {
        ChunkMetadata { chunk_x: 0, chunk_z: 0, primary_bitmap: 0, add_bitmap: 0 }
    }
}

impl Serializable for ChunkMetadata {
    open spec fn decode(s: Seq<u8>) -> Result<(ChunkMetadata, nat), PacketError> {
        match <(i32, (i32, (u16, u16)))>::decode(s) {
            Ok(((chunk_x, (chunk_z, (primary_bitmap, add_bitmap))), n)) => Ok(
                (ChunkMetadata { chunk_x, chunk_z, primary_bitmap, add_bitmap }, n),
            ),
            Err(e) => Err(e),
        }
    }

    open spec fn refused_after(s: Seq<u8>) -> Option<nat> {
        None
    }

    open spec fn encode(&self) -> Encoded {
        Encoded::refused(PacketError::NotWritable)
    }

    open spec fn survives(&self) -> bool {
        true
    }

    proof fn decode_stays_inside(s: Seq<u8>) {
        <(i32, (i32, (u16, u16)))>::decode_stays_inside(s);
    }

    proof fn decode_undoes_encode(&self, tail: Seq<u8>) {
    }

    fn read_from(r: &mut &[u8]) -> (res: Result<ChunkMetadata, PacketError>) {
        match <(i32, (i32, (u16, u16)))>::read_from(r) {
            Ok((chunk_x, (chunk_z, (primary_bitmap, add_bitmap)))) => Ok(
                ChunkMetadata { chunk_x, chunk_z, primary_bitmap, add_bitmap },
            ),
            Err(e) => Err(e),
        }
    }

    fn write_to(&self, w: &mut Vec<u8>) -> (res: Result<(), PacketError>) {
        Err(PacketError::NotWritable)
    }
}

/// A block that changed, by its place in its chunk.
#[derive(Debug, Clone, Copy, PartialEq, Eq, Structural)]
pub struct BlockChangeRecord {
    pub block_meta: u8,
    pub block_id: u16,
    pub y: u8,
    pub z: u8,
    pub x: u8,
}

impl View for BlockChangeRecord {
    type V = BlockChangeRecord;

    open spec fn view(&self) -> BlockChangeRecord {
        *self
    }
}

impl Default for BlockChangeRecord {
    fn default() -> (b: BlockChangeRecord)
        ensures
            b == (BlockChangeRecord { block_meta: 0, block_id: 0, y: 0, z: 0, x: 0 }),
    {
        BlockChangeRecord { block_meta: 0, block_id: 0, y: 0, z: 0, x: 0 }
    }
}

/// The record that is packed into a word: from the top, four bits of x, four of z, eight
/// of y, twelve of the block's id and four of its metadata.
pub open spec fn record(v: u32) -> BlockChangeRecord {
    BlockChangeRecord {
        block_meta: (v % 0x10) as u8,
        block_id: (v / 0x10 % 0x1000) as u16,
        y: (v / 0x1_0000 % 0x100) as u8,
        z: (v / 0x100_0000 % 0x10) as u8,
        x: (v / 0x1000_0000) as u8,
    }
}

/// A record lies inside its chunk, and names the word that it came from.
pub proof fn record_keeps_word(v: u32)
    ensures
        record(v).x < 16,
        record(v).z < 16,
        record(v).block_meta < 16,
        record(v).block_id < 4096,
        v == record(v).x * 0x1000_0000 + record(v).z * 0x100_0000 + record(v).y * 0x1_0000
            + record(v).block_id * 0x10 + record(v).block_meta,
{
    let a = v / 0x10;
    let b = v / 0x1_0000;
    let c = v / 0x100_0000;
    let d = v / 0x1000_0000;
    assert(a / 0x1000 == b && b / 0x100 == c && c / 0x10 == d) by (bit_vector)
        requires
            a == v / 0x10,
            b == v / 0x1_0000,
            c == v / 0x100_0000,
            d == v / 0x1000_0000,
    ;
    assert(v == a * 0x10 + v % 0x10);
    assert(a == b * 0x1000 + a % 0x1000);
    assert(b == c * 0x100 + b % 0x100);
    assert(c == d * 0x10 + c % 0x10);
}

impl Serializable for BlockChangeRecord {
    open spec fn decode(s: Seq<u8>) -> Result<(BlockChangeRecord, nat), PacketError> {
        match u32::decode(s) {
            Ok((v, n)) => Ok((record(v), n)),
            Err(e) => Err(e),
        }
    }

    open spec fn refused_after(s: Seq<u8>) -> Option<nat> {
        None
    }

    open spec fn encode(&self) -> Encoded {
        Encoded::refused(PacketError::NotWritable)
    }

    open spec fn survives(&self) -> bool {
        true
    }

    proof fn decode_stays_inside(s: Seq<u8>) {
        u32::decode_stays_inside(s);
    }

    proof fn decode_undoes_encode(&self, tail: Seq<u8>) {
    }

    fn read_from(r: &mut &[u8]) -> (res: Result<BlockChangeRecord, PacketError>) {
        let v: u32 = match u32::read_from(r) {
            Ok(v) => v,
            Err(e) => {
                return Err(e);
            },
        };
        proof {
            assert(v & 0x0f == v % 0x10) by (bit_vector);
            assert((v >> 4) & 0x0fff == v / 0x10 % 0x1000) by (bit_vector);
            assert((v >> 16) & 0xff == v / 0x1_0000 % 0x100) by (bit_vector);
            assert((v >> 24) & 0x0f == v / 0x100_0000 % 0x10) by (bit_vector);
            assert((v >> 28) & 0x0f == v / 0x1000_0000) by (bit_vector);
        }
        Ok(
            BlockChangeRecord {
                block_meta: (v & 0x0f) as u8,
                block_id: ((v >> 4) & 0x0fff) as u16,
                y: ((v >> 16) & 0xff) as u8,
                z: ((v >> 24) & 0x0f) as u8,
                x: ((v >> 28) & 0x0f) as u8,
            },
        )
    }

    fn write_to(&self, w: &mut Vec<u8>) -> (res: Result<(), PacketError>) {
        Err(PacketError::NotWritable)
    }
}

} // verus!
