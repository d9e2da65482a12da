//! Chunks as they come from the server: compressed, one or several at a time.

use crate::client::packets::{MapChunk, MapChunkBulk};
use crate::net::types::chunk::ChunkMetadata;
use std::io::Read;
use vstd::prelude::*;

verus! {

/// `std::io::Error`: why a decoder gave up.
#[verifier::external_type_specification]
#[verifier::external_body]
pub struct ExIoError(std::io::Error);

/// What the zlib stream at the front of `s` decompresses to, or nothing where it is broken
/// or cut short.
pub uninterp spec fn zlib_inflated(s: Seq<u8>) -> Option<Seq<u8>>;

/// `flate2::read::ZlibDecoder` read to its end: what the stream at the front of `s`
/// decompresses to, as `zlib_inflated` says. Bytes behind the stream are left alone.
#[verifier::external_body]
fn read_zlib(s: &[u8]) -> (res: Result<Vec<u8>, std::io::Error>)
    ensures
        match zlib_inflated(s@) {
            Some(bytes) => res matches Ok(out) && out@ == bytes,
            None => res is Err,
        },
{
    let mut out = Vec::new();
    flate2::read::ZlibDecoder::new(s).read_to_end(&mut out).map(|_| out)
}

/// Decompresses the data of a chunk; there is none where it is broken.
pub fn inflate(s: &[u8]) -> (out: Option<Vec<u8>>)
    ensures
        match zlib_inflated(s@) {
            Some(bytes) => out matches Some(v) && v@ == bytes,
            None => out is None,
        },
{
    match read_zlib(s) {
        Ok(v) => Some(v),
        Err(_) => None,
    }
}

/// What has to be known of a chunk to load it from its data.
#[derive(Debug, Clone, Copy, PartialEq, Eq, Structural)]
pub struct ChunkHeader {
    pub x: i32,
    pub z: i32,
    pub primary_bitmap: u16,
    pub add_bitmap: u16,
    pub sky_light_sent: bool,
    pub ground_up: bool,
}

/// The header of a chunk that came with others: such chunks are always whole.
pub open spec fn bulk_header(m: ChunkMetadata, sky_light_sent: bool) -> ChunkHeader {
    ChunkHeader {
        x: m.chunk_x,
        z: m.chunk_z,
        primary_bitmap: m.primary_bitmap,
        add_bitmap: m.add_bitmap,
        sky_light_sent,
        ground_up: true,
    }
}

/// The header of a chunk that came alone: its data is loaded as if it had no sky light.
pub open spec fn single_header(p: MapChunk) -> ChunkHeader {
    ChunkHeader {
        x: p.x,
        z: p.z,
        primary_bitmap: p.bit_map,
        add_bitmap: p.add_bit_map,
        sky_light_sent: false,
        ground_up: p.ground_up,
    }
}

/// The header of a chunk that came alone.
pub fn header_of(p: &MapChunk) -> (h: ChunkHeader)
    ensures
        h == single_header(*p),
        h.x == p.x,
        h.z == p.z,
        h.primary_bitmap == p.bit_map,
        h.add_bitmap == p.add_bit_map,
        h.ground_up == p.ground_up,
        !h.sky_light_sent,
{
    ChunkHeader {
        x: p.x,
        z: p.z,
        primary_bitmap: p.bit_map,
        add_bitmap: p.add_bit_map,
        sky_light_sent: false,
        ground_up: p.ground_up,
    }
}

/// Chunks that came together and are loaded one after the other. How much of the data a
/// chunk takes is known only once it is loaded; the next one begins there.
#[derive(Debug, PartialEq)]
pub struct ChunkBatch {
    pub meta: Vec<ChunkMetadata>,
    pub sky_light_sent: bool,
    pub data: Vec<u8>,
    /// How many chunks have been loaded.
    pub loaded: usize,
    /// How much of the data they took.
    pub offset: usize,
}

impl ChunkBatch {
    /// No more chunks are loaded than there are.
    pub open spec fn wf(self) -> bool {
        self.loaded <= self.meta@.len()
    }

    /// The same batch with `loaded` chunks loaded, which took `offset` bytes.
    pub open spec fn is_at(self, from: ChunkBatch, loaded: int, offset: int) -> bool {
        &&& self.meta == from.meta
        &&& self.sky_light_sent == from.sky_light_sent
        &&& self.data == from.data
        &&& self.loaded == loaded
        &&& self.offset == offset
    }

    /// How many bytes lie behind the chunks that have been loaded.
    pub open spec fn left_over(self) -> int {
        self.data@.len() - self.offset
    }

    /// A batch of which nothing is loaded yet.
    pub fn new(p: MapChunkBulk, data: Vec<u8>) -> (batch: ChunkBatch)
        ensures
            batch.wf(),
            batch.meta == p.meta,
            batch.sky_light_sent == p.sky_light_sent,
            batch.data == data,
            batch.loaded == 0,
            batch.offset == 0,
    {
        ChunkBatch {
            meta: p.meta,
            sky_light_sent: p.sky_light_sent,
            data,
            loaded: 0,
            offset: 0,
        }
    }

    /// The next chunk to be loaded, with the data from its beginning on.
    pub fn next_chunk(&self) -> (next: Option<(ChunkHeader, &[u8])>)
        requires
            self.wf(),
            self.loaded < self.meta@.len() ==> self.offset <= self.data@.len(),
        ensures
            self.loaded == self.meta@.len() ==> next is None,
            self.loaded < self.meta@.len() ==> {
                &&& next matches Some((header, data))
                &&& header == bulk_header(self.meta@[self.loaded as int], self.sky_light_sent)
                &&& header.x == self.meta@[self.loaded as int].chunk_x
                &&& header.z == self.meta@[self.loaded as int].chunk_z
                &&& header.primary_bitmap == self.meta@[self.loaded as int].primary_bitmap
                &&& header.add_bitmap == self.meta@[self.loaded as int].add_bitmap
                &&& header.sky_light_sent == self.sky_light_sent
                &&& header.ground_up
                &&& data@ == self.data@.subrange(self.offset as int, self.data@.len() as int)
            },
    {
        if self.loaded == self.meta.len() {
            None
        } else {
            let m: ChunkMetadata = self.meta[self.loaded];
            let (_, data) = self.data.as_slice().split_at(self.offset);
            Some(
                (
                    ChunkHeader {
                        x: m.chunk_x,
                        z: m.chunk_z,
                        primary_bitmap: m.primary_bitmap,
                        add_bitmap: m.add_bitmap,
                        sky_light_sent: self.sky_light_sent,
                        ground_up: true,
                    },
                    data,
                ),
            )
        }
    }

    /// Goes on to the next chunk: the last one took `bytes_read` bytes.
    pub fn chunk_loaded(&mut self, bytes_read: usize)
        requires
            old(self).wf(),
            old(self).loaded < old(self).meta@.len(),
            old(self).offset + bytes_read <= usize::MAX,
        ensures
            final(self).wf(),
            final(self).is_at(
                *old(self),
                old(self).loaded + 1,
                old(self).offset + bytes_read,
            ),
            final(self).loaded == old(self).loaded + 1,
            final(self).offset == old(self).offset + bytes_read,
            final(self).meta@ == old(self).meta@,
            final(self).data@ == old(self).data@,
            final(self).sky_light_sent == old(self).sky_light_sent,
    {
        assert(self.loaded < self.meta.len());
        self.loaded = self.loaded + 1;
        self.offset = self.offset + bytes_read;
    }

    /// Whether the chunks so far have left some of the data.
    pub fn has_trailing_data(&self) -> (trailing: bool)
        ensures
            trailing == (self.offset < self.data@.len()),
            trailing <==> self.left_over() > 0,
    {
        self.offset < self.data.len()
    }
}

/// How much of the data a row of chunks takes.
pub open spec fn taken(sizes: Seq<usize>) -> int
    decreases sizes.len(),
{
    if sizes.len() == 0 {
        0
    } else {
        taken(sizes.drop_last()) + sizes.last()
    }
}

/// Whether `steps` are the states of a batch as chunks of the given sizes are loaded from it.
pub open spec fn walks(steps: Seq<ChunkBatch>, sizes: Seq<usize>) -> bool {
    &&& steps.len() == sizes.len() + 1
    &&& forall|i: int|
        #![trigger sizes[i]]
        0 <= i < sizes.len() ==> steps[i + 1].is_at(
            steps[i],
            steps[i].loaded + 1,
            steps[i].offset + sizes[i],
        )
}

/// Each chunk of a batch begins where the ones before it end, and when all are loaded the
/// batch has come as far into the data as they are long together.
pub proof fn chunks_follow_each_other(steps: Seq<ChunkBatch>, sizes: Seq<usize>)
    requires
        walks(steps, sizes),
        steps[0].loaded == 0,
        steps[0].offset == 0,
    ensures
        forall|i: int|
            #![trigger steps[i]]
            0 <= i < steps.len() ==> steps[i].is_at(steps[0], i, taken(sizes.take(i))),
        steps.last().is_at(steps[0], sizes.len() as int, taken(sizes)),
{
    assert forall|i: int|
        #![trigger steps[i]]
        0 <= i < steps.len() implies steps[i].is_at(steps[0], i, taken(sizes.take(i))) by {
        lemma_step(steps, sizes, i);
    }
    assert(sizes.take(sizes.len() as int) =~= sizes);
}

/// The state of a batch after `i` chunks.
proof fn lemma_step(steps: Seq<ChunkBatch>, sizes: Seq<usize>, i: int)
    requires
        walks(steps, sizes),
        steps[0].loaded == 0,
        steps[0].offset == 0,
        0 <= i < steps.len(),
    ensures
        steps[i].is_at(steps[0], i, taken(sizes.take(i))),
    decreases i,
{
    if i > 0 {
        lemma_step(steps, sizes, i - 1);
        let size = sizes[i - 1];
        assert(sizes.take(i).drop_last() =~= sizes.take(i - 1));
    }
}

} // verus!
