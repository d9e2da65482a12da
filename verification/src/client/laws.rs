//! What holds of the client's decisions, case by case.

use crate::client::chunk_data::{bulk_header, zlib_inflated, ChunkBatch};
use crate::client::drawing::{is_position_frame};
use crate::client::frame::{
    has_coordinate, has_coordinates, is_bulk_change, is_change, is_chunk_change, update_of,
    updates_of, Change, EntityChange, PacketQuota, PACKET_QUOTA,
};
use crate::client::packets::{
    is_frequent, ClientState, EntitySpeed, MapChunk, MapChunkBulk, MultiBlockChange, Offset,
    Packet, PlayerPosition,
};
use crate::client::sections::{
    dirty, dirty_in, is_pass, Column, Section, SectionPos, };
use crate::client::session::{is_for_frame, reaction, Action, Phase};
use crate::client::window::{ends, lines_after, Key, WindowInput};
use crate::net::error::PacketError;
use crate::net::types::chunk::{BlockChangeRecord, ChunkMetadata};
use crate::net::types::position::PositionIBI;
use crate::net::varint::VarInt;
use vstd::prelude::*;

verus! {

/// The login ends with the packet number 2 and goes on with every other, whatever the packet
/// says, and nothing is done about it.
pub proof fn login_waits_for_its_packet(id: i32, decoded: Result<Packet, PacketError>)
    ensures
        reaction(Phase::Login, id, decoded).1.len() == 0,
        id == 2 ==> reaction(Phase::Login, id, decoded).0 == Phase::AwaitingPosition,
        id != 2 ==> reaction(Phase::Login, id, decoded).0 == Phase::Login,
{
}

/// The wait for the position goes on with every packet that does not give it, also with one
/// that cannot be decoded, and nothing is done about them.
pub proof fn wait_goes_on(id: i32, decoded: Result<Packet, PacketError>)
    requires
        decoded matches Ok(p) ==> !(p is PositionClientbound),
    ensures
        reaction(Phase::AwaitingPosition, id, decoded).0 == Phase::AwaitingPosition,
        reaction(Phase::AwaitingPosition, id, decoded).1.len() == 0,
{
}

/// The first position starts the game: the camera is set to it, the very position is sent back,
/// and the command 0 is sent.
pub proof fn first_position_is_answered(id: i32, at: PlayerPosition)
    ensures
        ({
            let (phase, done) = reaction(
                Phase::AwaitingPosition,
                id,
                Ok(Packet::PositionClientbound(at)),
            );
            &&& phase == Phase::Play
            &&& done.len() == 3
            &&& done[0] == Action::SetCamera(at)
            &&& done[1] == Action::Send(ClientState::Play, Packet::PositionLook(at))
            &&& done[2] == Action::Send(ClientState::Play, Packet::ClientCommand { payload: 0u8 })
        }),
{
}

/// A later position is handed to the frame loop, and the very position is sent back.
pub proof fn later_position_is_answered(id: i32, at: PlayerPosition)
    ensures
        ({
            let (phase, done) = reaction(Phase::Play, id, Ok(Packet::PositionClientbound(at)));
            &&& phase == Phase::Play
            &&& done.len() == 2
            &&& done[0] == Action::Forward(Packet::PositionClientbound(at))
            &&& done[1] == Action::Send(ClientState::Play, Packet::PositionLook(at))
        }),
{
}

/// Whether an action sends a position to the server.
pub open spec fn sends_a_position(a: Action) -> bool {
    match a {
        Action::Send(_, Packet::PositionLook(_)) => true,
        _ => false,
    }
}

/// Of every position that the server gives, just one is sent back, and it agrees with it in
/// each of its parts.
pub proof fn position_comes_back_unchanged(phase: Phase, id: i32, at: PlayerPosition)
    requires
        phase == Phase::AwaitingPosition || phase == Phase::Play,
    ensures
        ({
            let done = reaction(phase, id, Ok(Packet::PositionClientbound(at))).1;
            exists|i: int| 0 <= i < done.len() && sends_a_position(#[trigger] done[i])
        }),
        ({
            let done = reaction(phase, id, Ok(Packet::PositionClientbound(at))).1;
            forall|i: int, j: int|
                0 <= i < j < done.len() ==> !sends_a_position(#[trigger] done[i])
                    || !sends_a_position(#[trigger] done[j])
        }),
        ({
            let done = reaction(phase, id, Ok(Packet::PositionClientbound(at))).1;
            forall|i: int|
                0 <= i < done.len() ==> match #[trigger] done[i] {
                    Action::Send(state, Packet::PositionLook(q)) => {
                        &&& state == ClientState::Play
                        &&& q.x.bits == at.x.bits
                        &&& q.y.bits == at.y.bits
                        &&& q.z.bits == at.z.bits
                        &&& q.yaw.bits == at.yaw.bits
                        &&& q.pitch.bits == at.pitch.bits
                        &&& q.on_ground == at.on_ground
                    },
                    _ => true,
                }
        }),
{
    let done = reaction(phase, id, Ok(Packet::PositionClientbound(at))).1;
    assert(sends_a_position(done[1]));
}

/// What is said in the game is passed on word for word: a message to the log, the reason of a
/// disconnect to the log, which ends the session, and the scoreboard to the output.
pub proof fn words_are_passed_on(id: i32, message: String)
    ensures
        reaction(Phase::Play, id, Ok(Packet::ChatClientbound { message })) == (
            Phase::Play,
            seq![Action::Chat(message)],
        ),
        reaction(Phase::Play, id, Ok(Packet::Disconnect { reason: message })) == (
            Phase::Closed,
            seq![Action::Disconnected(message)],
        ),
        reaction(Phase::Play, id, Ok(Packet::ScoreboardScore { text: message })) == (
            Phase::Play,
            seq![Action::Print(Packet::ScoreboardScore { text: message })],
        ),
        reaction(Phase::Play, id, Ok(Packet::ScoreboardObjective { text: message })) == (
            Phase::Play,
            seq![Action::Print(Packet::ScoreboardObjective { text: message })],
        ),
{
}

/// A packet of the game that cannot be decoded is reported with its own number and error, and
/// the game goes on.
pub proof fn bad_packets_are_reported(id: i32, e: PacketError)
    ensures
        reaction(Phase::Play, id, Err(e)) == (Phase::Play, seq![Action::DecodeFailed(id, e)]),
{
}

/// The frame loop gets the packets that change the world as they are, each of them once, and
/// nothing else is done about them.
pub proof fn world_packets_are_handed_on(id: i32, p: Packet)
    requires
        match p {
            Packet::Respawn => true,
            Packet::MapChunkBulk(_) => true,
            Packet::MapChunk(_) => true,
            Packet::BlockChange { .. } => true,
            Packet::MultiBlockChange(_) => true,
            Packet::EntityDestroy { .. } => true,
            Packet::EntityMoveLook { .. } => true,
            Packet::RelEntityMove { .. } => true,
            Packet::EntityVelocity { .. } => true,
            Packet::SpawnEntity { .. } => true,
            Packet::SpawnEntityLiving { .. } => true,
            Packet::NamedEntitySpawn { .. } => true,
            _ => false,
        },
    ensures
        reaction(Phase::Play, id, Ok(p)) == (Phase::Play, seq![Action::Forward(p)]),
        is_for_frame(p),
{
}

/// Nothing is done about the other packets.
pub proof fn other_packets_are_left_alone(id: i32, p: Packet)
    requires
        match p {
            Packet::SetProtocol { .. } => true,
            Packet::LoginStart { .. } => true,
            Packet::KeepAliveServerbound { .. } => true,
            Packet::PositionLook(_) => true,
            Packet::ClientCommand { .. } => true,
            Packet::EntityLook => true,
            Packet::EntityHeadRotation => true,
            Packet::EntityMetadata => true,
            Packet::UpdateAttributes => true,
            Packet::Other { .. } => true,
            _ => false,
        },
    ensures
        reaction(Phase::Play, id, Ok(p)).0 == Phase::Play,
        reaction(Phase::Play, id, Ok(p)).1.len() == 0,
        !is_for_frame(p),
{
}

/// Nothing is done about anything once the session has ended, and it does not start again.
pub proof fn the_end_is_the_end(id: i32, decoded: Result<Packet, PacketError>)
    ensures
        reaction(Phase::Closed, id, decoded).0 == Phase::Closed,
        reaction(Phase::Closed, id, decoded).1.len() == 0,
{
}

/// The packets of chunks and of entities in motion are too many for the log, whatever they
/// say; every other packet has its line in it.
pub proof fn frequent_packets_are_those_of_motion(p: Packet)
    ensures
        is_frequent(p) <==> match p {
            Packet::MapChunk(_) => true,
            Packet::MapChunkBulk(_) => true,
            Packet::NamedEntitySpawn { .. } => true,
            Packet::SpawnEntity { .. } => true,
            Packet::SpawnEntityLiving { .. } => true,
            Packet::EntityVelocity { .. } => true,
            Packet::EntityDestroy { .. } => true,
            Packet::RelEntityMove { .. } => true,
            Packet::EntityLook => true,
            Packet::EntityMoveLook { .. } => true,
            Packet::EntityHeadRotation => true,
            Packet::EntityMetadata => true,
            Packet::UpdateAttributes => true,
            _ => false,
        },
{
}

/// A batch is loaded from what its data decompresses to, from the beginning and with the flag
/// and the chunks of its packet; where it does not decompress, there is nothing to load.
pub proof fn batch_keeps_its_packet(p: MapChunkBulk, c: Change)
    requires
        is_change(Packet::MapChunkBulk(p), c),
    ensures
        zlib_inflated(p.data@) is None ==> c is BadChunkData,
        zlib_inflated(p.data@) matches Some(bytes) ==> {
            &&& c matches Change::LoadBatch(batch)
            &&& batch.data@ == bytes
            &&& batch.meta@ == p.meta@
            &&& batch.sky_light_sent == p.sky_light_sent
            &&& batch.loaded == 0 && batch.offset == 0
        },
{
}

/// A batch by what its data decompressed to, whatever that is.
pub proof fn batch_goes_by_its_data(p: MapChunkBulk, inflated: Option<Seq<u8>>, c: Change)
    requires
        is_bulk_change(p, inflated, c),
    ensures
        inflated is None ==> c is BadChunkData,
        inflated matches Some(bytes) ==> {
            &&& c matches Change::LoadBatch(batch)
            &&& batch.data@ == bytes
            &&& batch.meta@ == p.meta@
            &&& batch.sky_light_sent == p.sky_light_sent
            &&& batch.loaded == 0 && batch.offset == 0
        },
{
}

/// A chunk of a batch is loaded where its metadata says, with the sections that it says and
/// with sky light if and only if the packet has it; it is always whole.
pub proof fn bulk_chunk_keeps_its_metadata(m: ChunkMetadata, sky: bool)
    ensures
        bulk_header(m, sky).x == m.chunk_x,
        bulk_header(m, sky).z == m.chunk_z,
        bulk_header(m, sky).primary_bitmap == m.primary_bitmap,
        bulk_header(m, sky).add_bitmap == m.add_bitmap,
        bulk_header(m, sky).sky_light_sent == sky,
        bulk_header(m, sky).ground_up,
{
}

/// A single chunk is loaded from what its data decompresses to, where its packet says, with
/// the sections that it says, whole if the packet says so, and never with sky light.
pub proof fn single_chunk_keeps_its_packet(p: MapChunk, c: Change)
    requires
        is_change(Packet::MapChunk(p), c),
    ensures
        zlib_inflated(p.compressed_chunk_data@) is None ==> c is BadChunkData,
        zlib_inflated(p.compressed_chunk_data@) matches Some(bytes) ==> {
            &&& c matches Change::LoadChunk(h, data)
            &&& data@ == bytes
            &&& h.x == p.x && h.z == p.z
            &&& h.primary_bitmap == p.bit_map && h.add_bitmap == p.add_bit_map
            &&& h.ground_up == p.ground_up
            &&& !h.sky_light_sent
        },
{
}

/// A single chunk by what its data decompressed to, whatever that is.
pub proof fn single_chunk_goes_by_its_data(p: MapChunk, inflated: Option<Seq<u8>>, c: Change)
    requires
        is_chunk_change(p, inflated, c),
    ensures
        inflated is None ==> c is BadChunkData,
        inflated matches Some(bytes) ==> {
            &&& c matches Change::LoadChunk(h, data)
            &&& data@ == bytes
            &&& h.x == p.x && h.z == p.z
            &&& h.primary_bitmap == p.bit_map && h.add_bitmap == p.add_bit_map
            &&& h.ground_up == p.ground_up
            &&& !h.sky_light_sent
        },
{
}

/// What the loaded chunks took and what is left over are all of the data.
pub proof fn taken_and_left_over_are_all(batch: ChunkBatch)
    ensures
        batch.left_over() + batch.offset == batch.data@.len(),
{
}

/// A record sets the block at its own height, and as far into its chunk as it says, to the low
/// byte of its number.
pub proof fn record_sets_its_block(chunk_x: i32, chunk_z: i32, r: BlockChangeRecord)
    requires
        i32::MIN <= chunk_x * 16 && chunk_x * 16 + r.x <= i32::MAX,
        i32::MIN <= chunk_z * 16 && chunk_z * 16 + r.z <= i32::MAX,
    ensures
        ({
            let u = update_of(chunk_x, chunk_z, r);
            &&& u.y == r.y
            &&& u.x - r.x == 16 * chunk_x
            &&& u.z - r.z == 16 * chunk_z
            &&& r.x < 16 ==> u.x % 16 == r.x as int && u.x / 16 == chunk_x as int
            &&& r.z < 16 ==> u.z % 16 == r.z as int && u.z / 16 == chunk_z as int
            &&& (r.block_id - u.block) % 256 == 0
        }),
{
}

/// Every record of a packet sets its block, in the order of the records.
pub proof fn records_set_their_blocks(p: MultiBlockChange, c: Change)
    requires
        has_coordinates(p),
        is_change(Packet::MultiBlockChange(p), c),
    ensures
        c matches Change::SetBlocks(v) && v@.len() == p.records@.len() && forall|i: int|
            #![trigger v@[i]]
            0 <= i < p.records@.len() ==> {
                &&& v@[i].y == p.records@[i].y
                &&& v@[i].x == 16 * p.chunk_x + p.records@[i].x
                &&& v@[i].z == 16 * p.chunk_z + p.records@[i].z
                &&& v@[i].block == p.records@[i].block_id % 256
            },
{
    if let Change::SetBlocks(v) = c {
        assert forall|i: int|
            #![trigger v@[i]]
            0 <= i < p.records@.len() implies v@[i].y == p.records@[i].y && v@[i].x == 16
            * p.chunk_x + p.records@[i].x && v@[i].z == 16 * p.chunk_z + p.records@[i].z
            && v@[i].block == p.records@[i].block_id % 256 by {
            let r = p.records@[i];
            assert(has_coordinate(p.chunk_x, r.x) && has_coordinate(p.chunk_z, r.z));
            assert(v@[i] == update_of(p.chunk_x, p.chunk_z, r));
        }
    }
}

/// Records at different places set different blocks.
pub proof fn different_places_are_different_blocks(p: MultiBlockChange, i: int, j: int)
    requires
        has_coordinates(p),
        0 <= i < p.records@.len(),
        0 <= j < p.records@.len(),
        p.records@[i].x != p.records@[j].x || p.records@[i].y != p.records@[j].y
            || p.records@[i].z != p.records@[j].z,
    ensures
        ({
            let a = updates_of(p)[i];
            let b = updates_of(p)[j];
            a.x != b.x || a.y != b.y || a.z != b.z
        }),
{
    let r = p.records@[i];
    let t = p.records@[j];
    assert(has_coordinate(p.chunk_x, r.x) && has_coordinate(p.chunk_z, r.z));
    assert(has_coordinate(p.chunk_x, t.x) && has_coordinate(p.chunk_z, t.z));
}

/// Coordinates fit where the first and the last of a chunk's blocks do.
pub proof fn coordinates_fit(chunk: i32, within: u8)
    ensures
        has_coordinate(chunk, within) <==> -0x8000_0000 <= 16 * chunk && 16 * chunk + within
            <= 0x7fff_ffff,
{
}

/// Coordinates fit for a packet where they fit for each of its records.
pub proof fn all_coordinates_fit(p: MultiBlockChange, i: int)
    requires
        has_coordinates(p),
        0 <= i < p.records@.len(),
    ensures
        -0x8000_0000 <= 16 * p.chunk_x && 16 * p.chunk_x + p.records@[i].x <= 0x7fff_ffff,
        -0x8000_0000 <= 16 * p.chunk_z && 16 * p.chunk_z + p.records@[i].z <= 0x7fff_ffff,
{
    assert(has_coordinate(p.chunk_x, p.records@[i].x));
}

/// Where coordinates do not fit for a packet, there is a record for which they do not.
pub proof fn some_coordinate_does_not_fit(p: MultiBlockChange)
    requires
        !has_coordinates(p),
    ensures
        exists|i: int|
            0 <= i < p.records@.len() && (16 * p.chunk_x < -0x8000_0000 || 16 * p.chunk_x + (
            #[trigger] p.records@[i]).x > 0x7fff_ffff || 16 * p.chunk_z < -0x8000_0000 || 16
                * p.chunk_z + p.records@[i].z > 0x7fff_ffff),
{
}

/// A single change sets the one block at its location to the low byte of its number.
pub proof fn block_change_sets_its_block(location: PositionIBI, kind: VarInt, c: Change)
    requires
        is_change(Packet::BlockChange { location, kind }, c),
    ensures
        c matches Change::SetBlocks(v) && v@.len() == 1 && v@[0].x == location.x && v@[0].y
            == location.y && v@[0].z == location.z && (kind.0 - v@[0].block) % 256 == 0,
{
}

/// What happens to an entity happens to the one with its number, by just what the packet says.
pub proof fn entities_change_as_told(
    entity_id: i32,
    at: Offset,
    velocity: EntitySpeed,
    a: Change,
    b: Change,
    c: Change,
    d: Change,
    e: Change,
    f: Change,
)
    requires
        is_change(Packet::EntityMoveLook { entity_id, by: at }, a),
        is_change(Packet::RelEntityMove { entity_id, by: at }, b),
        is_change(Packet::EntityVelocity { entity_id, velocity }, c),
        is_change(Packet::SpawnEntityLiving { entity_id: VarInt(entity_id), at, velocity }, d),
        is_change(Packet::SpawnEntity { entity_id: VarInt(entity_id), at }, e),
        is_change(Packet::NamedEntitySpawn { entity_id: VarInt(entity_id), at }, f),
    ensures
        a == Change::Entity(entity_id, EntityChange::MoveBy(at)),
        b == Change::Entity(entity_id, EntityChange::MoveBy(at)),
        c == Change::Entity(entity_id, EntityChange::Accelerate(velocity)),
        d == Change::Entity(entity_id, EntityChange::Launch(at, velocity)),
        e == Change::Entity(entity_id, EntityChange::Place(at)),
        f == Change::Entity(entity_id, EntityChange::Place(at)),
{
}

/// A respawn clears the chunks, a position moves the camera there, and entities that go are
/// those of the packet.
pub proof fn the_rest_changes_as_told(
    at: PlayerPosition,
    entity_ids: Vec<i32>,
    a: Change,
    b: Change,
    c: Change,
)
    requires
        is_change(Packet::Respawn, a),
        is_change(Packet::PositionClientbound(at), b),
        is_change(Packet::EntityDestroy { entity_ids }, c),
    ensures
        a == Change::ClearChunks,
        b == Change::MoveCamera(at),
        c matches Change::RemoveEntities(ids) && ids@ == entity_ids@,
{
}

/// A packet that is not for the frame changes nothing.
pub proof fn other_packets_change_nothing(p: Packet, c: Change)
    requires
        is_change(p, c),
        match p {
            Packet::SetProtocol { .. } => true,
            Packet::LoginStart { .. } => true,
            Packet::KeepAliveServerbound { .. } => true,
            Packet::PositionLook(_) => true,
            Packet::ClientCommand { .. } => true,
            Packet::KeepAliveClientbound { .. } => true,
            Packet::ChatClientbound { .. } => true,
            Packet::EntityLook => true,
            Packet::EntityHeadRotation => true,
            Packet::EntityMetadata => true,
            Packet::UpdateAttributes => true,
            Packet::ScoreboardObjective { .. } => true,
            Packet::ScoreboardScore { .. } => true,
            Packet::Disconnect { .. } => true,
            Packet::Other { .. } => true,
            _ => false,
        },
    ensures
        c == Change::Nothing,
{
}

/// A frame has 64 packets; broken data takes none of them, and everything else one.
pub proof fn packets_are_counted_one_by_one(quota: PacketQuota, c: Change)
    ensures
        PACKET_QUOTA == 64,
        quota.less(Change::BadChunkData) == quota.left,
        c is BadChunkData <==> quota.less(c) == quota.left,
        !(c is BadChunkData) ==> quota.less(c) + 1 == quota.left,
{
}

/// The dirty sections of a chunk are found from the lowest up, each at its own height in its
/// own chunk.
pub proof fn dirty_sections_of_a_chunk(x: i32, z: i32, sections: Seq<Section>)
    requires
        sections.len() <= 0x8000_0000,
    ensures
        forall|p: SectionPos| #[trigger]
            dirty_in(x, z, sections).contains(p) <==> p.x == x && p.z == z && 0 <= p.y
                < sections.len() && sections[p.y as int] == Section::Dirty,
        forall|i: int, j: int|
            0 <= i < j < dirty_in(x, z, sections).len()
                ==> (#[trigger] dirty_in(x, z, sections)[i]).y
                < (#[trigger] dirty_in(x, z, sections)[j]).y,
    decreases sections.len(),
{
    if sections.len() > 0 {
        let below = sections.drop_last();
        let first = dirty_in(x, z, below);
        let all = dirty_in(x, z, sections);
        let top = SectionPos { x, y: (sections.len() - 1) as i32, z };
        dirty_sections_of_a_chunk(x, z, below);
        assert forall|p: SectionPos| #[trigger] all.contains(p) <==> p.x == x && p.z == z
            && 0 <= p.y
            < sections.len() && sections[p.y as int] == Section::Dirty by {
            if all.contains(p) {
                let i = choose|i: int| 0 <= i < all.len() && all[i] == p;
                if i < first.len() {
                    assert(first[i] == p);
                    assert(first.contains(p));
                }
            }
            if p.x == x && p.z == z && 0 <= p.y < sections.len() && sections[p.y as int]
                == Section::Dirty {
                if p.y < below.len() {
                    assert(below[p.y as int] == sections[p.y as int]);
                    assert(first.contains(p));
                    let i = choose|i: int| 0 <= i < first.len() && first[i] == p;
                    assert(all[i] == p);
                } else {
                    assert(p == top);
                    assert(all[all.len() - 1] == top);
                }
            }
        }
        assert forall|i: int, j: int| 0 <= i < j < all.len() implies (#[trigger] all[i]).y < (
        #[trigger] all[j]).y by {
            assert(first[i] == all[i]);
            assert(first.contains(first[i]));
            if j < first.len() {
                assert(first[j] == all[j]);
            }
        }
    }
}

/// The dirty sections of chunks come chunk by chunk.
pub proof fn dirty_sections_come_chunk_by_chunk(columns: Seq<Column>, c: Column)
    ensures
        dirty(Seq::<Column>::empty()).len() == 0,
        dirty(columns.push(c)) == dirty(columns) + dirty_in(c.x, c.z, c.sections@),
{
    assert(columns.push(c).drop_last() =~= columns);
}

/// A section is dirty in some chunk if and only if it is found.
pub proof fn dirty_sections_are_found(columns: Seq<Column>, p: SectionPos)
    requires
        forall|i: int| 0 <= i < columns.len() ==> (#[trigger] columns[i]).sections@.len() == 16,
    ensures
        dirty(columns).contains(p) <==> exists|i: int|
            0 <= i < columns.len() && (#[trigger] columns[i]).x == p.x && columns[i].z == p.z && 0
                <= p.y < 16 && columns[i].sections@[p.y as int] == Section::Dirty,
    decreases columns.len(),
{
    if columns.len() > 0 {
        let before = columns.drop_last();
        let c = columns.last();
        let first = dirty(before);
        let last = dirty_in(c.x, c.z, c.sections@);
        assert(columns[columns.len() - 1] == c);
        assert forall|i: int| 0 <= i < before.len() implies (#[trigger] before[i]).sections@.len()
            == 16 by {
            assert(before[i] == columns[i]);
        }
        dirty_sections_are_found(before, p);
        dirty_sections_of_a_chunk(c.x, c.z, c.sections@);
        let all = dirty(columns);
        assert(all == first + last);
        if all.contains(p) {
            let k = choose|k: int| 0 <= k < all.len() && all[k] == p;
            if k < first.len() {
                assert(first[k] == p);
                assert(first.contains(p));
                let i = choose|i: int|
                    0 <= i < before.len() && (#[trigger] before[i]).x == p.x && before[i].z == p.z
                        && 0 <= p.y < 16 && before[i].sections@[p.y as int] == Section::Dirty;
                assert(columns[i] == before[i]);
            } else {
                assert(last[k - first.len()] == p);
                assert(last.contains(p));
                assert(columns[columns.len() - 1].x == p.x);
            }
        }
        if exists|i: int|
            0 <= i < columns.len() && (#[trigger] columns[i]).x == p.x && columns[i].z == p.z && 0
                <= p.y < 16 && columns[i].sections@[p.y as int] == Section::Dirty {
            let i = choose|i: int|
                0 <= i < columns.len() && (#[trigger] columns[i]).x == p.x && columns[i].z == p.z
                    && 0 <= p.y < 16 && columns[i].sections@[p.y as int] == Section::Dirty;
            if i < before.len() {
                assert(before[i] == columns[i]);
                assert(first.contains(p));
                let k = choose|k: int| 0 <= k < first.len() && first[k] == p;
                assert(all[k] == p);
            } else {
                assert(last.contains(p));
                let k = choose|k: int| 0 <= k < last.len() && last[k] == p;
                assert(all[first.len() + k] == p);
            }
        }
    }
}

/// A section gets a new mesh if and only if it was dirty in one of the chunks that the pass
/// deals with.
pub proof fn dirty_sections_get_their_mesh(
    before: Seq<Column>,
    n: int,
    jobs: Seq<SectionPos>,
    after: Seq<Column>,
    p: SectionPos,
)
    requires
        is_pass(before, n, jobs, after),
        forall|i: int| 0 <= i < before.len() ==> (#[trigger] before[i]).sections@.len() == 16,
    ensures
        jobs.contains(p) <==> exists|i: int|
            0 <= i < n && (#[trigger] before[i]).x == p.x && before[i].z == p.z && 0 <= p.y < 16
                && before[i].sections@[p.y as int] == Section::Dirty,
{
    let served = before.take(n);
    assert forall|i: int| 0 <= i < served.len() implies (#[trigger] served[i]).sections@.len()
        == 16 by {
        assert(served[i] == before[i]);
    }
    dirty_sections_are_found(served, p);
    if jobs.contains(p) {
        let i = choose|i: int|
            0 <= i < served.len() && (#[trigger] served[i]).x == p.x && served[i].z == p.z && 0
                <= p.y < 16 && served[i].sections@[p.y as int] == Section::Dirty;
        assert(before[i] == served[i]);
    }
    if exists|i: int|
        0 <= i < n && (#[trigger] before[i]).x == p.x && before[i].z == p.z && 0 <= p.y < 16
            && before[i].sections@[p.y as int] == Section::Dirty {
        let i = choose|i: int|
            0 <= i < n && (#[trigger] before[i]).x == p.x && before[i].z == p.z && 0 <= p.y < 16
                && before[i].sections@[p.y as int] == Section::Dirty;
        assert(served[i] == before[i]);
    }
}

/// A pass serves its chunks in their order, and the sections of each from the lowest up.
pub proof fn meshes_come_in_order(
    before: Seq<Column>,
    n: int,
    jobs: Seq<SectionPos>,
    after: Seq<Column>,
    k: int,
)
    requires
        is_pass(before, n, jobs, after),
        0 <= k < n,
    ensures
        jobs == dirty(before.take(k)) + dirty_in(before[k].x, before[k].z, before[k].sections@)
            + dirty(before.subrange(k + 1, n)),
{
    let c = before[k];
    let last = before.subrange(k + 1, n);
    assert(before.take(n) =~= before.take(k).push(c) + last);
    crate::client::sections::lemma_dirty_of_both(before.take(k).push(c), last);
    dirty_sections_come_chunk_by_chunk(before.take(k), c);
}

/// A pass changes nothing but dirty sections of the chunks that it deals with, and these
/// become clean.
pub proof fn pass_cleans_what_it_serves(
    before: Seq<Column>,
    n: int,
    jobs: Seq<SectionPos>,
    after: Seq<Column>,
    i: int,
)
    requires
        is_pass(before, n, jobs, after),
        0 <= i < before.len(),
    ensures
        after.len() == before.len(),
        after[i].x == before[i].x,
        after[i].z == before[i].z,
        after[i].sections@.len() == before[i].sections@.len(),
        forall|y: int|
            0 <= y < before[i].sections@.len() ==> #[trigger] after[i].sections@[y] == if i < n
                && before[i].sections@[y] == Section::Dirty {
                Section::Clean
            } else {
                before[i].sections@[y]
            },
{
    assert(after[i] == after[i]);
}

/// A pass ends with the last chunk, or with the first chunk after which eight sections have
/// been taken, no more and no fewer.
pub proof fn pass_ends_at_eight(
    before: Seq<Column>,
    n: int,
    jobs: Seq<SectionPos>,
    after: Seq<Column>,
)
    requires
        is_pass(before, n, jobs, after),
    ensures
        0 <= n <= before.len(),
        n < before.len() ==> jobs.len() == 8 && n > 0,
        forall|m: int| 0 < m < n ==> (#[trigger] dirty(before.take(m))).len() != 8,
{
}

/// The frame with the number zero says where the player is, and from there every third.
pub proof fn every_third_frame_says_where(k: int)
    ensures
        is_position_frame(3 * k),
        !is_position_frame(3 * k + 1),
        !is_position_frame(3 * k + 2),
{
}

/// The window goes with its button and with escape going down, and with nothing else; F4 going
/// down and nothing else switches the lines.
pub proof fn keys_do_what_they_say(key: Option<Key>, pressed: bool, shown: bool)
    ensures
        ends(WindowInput::CloseRequested),
        !ends(WindowInput::Resized) && !ends(WindowInput::Other),
        ends(WindowInput::Keyboard { key, pressed }) <==> pressed && key == Some(Key::Escape),
        lines_after(WindowInput::Keyboard { key, pressed }, shown) == (if pressed && key == Some(
            Key::F4,
        ) {
            !shown
        } else {
            shown
        }),
        lines_after(WindowInput::CloseRequested, shown) == shown,
        lines_after(WindowInput::Resized, shown) == shown,
        lines_after(WindowInput::Other, shown) == shown,
{
}

} // verus!
