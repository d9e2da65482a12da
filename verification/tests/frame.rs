use nautilus::client::chunk_data::{inflate, ChunkBatch, ChunkHeader};
use nautilus::client::drawing::{section_origin, sends_position, DrawCount};
use nautilus::client::frame::{
    block_updates, bulk_change, change_of, check_coordinates, chunk_change, BlockUpdate, Change,
    EntityChange, PacketQuota,
};
use nautilus::client::packets::{
    EntitySpeed, MapChunk, MapChunkBulk, MultiBlockChange, Offset, Packet, PlayerPosition,
};
use nautilus::client::sections::SectionPos;
use nautilus::client::window::{react, Key, Reaction, WindowInput};
use nautilus::net::float_bits::{Float32, Float64};
use nautilus::net::types::chunk::{BlockChangeRecord, ChunkMetadata};
use nautilus::net::types::position::PositionIBI;
use nautilus::net::varint::VarInt;

fn zlib(bytes: &[u8]) -> Vec<u8> {
    let mut encoder = flate2::read::ZlibEncoder::new(bytes, flate2::Compression::default());
    let mut out: Vec<u8> = Vec::new();
    std::io::Read::read_to_end(&mut encoder, &mut out).unwrap();
    out
}

fn meta(n: i32) -> ChunkMetadata {
    ChunkMetadata {
        chunk_x: n,
        chunk_z: -n,
        primary_bitmap: n as u16,
        add_bitmap: 2 * n as u16,
    }
}

fn bulk(data: Vec<u8>) -> MapChunkBulk {
    MapChunkBulk {
        sky_light_sent: true,
        data,
        meta: vec![meta(1), meta(2)],
    }
}

fn single(data: Vec<u8>) -> MapChunk {
    MapChunk {
        x: 3,
        z: -4,
        ground_up: true,
        bit_map: 5,
        add_bit_map: 6,
        compressed_chunk_data: data,
    }
}

fn header() -> ChunkHeader {
    ChunkHeader {
        x: 3,
        z: -4,
        primary_bitmap: 5,
        add_bitmap: 6,
        sky_light_sent: false,
        ground_up: true,
    }
}

fn offset(x: u32) -> Offset {
    Offset {
        x: Float32 { bits: x },
        y: Float32 { bits: 1 },
        z: Float32 { bits: 2 },
    }
}

fn record(x: u8, y: u8, z: u8, block_id: u16) -> BlockChangeRecord {
    BlockChangeRecord {
        block_meta: 0,
        block_id,
        y,
        z,
        x,
    }
}

#[test]
fn zlib_is_decompressed() {
    let data: Vec<u8> = (0..100_000u32).map(|i| (i / 7) as u8).collect();
    assert_eq!(inflate(&zlib(&data)), Some(data.clone()));
    assert_eq!(inflate(&zlib(b"")), Some(vec![]));
    // what follows the stream is left alone
    let mut more = zlib(b"abc");
    more.extend_from_slice(b"xyz");
    assert_eq!(inflate(&more), Some(b"abc".to_vec()));
}

#[test]
fn broken_zlib_is_refused() {
    assert_eq!(inflate(b"hello"), None);
    assert_eq!(inflate(b""), None);
    let data = zlib(b"hello hello hello");
    assert_eq!(inflate(&data[..data.len() - 6]), None);
}

#[test]
fn batch_is_loaded_chunk_by_chunk() {
    let data: Vec<u8> = (0..10).collect();
    let c = change_of(Packet::MapChunkBulk(bulk(zlib(&data))));
    let mut batch = match c {
        Change::LoadBatch(batch) => batch,
        other => panic!("{:?}", other),
    };
    let (first, all) = batch.next_chunk().unwrap();
    assert_eq!(
        first,
        ChunkHeader {
            x: 1,
            z: -1,
            primary_bitmap: 1,
            add_bitmap: 2,
            sky_light_sent: true,
            ground_up: true,
        }
    );
    assert_eq!(all.to_vec(), data);
    batch.chunk_loaded(4);
    let (second, rest) = batch.next_chunk().unwrap();
    assert_eq!((second.x, second.z), (2, -2));
    assert_eq!((second.primary_bitmap, second.add_bitmap), (2, 4));
    assert_eq!(rest.to_vec(), data[4..].to_vec());
    batch.chunk_loaded(5);
    assert_eq!(batch.next_chunk(), None);
    assert!(batch.has_trailing_data());
    assert_eq!(batch.offset, 9);
    assert_eq!(batch.loaded, 2);
}

#[test]
fn batch_that_is_used_up_leaves_nothing() {
    let mut batch = ChunkBatch::new(bulk(vec![]), vec![1, 2, 3]);
    batch.chunk_loaded(1);
    batch.chunk_loaded(2);
    assert_eq!(batch.next_chunk(), None);
    assert!(!batch.has_trailing_data());
}

#[test]
fn single_chunk_is_loaded_without_sky_light() {
    assert_eq!(
        change_of(Packet::MapChunk(single(zlib(b"blocks")))),
        Change::LoadChunk(header(), b"blocks".to_vec())
    );
}

#[test]
fn chunks_with_broken_data_are_not_loaded() {
    assert_eq!(
        change_of(Packet::MapChunk(single(vec![1, 2, 3]))),
        Change::BadChunkData
    );
    assert_eq!(
        change_of(Packet::MapChunkBulk(bulk(vec![1, 2, 3]))),
        Change::BadChunkData
    );
    assert_eq!(chunk_change(&single(vec![]), None), Change::BadChunkData);
    assert_eq!(bulk_change(bulk(vec![]), None), Change::BadChunkData);
    assert_eq!(
        chunk_change(&single(vec![]), Some(vec![7])),
        Change::LoadChunk(header(), vec![7])
    );
}

#[test]
fn block_change_sets_one_block() {
    let location = PositionIBI { x: -5, y: 255, z: 9 };
    assert_eq!(
        change_of(Packet::BlockChange { location, kind: VarInt(0x1_02) }),
        Change::SetBlocks(vec![BlockUpdate { x: -5, y: 255, z: 9, block: 2 }])
    );
    assert_eq!(
        change_of(Packet::BlockChange { location, kind: VarInt(-1) }),
        Change::SetBlocks(vec![BlockUpdate { x: -5, y: 255, z: 9, block: 255 }])
    );
}

#[test]
fn multi_block_change_sets_blocks_of_its_chunk() {
    let p = MultiBlockChange {
        chunk_x: -1,
        chunk_z: 2,
        records: vec![record(15, 64, 0, 0x123), record(0, 0, 3, 7)],
    };
    assert!(check_coordinates(&p));
    let updates = vec![
        BlockUpdate { x: -1, y: 64, z: 32, block: 0x23 },
        BlockUpdate { x: -16, y: 0, z: 35, block: 7 },
    ];
    assert_eq!(block_updates(&p), updates);
    assert_eq!(change_of(Packet::MultiBlockChange(p)), Change::SetBlocks(updates));
}

#[test]
fn blocks_outside_the_world_have_no_coordinates() {
    let far = |chunk_x: i32, chunk_z: i32| MultiBlockChange {
        chunk_x,
        chunk_z,
        records: vec![record(15, 0, 15, 1)],
    };
    assert!(check_coordinates(&far(0x7ff_ffff, -0x800_0000)));
    assert!(!check_coordinates(&far(0x800_0000, 0)));
    assert!(!check_coordinates(&far(0, -0x800_0001)));
    assert!(!check_coordinates(&far(0, i32::MAX)));
    // without records there is nothing to place
    let none = MultiBlockChange {
        chunk_x: i32::MAX,
        chunk_z: i32::MIN,
        records: vec![],
    };
    assert!(check_coordinates(&none));
    assert_eq!(change_of(Packet::MultiBlockChange(none)), Change::SetBlocks(vec![]));
}

#[test]
fn entities_move_and_come_and_go() {
    let velocity = EntitySpeed { x: 1, y: -2, z: 3 };
    let by = offset(3);
    assert_eq!(
        change_of(Packet::EntityMoveLook { entity_id: 4, by }),
        Change::Entity(4, EntityChange::MoveBy(by))
    );
    assert_eq!(
        change_of(Packet::RelEntityMove { entity_id: 5, by }),
        Change::Entity(5, EntityChange::MoveBy(by))
    );
    assert_eq!(
        change_of(Packet::EntityVelocity { entity_id: 6, velocity }),
        Change::Entity(6, EntityChange::Accelerate(velocity))
    );
    let at = offset(9);
    assert_eq!(
        change_of(Packet::SpawnEntityLiving { entity_id: VarInt(7), at, velocity }),
        Change::Entity(7, EntityChange::Launch(at, velocity))
    );
    assert_eq!(
        change_of(Packet::SpawnEntity { entity_id: VarInt(8), at }),
        Change::Entity(8, EntityChange::Place(at))
    );
    assert_eq!(
        change_of(Packet::NamedEntitySpawn { entity_id: VarInt(9), at }),
        Change::Entity(9, EntityChange::Place(at))
    );
    assert_eq!(
        change_of(Packet::EntityDestroy { entity_ids: vec![3, 1, 3] }),
        Change::RemoveEntities(vec![3, 1, 3])
    );
}

#[test]
fn respawn_clears_and_position_moves_the_camera() {
    assert_eq!(change_of(Packet::Respawn), Change::ClearChunks);
    let at = PlayerPosition {
        x: Float64 { bits: 1 },
        y: Float64 { bits: 2 },
        z: Float64 { bits: 3 },
        yaw: Float32 { bits: 4 },
        pitch: Float32 { bits: 5 },
        on_ground: false,
    };
    assert_eq!(change_of(Packet::PositionClientbound(at)), Change::MoveCamera(at));
    assert_eq!(change_of(Packet::PositionLook(at)), Change::Nothing);
    assert_eq!(change_of(Packet::EntityLook), Change::Nothing);
}

#[test]
fn frame_deals_with_64_packets() {
    let mut quota = PacketQuota::new();
    assert_eq!(quota.left, 64);
    let mut dealt_with = 0;
    loop {
        dealt_with += 1;
        if quota.count(&Change::Nothing) {
            break;
        }
        // packets with broken data come on top
        assert!(!quota.count(&Change::BadChunkData));
    }
    assert_eq!(dealt_with, 64);
    assert_eq!(quota.left, 0);
}

#[test]
fn position_is_sent_every_third_frame() {
    let sent: Vec<bool> = (0..7).map(sends_position).collect();
    assert_eq!(sent, vec![true, false, false, true, false, false, true]);
}

#[test]
fn sections_begin_every_16_blocks() {
    assert_eq!(
        section_origin(SectionPos { x: -2, y: 3, z: 5 }),
        Some((-32, 48, 80))
    );
    assert_eq!(
        section_origin(SectionPos { x: 0, y: 15, z: 0 }),
        Some((0, 240, 0))
    );
    assert_eq!(section_origin(SectionPos { x: 0, y: 16, z: 0 }), None);
}

#[test]
fn drawn_sections_are_near_and_in_view() {
    let mut count = DrawCount::new();
    assert!(count.section(true, true));
    assert!(!count.section(true, false));
    assert!(!count.section(false, true));
    assert!(!count.section(false, false));
    assert!(count.section(true, true));
    assert_eq!(count, DrawCount { rendered: 2, total: 5 });
}

#[test]
fn window_is_closed_by_its_button_or_escape() {
    let key = |key: Option<Key>, pressed: bool| WindowInput::Keyboard { key, pressed };
    assert_eq!(react(WindowInput::CloseRequested, true), (Reaction::Exit, true));
    assert_eq!(react(key(Some(Key::Escape), true), false), (Reaction::Exit, false));
    assert_eq!(react(key(Some(Key::Escape), false), false), (Reaction::Nothing, false));
    assert_eq!(react(key(Some(Key::Other), true), true), (Reaction::Nothing, true));
    assert_eq!(react(key(None, true), true), (Reaction::Nothing, true));
    assert_eq!(react(WindowInput::Resized, true), (Reaction::Reconfigure, true));
    assert_eq!(react(WindowInput::Other, false), (Reaction::Nothing, false));
}

#[test]
fn chunk_lines_are_switched_by_f4_going_down() {
    let down = WindowInput::Keyboard { key: Some(Key::F4), pressed: true };
    let up = WindowInput::Keyboard { key: Some(Key::F4), pressed: false };
    assert_eq!(react(down, false), (Reaction::Nothing, true));
    assert_eq!(react(up, true), (Reaction::Nothing, true));
    assert_eq!(react(down, true), (Reaction::Nothing, false));
}
