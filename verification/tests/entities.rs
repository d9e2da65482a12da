use nautilus::net::error::PacketError;
use nautilus::net::float_bits::{Float32, Float64};
use nautilus::net::item_nbt::read_blob;
use nautilus::net::nbt_layout::holds_file;
use nautilus::net::packet_helpers::Serializable;
use nautilus::net::types::{
    BlockChangeRecord, ChunkMetadata, EntityAnimation, EntityMeta, EntityModifier, EntityProperty,
    EntitySpawnProperty, GameState, MetadataField, PrefixedVec, Slot,
};
use nautilus::net::varint::VarInt;

fn gzip(bytes: &[u8]) -> Vec<u8> {
    let mut encoder = flate2::read::GzEncoder::new(bytes, flate2::Compression::default());
    let mut out: Vec<u8> = Vec::new();
    std::io::Read::read_to_end(&mut encoder, &mut out).unwrap();
    out
}

fn sword() -> nbt::Blob {
    let mut blob = nbt::Blob::named("tag");
    blob.insert("Damage", 7i32).unwrap();
    blob.insert("Name", "Excalibur".to_string()).unwrap();
    blob.insert("Lore", nbt::Value::ByteArray(vec![1, 2, 3])).unwrap();
    blob
}

/// An item with the given data behind its length.
fn item(data: &[u8]) -> Vec<u8> {
    let mut bytes: Vec<u8> = vec![0x01, 0x0c, 3, 0xff, 0xf0];
    bytes.extend_from_slice(&(data.len() as i16).to_be_bytes());
    bytes.extend_from_slice(data);
    bytes
}

#[test]
fn chunk_metadata_has_two_coordinates_and_two_bitmaps() {
    let mut r: &[u8] = &[0, 0, 0, 1, 0xff, 0xff, 0xff, 0xff, 0x12, 0x34, 0x56, 0x78, 9];
    assert_eq!(
        ChunkMetadata::read_from(&mut r),
        Ok(ChunkMetadata {
            chunk_x: 1,
            chunk_z: -1,
            primary_bitmap: 0x1234,
            add_bitmap: 0x5678,
        })
    );
    assert_eq!(r.to_vec(), vec![9]);
    let mut r: &[u8] = &[0; 11];
    assert_eq!(ChunkMetadata::read_from(&mut r), Err(PacketError::UnexpectedEnd));
}

#[test]
fn block_change_record_is_packed_into_a_word() {
    let mut r: &[u8] = &[0xab, 0xcd, 0x12, 0x34];
    assert_eq!(
        BlockChangeRecord::read_from(&mut r),
        Ok(BlockChangeRecord {
            block_meta: 4,
            block_id: 0x123,
            y: 0xcd,
            z: 0xb,
            x: 0xa,
        })
    );
    let mut r: &[u8] = &[0xab, 0xcd, 0x12];
    assert_eq!(BlockChangeRecord::read_from(&mut r), Err(PacketError::UnexpectedEnd));
}

#[test]
fn values_that_are_only_received_cannot_be_written() {
    let mut out: Vec<u8> = Vec::new();
    let refused = Err(PacketError::NotWritable);
    assert_eq!(ChunkMetadata::default().write_to(&mut out), refused);
    assert_eq!(BlockChangeRecord::default().write_to(&mut out), refused);
    assert_eq!(EntitySpawnProperty::default().write_to(&mut out), refused);
    assert_eq!(Slot::default().write_to(&mut out), refused);
    assert_eq!(PrefixedVec::<u8, u8>::default().write_to(&mut out), refused);
    assert!(out.is_empty());
}

#[test]
fn animations_have_the_numbers_of_the_protocol() {
    assert_eq!(EntityAnimation::default().discriminant(), 0);
    assert_eq!(EntityAnimation::DamageAnimation.discriminant(), 1);
    assert_eq!(EntityAnimation::LeaveBed.discriminant(), 2);
    assert_eq!(EntityAnimation::EatFood.discriminant(), 3);
    assert_eq!(EntityAnimation::CriticalEffect.discriminant(), 4);
    assert_eq!(EntityAnimation::MagicCriticalEffect.discriminant(), 5);
    assert_eq!(EntityAnimation::Unknown.discriminant(), 102);
    assert_eq!(EntityAnimation::Crouch.discriminant(), 104);
    assert_eq!(EntityAnimation::Uncrouch.discriminant(), 105);
}

#[test]
fn default_values_are_empty() {
    assert_eq!(GameState::default(), GameState::InvalidBed);
    assert_eq!(
        EntityProperty::default(),
        EntityProperty {
            key: String::new(),
            value: Float64 { bits: 0 },
            modifiers: vec![],
        }
    );
    assert_eq!(
        EntityModifier::default(),
        EntityModifier {
            uuid: 0,
            amount: Float64 { bits: 0 },
            operation: 0,
        }
    );
    assert_eq!(ChunkMetadata::default().primary_bitmap, 0);
    assert_eq!(BlockChangeRecord::default().block_id, 0);
    assert!(EntityMeta::default().meta.is_empty());
    assert!(PrefixedVec::<u8, u8>::default().data.is_empty());
}

#[test]
fn spawn_property_has_three_strings() {
    let mut r: &[u8] = &[1, b'a', 2, b'b', b'c', 0, 8];
    assert_eq!(
        EntitySpawnProperty::read_from(&mut r),
        Ok(EntitySpawnProperty {
            name: "a".to_string(),
            value: "bc".to_string(),
            signature: String::new(),
        })
    );
    assert_eq!(r.to_vec(), vec![8]);
    let mut r: &[u8] = &[1, b'a', 1, 0xff, 0];
    assert_eq!(
        EntitySpawnProperty::read_from(&mut r),
        Err(PacketError::InvalidString)
    );
}

#[test]
fn empty_slot_is_an_id_alone() {
    let mut r: &[u8] = &[0xff, 0xff, 1, 2, 3];
    let slot = Slot::read_from(&mut r).unwrap();
    assert_eq!(slot.item_id, -1);
    assert_eq!(slot.item_count, None);
    assert_eq!(slot.item_damage, None);
    assert_eq!(slot.data, None);
    assert_eq!(r.to_vec(), vec![1, 2, 3]);
}

#[test]
fn slot_without_data() {
    let mut r: &[u8] = &[0x01, 0x0c, 64, 0xff, 0xf0, 0xff, 0xff, 5];
    let slot = Slot::read_from(&mut r).unwrap();
    assert_eq!(
        slot,
        Slot {
            item_id: 268,
            item_count: Some(64),
            item_damage: Some(-16),
            data: None,
        }
    );
    assert_eq!(r.to_vec(), vec![5]);
    assert_eq!(slot.clone(), slot);
}

#[test]
fn slot_with_data() {
    let mut data: Vec<u8> = Vec::new();
    sword().to_gzip_writer(&mut data).unwrap();
    let bytes = item(&data);
    let mut r: &[u8] = &bytes;
    let slot = Slot::read_from(&mut r).unwrap();
    assert_eq!(slot.item_id, 268);
    assert_eq!(slot.item_count, Some(3));
    assert_eq!(slot.item_damage, Some(-16));
    assert_eq!(slot.data, Some(sword()));
    assert!(r.is_empty());
    assert_eq!(slot.clone(), slot);
}

#[test]
fn slot_that_is_cut_short_is_refused() {
    for n in 0..7 {
        let bytes = [0x01, 0x0c, 64, 0xff, 0xf0, 0xff, 0xff];
        let mut r: &[u8] = &bytes[..n];
        assert_eq!(Slot::read_from(&mut r), Err(PacketError::UnexpectedEnd));
    }
}

#[test]
fn slot_with_broken_data_is_refused() {
    // not gzip
    let bytes = item(&[1, 2, 3, 4]);
    let mut r: &[u8] = &bytes;
    assert_eq!(Slot::read_from(&mut r), Err(PacketError::InvalidNbt));
    // gzip, but no NBT
    let bytes = item(&gzip(b"hello"));
    let mut r: &[u8] = &bytes;
    assert_eq!(Slot::read_from(&mut r), Err(PacketError::InvalidNbt));
    // an NBT array of less than no elements
    let bytes = item(&gzip(&[10, 0, 0, 7, 0, 1, b'a', 0xff, 0xff, 0xff, 0xff, 0]));
    let mut r: &[u8] = &bytes;
    assert_eq!(Slot::read_from(&mut r), Err(PacketError::InvalidNbt));
    // an NBT array of more elements than there are
    let bytes = item(&gzip(&[10, 0, 0, 7, 0, 1, b'a', 0x7f, 0xff, 0xff, 0xff, 0]));
    let mut r: &[u8] = &bytes;
    assert_eq!(Slot::read_from(&mut r), Err(PacketError::InvalidNbt));
}

#[test]
fn blob_is_read_from_gzip() {
    let mut data: Vec<u8> = Vec::new();
    sword().to_gzip_writer(&mut data).unwrap();
    let mut r: &[u8] = &data;
    assert_eq!(read_blob(&mut r), Ok(sword()));
    // more in the stream than the file is no fault
    let mut file: Vec<u8> = Vec::new();
    sword().to_writer(&mut file).unwrap();
    file.push(1);
    let data = gzip(&file);
    let mut r: &[u8] = &data;
    assert_eq!(read_blob(&mut r), Ok(sword()));
    // an uncompressed file is
    let mut r: &[u8] = &file;
    assert_eq!(read_blob(&mut r), Err(PacketError::InvalidNbt));
}

#[test]
fn nbt_files_are_told_from_others() {
    let mut data: Vec<u8> = Vec::new();
    sword().to_writer(&mut data).unwrap();
    assert!(holds_file(&data));
    data.push(77);
    assert!(holds_file(&data));
    assert!(!holds_file(&data[..data.len() - 2]));
    assert!(!holds_file(&[]));
    assert!(holds_file(&[10, 0, 0, 0]));
    assert!(!holds_file(&[9, 0, 0, 0]));
    assert!(!holds_file(&[10, 0, 0, 13, 0, 0, 0]));
}

#[test]
fn prefixed_vec_has_as_many_elements_as_announced() {
    let mut r: &[u8] = &[2, 7, 8, 9];
    let v = PrefixedVec::<u8, u8>::read_from(&mut r).unwrap();
    assert_eq!(v.data, vec![7, 8]);
    assert_eq!(r.to_vec(), vec![9]);

    let mut r: &[u8] = &[0, 2, 0, 0, 0, 1, 0xff, 0xff, 0xff, 0xff];
    let v = PrefixedVec::<i32, i16>::read_from(&mut r).unwrap();
    assert_eq!(v.data, vec![1, -1]);
    assert!(r.is_empty());

    let mut r: &[u8] = &[0x80, 0x01];
    let v = PrefixedVec::<u8, VarInt>::read_from(&mut r);
    assert_eq!(v, Err(PacketError::UnexpectedEnd));

    let mut r: &[u8] = &[0, 0, 0, 1, 5];
    assert_eq!(PrefixedVec::<u8, u32>::read_from(&mut r).unwrap().data, vec![5]);
    let mut r: &[u8] = &[0, 1, 5];
    assert_eq!(PrefixedVec::<u8, u16>::read_from(&mut r).unwrap().data, vec![5]);
    let mut r: &[u8] = &[0, 0, 0, 1, 5];
    assert_eq!(PrefixedVec::<u8, i32>::read_from(&mut r).unwrap().data, vec![5]);
}

#[test]
fn prefixed_vec_of_less_than_nothing_is_empty() {
    let mut r: &[u8] = &[0xff, 0xff, 1, 2];
    let v = PrefixedVec::<u8, i16>::read_from(&mut r).unwrap();
    assert!(v.data.is_empty());
    assert_eq!(r.to_vec(), vec![1, 2]);
}

#[test]
fn prefixed_vec_with_too_large_a_count_is_refused() {
    let mut r: &[u8] = &[0x80, 0, 0, 0, 0, 0, 0, 0, 1];
    assert_eq!(
        PrefixedVec::<u8, u64>::read_from(&mut r),
        Err(PacketError::CountOutOfRange)
    );
    // just the count has been taken
    assert_eq!(r.to_vec(), vec![1]);
    let mut r: &[u8] = &[0xff, 0xff, 0xff, 0xff, 0xff, 0xff, 0xff, 0xff, 7];
    assert_eq!(
        PrefixedVec::<u8, u64>::read_from(&mut r),
        Err(PacketError::CountOutOfRange)
    );
    assert_eq!(r.to_vec(), vec![7]);
    // an element that is refused has been taken with those before it
    let mut r: &[u8] = &[2, 1, b'a', 1, 0xff, 5];
    assert_eq!(
        PrefixedVec::<String, u8>::read_from(&mut r),
        Err(PacketError::InvalidString)
    );
    assert_eq!(r.to_vec(), vec![5]);
}

#[test]
fn prefixed_vec_is_cloned() {
    let mut r: &[u8] = &[2, 1, b'a', 1, b'b'];
    let v = PrefixedVec::<String, u8>::read_from(&mut r).unwrap();
    assert_eq!(v.data, vec!["a".to_string(), "b".to_string()]);
    assert_eq!(v.clone(), v);
}

#[test]
fn values_with_floats_are_compared_as_numbers() {
    let nan = Float32 { bits: f32::NAN.to_bits() };
    let zero = Float32 { bits: 0.0f32.to_bits() };
    let minus_zero = Float32 { bits: (-0.0f32).to_bits() };
    assert_ne!(MetadataField::Float(nan), MetadataField::Float(nan));
    assert_eq!(MetadataField::Float(zero), MetadataField::Float(minus_zero));
    assert_ne!(GameState::FadeTime(nan), GameState::FadeTime(nan));
    assert_eq!(GameState::FadeTime(zero), GameState::FadeTime(minus_zero));
    let modifier = |amount: f64| EntityModifier {
        uuid: 1,
        amount: Float64 { bits: amount.to_bits() },
        operation: 2,
    };
    assert_ne!(modifier(f64::NAN), modifier(f64::NAN));
    assert_eq!(modifier(0.0), modifier(-0.0));
    let property = |value: f64| EntityProperty {
        key: "key".to_string(),
        value: Float64 { bits: value.to_bits() },
        modifiers: vec![],
    };
    assert_ne!(property(f64::NAN), property(f64::NAN));
    assert_eq!(property(0.0), property(-0.0));
}

#[test]
fn metadata_kinds_have_numbers() {
    assert_eq!(MetadataField::Byte(1).get_type(), 0);
    assert_eq!(MetadataField::Short(1).get_type(), 1);
    assert_eq!(MetadataField::Int(1).get_type(), 2);
    assert_eq!(MetadataField::Float(Float32 { bits: 0 }).get_type(), 3);
    assert_eq!(MetadataField::String(String::new()).get_type(), 4);
    assert_eq!(MetadataField::Slot(Slot::default()).get_type(), 5);
}

#[test]
fn metadata_of_every_kind() {
    let mut r: &[u8] = &[
        0x00, 9, // byte at 0
        0x21, 0xff, 0xfe, // short at 1
        0x42, 0, 0, 1, 0, // int at 2
        0x63, 0x3f, 0x80, 0, 0, // float at 3
        0x84, 2, b'o', b'k', // string at 4
        0xa5, 0xff, 0xff, // slot at 5
        0x7f, 55,
    ];
    let m = EntityMeta::read_from(&mut r).unwrap();
    assert_eq!(r.to_vec(), vec![55]);
    assert_eq!(m.meta.len(), 6);
    assert_eq!(m.meta.get(0), Some(&MetadataField::Byte(9)));
    assert_eq!(m.meta.get(1), Some(&MetadataField::Short(-2)));
    assert_eq!(m.meta.get(2), Some(&MetadataField::Int(256)));
    assert_eq!(
        m.meta.get(3),
        Some(&MetadataField::Float(Float32 {
            bits: 1.0f32.to_bits()
        }))
    );
    assert_eq!(m.meta.get(4), Some(&MetadataField::String("ok".to_string())));
    match m.meta.get(5) {
        Some(MetadataField::Slot(slot)) => assert_eq!(slot.item_id, -1),
        other => panic!("{:?}", other),
    }
    assert_eq!(m.clone(), m);
}

#[test]
fn later_metadata_takes_the_place_of_earlier() {
    let mut r: &[u8] = &[0x03, 1, 0x23, 0, 2, 0x7f];
    let m = EntityMeta::read_from(&mut r).unwrap();
    assert_eq!(m.meta.len(), 1);
    assert_eq!(m.meta.get(3), Some(&MetadataField::Short(2)));
}

#[test]
fn metadata_of_an_unknown_kind_is_refused() {
    let mut r: &[u8] = &[0xc0, 0x7f];
    assert_eq!(
        EntityMeta::read_from(&mut r),
        Err(PacketError::InvalidMetadataType(6))
    );
    // just the tag has been taken
    assert_eq!(r.to_vec(), vec![0x7f]);
    let mut r: &[u8] = &[0x00, 1, 0xc3, 9];
    assert_eq!(
        EntityMeta::read_from(&mut r),
        Err(PacketError::InvalidMetadataType(6))
    );
    assert_eq!(r.to_vec(), vec![9]);
    let mut r: &[u8] = &[0xe1, 0x7f];
    assert_eq!(
        EntityMeta::read_from(&mut r),
        Err(PacketError::InvalidMetadataType(7))
    );
}

#[test]
fn metadata_without_an_end_is_refused() {
    let mut r: &[u8] = &[0x00, 1];
    assert_eq!(EntityMeta::read_from(&mut r), Err(PacketError::UnexpectedEnd));
    let mut r: &[u8] = &[];
    assert_eq!(EntityMeta::read_from(&mut r), Err(PacketError::UnexpectedEnd));
}

#[test]
fn metadata_ends_after_256_entries() {
    let mut bytes: Vec<u8> = Vec::new();
    for i in 0..256u32 {
        bytes.push((i % 31) as u8);
        bytes.push((i % 256) as u8);
    }
    bytes.push(0x7f);
    let mut r: &[u8] = &bytes;
    let m = EntityMeta::read_from(&mut r).unwrap();
    // the end byte is not asked for
    assert_eq!(r.to_vec(), vec![0x7f]);
    assert_eq!(m.meta.len(), 31);
    assert_eq!(m.meta.get(7), Some(&MetadataField::Byte(255)));
}

#[test]
fn metadata_is_read_back() {
    let mut m = EntityMeta::default();
    m.meta.insert(0, MetadataField::Byte(200));
    m.meta.insert(30, MetadataField::Float(Float32 { bits: 77 }));
    m.meta.insert(31, MetadataField::Int(-5));
    m.meta.insert(16, MetadataField::String("\u{e9}".to_string()));
    m.meta.insert(8, MetadataField::Short(-1));
    let mut bytes: Vec<u8> = Vec::new();
    assert_eq!(m.write_to(&mut bytes), Ok(()));
    assert_eq!(bytes.last(), Some(&0x7f));
    bytes.push(1);
    let mut r: &[u8] = &bytes;
    let back = EntityMeta::read_from(&mut r).unwrap();
    assert_eq!(r.to_vec(), vec![1]);
    assert_eq!(back.meta.len(), m.meta.len());
    for (index, field) in m.meta.iter() {
        assert_eq!(back.meta.get(*index), Some(field));
    }
}

#[test]
fn one_field_of_metadata_is_a_tag_and_a_value() {
    let mut m = EntityMeta::default();
    m.meta.insert(5, MetadataField::Short(0x0102));
    let mut bytes: Vec<u8> = Vec::new();
    assert_eq!(m.write_to(&mut bytes), Ok(()));
    assert_eq!(bytes, vec![0x25, 1, 2, 0x7f]);
    // of an index only the low byte is written
    let mut m = EntityMeta::default();
    m.meta.insert(0x105, MetadataField::Byte(9));
    let mut bytes: Vec<u8> = Vec::new();
    assert_eq!(m.write_to(&mut bytes), Ok(()));
    assert_eq!(bytes, vec![0x05, 9, 0x7f]);
}

#[test]
fn float_at_the_last_index_looks_like_the_end() {
    let mut m = EntityMeta::default();
    m.meta.insert(31, MetadataField::Float(Float32 { bits: 0 }));
    let mut bytes: Vec<u8> = Vec::new();
    assert_eq!(m.write_to(&mut bytes), Ok(()));
    let mut r: &[u8] = &bytes;
    let back = EntityMeta::read_from(&mut r).unwrap();
    assert!(back.meta.is_empty());
}

#[test]
fn metadata_with_a_slot_cannot_be_written() {
    let mut m = EntityMeta::default();
    m.meta.insert(2, MetadataField::Slot(Slot::default()));
    let mut bytes: Vec<u8> = Vec::new();
    assert_eq!(m.write_to(&mut bytes), Err(PacketError::NotWritable));
    assert_eq!(bytes, vec![0xa2]);
}

#[test]
fn received_metadata_can_be_passed_on() {
    let received: Vec<u8> = vec![0x1f, 3, 0x3f, 0, 4, 0x5e, 0, 0, 0, 5, 0x60, 1, 2, 3, 4, 0x7f];
    let mut r: &[u8] = &received;
    let m = EntityMeta::read_from(&mut r).unwrap();
    // the short took the place of the byte
    assert_eq!(m.meta.len(), 3);
    let mut bytes: Vec<u8> = Vec::new();
    assert_eq!(m.write_to(&mut bytes), Ok(()));
    let mut r: &[u8] = &bytes;
    let back = EntityMeta::read_from(&mut r).unwrap();
    assert!(r.is_empty());
    assert_eq!(back.meta.get(31), Some(&MetadataField::Short(4)));
    assert_eq!(back.meta.get(30), Some(&MetadataField::Int(5)));
    assert_eq!(back.meta.get(0), Some(&MetadataField::Float(Float32 { bits: 0x0102_0304 })));
    assert_eq!(back.meta.len(), 3);
}
