use nautilus::net::error::PacketError;
use nautilus::net::packet_helpers::Serializable;
use nautilus::net::types::{Position, PositionIBI, PositionIII, PositionISI};

fn written<T: Serializable>(value: &T) -> Vec<u8> {
    let mut out: Vec<u8> = Vec::new();
    assert!(value.write_to(&mut out).is_ok());
    out
}

fn position(x: i32, y: i32, z: i32) -> Position {
    Position::from(PositionIII { x, y, z })
}

#[test]
fn position_with_one_byte_of_height() {
    let p = PositionIBI { x: 1, y: 200, z: -1 };
    let bytes = vec![0, 0, 0, 1, 200, 0xff, 0xff, 0xff, 0xff];
    assert_eq!(written(&p), bytes);
    let mut r: &[u8] = &bytes;
    assert_eq!(PositionIBI::read_from(&mut r), Ok(p));
    assert!(r.is_empty());
}

#[test]
fn position_with_two_bytes_of_height() {
    let p = PositionISI { x: 1, y: -3, z: 2 };
    let bytes = vec![0, 0, 0, 1, 0xff, 0xfd, 0, 0, 0, 2];
    assert_eq!(written(&p), bytes);
    let mut r: &[u8] = &bytes;
    assert_eq!(PositionISI::read_from(&mut r), Ok(p));
    assert!(r.is_empty());
}

#[test]
fn position_with_four_bytes_of_height() {
    let p = PositionIII { x: 1, y: -3, z: 2 };
    let bytes = vec![0, 0, 0, 1, 0xff, 0xff, 0xff, 0xfd, 0, 0, 0, 2];
    assert_eq!(written(&p), bytes);
    let mut r: &[u8] = &bytes;
    assert_eq!(PositionIII::read_from(&mut r), Ok(p));
    assert!(r.is_empty());
}

#[test]
fn positions_that_are_cut_short_are_refused() {
    let mut r: &[u8] = &[0; 8];
    assert_eq!(PositionIBI::read_from(&mut r), Err(PacketError::UnexpectedEnd));
    let mut r: &[u8] = &[0; 9];
    assert_eq!(PositionISI::read_from(&mut r), Err(PacketError::UnexpectedEnd));
    let mut r: &[u8] = &[0; 11];
    assert_eq!(PositionIII::read_from(&mut r), Err(PacketError::UnexpectedEnd));
    let mut r: &[u8] = &[0; 7];
    assert_eq!(Position::read_from(&mut r), Err(PacketError::UnexpectedEnd));
}

#[test]
fn packed_position_has_x_then_z_then_y() {
    // 1 in the top 26 bits, 2 in the next 26, 3 in the low 12
    let word: u64 = (1 << 38) | (2 << 12) | 3;
    assert_eq!(written(&position(1, 3, 2)), word.to_be_bytes().to_vec());
    assert_eq!(written(&position(-1, -1, -1)), vec![0xff; 8]);
}

#[test]
fn packed_position_has_a_sign() {
    let words: [(u64, (i32, i32, i32)); 5] = [
        (0, (0, 0, 0)),
        (u64::MAX, (-1, -1, -1)),
        (0x1ff_ffff << 38, (0x1ff_ffff, 0, 0)),
        (0x200_0000 << 38, (-0x200_0000, 0, 0)),
        (0x800 | (0x200_0000 << 12), (0, -0x800, -0x200_0000)),
    ];
    for (word, (x, y, z)) in words {
        let bytes = word.to_be_bytes();
        let mut r: &[u8] = &bytes;
        assert_eq!(Position::read_from(&mut r), Ok(position(x, y, z)));
        assert!(r.is_empty());
    }
}

#[test]
fn packed_position_that_fits_is_read_back() {
    for (x, y, z) in [
        (0, 0, 0),
        (0x1ff_ffff, 0x7ff, 0x1ff_ffff),
        (-0x200_0000, -0x800, -0x200_0000),
        (-1, 64, 300),
    ] {
        let mut bytes = written(&position(x, y, z));
        bytes.push(7);
        let mut r: &[u8] = &bytes;
        assert_eq!(Position::read_from(&mut r), Ok(position(x, y, z)));
        assert_eq!(r.to_vec(), vec![7]);
    }
}

#[test]
fn packed_position_that_does_not_fit_is_wrapped() {
    let bytes = written(&position(0x200_0000, 0x800, 0x400_0001));
    let mut r: &[u8] = &bytes;
    assert_eq!(Position::read_from(&mut r), Ok(position(-0x200_0000, -0x800, 1)));
}

#[test]
fn packed_position_is_written_as_it_was_read() {
    for word in [0u64, 1, 0x0123_4567_89ab_cdef, 0xfedc_ba98_7654_3210, u64::MAX] {
        let bytes = word.to_be_bytes().to_vec();
        let mut r: &[u8] = &bytes;
        let p = Position::read_from(&mut r).unwrap();
        assert_eq!(written(&p), bytes);
    }
}

#[test]
fn other_positions_are_written_as_they_were_read() {
    let bytes: Vec<u8> = (200..212).collect();
    let mut r: &[u8] = &bytes;
    let p = PositionIBI::read_from(&mut r).unwrap();
    assert_eq!(written(&p), bytes[..9].to_vec());
    let mut r: &[u8] = &bytes;
    let p = PositionISI::read_from(&mut r).unwrap();
    assert_eq!(written(&p), bytes[..10].to_vec());
    let mut r: &[u8] = &bytes;
    let p = PositionIII::read_from(&mut r).unwrap();
    assert_eq!(written(&p), bytes);
}

#[test]
fn every_position_has_its_general_position() {
    assert_eq!(
        Position::from(PositionIBI { x: 5, y: 255, z: -6 }),
        position(5, 255, -6)
    );
    assert_eq!(
        Position::from(PositionISI { x: 5, y: -300, z: -6 }),
        position(5, -300, -6)
    );
    assert_ne!(position(1, 2, 3), position(3, 2, 1));
    assert_eq!(Position::default(), position(0, 0, 0));
}

#[test]
fn default_positions_are_the_origin() {
    assert_eq!(PositionIBI::default(), PositionIBI { x: 0, y: 0, z: 0 });
    assert_eq!(PositionISI::default(), PositionISI { x: 0, y: 0, z: 0 });
    assert_eq!(PositionIII::default(), PositionIII { x: 0, y: 0, z: 0 });
}
