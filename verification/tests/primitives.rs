use nautilus::net::error::PacketError;
use nautilus::net::float_bits::{Float32, Float64};
use nautilus::net::packet_helpers::Serializable;
use nautilus::net::varint::VarInt;

fn written<T: Serializable>(value: &T) -> Vec<u8> {
    let mut out: Vec<u8> = vec![0xee];
    assert!(value.write_to(&mut out).is_ok());
    assert_eq!(out[0], 0xee);
    out.split_off(1)
}

/// Reads a value, and gives it with what is left.
fn read<T: Serializable>(mut bytes: &[u8]) -> Result<(T, Vec<u8>), PacketError> {
    match T::read_from(&mut bytes) {
        Ok(value) => Ok((value, bytes.to_vec())),
        Err(e) => Err(e),
    }
}

#[test]
fn integers_are_big_endian() {
    assert_eq!(written(&0x12u8), vec![0x12]);
    assert_eq!(written(&0x1234u16), vec![0x12, 0x34]);
    assert_eq!(written(&0x1234_5678u32), vec![0x12, 0x34, 0x56, 0x78]);
    assert_eq!(
        written(&0x0102_0304_0506_0708u64),
        vec![1, 2, 3, 4, 5, 6, 7, 8]
    );
    assert_eq!(written(&-2i16), vec![0xff, 0xfe]);
    assert_eq!(written(&-2i32), vec![0xff, 0xff, 0xff, 0xfe]);
    assert_eq!(written(&i32::MIN), vec![0x80, 0, 0, 0]);
}

#[test]
fn integers_are_read_back() {
    for v in [0i16, 1, -1, i16::MIN, i16::MAX] {
        let mut bytes = written(&v);
        bytes.push(9);
        assert_eq!(read::<i16>(&bytes), Ok((v, vec![9])));
    }
    for v in [0i32, 1, -1, i32::MIN, i32::MAX] {
        let mut bytes = written(&v);
        bytes.push(9);
        assert_eq!(read::<i32>(&bytes), Ok((v, vec![9])));
    }
    for v in [0u64, 1, u64::MAX, 1 << 63] {
        let mut bytes = written(&v);
        bytes.push(9);
        assert_eq!(read::<u64>(&bytes), Ok((v, vec![9])));
    }
    assert_eq!(read::<u16>(&[0xff, 0xff]), Ok((u16::MAX, vec![])));
    assert_eq!(read::<u32>(&[0xff, 0, 0, 0]), Ok((0xff00_0000, vec![])));
}

#[test]
fn integers_that_are_cut_short_are_refused() {
    assert_eq!(read::<u8>(&[]), Err(PacketError::UnexpectedEnd));
    assert_eq!(read::<u16>(&[1]), Err(PacketError::UnexpectedEnd));
    assert_eq!(read::<i16>(&[1]), Err(PacketError::UnexpectedEnd));
    assert_eq!(read::<u32>(&[1, 2, 3]), Err(PacketError::UnexpectedEnd));
    assert_eq!(read::<i32>(&[1, 2, 3]), Err(PacketError::UnexpectedEnd));
    assert_eq!(read::<u64>(&[1; 7]), Err(PacketError::UnexpectedEnd));
}

#[test]
fn floats_keep_their_bits() {
    let one = Float32 {
        bits: 1.0f32.to_bits(),
    };
    assert_eq!(written(&one), vec![0x3f, 0x80, 0, 0]);
    assert_eq!(read::<Float32>(&[0x3f, 0x80, 0, 0]), Ok((one, vec![])));
    let nan = Float32 { bits: 0x7fc0_0001 };
    let (back, rest) = read::<Float32>(&written(&nan)).unwrap();
    assert_eq!((back.bits, rest), (nan.bits, vec![]));
    assert_eq!(Float32::default().bits, 0.0f32.to_bits());
}

#[test]
fn floats_are_compared_as_numbers() {
    let singles: [f32; 9] = [
        0.0,
        -0.0,
        1.0,
        -1.0,
        f32::MIN_POSITIVE,
        f32::INFINITY,
        f32::NEG_INFINITY,
        f32::NAN,
        -f32::NAN,
    ];
    for a in singles {
        for b in singles {
            let equal = Float32 { bits: a.to_bits() } == Float32 { bits: b.to_bits() };
            assert_eq!(equal, a == b, "{} and {}", a, b);
        }
    }
    let doubles: [f64; 9] = [
        0.0,
        -0.0,
        1.0,
        -1.0,
        f64::MIN_POSITIVE,
        f64::INFINITY,
        f64::NEG_INFINITY,
        f64::NAN,
        -f64::NAN,
    ];
    for a in doubles {
        for b in doubles {
            let equal = Float64 { bits: a.to_bits() } == Float64 { bits: b.to_bits() };
            assert_eq!(equal, a == b, "{} and {}", a, b);
        }
    }
    assert!(Float32 { bits: 0x7f80_0001 } != Float32 { bits: 0x7f80_0001 });
    assert!(Float32 { bits: 0x8000_0000 } == Float32 { bits: 0 });
}

#[test]
fn varint_of_300_takes_two_bytes() {
    assert_eq!(written(&VarInt(300)), vec![0xac, 0x02]);
}

#[test]
fn varints_take_as_few_bytes_as_they_can() {
    assert_eq!(written(&VarInt(0)), vec![0]);
    assert_eq!(written(&VarInt(127)), vec![0x7f]);
    assert_eq!(written(&VarInt(128)), vec![0x80, 0x01]);
    assert_eq!(
        written(&VarInt(i32::MAX)),
        vec![0xff, 0xff, 0xff, 0xff, 0x07]
    );
    assert_eq!(written(&VarInt(-1)), vec![0xff, 0xff, 0xff, 0xff, 0x0f]);
    assert_eq!(
        written(&VarInt(i32::MIN)),
        vec![0x80, 0x80, 0x80, 0x80, 0x08]
    );
}

#[test]
fn varints_are_read_back() {
    for v in [0, 1, 127, 128, 300, 25565, i32::MAX, -1, i32::MIN] {
        let mut bytes = written(&VarInt(v));
        bytes.push(0x55);
        assert_eq!(read::<VarInt>(&bytes), Ok((VarInt(v), vec![0x55])));
    }
    assert_eq!(VarInt::default(), VarInt(0));
}

#[test]
fn varint_may_be_longer_than_it_has_to() {
    assert_eq!(
        read::<VarInt>(&[0x81, 0x80, 0x00, 7]),
        Ok((VarInt(1), vec![7]))
    );
}

#[test]
fn varint_that_does_not_end_is_refused() {
    assert_eq!(
        read::<VarInt>(&[0xff, 0xff, 0xff, 0xff, 0xff, 0x01]),
        Err(PacketError::VarIntTooLong)
    );
    assert_eq!(read::<VarInt>(&[0xff]), Err(PacketError::UnexpectedEnd));
    assert_eq!(read::<VarInt>(&[]), Err(PacketError::UnexpectedEnd));
}

#[test]
fn strings_have_their_size_in_front() {
    assert_eq!(written(&"abc".to_string()), vec![3, b'a', b'b', b'c']);
    assert_eq!(written(&"\u{e9}".to_string()), vec![2, 0xc3, 0xa9]);
    assert_eq!(written(&String::new()), vec![0]);
}

#[test]
fn strings_are_read_back() {
    let long: String = "x".repeat(200);
    for text in ["", "Nautilus", "\u{e9}\u{4e16}\u{1f30d}", long.as_str()] {
        let mut bytes = written(&text.to_string());
        bytes.push(1);
        assert_eq!(read::<String>(&bytes), Ok((text.to_string(), vec![1])));
    }
}

#[test]
fn strings_that_are_none_are_refused() {
    assert_eq!(
        read::<String>(&[2, 0xff, 0xfe]),
        Err(PacketError::InvalidString)
    );
    assert_eq!(
        read::<String>(&[3, b'a', b'b']),
        Err(PacketError::UnexpectedEnd)
    );
    assert_eq!(
        read::<String>(&[0xff, 0xff, 0xff, 0xff, 0x0f]),
        Err(PacketError::NegativeLength)
    );
    assert_eq!(read::<String>(&[]), Err(PacketError::UnexpectedEnd));
}

#[test]
fn pairs_stand_one_behind_the_other() {
    let pair: (u8, u16) = (1, 0x0203);
    assert_eq!(written(&pair), vec![1, 2, 3]);
    assert_eq!(read::<(u8, u16)>(&[1, 2, 3, 4]), Ok((pair, vec![4])));
    assert_eq!(
        read::<(u8, u16)>(&[1, 2]),
        Err(PacketError::UnexpectedEnd)
    );
}

/// What a read that fails leaves.
fn left_by<T: Serializable>(mut bytes: &[u8]) -> Vec<u8> {
    assert!(T::read_from(&mut bytes).is_err());
    bytes.to_vec()
}

#[test]
fn refused_reads_have_taken_what_was_refused() {
    assert_eq!(
        left_by::<VarInt>(&[0xff, 0xff, 0xff, 0xff, 0xff, 1, 2]),
        vec![1, 2]
    );
    // a length below zero
    assert_eq!(
        left_by::<String>(&[0xff, 0xff, 0xff, 0xff, 0x0f, 3]),
        vec![3]
    );
    // bytes that are no string
    assert_eq!(left_by::<String>(&[2, 0xff, 0xfe, 9, 8]), vec![9, 8]);
    assert_eq!(left_by::<(u8, String)>(&[7, 1, 0xff, 6]), vec![6]);
}
