//! What holds of numbers and strings on the wire, byte by byte.

use crate::net::error::PacketError;
use crate::net::float_bits::{Float32, Float64};
use crate::net::packet_helpers::{further, reads, writes, Encoded, Serializable};
use crate::net::varint::{groups_limit, groups_size, groups_value, VarInt};
use crate::net::wire::{be_bytes, be_limit, be_value};
use vstd::prelude::*;
use vstd::utf8::{encode_utf8, valid_utf8};

verus! {

/// A byte more makes a number 256 times as large and is added to it; no bytes spell zero.
pub proof fn a_byte_more_is_the_lowest_digit(s: Seq<u8>, b: u8, v: nat, n: nat)
    ensures
        be_value(Seq::<u8>::empty()) == 0,
        be_value(s.push(b)) == 256 * be_value(s) + b,
        be_bytes(v, 0).len() == 0,
        be_bytes((256 * v + b) as nat, n + 1) == be_bytes(v, n).push(b),
        be_limit(0) == 1,
        be_limit(n + 1) == 256 * be_limit(n),
{
    assert(s.push(b).drop_last() =~= s);
    assert((256 * v + b) / 256 == v);
    assert((256 * v + b) % 256 == b);
}

/// The numbers that the first bytes spell.
pub proof fn lemma_first_bytes(s: Seq<u8>)
    ensures
        s.len() >= 1 ==> be_value(s.take(1)) == s[0],
        s.len() >= 2 ==> be_value(s.take(2)) == s[0] * 0x100 + s[1],
        s.len() >= 4 ==> be_value(s.take(4)) == s[0] * 0x1000000 + s[1] * 0x10000
            + s[2] * 0x100 + s[3],
        s.len() >= 8 ==> be_value(s.take(8)) == s[0] * 0x100000000000000
            + s[1] * 0x1000000000000 + s[2] * 0x10000000000 + s[3] * 0x100000000
            + s[4] * 0x1000000 + s[5] * 0x10000 + s[6] * 0x100 + s[7],
{
    assert(be_value(s.take(0)) == 0);
    if s.len() >= 1 {
        assert(s.take(1).drop_last() =~= s.take(0));
        assert(be_value(s.take(1)) == be_value(s.take(0)) * 256 + s[0]);
    }
    if s.len() >= 2 {
        assert(s.take(2).drop_last() =~= s.take(1));
        assert(be_value(s.take(2)) == be_value(s.take(1)) * 256 + s[1]);
    }
    if s.len() >= 3 {
        assert(s.take(3).drop_last() =~= s.take(2));
        assert(be_value(s.take(3)) == be_value(s.take(2)) * 256 + s[2]);
    }
    if s.len() >= 4 {
        assert(s.take(4).drop_last() =~= s.take(3));
        assert(be_value(s.take(4)) == be_value(s.take(3)) * 256 + s[3]);
    }
    if s.len() >= 5 {
        assert(s.take(5).drop_last() =~= s.take(4));
        assert(be_value(s.take(5)) == be_value(s.take(4)) * 256 + s[4]);
    }
    if s.len() >= 6 {
        assert(s.take(6).drop_last() =~= s.take(5));
        assert(be_value(s.take(6)) == be_value(s.take(5)) * 256 + s[5]);
    }
    if s.len() >= 7 {
        assert(s.take(7).drop_last() =~= s.take(6));
        assert(be_value(s.take(7)) == be_value(s.take(6)) * 256 + s[6]);
    }
    if s.len() >= 8 {
        assert(s.take(8).drop_last() =~= s.take(7));
        assert(be_value(s.take(8)) == be_value(s.take(7)) * 256 + s[7]);
    }
}

/// A `u8` is one byte, the highest first. It is refused where these are not
/// all there, and nothing else is asked of them.
pub proof fn u8_is_spelled_out(s: Seq<u8>)
    ensures
        s.len() < 1 ==> u8::decode(s) == Err::<(u8, nat), PacketError>(
            PacketError::UnexpectedEnd,
        ),
        s.len() >= 1 ==> (u8::decode(s) matches Ok((v, n)) && n == 1 && v == s[0]),
{
    lemma_first_bytes(s);
    if s.len() >= 1 {
        crate::net::wire::lemma_be_limits();
        crate::net::wire::lemma_be_value_bound(s.take(1));
    }
}

/// Every `u8` is written, as one byte that spell it, and read back in front of anything.
pub proof fn u8_is_written_out(v: u8, tail: Seq<u8>)
    ensures
        v.survives(),
        v.encode().error is None,
        v.encode().bytes.len() == 1,
        ({
            let b = v.encode().bytes;
            v == b[0]
        }),
        u8::decode(v.encode().bytes + tail) == Ok::<(u8, nat), PacketError>((v, 1)),
{
    let b = v.encode().bytes;
    v.decode_undoes_encode(tail);
    v.decode_undoes_encode(Seq::empty());
    assert(b + Seq::empty() =~= b);
    u8_is_spelled_out(b);
    u8_is_spelled_out(b + tail);
}

/// A `u16` is two bytes, the highest first. It is refused where these are not
/// all there, and nothing else is asked of them.
pub proof fn u16_is_spelled_out(s: Seq<u8>)
    ensures
        s.len() < 2 ==> u16::decode(s) == Err::<(u16, nat), PacketError>(
            PacketError::UnexpectedEnd,
        ),
        s.len() >= 2 ==> (u16::decode(s) matches Ok((v, n)) && n == 2 && v == s[0] * 0x100 + s[1]),
{
    lemma_first_bytes(s);
    if s.len() >= 2 {
        crate::net::wire::lemma_be_limits();
        crate::net::wire::lemma_be_value_bound(s.take(2));
    }
}

/// Every `u16` is written, as two bytes that spell it, and read back in front of anything.
pub proof fn u16_is_written_out(v: u16, tail: Seq<u8>)
    ensures
        v.survives(),
        v.encode().error is None,
        v.encode().bytes.len() == 2,
        ({
            let b = v.encode().bytes;
            v == b[0] * 0x100 + b[1]
        }),
        u16::decode(v.encode().bytes + tail) == Ok::<(u16, nat), PacketError>((v, 2)),
{
    let b = v.encode().bytes;
    v.decode_undoes_encode(tail);
    v.decode_undoes_encode(Seq::empty());
    assert(b + Seq::empty() =~= b);
    u16_is_spelled_out(b);
    u16_is_spelled_out(b + tail);
}

/// A `u32` is four bytes, the highest first. It is refused where these are not
/// all there, and nothing else is asked of them.
pub proof fn u32_is_spelled_out(s: Seq<u8>)
    ensures
        s.len() < 4 ==> u32::decode(s) == Err::<(u32, nat), PacketError>(
            PacketError::UnexpectedEnd,
        ),
        s.len() >= 4 ==> (u32::decode(s) matches Ok((v, n)) && n == 4
            && v == s[0] * 0x1000000 + s[1] * 0x10000 + s[2] * 0x100 + s[3]),
{
    lemma_first_bytes(s);
    if s.len() >= 4 {
        crate::net::wire::lemma_be_limits();
        crate::net::wire::lemma_be_value_bound(s.take(4));
    }
}

/// Every `u32` is written, as four bytes that spell it, and read back in front of anything.
pub proof fn u32_is_written_out(v: u32, tail: Seq<u8>)
    ensures
        v.survives(),
        v.encode().error is None,
        v.encode().bytes.len() == 4,
        ({
            let b = v.encode().bytes;
            v == b[0] * 0x1000000 + b[1] * 0x10000 + b[2] * 0x100 + b[3]
        }),
        u32::decode(v.encode().bytes + tail) == Ok::<(u32, nat), PacketError>((v, 4)),
{
    let b = v.encode().bytes;
    v.decode_undoes_encode(tail);
    v.decode_undoes_encode(Seq::empty());
    assert(b + Seq::empty() =~= b);
    u32_is_spelled_out(b);
    u32_is_spelled_out(b + tail);
}

/// A `u64` is eight bytes, the highest first. It is refused where these are not
/// all there, and nothing else is asked of them.
pub proof fn u64_is_spelled_out(s: Seq<u8>)
    ensures
        s.len() < 8 ==> u64::decode(s) == Err::<(u64, nat), PacketError>(
            PacketError::UnexpectedEnd,
        ),
        s.len() >= 8 ==> (u64::decode(s) matches Ok((v, n)) && n == 8
            && v == s[0] * 0x100000000000000 + s[1] * 0x1000000000000 + s[2] * 0x10000000000
            + s[3] * 0x100000000 + s[4] * 0x1000000 + s[5] * 0x10000 + s[6] * 0x100 + s[7]),
{
    lemma_first_bytes(s);
    if s.len() >= 8 {
        crate::net::wire::lemma_be_limits();
        crate::net::wire::lemma_be_value_bound(s.take(8));
    }
}

/// Every `u64` is written, as eight bytes that spell it, and read back in front of anything.
pub proof fn u64_is_written_out(v: u64, tail: Seq<u8>)
    ensures
        v.survives(),
        v.encode().error is None,
        v.encode().bytes.len() == 8,
        ({
            let b = v.encode().bytes;
            v == b[0] * 0x100000000000000 + b[1] * 0x1000000000000 + b[2] * 0x10000000000
                + b[3] * 0x100000000 + b[4] * 0x1000000 + b[5] * 0x10000 + b[6] * 0x100 + b[7]
        }),
        u64::decode(v.encode().bytes + tail) == Ok::<(u64, nat), PacketError>((v, 8)),
{
    let b = v.encode().bytes;
    v.decode_undoes_encode(tail);
    v.decode_undoes_encode(Seq::empty());
    assert(b + Seq::empty() =~= b);
    u64_is_spelled_out(b);
    u64_is_spelled_out(b + tail);
}

/// An `i16` is two bytes, the highest first, in two's complement. It is refused where these are not
/// all there, and nothing else is asked of them.
pub proof fn i16_is_spelled_out(s: Seq<u8>)
    ensures
        s.len() < 2 ==> i16::decode(s) == Err::<(i16, nat), PacketError>(
            PacketError::UnexpectedEnd,
        ),
        s.len() >= 2 ==> (i16::decode(s) matches Ok((v, n)) && n == 2 && (v - (s[0] * 0x100
            + s[1])) % 0x1_0000 == 0),
{
    lemma_first_bytes(s);
    if s.len() >= 2 {
        crate::net::wire::lemma_be_limits();
        crate::net::wire::lemma_be_value_bound(s.take(2));
    }
}

/// Every `i16` is written, as two bytes that spell it, and read back in front of anything.
pub proof fn i16_is_written_out(v: i16, tail: Seq<u8>)
    ensures
        v.survives(),
        v.encode().error is None,
        v.encode().bytes.len() == 2,
        ({
            let b = v.encode().bytes;
            (v - (b[0] * 0x100 + b[1])) % 0x1_0000 == 0
        }),
        i16::decode(v.encode().bytes + tail) == Ok::<(i16, nat), PacketError>((v, 2)),
{
    let b = v.encode().bytes;
    v.decode_undoes_encode(tail);
    v.decode_undoes_encode(Seq::empty());
    assert(b + Seq::empty() =~= b);
    i16_is_spelled_out(b);
    i16_is_spelled_out(b + tail);
}

/// An `i32` is four bytes, the highest first, in two's complement. It is refused where these are not
/// all there, and nothing else is asked of them.
pub proof fn i32_is_spelled_out(s: Seq<u8>)
    ensures
        s.len() < 4 ==> i32::decode(s) == Err::<(i32, nat), PacketError>(
            PacketError::UnexpectedEnd,
        ),
        s.len() >= 4 ==> (i32::decode(s) matches Ok((v, n)) && n == 4
            && (v - (s[0] * 0x1000000 + s[1] * 0x10000 + s[2] * 0x100
            + s[3])) % 0x1_0000_0000 == 0),
{
    lemma_first_bytes(s);
    if s.len() >= 4 {
        crate::net::wire::lemma_be_limits();
        crate::net::wire::lemma_be_value_bound(s.take(4));
    }
}

/// Every `i32` is written, as four bytes that spell it, and read back in front of anything.
pub proof fn i32_is_written_out(v: i32, tail: Seq<u8>)
    ensures
        v.survives(),
        v.encode().error is None,
        v.encode().bytes.len() == 4,
        ({
            let b = v.encode().bytes;
            (v - (b[0] * 0x1000000 + b[1] * 0x10000 + b[2] * 0x100 + b[3])) % 0x1_0000_0000 == 0
        }),
        i32::decode(v.encode().bytes + tail) == Ok::<(i32, nat), PacketError>((v, 4)),
{
    let b = v.encode().bytes;
    v.decode_undoes_encode(tail);
    v.decode_undoes_encode(Seq::empty());
    assert(b + Seq::empty() =~= b);
    i32_is_spelled_out(b);
    i32_is_spelled_out(b + tail);
}

/// A byte with the top bit set is a group with more behind it.
proof fn lemma_first_group(s: Seq<u8>, most: nat, n: nat)
    requires
        most > 0,
        s.len() > 0,
        s[0] >= 128,
        n < s.len(),
        groups_size(s.drop_first(), (most - 1) as nat) == Ok::<nat, PacketError>(n),
    ensures
        groups_size(s, most) == Ok::<nat, PacketError>(n + 1),
        groups_value(s.take((n + 1) as int)) == s[0] % 128 + 128 * groups_value(
            s.drop_first().take(n as int),
        ),
{
    assert(s.take((n + 1) as int).drop_first() =~= s.drop_first().take(n as int));
}

/// A byte with the top bit clear is the last group.
proof fn lemma_last_group(s: Seq<u8>, most: nat)
    requires
        most > 0,
        s.len() > 0,
        s[0] < 128,
    ensures
        groups_size(s, most) == Ok::<nat, PacketError>(1),
        groups_value(s.take(1)) == s[0],
{
    assert(s.take(1).drop_first() =~= Seq::<u8>::empty());
    assert(groups_value(Seq::<u8>::empty()) == 0);
}

/// A variable-length integer goes on while the top bit is set, up to the fifth byte; the
/// other bits spell it, the lowest first. Bits beyond the thirty-second do not count.
pub proof fn varint_is_spelled_out(s: Seq<u8>)
    ensures
        s.len() == 0 ==> VarInt::decode(s) == Err::<(VarInt, nat), PacketError>(
            PacketError::UnexpectedEnd,
        ),
        s.len() >= 1 && s[0] < 128 ==> (VarInt::decode(s) matches Ok((v, n)) && n == 1
            && (v.0 - (s[0] % 128)) % 0x1_0000_0000 == 0),
        s.len() >= 2 && s[0] >= 128 && s[1] < 128 ==> (VarInt::decode(s) matches Ok((v, n))
            && n == 2 && (v.0 - (s[0] % 128 + s[1] % 128 * 0x80)) % 0x1_0000_0000 == 0),
        s.len() >= 3 && s[0] >= 128 && s[1] >= 128 && s[2] < 128
            ==> (VarInt::decode(s) matches Ok((v, n)) && n == 3 && (v.0 - (s[0] % 128
            + s[1] % 128 * 0x80 + s[2] % 128 * 0x4000)) % 0x1_0000_0000 == 0),
        s.len() >= 4 && s[0] >= 128 && s[1] >= 128 && s[2] >= 128 && s[3] < 128
            ==> (VarInt::decode(s) matches Ok((v, n)) && n == 4 && (v.0 - (s[0] % 128
            + s[1] % 128 * 0x80 + s[2] % 128 * 0x4000
            + s[3] % 128 * 0x200000)) % 0x1_0000_0000 == 0),
        s.len() >= 5 && s[0] >= 128 && s[1] >= 128 && s[2] >= 128 && s[3] >= 128
            && s[4] < 128 ==> (VarInt::decode(s) matches Ok((v, n)) && n == 5
            && (v.0 - (s[0] % 128 + s[1] % 128 * 0x80 + s[2] % 128 * 0x4000
            + s[3] % 128 * 0x200000 + s[4] % 128 * 0x10000000)) % 0x1_0000_0000 == 0),
        s.len() == 1 && s[0] >= 128
            ==> VarInt::decode(s) == Err::<(VarInt, nat), PacketError>(PacketError::UnexpectedEnd),
        s.len() == 2 && s[0] >= 128 && s[1] >= 128
            ==> VarInt::decode(s) == Err::<(VarInt, nat), PacketError>(PacketError::UnexpectedEnd),
        s.len() == 3 && s[0] >= 128 && s[1] >= 128 && s[2] >= 128
            ==> VarInt::decode(s) == Err::<(VarInt, nat), PacketError>(PacketError::UnexpectedEnd),
        s.len() == 4 && s[0] >= 128 && s[1] >= 128 && s[2] >= 128 && s[3] >= 128
            ==> VarInt::decode(s) == Err::<(VarInt, nat), PacketError>(PacketError::UnexpectedEnd),
        s.len() >= 5 && s[0] >= 128 && s[1] >= 128 && s[2] >= 128 && s[3] >= 128
            && s[4] >= 128
            ==> VarInt::decode(s) == Err::<(VarInt, nat), PacketError>(PacketError::VarIntTooLong)
            && VarInt::refused_after(s) == Some(5nat),
{
    let s1 = s.drop_first();
    let s2 = s1.drop_first();
    let s3 = s2.drop_first();
    let s4 = s3.drop_first();
    let s5 = s4.drop_first();
    if s.len() >= 1 && s[0] < 128 {
        lemma_last_group(s, 5);
    }
    if s.len() >= 2 && s[0] >= 128 && s[1] < 128 {
        lemma_last_group(s1, 4);
        lemma_first_group(s, 5, 1);
    }
    if s.len() >= 3 && s[0] >= 128 && s[1] >= 128 && s[2] < 128 {
        lemma_last_group(s2, 3);
        lemma_first_group(s1, 4, 1);
        lemma_first_group(s, 5, 2);
    }
    if s.len() >= 4 && s[0] >= 128 && s[1] >= 128 && s[2] >= 128 && s[3] < 128 {
        lemma_last_group(s3, 2);
        lemma_first_group(s2, 3, 1);
        lemma_first_group(s1, 4, 2);
        lemma_first_group(s, 5, 3);
    }
    if s.len() >= 5 && s[0] >= 128 && s[1] >= 128 && s[2] >= 128 && s[3] >= 128 && s[4] < 128 {
        lemma_last_group(s4, 1);
        lemma_first_group(s3, 2, 1);
        lemma_first_group(s2, 3, 2);
        lemma_first_group(s1, 4, 3);
        lemma_first_group(s, 5, 4);
    }
    if s.len() == 1 && s[0] >= 128 {
        assert(groups_size(s1, 4) == Err::<nat, PacketError>(PacketError::UnexpectedEnd));
        assert(groups_size(s, 5) == Err::<nat, PacketError>(PacketError::UnexpectedEnd));
    }
    if s.len() == 2 && s[0] >= 128 && s[1] >= 128 {
        assert(groups_size(s2, 3) == Err::<nat, PacketError>(PacketError::UnexpectedEnd));
        assert(groups_size(s1, 4) == Err::<nat, PacketError>(PacketError::UnexpectedEnd));
        assert(groups_size(s, 5) == Err::<nat, PacketError>(PacketError::UnexpectedEnd));
    }
    if s.len() == 3 && s[0] >= 128 && s[1] >= 128 && s[2] >= 128 {
        assert(groups_size(s3, 2) == Err::<nat, PacketError>(PacketError::UnexpectedEnd));
        assert(groups_size(s2, 3) == Err::<nat, PacketError>(PacketError::UnexpectedEnd));
        assert(groups_size(s1, 4) == Err::<nat, PacketError>(PacketError::UnexpectedEnd));
        assert(groups_size(s, 5) == Err::<nat, PacketError>(PacketError::UnexpectedEnd));
    }
    if s.len() == 4 && s[0] >= 128 && s[1] >= 128 && s[2] >= 128 && s[3] >= 128 {
        assert(groups_size(s4, 1) == Err::<nat, PacketError>(PacketError::UnexpectedEnd));
        assert(groups_size(s3, 2) == Err::<nat, PacketError>(PacketError::UnexpectedEnd));
        assert(groups_size(s2, 3) == Err::<nat, PacketError>(PacketError::UnexpectedEnd));
        assert(groups_size(s1, 4) == Err::<nat, PacketError>(PacketError::UnexpectedEnd));
        assert(groups_size(s, 5) == Err::<nat, PacketError>(PacketError::UnexpectedEnd));
    }
    if s.len() >= 5 && s[0] >= 128 && s[1] >= 128 && s[2] >= 128 && s[3] >= 128 && s[4] >= 128 {
        assert(groups_size(s5, 0) == Err::<nat, PacketError>(PacketError::VarIntTooLong));
        assert(groups_size(s4, 1) == Err::<nat, PacketError>(PacketError::VarIntTooLong));
        assert(groups_size(s3, 2) == Err::<nat, PacketError>(PacketError::VarIntTooLong));
        assert(groups_size(s2, 3) == Err::<nat, PacketError>(PacketError::VarIntTooLong));
        assert(groups_size(s1, 4) == Err::<nat, PacketError>(PacketError::VarIntTooLong));
        assert(groups_size(s, 5) == Err::<nat, PacketError>(PacketError::VarIntTooLong));
    }
}

/// Every variable-length integer is written, and read back in front of anything.
pub proof fn varint_is_written_out(v: VarInt, tail: Seq<u8>)
    ensures
        v@ == v,
        v.survives(),
        v.encode().error is None,
        VarInt::decode(v.encode().bytes + tail) == Ok::<(VarInt, nat), PacketError>(
            (v, v.encode().bytes.len()),
        ),
{
    v.decode_undoes_encode(tail);
}

/// No spelling of an integer is shorter than the one that is written.
pub proof fn varint_is_written_shortest(v: VarInt, s: Seq<u8>)
    requires
        VarInt::decode(s) matches Ok((w, _)) && w == v,
    ensures
        v.encode().bytes.len() <= VarInt::decode(s)->Ok_0.1,
{
    let n = VarInt::decode(s)->Ok_0.1;
    crate::net::varint::one_to_five_bytes(v, s);
    if n < 5 {
        VarInt::decode_stays_inside(s);
        crate::net::varint::lemma_groups_value_bound(s.take(n as int));
        reveal_with_fuel(groups_limit, 6);
        crate::net::varint::lemma_groups(groups_value(s.take(n as int)), n, Seq::empty());
    }
}

/// A string is as many bytes as the integer in front of them says, in UTF-8. It is refused
/// where that is below zero, where the bytes are not all there, and where they are not UTF-8.
pub proof fn string_is_spelled_out(s: Seq<u8>)
    ensures
        VarInt::decode(s) matches Err(e) ==> String::decode(s) == Err::<
            (Seq<char>, nat),
            PacketError,
        >(e),
        VarInt::decode(s) matches Ok((len, n)) ==> {
            &&& len.0 < 0 ==> String::decode(s) == Err::<(Seq<char>, nat), PacketError>(
                PacketError::NegativeLength,
            ) && String::refused_after(s) == Some(n)
            &&& len.0 >= 0 && s.len() < n + len.0 ==> String::decode(s) == Err::<
                (Seq<char>, nat),
                PacketError,
            >(PacketError::UnexpectedEnd)
            &&& len.0 >= 0 && s.len() >= n + len.0 && !valid_utf8(s.subrange(n as int, n + len.0))
                ==> String::decode(s) == Err::<(Seq<char>, nat), PacketError>(
                PacketError::InvalidString,
            ) && String::refused_after(s) == Some((n + len.0) as nat)
            &&& len.0 >= 0 && s.len() >= n + len.0 && valid_utf8(s.subrange(n as int, n + len.0))
                ==> (String::decode(s) matches Ok((text, k)) && k == n + len.0 && encode_utf8(text)
                == s.subrange(n as int, n + len.0))
        },
{
    if let Ok((len, n)) = VarInt::decode(s) {
        if len.0 >= 0 && s.len() >= n + len.0 {
            let bytes = s.subrange(n as int, n + len.0);
            if valid_utf8(bytes) {
                vstd::utf8::decode_utf8_encode_utf8(bytes);
            }
        }
    }
}

/// A string is written as the number of its bytes and the bytes, and read back in front of
/// anything. It is refused where the number has no room for it.
pub proof fn string_is_written_out(text: String, tail: Seq<u8>)
    ensures
        text.survives(),
        encode_utf8(text@).len() <= i32::MAX ==> {
            &&& text.encode().error is None
            &&& text.encode().bytes == VarInt(encode_utf8(text@).len() as i32).encode().bytes
                + encode_utf8(text@)
            &&& String::decode(text.encode().bytes + tail) == Ok::<(Seq<char>, nat), PacketError>(
                (text@, text.encode().bytes.len()),
            )
        },
        encode_utf8(text@).len() > i32::MAX ==> text.encode().error == Some(
            PacketError::StringTooLong,
        ) && text.encode().bytes.len() == 0,
{
    text.decode_undoes_encode(tail);
}

/// A pair is read where both are, the second behind the first, and fails with the first that
/// fails.
pub proof fn pair_is_one_behind_the_other<A: Serializable, B: Serializable>(s: Seq<u8>)
    ensures
        A::decode(s) matches Err(e) ==> <(A, B)>::decode(s) == Err::<
            ((A::V, B::V), nat),
            PacketError,
        >(e) && <(A, B)>::refused_after(s) == A::refused_after(s),
        A::decode(s) matches Ok((a, m)) ==> {
            let rest = s.subrange(m as int, s.len() as int);
            &&& B::decode(rest) matches Err(e) ==> <(A, B)>::decode(s) == Err::<
                ((A::V, B::V), nat),
                PacketError,
            >(e) && match B::refused_after(rest) {
                Some(n) => <(A, B)>::refused_after(s) == Some(m + n),
                None => <(A, B)>::refused_after(s) is None,
            }
            &&& B::decode(rest) matches Ok((b, n)) ==> <(A, B)>::decode(s) == Ok::<
                ((A::V, B::V), nat),
                PacketError,
            >(((a, b), m + n))
        },
{
}

/// A pair is written as the bytes of both; where one is refused, the pair is.
pub proof fn pair_is_written_in_order<A: Serializable, B: Serializable>(a: A, b: B)
    ensures
        a.encode().error is None ==> (a, b).encode().bytes == a.encode().bytes + b.encode().bytes
            && (a, b).encode().error == b.encode().error,
        a.encode().error is Some ==> (a, b).encode() == a.encode(),
{
}

/// A read that succeeds gives the value and leaves all that is behind it; one that fails
/// gives the error, and leaves an end of the packet.
pub proof fn a_read_does_what_it_says<T: View>(
    decoded: Result<(T::V, nat), PacketError>,
    refused_after: Option<nat>,
    s: Seq<u8>,
    res: Result<T, PacketError>,
    rest: Seq<u8>,
)
    requires
        reads(decoded, refused_after, s, res, rest),
    ensures
        decoded matches Ok((v, n)) ==> (res matches Ok(x) && x@ == v) && rest == s.subrange(
            n as int,
            s.len() as int,
        ),
        decoded matches Err(e) ==> res == Err::<T, PacketError>(e) && rest.is_suffix_of(s) && (
        refused_after matches Some(n) ==> rest == s.subrange(n as int, s.len() as int)),
{
}

/// A write appends the bytes to what is there, and fails only with the value's own error.
pub proof fn a_write_does_what_it_says(
    encoded: Encoded,
    w: Seq<u8>,
    res: Result<(), PacketError>,
    out: Seq<u8>,
)
    requires
        writes(encoded, w, res, out),
    ensures
        out == w + encoded.bytes,
        encoded.error is None ==> res is Ok,
        encoded.error matches Some(e) ==> res == Err::<(), PacketError>(e),
{
}

/// Counts of bytes add up.
pub proof fn counts_add_up(n: nat, k: nat)
    ensures
        further(Some(n), k) == Some((n + k) as nat),
        further(None, k) is None,
{
}

/// A float is the four bytes of its bits. Every float is written and read back, bit by bit.
pub proof fn float_is_spelled_out(f: Float32, s: Seq<u8>, tail: Seq<u8>)
    ensures
        f@ == f,
        s.len() < 4 ==> Float32::decode(s) == Err::<(Float32, nat), PacketError>(
            PacketError::UnexpectedEnd,
        ),
        s.len() >= 4 ==> (Float32::decode(s) matches Ok((v, n)) && n == 4 && v.bits == s[0]
            * 0x1000000 + s[1] * 0x10000 + s[2] * 0x100 + s[3]),
        f.survives(),
        f.encode().error is None,
        Float32::decode(f.encode().bytes + tail) == Ok::<(Float32, nat), PacketError>((f, 4)),
{
    u32_is_spelled_out(s);
    u32_is_written_out(f.bits, tail);
}

/// A number is equal to itself; bits with the highest exponent and a fraction are no number,
/// and equal to nothing.
pub proof fn float32_equals_itself(a: Float32, b: Float32)
    ensures
        a.same_number(a) <==> !(a.bits / 0x80_0000 % 0x100 == 0xff && a.bits % 0x80_0000 != 0),
        a.same_number(b) ==> a.same_number(a) && b.same_number(b) && b.same_number(a),
{
    let bits = a.bits;
    assert((bits % 0x8000_0000 > 0xff * 0x80_0000) <==> (bits / 0x80_0000 % 0x100 == 0xff
        && bits % 0x80_0000
        != 0)) by (bit_vector);
}

/// Numbers with different bits are equal only where both are zero, one of each sign.
pub proof fn float32_zeros_are_equal(a: Float32, b: Float32)
    requires
        a.bits != b.bits,
    ensures
        a.same_number(b) <==> (a.bits == 0 || a.bits == 0x8000_0000) && (b.bits == 0 || b.bits
            == 0x8000_0000),
{
}

/// A number is equal to itself; bits with the highest exponent and a fraction are no number,
/// and equal to nothing.
pub proof fn float64_equals_itself(a: Float64, b: Float64)
    ensures
        a.same_number(a) <==> !(a.bits / 0x10_0000_0000_0000 % 0x800 == 0x7ff
            && a.bits % 0x10_0000_0000_0000 != 0),
        a.same_number(b) ==> a.same_number(a) && b.same_number(b) && b.same_number(a),
{
    let bits = a.bits;
    assert((bits % 0x8000_0000_0000_0000 > 0x7ff * 0x10_0000_0000_0000) <==> (bits / 0x10_0000_0000_0000 % 0x800 == 0x7ff && bits % 0x10_0000_0000_0000
        != 0)) by (bit_vector);
}

/// Numbers with different bits are equal only where both are zero, one of each sign.
pub proof fn float64_zeros_are_equal(a: Float64, b: Float64)
    requires
        a.bits != b.bits,
    ensures
        a.same_number(b) <==> (a.bits == 0 || a.bits == 0x8000_0000_0000_0000)
            && (b.bits == 0 || b.bits
            == 0x8000_0000_0000_0000),
{
}

} // verus!
