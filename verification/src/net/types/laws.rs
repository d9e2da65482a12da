//! What holds of the values that packets carry, byte by byte.

use crate::net::error::PacketError;
use crate::net::item_nbt::{blob_content, gunzip, gzip_blob};
use crate::net::laws::{
    i16_is_spelled_out, i16_is_written_out, i32_is_spelled_out, i32_is_written_out,
    u16_is_spelled_out, u32_is_spelled_out, u64_is_spelled_out, u64_is_written_out,
    u8_is_spelled_out, u8_is_written_out,
};
use crate::net::float_bits::Float32;
use crate::net::nbt_layout::starts_with_file;
use crate::net::packet_helpers::Serializable;
use crate::net::types::chunk::{BlockChangeRecord, ChunkMetadata};
use crate::net::types::entity::{EntityAnimation, EntitySpawnProperty};
use crate::net::types::entity_meta::{
    decode_entries, decode_entry, encode_entries, entries_refused_after, entry_tag, EntityMeta,
};
use crate::net::types::meta_map::{lists, meta_entries, meta_fields, meta_order};
use crate::net::types::metadata::{decode_value, MetadataField, MetadataFieldView};
use crate::net::types::position::{packed, unpacked, Position, PositionIBI, PositionIII, PositionISI};
use crate::net::types::prefixed_vec::{
    decode_elements, elements_refused_after, ElementCount, PrefixedVec,
};
use crate::net::types::slot::{Slot, SlotView};
use crate::net::varint::VarInt;
use crate::net::wire::after;
use vstd::prelude::*;

verus! {

/// What is behind what is behind.
proof fn lemma_after(s: Seq<u8>, m: nat, n: nat)
    requires
        m + n <= s.len(),
    ensures
        after(after(s, m), n) == after(s, m + n),
        after(s, m).len() == s.len() - m,
        forall|i: int| 0 <= i < s.len() - m ==> #[trigger] after(s, m)[i] == s[m + i],
{
    assert(after(after(s, m), n) =~= after(s, m + n));
}

/// A `PositionIBI` is four bytes of x, 1 of y and four of z, in this order.
pub proof fn positionibi_is_spelled_out(s: Seq<u8>)
    ensures
        s.len() < 9 ==> PositionIBI::decode(s) == Err::<(PositionIBI, nat), PacketError>(
            PacketError::UnexpectedEnd,
        ),
        s.len() >= 9 ==> (PositionIBI::decode(s) matches Ok((p, n)) && n == 9
            && (p.x - (s[0] * 0x1000000 + s[1] * 0x10000 + s[2] * 0x100
            + s[3])) % 0x1_0000_0000 == 0 && p.y == s[4] && (p.z - (s[5] * 0x1000000
            + s[6] * 0x10000 + s[7] * 0x100 + s[8])) % 0x1_0000_0000 == 0),
{
    i32_is_spelled_out(s);
    if s.len() >= 4 {
        lemma_after(s, 4, 0);
        u8_is_spelled_out(after(s, 4));
        if s.len() >= 5 {
            lemma_after(s, 4, 1);
            lemma_after(s, 5, 0);
            i32_is_spelled_out(after(s, 5));
        }
    }
}

/// Every `PositionIBI` is written, and read back in front of anything.
pub proof fn positionibi_is_written_out(p: PositionIBI, tail: Seq<u8>)
    ensures
        p@ == p,
        p.survives(),
        p.encode().error is None,
        p.encode().bytes.len() == 9,
        PositionIBI::decode(p.encode().bytes
            + tail) == Ok::<(PositionIBI, nat), PacketError>((p, 9)),
{
    i32_is_written_out(p.x, tail);
    u8_is_written_out(p.y, tail);
    i32_is_written_out(p.z, tail);
    p.decode_undoes_encode(tail);
}

/// A `PositionISI` is four bytes of x, 2 of y and four of z, in this order.
pub proof fn positionisi_is_spelled_out(s: Seq<u8>)
    ensures
        s.len() < 10 ==> PositionISI::decode(s) == Err::<(PositionISI, nat), PacketError>(
            PacketError::UnexpectedEnd,
        ),
        s.len() >= 10 ==> (PositionISI::decode(s) matches Ok((p, n)) && n == 10
            && (p.x - (s[0] * 0x1000000 + s[1] * 0x10000 + s[2] * 0x100
            + s[3])) % 0x1_0000_0000 == 0 && (p.y - (s[4] * 0x100 + s[5])) % 0x1_0000 == 0
            && (p.z - (s[6] * 0x1000000 + s[7] * 0x10000 + s[8] * 0x100
            + s[9])) % 0x1_0000_0000 == 0),
{
    i32_is_spelled_out(s);
    if s.len() >= 4 {
        lemma_after(s, 4, 0);
        i16_is_spelled_out(after(s, 4));
        if s.len() >= 6 {
            lemma_after(s, 4, 2);
            lemma_after(s, 6, 0);
            i32_is_spelled_out(after(s, 6));
        }
    }
}

/// Every `PositionISI` is written, and read back in front of anything.
pub proof fn positionisi_is_written_out(p: PositionISI, tail: Seq<u8>)
    ensures
        p@ == p,
        p.survives(),
        p.encode().error is None,
        p.encode().bytes.len() == 10,
        PositionISI::decode(p.encode().bytes
            + tail) == Ok::<(PositionISI, nat), PacketError>((p, 10)),
{
    i32_is_written_out(p.x, tail);
    i16_is_written_out(p.y, tail);
    i32_is_written_out(p.z, tail);
    p.decode_undoes_encode(tail);
}

/// A `PositionIII` is four bytes of x, 4 of y and four of z, in this order.
pub proof fn positioniii_is_spelled_out(s: Seq<u8>)
    ensures
        s.len() < 12 ==> PositionIII::decode(s) == Err::<(PositionIII, nat), PacketError>(
            PacketError::UnexpectedEnd,
        ),
        s.len() >= 12 ==> (PositionIII::decode(s) matches Ok((p, n)) && n == 12
            && (p.x - (s[0] * 0x1000000 + s[1] * 0x10000 + s[2] * 0x100
            + s[3])) % 0x1_0000_0000 == 0 && (p.y - (s[4] * 0x1000000 + s[5] * 0x10000
            + s[6] * 0x100 + s[7])) % 0x1_0000_0000 == 0 && (p.z - (s[8] * 0x1000000
            + s[9] * 0x10000 + s[10] * 0x100 + s[11])) % 0x1_0000_0000 == 0),
{
    i32_is_spelled_out(s);
    if s.len() >= 4 {
        lemma_after(s, 4, 0);
        i32_is_spelled_out(after(s, 4));
        if s.len() >= 8 {
            lemma_after(s, 4, 4);
            lemma_after(s, 8, 0);
            i32_is_spelled_out(after(s, 8));
        }
    }
}

/// Every `PositionIII` is written, and read back in front of anything.
pub proof fn positioniii_is_written_out(p: PositionIII, tail: Seq<u8>)
    ensures
        p@ == p,
        p.survives(),
        p.encode().error is None,
        p.encode().bytes.len() == 12,
        PositionIII::decode(p.encode().bytes
            + tail) == Ok::<(PositionIII, nat), PacketError>((p, 12)),
{
    i32_is_written_out(p.x, tail);
    i32_is_written_out(p.y, tail);
    i32_is_written_out(p.z, tail);
    p.decode_undoes_encode(tail);
}

/// What is unpacked from a word agrees with its fields.
proof fn lemma_unpacked(v: u64)
    ensures
        ({
            let p = unpacked(v);
            let word = v as int;
            &&& -0x200_0000 <= p.x < 0x200_0000 && (p.x - word / 0x40_0000_0000) % 0x400_0000 == 0
            &&& -0x200_0000 <= p.z < 0x200_0000 && (p.z - word / 0x1000) % 0x400_0000 == 0
            &&& -0x800 <= p.y < 0x800 && (p.y - word) % 0x1000 == 0
        }),
{
}

/// A packed position is a word with 26 bits of x at the top, 26 of z below them and 12 of y at
/// the bottom, each in two's complement.
#[verifier::rlimit(40)]
pub proof fn position_is_spelled_out(s: Seq<u8>)
    ensures
        s.len() < 8 ==> Position::decode(s) == Err::<(PositionIII, nat), PacketError>(
            PacketError::UnexpectedEnd,
        ),
        s.len() >= 8 ==> {
            let word = s[0] * 0x100000000000000 + s[1] * 0x1000000000000
                + s[2] * 0x10000000000 + s[3] * 0x100000000 + s[4] * 0x1000000
                + s[5] * 0x10000 + s[6] * 0x100 + s[7];
            &&& Position::decode(s) matches Ok((p, n))
            &&& n == 8
            &&& -0x200_0000 <= p.x < 0x200_0000 && (p.x - word / 0x40_0000_0000) % 0x400_0000 == 0
            &&& -0x200_0000 <= p.z < 0x200_0000 && (p.z - word / 0x1000) % 0x400_0000 == 0
            &&& -0x800 <= p.y < 0x800 && (p.y - word) % 0x1000 == 0
        },
{
    u64_is_spelled_out(s);
    if let Ok((v, _)) = u64::decode(s) {
        lemma_unpacked(v);
    }
}

/// Every position is written as eight bytes. What is read back of it differs from it by whole
/// turns of its fields, and not at all where it fits them.
pub proof fn position_is_written_out(p: Position, tail: Seq<u8>)
    ensures
        p.encode().error is None,
        p.encode().bytes.len() == 8,
        Position::decode(p.encode().bytes + tail) matches Ok((q, n)) && n == 8 && (q.x - p@.x)
            % 0x400_0000 == 0 && (q.y - p@.y) % 0x1000 == 0 && (q.z - p@.z) % 0x400_0000 == 0 && (
        -0x200_0000 <= p@.x < 0x200_0000 && -0x800 <= p@.y < 0x800 && -0x200_0000 <= p@.z
            < 0x200_0000 ==> q == p@ && p.survives()),
{
    let word = packed(p@);
    u64_is_written_out(word, tail);
    crate::net::types::position::packing_wraps(p@);
}

/// The metadata of a chunk is four bytes each of x and z and two of each bitmap, in this
/// order.
pub proof fn chunk_metadata_is_spelled_out(s: Seq<u8>)
    ensures
        s.len() < 12 ==> ChunkMetadata::decode(s) == Err::<(ChunkMetadata, nat), PacketError>(
            PacketError::UnexpectedEnd,
        ),
        s.len() >= 12 ==> (ChunkMetadata::decode(s) matches Ok((m, n)) && n == 12
            && (m.chunk_x - (s[0] * 0x1000000 + s[1] * 0x10000 + s[2] * 0x100
            + s[3])) % 0x1_0000_0000 == 0 && (m.chunk_z - (s[4] * 0x1000000 + s[5] * 0x10000
            + s[6] * 0x100 + s[7])) % 0x1_0000_0000 == 0 && m.primary_bitmap == s[8] * 0x100
            + s[9] && m.add_bitmap == s[10] * 0x100 + s[11]),
{
    i32_is_spelled_out(s);
    if s.len() >= 4 {
        lemma_after(s, 4, 0);
        i32_is_spelled_out(after(s, 4));
        if s.len() >= 8 {
            lemma_after(s, 4, 4);
            lemma_after(s, 8, 0);
            u16_is_spelled_out(after(s, 8));
            if s.len() >= 10 {
                lemma_after(s, 8, 2);
                lemma_after(s, 10, 0);
                u16_is_spelled_out(after(s, 10));
            }
        }
    }
}

/// A block change is half a byte each of x and z, a byte of y, and twelve bits of the block in
/// front of four of its metadata.
pub proof fn block_change_is_spelled_out(s: Seq<u8>)
    ensures
        s.len() < 4 ==> BlockChangeRecord::decode(s) == Err::<
            (BlockChangeRecord, nat),
            PacketError,
        >(PacketError::UnexpectedEnd),
        s.len() >= 4 ==> {
            &&& BlockChangeRecord::decode(s) matches Ok((r, n))
            &&& n == 4
            &&& r.x < 16 && r.z < 16 && r.x * 16 + r.z == s[0]
            &&& r.y == s[1]
            &&& r.block_meta < 16 && r.block_id * 16 + r.block_meta == s[2] * 256 + s[3]
        },
{
    u32_is_spelled_out(s);
    if let Ok((v, _)) = u32::decode(s) {
        crate::net::types::chunk::record_keeps_word(v);
    }
}

/// What cannot be written is refused without a byte, whatever it holds.
pub proof fn received_values_are_not_written<T: Serializable, C: ElementCount>(
    m: ChunkMetadata,
    b: BlockChangeRecord,
    e: EntitySpawnProperty,
    s: Slot,
    v: PrefixedVec<T, C>,
)
    ensures
        m@ == m,
        b@ == b,
        m.encode().error == Some(PacketError::NotWritable) && m.encode().bytes.len() == 0,
        b.encode().error == Some(PacketError::NotWritable) && b.encode().bytes.len() == 0,
        e.encode().error == Some(PacketError::NotWritable) && e.encode().bytes.len() == 0,
        s.encode().error == Some(PacketError::NotWritable) && s.encode().bytes.len() == 0,
        v.encode().error == Some(PacketError::NotWritable) && v.encode().bytes.len() == 0,
{
}

/// A spawn property is its name, its value and its signature, one string behind the other; it
/// fails with the first of them that fails.
pub proof fn spawn_property_is_three_strings(s: Seq<u8>, p: EntitySpawnProperty)
    ensures
        p@.name == p.name@ && p@.value == p.value@ && p@.signature == p.signature@,
        String::decode(s) matches Err(e) ==> (EntitySpawnProperty::decode(s) matches Err(f) && f
            == e),
        String::decode(s) matches Ok((name, i)) ==> {
            let s1 = s.subrange(i as int, s.len() as int);
            &&& String::decode(s1) matches Err(e) ==> (EntitySpawnProperty::decode(s) matches Err(f)
                && f == e)
            &&& String::decode(s1) matches Ok((value, j)) ==> {
                let s2 = s1.subrange(j as int, s1.len() as int);
                &&& String::decode(s2) matches Err(e) ==> (EntitySpawnProperty::decode(
                    s,
                ) matches Err(f) && f == e)
                &&& String::decode(s2) matches Ok((signature, k)) ==> (EntitySpawnProperty::decode(
                    s,
                ) matches Ok((p, n)) && p.name == name && p.value == value && p.signature
                    == signature && n == i + j + k)
            }
        },
{
}

/// A slot is its id, and where that is not -1 a byte of count, two bytes of damage and two of a
/// length; where the length is not -1 the item's data comes behind it.
pub proof fn slot_is_spelled_out(s: Seq<u8>)
    ensures
        s.len() < 2 ==> Slot::decode(s) == Err::<(SlotView, nat), PacketError>(
            PacketError::UnexpectedEnd,
        ),
        s.len() >= 2 && s[0] == 0xff && s[1] == 0xff ==> (Slot::decode(s) matches Ok((v, n)) && n
            == 2 && v.item_id == -1 && v.item_count is None && v.item_damage is None
            && v.data is None),
        2 <= s.len() < 7 && !(s[0] == 0xff && s[1] == 0xff) ==> Slot::decode(s) == Err::<
            (SlotView, nat),
            PacketError,
        >(PacketError::UnexpectedEnd),
        s.len() >= 7 && !(s[0] == 0xff && s[1] == 0xff) && s[5] == 0xff && s[6] == 0xff ==> {
            &&& Slot::decode(s) matches Ok((v, n))
            &&& n == 7
            &&& v.data is None
            &&& (v.item_id - (s[0] * 0x100 + s[1])) % 0x1_0000 == 0
            &&& v.item_count == Some(s[2])
            &&& v.item_damage matches Some(d) && (d - (s[3] * 0x100 + s[4])) % 0x1_0000 == 0
        },
        s.len() >= 7 && !(s[0] == 0xff && s[1] == 0xff) && !(s[5] == 0xff && s[6] == 0xff) ==> {
            let data = s.subrange(7, s.len() as int);
            match gzip_blob(data) {
                Some((content, k)) if starts_with_file(gunzip(data)) && k <= data.len() => {
                    &&& Slot::decode(s) matches Ok((v, n))
                    &&& n == 7 + k
                    &&& v.data == Some(content)
                    &&& (v.item_id - (s[0] * 0x100 + s[1])) % 0x1_0000 == 0
                    &&& v.item_count == Some(s[2])
                    &&& v.item_damage matches Some(d) && (d - (s[3] * 0x100 + s[4])) % 0x1_0000 == 0
                },
                _ => Slot::decode(s) == Err::<(SlotView, nat), PacketError>(PacketError::InvalidNbt),
            }
        },
{
    i16_is_spelled_out(s);
    if s.len() >= 2 {
        lemma_after(s, 2, 0);
        u8_is_spelled_out(after(s, 2));
        if s.len() >= 3 {
            lemma_after(s, 2, 1);
            lemma_after(s, 3, 0);
            i16_is_spelled_out(after(s, 3));
            if s.len() >= 5 {
                lemma_after(s, 3, 2);
                lemma_after(s, 5, 0);
                i16_is_spelled_out(after(s, 5));
                if s.len() >= 7 {
                    lemma_after(s, 2, 5);
                }
            }
        }
    }
}

/// A slot without data is found in its bytes as it is, whatever its id other than -1, its count
/// and its damage, and nothing behind it is taken.
pub proof fn slot_without_data_is_read_back(id: i16, count: u8, damage: i16, tail: Seq<u8>)
    requires
        id != -1,
    ensures
        Slot::decode(
            id.encode().bytes + seq![count] + damage.encode().bytes + seq![0xffu8, 0xffu8] + tail,
        ) == Ok::<(SlotView, nat), PacketError>(
            (
                SlotView {
                    item_id: id,
                    item_count: Some(count),
                    item_damage: Some(damage),
                    data: None,
                },
                7,
            ),
        ),
{
    i16_is_written_out(id, Seq::empty());
    i16_is_written_out(damage, Seq::empty());
    let s = id.encode().bytes + seq![count] + damage.encode().bytes + seq![0xffu8, 0xffu8] + tail;
    let a = id.encode().bytes;
    let b = damage.encode().bytes;
    assert(s[0] == a[0] && s[1] == a[1] && s[2] == count && s[3] == b[0] && s[4] == b[1]);
    assert(s[5] == 0xff && s[6] == 0xff);
    slot_is_spelled_out(s);
}

/// A slot stands for what its fields are.
pub proof fn slot_stands_for_its_fields(s: Slot)
    ensures
        s@.item_id == s.item_id,
        s@.item_count == s.item_count,
        s@.item_damage == s.item_damage,
        s.data is None ==> s@.data is None,
        s.data matches Some(blob) ==> s@.data == Some(blob_content(blob)),
{
}

/// A count announces as many elements as the number that it is.
pub proof fn counts_are_numbers(a: u8, b: u16, c: u32, d: u64, e: i16, f: i32, g: VarInt)
    ensures
        u8::count(a) == a,
        u16::count(b) == b,
        u32::count(c) == c,
        u64::count(d) == d,
        i16::count(e) == e,
        i32::count(f) == f,
        VarInt::count(g) == g.0,
{
}

/// A list is a count with as many elements behind it. It is refused where the count is not
/// there, where it does not fit `isize`, and where an element is refused; a count of zero or
/// less announces none.
pub proof fn list_is_a_count_and_its_elements<T: Serializable, C: ElementCount>(s: Seq<u8>)
    ensures
        C::decode(s) matches Err(e) ==> (PrefixedVec::<T, C>::decode(s) matches Err(f) && f == e),
        C::decode(s) matches Ok((c, n)) ==> {
            let rest = s.subrange(n as int, s.len() as int);
            let list = PrefixedVec::<T, C>::decode(s);
            &&& C::count(c) > isize::MAX || C::count(c) < isize::MIN ==> (list matches Err(f) && f
                == PacketError::CountOutOfRange) && PrefixedVec::<T, C>::refused_after(s) == Some(n)
            &&& isize::MIN <= C::count(c) <= 0 ==> (list matches Ok((v, k)) && v.len() == 0 && k
                == n)
            &&& 0 < C::count(c) <= isize::MAX ==> match decode_elements::<T>(
                C::count(c) as nat,
                rest,
            ) {
                Ok((elements, m)) => list matches Ok((v, k)) && v == elements && k == n + m,
                Err(e) => list matches Err(f) && f == e,
            }
        },
{
}

/// Elements come one behind the other, and fail with the first that fails.
pub proof fn elements_come_in_order<T: Serializable>(n: nat, s: Seq<u8>)
    ensures
        decode_elements::<T>(0, s) matches Ok((v, k)) && v.len() == 0 && k == 0,
        T::decode(s) matches Err(e) ==> (decode_elements::<T>(n + 1, s) matches Err(f) && f == e),
        T::decode(s) matches Ok((first, k)) ==> match decode_elements::<T>(
            n,
            s.subrange(k as int, s.len() as int),
        ) {
            Ok((others, m)) => {
                &&& decode_elements::<T>(n + 1, s) matches Ok((v, j))
                &&& v.len() == others.len() + 1
                &&& v[0] == first
                &&& forall|i: int| 0 <= i < others.len() ==> #[trigger] v[i + 1] == others[i]
                &&& j == k + m
            },
            Err(e) => decode_elements::<T>(n + 1, s) matches Err(f) && f == e,
        },
{
}

/// The bytes of values, one behind the other.
pub open spec fn joined<T: Serializable>(values: Seq<T>) -> Seq<u8>
    decreases values.len(),
{
    if values.len() == 0 {
        Seq::empty()
    } else {
        values[0].encode().bytes + joined(values.drop_first())
    }
}

/// Values that are written one behind the other are read back as a list, all of them and in
/// their order.
pub proof fn elements_are_read_back<T: Serializable>(values: Seq<T>, tail: Seq<u8>)
    requires
        forall|i: int|
            0 <= i < values.len() ==> (#[trigger] values[i]).survives()
                && values[i].encode().error is None,
    ensures
        decode_elements::<T>(values.len(), joined(values) + tail) matches Ok((v, k)) && k
            == joined(values).len() && v.len() == values.len() && forall|i: int|
            0 <= i < values.len() ==> #[trigger] v[i] == values[i]@,
    decreases values.len(),
{
    if values.len() > 0 {
        let first = values[0];
        let others = values.drop_first();
        let bytes = first.encode().bytes;
        let all = joined(values) + tail;
        assert(first.survives());
        first.decode_undoes_encode(joined(others) + tail);
        assert(all =~= bytes + (joined(others) + tail));
        assert(after(all, bytes.len()) =~= joined(others) + tail);
        assert forall|i: int| 0 <= i < others.len() implies (#[trigger] others[i]).survives()
            && others[i].encode().error is None by {
            assert(values[i + 1].survives());
        }
        elements_are_read_back(others, tail);
        let v = decode_elements::<T>(values.len(), all)->Ok_0.0;
        let w = decode_elements::<T>(others.len(), joined(others) + tail)->Ok_0.0;
        assert forall|i: int| 0 <= i < values.len() implies #[trigger] v[i] == values[i]@ by {
            if i > 0 {
                assert(v[i] == w[i - 1]);
                assert(others[i - 1] == values[i]);
            }
        }
    }
}

/// A list of bytes behind a byte is the bytes as they stand.
pub proof fn byte_list_is_its_bytes(s: Seq<u8>)
    requires
        s.len() > 0,
    ensures
        s.len() < 1 + s[0] ==> (PrefixedVec::<u8, u8>::decode(s) matches Err(e) && e
            == PacketError::UnexpectedEnd),
        s.len() >= 1 + s[0] ==> (PrefixedVec::<u8, u8>::decode(s) matches Ok((v, k)) && k == 1
            + s[0] && v.len() == s[0] && forall|i: int|
            0 <= i < s[0] ==> #[trigger] v[i] == s[1 + i]),
{
    u8_is_spelled_out(s);
    lemma_after(s, 1, 0);
    lemma_bytes(s[0] as nat, after(s, 1));
}

/// Bytes that are read one by one.
proof fn lemma_bytes(n: nat, s: Seq<u8>)
    ensures
        s.len() < n ==> (decode_elements::<u8>(n, s) matches Err(e) && e
            == PacketError::UnexpectedEnd),
        s.len() >= n ==> (decode_elements::<u8>(n, s) matches Ok((v, k)) && k == n && v.len() == n
            && forall|i: int| 0 <= i < n ==> #[trigger] v[i] == s[i]),
    decreases n,
{
    if n > 0 {
        u8_is_spelled_out(s);
        if s.len() > 0 {
            lemma_after(s, 1, 0);
            lemma_bytes((n - 1) as nat, after(s, 1));
        }
    }
}

/// A list stands for what its elements stand for, in their order.
pub proof fn list_stands_for_its_elements<T: Serializable, C: ElementCount>(v: PrefixedVec<T, C>)
    ensures
        v@.len() == v.data@.len(),
        forall|i: int| 0 <= i < v.data@.len() ==> #[trigger] v@[i] == v.data@[i]@,
{
}

/// The kinds of metadata have the numbers from 0 to 5, and a field stands for its value.
pub proof fn metadata_kinds_are_numbered(
    a: u8,
    b: i16,
    c: i32,
    d: Float32,
    e: String,
    f: Slot,
)
    ensures
        MetadataField::Byte(a).kind() == 0 && MetadataField::Byte(a)@ == MetadataFieldView::Byte(a),
        MetadataField::Short(b).kind() == 1 && MetadataField::Short(b)@
            == MetadataFieldView::Short(b),
        MetadataField::Int(c).kind() == 2 && MetadataField::Int(c)@ == MetadataFieldView::Int(c),
        MetadataField::Float(d).kind() == 3 && MetadataField::Float(d)@
            == MetadataFieldView::Float(d),
        MetadataField::String(e).kind() == 4 && MetadataField::String(e)@
            == MetadataFieldView::String(e@),
        MetadataField::Slot(f).kind() == 5 && MetadataField::Slot(f)@ == MetadataFieldView::Slot(
            f@,
        ),
{
}

/// A field is read as a value of its kind, just as that is read elsewhere; there is no kind
/// beyond the fifth.
pub proof fn metadata_values_are_spelled_out(kind: u8, s: Seq<u8>)
    ensures
        s.len() < 1 ==> decode_value(0, s) is Err,
        s.len() >= 1 ==> (decode_value(0, s) matches Ok((f, n)) && n == 1 && f
            == MetadataFieldView::Byte(s[0])),
        s.len() < 2 ==> decode_value(1, s) is Err,
        s.len() >= 2 ==> (decode_value(1, s) matches Ok((MetadataFieldView::Short(v), n)) && n == 2
            && (v - (s[0] * 0x100 + s[1])) % 0x1_0000 == 0),
        s.len() < 4 ==> decode_value(2, s) is Err && decode_value(3, s) is Err,
        s.len() >= 4 ==> (decode_value(2, s) matches Ok((MetadataFieldView::Int(v), n)) && n == 4
            && (v - (s[0] * 0x1000000 + s[1] * 0x10000 + s[2] * 0x100 + s[3])) % 0x1_0000_0000
            == 0),
        s.len() >= 4 ==> (decode_value(3, s) matches Ok((MetadataFieldView::Float(v), n)) && n == 4
            && v.bits == s[0] * 0x1000000 + s[1] * 0x10000 + s[2] * 0x100 + s[3]),
        String::decode(s) matches Ok((text, n)) ==> decode_value(4, s) == Ok::<
            (MetadataFieldView, nat),
            PacketError,
        >((MetadataFieldView::String(text), n)),
        String::decode(s) matches Err(e) ==> decode_value(4, s) == Err::<
            (MetadataFieldView, nat),
            PacketError,
        >(e),
        Slot::decode(s) matches Ok((slot, n)) ==> decode_value(5, s) == Ok::<
            (MetadataFieldView, nat),
            PacketError,
        >((MetadataFieldView::Slot(slot), n)),
        Slot::decode(s) matches Err(e) ==> decode_value(5, s) == Err::<
            (MetadataFieldView, nat),
            PacketError,
        >(e),
        kind > 5 ==> decode_value(kind, s) == Err::<(MetadataFieldView, nat), PacketError>(
            PacketError::InvalidMetadataType(kind),
        ),
{
    reveal(decode_value);
    u8_is_spelled_out(s);
    i16_is_spelled_out(s);
    i32_is_spelled_out(s);
    u32_is_spelled_out(s);
}

/// A field that is cut short is refused as such, whatever its kind.
pub proof fn metadata_value_is_cut_short(kind: u8, s: Seq<u8>)
    requires
        kind == 0 && s.len() < 1 || kind == 1 && s.len() < 2 || (kind == 2 || kind == 3) && s.len()
            < 4,
    ensures
        decode_value(kind, s) == Err::<(MetadataFieldView, nat), PacketError>(
            PacketError::UnexpectedEnd,
        ),
{
    reveal(decode_value);
    u8_is_spelled_out(s);
    i16_is_spelled_out(s);
    i32_is_spelled_out(s);
    u32_is_spelled_out(s);
}

/// A field is written as its value is; a slot is refused without a byte.
pub proof fn metadata_values_are_written_out(
    a: u8,
    b: i16,
    c: i32,
    d: Float32,
    e: String,
    f: Slot,
)
    ensures
        MetadataField::Byte(a).encode_value() == a.encode(),
        MetadataField::Short(b).encode_value() == b.encode(),
        MetadataField::Int(c).encode_value() == c.encode(),
        MetadataField::Float(d).encode_value() == d.bits.encode(),
        MetadataField::String(e).encode_value() == e.encode(),
        MetadataField::Slot(f).encode_value().error == Some(PacketError::NotWritable),
        MetadataField::Slot(f).encode_value().bytes.len() == 0,
{
}

/// An entry is a byte that is 32 times the kind and the index, with the field behind it; the
/// byte 127 is no entry but the end.
pub proof fn entry_is_spelled_out(s: Seq<u8>)
    ensures
        s.len() == 0 ==> (decode_entry(s) matches Err(e) && e == PacketError::UnexpectedEnd),
        s.len() > 0 && s[0] == 127 ==> (decode_entry(s) matches Ok((None, n)) && n == 1),
        s.len() > 0 && s[0] != 127
            ==> match decode_value(s[0] / 32, s.subrange(1, s.len() as int)) {
            Ok((field, k)) => decode_entry(s) matches Ok((Some((i, f)), n)) && f == field && 0 <= i
                < 32 && i + 32 * (s[0] / 32) == s[0] && n == 1 + k,
            Err(e) => decode_entry(s) matches Err(f) && f == e,
        },
{
    u8_is_spelled_out(s);
}

/// Entries are put one on top of the other until one is the end; an entry takes the place of
/// an earlier one at its index and of no other. Metadata is what up to 256 of them leave.
pub proof fn entries_are_put_in_order(n: nat, sofar: Map<u64, MetadataFieldView>, s: Seq<u8>)
    ensures
        EntityMeta::decode(s) == decode_entries(256, Map::empty(), s),
        decode_entries(0, sofar, s) == Ok::<(Map<u64, MetadataFieldView>, nat), PacketError>(
            (sofar, 0),
        ),
        decode_entry(s) matches Err(e) ==> decode_entries(n + 1, sofar, s) == Err::<
            (Map<u64, MetadataFieldView>, nat),
            PacketError,
        >(e),
        decode_entry(s) matches Ok((None, k)) ==> decode_entries(n + 1, sofar, s) == Ok::<
            (Map<u64, MetadataFieldView>, nat),
            PacketError,
        >((sofar, k)),
        decode_entry(s) matches Ok((Some((index, field)), k)) ==> match decode_entries(
            n,
            sofar.insert(index, field),
            s.subrange(k as int, s.len() as int),
        ) {
            Ok((m, j)) => decode_entries(n + 1, sofar, s) == Ok::<
                (Map<u64, MetadataFieldView>, nat),
                PacketError,
            >((m, k + j)),
            Err(e) => decode_entries(n + 1, sofar, s) == Err::<
                (Map<u64, MetadataFieldView>, nat),
                PacketError,
            >(e),
        },
{
}

/// Entries are written one behind the other, each as a byte and its value. Of an index the low
/// byte is written, its upper bits under those of the kind. An entry that cannot be written
/// leaves its byte and ends the metadata.
pub proof fn entries_are_written_in_order(
    entries: Seq<(u64, MetadataField)>,
    index: u64,
    field: MetadataField,
)
    ensures
        encode_entries(Seq::empty()).error is None,
        encode_entries(Seq::empty()).bytes.len() == 0,
        encode_entries(entries).error is Some ==> encode_entries(entries.push((index, field)))
            == encode_entries(entries),
        encode_entries(entries).error is None ==> {
            let all = encode_entries(entries.push((index, field)));
            &&& all.bytes == encode_entries(entries).bytes + seq![
                ((index % 256) as u8) | ((32 * field.kind()) as u8),
            ] + field.encode_value().bytes
            &&& all.error == field.encode_value().error
        },
{
    assert(entries.push((index, field)).drop_last() =~= entries);
    let tag = entry_tag(index, field.kind());
    u8_is_written_out(tag, Seq::empty());
    assert(tag.encode().bytes =~= seq![tag]);
    assert(encode_entries(Seq::<(u64, MetadataField)>::empty()).bytes.len() == 0);
    if encode_entries(entries).error is None {
        assert(encode_entries(entries.push((index, field))).bytes =~= encode_entries(entries).bytes
            + seq![tag] + field.encode_value().bytes);
    }
}

/// Metadata is written as its entries in the order of the map with the byte 127 behind them,
/// and stands for what its fields stand for.
pub proof fn metadata_is_written_out(m: EntityMeta)
    ensures
        encode_entries(meta_entries(m.meta)).error is Some ==> m.encode() == encode_entries(
            meta_entries(m.meta),
        ),
        encode_entries(meta_entries(m.meta)).error is None ==> m.encode().error is None
            && m.encode().bytes == encode_entries(meta_entries(m.meta)).bytes + seq![127u8],
        meta_entries(m.meta).len() == meta_order(m.meta).len(),
        forall|i: int|
            0 <= i < meta_order(m.meta).len() ==> (#[trigger] meta_entries(m.meta)[i]).0
                == meta_order(m.meta)[i] && meta_entries(m.meta)[i].1 == meta_fields(
                m.meta,
            )[meta_order(m.meta)[i]],
        m@.dom() == meta_fields(m.meta).dom(),
        forall|k: u64| #[trigger]
            meta_fields(m.meta).dom().contains(k) ==> m@[k] == meta_fields(m.meta)[k]@,
{
    u8_is_written_out(127u8, Seq::empty());
    assert(127u8.encode().bytes =~= seq![127u8]);
}

/// Metadata with indices below 32, with no slot in it, and with no float at the last index, is
/// written and read back in front of anything.
pub proof fn metadata_is_read_back(m: EntityMeta, tail: Seq<u8>)
    requires
        lists(meta_order(m.meta), meta_fields(m.meta)),
        forall|k: u64| #[trigger]
            meta_fields(m.meta).dom().contains(k) ==> k < 32 && !(meta_fields(m.meta)[k] is Slot)
                && !(k == 31 && meta_fields(m.meta)[k] is Float)
                && meta_fields(m.meta)[k].encode_value().error is None,
    ensures
        m.survives(),
        m.encode().error is None,
        EntityMeta::decode(m.encode().bytes + tail) == Ok::<
            (Map<u64, MetadataFieldView>, nat),
            PacketError,
        >((m@, m.encode().bytes.len())),
{
    let entries = meta_entries(m.meta);
    assert forall|i: int| 0 <= i < entries.len() implies (
    #[trigger] entries[i]).1.encode_value().error is None by {
        assert(meta_order(m.meta).contains(meta_order(m.meta)[i]));
    }
    lemma_all_written(entries);
    m.decode_undoes_encode(tail);
}

/// Entries whose values can be written can be written.
proof fn lemma_all_written(entries: Seq<(u64, MetadataField)>)
    requires
        forall|i: int|
            0 <= i < entries.len() ==> (#[trigger] entries[i]).1.encode_value().error is None,
    ensures
        encode_entries(entries).error is None,
    decreases entries.len(),
{
    if entries.len() > 0 {
        assert(entries[entries.len() - 1].1.encode_value().error is None);
        assert forall|i: int| 0 <= i < entries.drop_last().len() implies (
        #[trigger] entries.drop_last()[i]).1.encode_value().error is None by {
            assert(entries.drop_last()[i] == entries[i]);
        }
        lemma_all_written(entries.drop_last());
    }
}

/// The animations have the numbers of the protocol.
pub proof fn animations_are_numbered()
    ensures
        EntityAnimation::SwingArm.number() == 0,
        EntityAnimation::DamageAnimation.number() == 1,
        EntityAnimation::LeaveBed.number() == 2,
        EntityAnimation::EatFood.number() == 3,
        EntityAnimation::CriticalEffect.number() == 4,
        EntityAnimation::MagicCriticalEffect.number() == 5,
        EntityAnimation::Unknown.number() == 102,
        EntityAnimation::Crouch.number() == 104,
        EntityAnimation::Uncrouch.number() == 105,
{
}

/// Of a list with an element that is refused, all up to it and with it has been taken.
pub proof fn refused_elements_are_taken<T: Serializable>(n: nat, s: Seq<u8>)
    ensures
        elements_refused_after::<T>(0, s) is None,
        T::decode(s) is Err ==> elements_refused_after::<T>(n + 1, s) == T::refused_after(s),
        T::decode(s) matches Ok((_, k)) ==> match elements_refused_after::<T>(
            n,
            s.subrange(k as int, s.len() as int),
        ) {
            Some(m) => elements_refused_after::<T>(n + 1, s) == Some(k + m),
            None => elements_refused_after::<T>(n + 1, s) is None,
        },
{
}

/// Of metadata with an entry of no kind, the entries before it and its byte have been taken; of
/// one with a broken string, the string too.
pub proof fn refused_entries_are_taken(n: nat, s: Seq<u8>)
    ensures
        entries_refused_after(0, s) is None,
        s.len() > 0 && s[0] / 32 > 5 ==> entries_refused_after(n + 1, s) == Some(1nat),
        s.len() > 0 && s[0] / 32 == 4 && String::decode(s.subrange(1, s.len() as int)) is Err
            ==> match String::refused_after(s.subrange(1, s.len() as int)) {
            Some(k) => entries_refused_after(n + 1, s) == Some(1 + k),
            None => entries_refused_after(n + 1, s) is None,
        },
        decode_entry(s) matches Ok((Some(_), k)) ==> match entries_refused_after(
            n,
            s.subrange(k as int, s.len() as int),
        ) {
            Some(m) => entries_refused_after(n + 1, s) == Some(k + m),
            None => entries_refused_after(n + 1, s) is None,
        },
        EntityMeta::refused_after(s) == entries_refused_after(256, s),
{
    u8_is_spelled_out(s);
    if s.len() > 0 {
        metadata_values_are_spelled_out(s[0] / 32, after(s, 1));
    }
}

} // verus!
