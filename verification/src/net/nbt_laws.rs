//! What holds of NBT data, tag by tag.

use crate::net::error::PacketError;
use crate::net::item_nbt::{decode_blob, gunzip, gzip_blob};
use crate::net::laws::lemma_first_bytes;
use crate::net::nbt_layout::{
    array_size, elements_size, entries_size, lemma_payload_size, payload_size, starts_with_file,
    string_size,
};
use crate::net::wire::{after};
use vstd::prelude::*;

verus! {

/// A string is two bytes of length and as many bytes as they say.
pub proof fn nbt_string_is_spelled_out(s: Seq<u8>)
    ensures
        s.len() < 2 ==> string_size(s) is None,
        s.len() >= 2 && s.len() < 2 + s[0] * 256 + s[1] ==> string_size(s) is None,
        s.len() >= 2 && s.len() >= 2 + s[0] * 256 + s[1] ==> string_size(s) == Some(
            (2 + s[0] * 256 + s[1]) as nat,
        ),
        payload_size(8, s) == string_size(s),
{
    lemma_first_bytes(s);
}

/// A number takes as many bytes as its kind says: one, two, four or eight, and again four or
/// eight for those with a fraction.
pub proof fn nbt_numbers_have_their_widths(s: Seq<u8>)
    ensures
        payload_size(1, s) == (if s.len() >= 1 { Some(1nat) } else { None }),
        payload_size(2, s) == (if s.len() >= 2 { Some(2nat) } else { None }),
        payload_size(3, s) == (if s.len() >= 4 { Some(4nat) } else { None }),
        payload_size(4, s) == (if s.len() >= 8 { Some(8nat) } else { None }),
        payload_size(5, s) == (if s.len() >= 4 { Some(4nat) } else { None }),
        payload_size(6, s) == (if s.len() >= 8 { Some(8nat) } else { None }),
{
}

/// An array is four bytes of count, not below zero, and as many elements of one, four or eight
/// bytes.
pub proof fn nbt_arrays_are_spelled_out(s: Seq<u8>)
    ensures
        s.len() < 4 ==> payload_size(7, s) is None && payload_size(11, s) is None && payload_size(
            12,
            s,
        ) is None,
        s.len() >= 4 && s[0] >= 128 ==> payload_size(7, s) is None && payload_size(11, s) is None
            && payload_size(12, s) is None,
        s.len() >= 4 && s[0] < 128 ==> {
            let count = s[0] * 0x1000000 + s[1] * 0x10000 + s[2] * 0x100 + s[3];
            &&& s.len() < 4 + count ==> payload_size(7, s) is None
            &&& s.len() >= 4 + count ==> payload_size(7, s) == Some((4 + count) as nat)
            &&& s.len() < 4 + 4 * count ==> payload_size(11, s) is None
            &&& s.len() >= 4 + 4 * count ==> payload_size(11, s) == Some((4 + 4 * count) as nat)
            &&& s.len() < 4 + 8 * count ==> payload_size(12, s) is None
            &&& s.len() >= 4 + 8 * count ==> payload_size(12, s) == Some((4 + 8 * count) as nat)
        },
{
    lemma_first_bytes(s);
    assert(payload_size(7, s) == array_size(s, 1));
    assert(payload_size(11, s) == array_size(s, 4));
    assert(payload_size(12, s) == array_size(s, 8));
}

/// A list is a kind, four bytes of count that are not below zero, and as many payloads of that
/// kind.
pub proof fn nbt_list_is_spelled_out(s: Seq<u8>)
    ensures
        s.len() < 5 ==> payload_size(9, s) is None,
        s.len() >= 5 && s[1] >= 128 ==> payload_size(9, s) is None,
        s.len() >= 5 && s[1] < 128 ==> {
            let count = s[1] * 0x1000000 + s[2] * 0x10000 + s[3] * 0x100 + s[4];
            match elements_size(s[0], count as nat, s.subrange(5, s.len() as int)) {
                Some(k) => payload_size(9, s) == Some(5 + k),
                None => payload_size(9, s) is None,
            }
        },
{
    if s.len() >= 5 {
        let t = after(s, 1);
        assert(t[0] == s[1] && t[1] == s[2] && t[2] == s[3] && t[3] == s[4]);
        lemma_first_bytes(t);
    }
}

/// The payloads of a list come one behind the other.
pub proof fn nbt_elements_come_in_order(id: u8, n: nat, s: Seq<u8>)
    ensures
        elements_size(id, 0, s) == Some(0nat),
        payload_size(id, s) is None ==> elements_size(id, n + 1, s) is None,
        payload_size(id, s) matches Some(k) ==> match elements_size(
            id,
            n,
            s.subrange(k as int, s.len() as int),
        ) {
            Some(m) => elements_size(id, n + 1, s) == Some(k + m),
            None => elements_size(id, n + 1, s) is None,
        },
{
    lemma_payload_size(id, s);
}

/// A compound is entries up to a zero byte: each a kind, a name and a payload of that kind.
pub proof fn nbt_compound_is_spelled_out(s: Seq<u8>)
    ensures
        payload_size(10, s) == entries_size(s),
        s.len() == 0 ==> entries_size(s) is None,
        s.len() > 0 && s[0] == 0 ==> entries_size(s) == Some(1nat),
        s.len() > 0 && s[0] != 0 ==> match string_size(s.subrange(1, s.len() as int)) {
            Some(m) => match payload_size(s[0], s.subrange((1 + m) as int, s.len() as int)) {
                Some(k) => match entries_size(s.subrange((1 + m + k) as int, s.len() as int)) {
                    Some(j) => entries_size(s) == Some(1 + m + k + j),
                    None => entries_size(s) is None,
                },
                None => entries_size(s) is None,
            },
            None => entries_size(s) is None,
        },
{
    if s.len() > 0 && s[0] != 0 {
        if let Some(m) = string_size(after(s, 1)) {
            lemma_payload_size(s[0], after(s, 1 + m));
        }
    }
}

/// There are no kinds but the twelve.
pub proof fn nbt_has_twelve_kinds(id: u8, s: Seq<u8>)
    requires
        id == 0 || id > 12,
    ensures
        payload_size(id, s) is None,
{
}

/// A file is a compound with a name.
pub proof fn nbt_file_is_a_named_compound(s: Seq<u8>)
    ensures
        s.len() == 0 ==> !starts_with_file(s),
        s.len() > 0 && s[0] != 10 ==> !starts_with_file(s),
        s.len() > 0 && s[0] == 10 ==> match string_size(s.subrange(1, s.len() as int)) {
            Some(m) => starts_with_file(s) == (payload_size(
                10,
                s.subrange((1 + m) as int, s.len() as int),
            ) is Some),
            None => !starts_with_file(s),
        },
{
}

/// Item data is read where it decompresses to a whole file that the reader takes, and is
/// refused everywhere else.
pub proof fn item_data_is_a_whole_file(s: Seq<u8>)
    ensures
        !starts_with_file(gunzip(s)) || gzip_blob(s) is None ==> decode_blob(s) == Err::<
            (Seq<u8>, nat),
            PacketError,
        >(PacketError::InvalidNbt),
        starts_with_file(gunzip(s)) ==> (gzip_blob(s) matches Some((content, n)) ==> n <= s.len()
            ==> decode_blob(s) == Ok::<(Seq<u8>, nat), PacketError>((content, n))),
{
}

} // verus!
