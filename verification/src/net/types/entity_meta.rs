//! All of an entity's metadata.

use crate::net::error::PacketError;
use crate::net::packet_helpers::{further, Encoded, Serializable};
use crate::net::types::meta_map::{clone_map, insert_field, list_fields, new_map};
use crate::net::types::meta_map::{lists, meta_entries, meta_fields, meta_order};
use crate::net::types::metadata::{
    decode_value, lemma_value_stays_inside, value_is_read_back, value_refused_after,
    MetadataField, MetadataFieldView,
};
use crate::net::wire::after;
use vstd::prelude::*;

verus! {

/// The metadata of an entity: fields by their index.
#[derive(Debug, PartialEq)]
pub struct EntityMeta {
    pub meta: intmap::IntMap<MetadataField>,
}

/// Metadata stands for what its fields stand for.
impl View for EntityMeta {
    type V = Map<u64, MetadataFieldView>;

    open spec fn view(&self) -> Map<u64, MetadataFieldView> {
        meta_fields(self.meta).map_values(|f: MetadataField| f@)
    }
}

impl Clone for EntityMeta {
    fn clone(&self) -> (c: EntityMeta)
        ensures
            c@ == self@,
            meta_order(c.meta) == meta_order(self.meta),
    {
        let c = EntityMeta { meta: clone_map(&self.meta) };
        assert(c@ =~= self@);
        c
    }
}

impl Default for EntityMeta {
    fn default() -> (m: EntityMeta)
        ensures
            m@ == Map::<u64, MetadataFieldView>::empty(),
            meta_fields(m.meta) == Map::<u64, MetadataField>::empty(),
    {
        let m = EntityMeta { meta: new_map() };
        assert(m@ =~= Map::<u64, MetadataFieldView>::empty());
        m
    }
}

/// The byte that stands for the end of the metadata.
pub const META_END: u8 = 0x7f;

/// The byte in front of a field: the kind in the upper three bits, the index below it.
pub open spec fn entry_tag(index: u64, kind: u8) -> u8 {
    ((index % 0x100) as u8) | ((kind * 0x20) as u8)
}

/// The entry at the front of `s`, an index with a field, or nothing where the metadata
/// ends there; with the bytes that it takes.
pub open spec fn decode_entry(s: Seq<u8>) -> Result<
    (Option<(u64, MetadataFieldView)>, nat),
    PacketError,
> {
    match u8::decode(s) {
        Ok((tag, k)) => if tag == META_END {
            Ok((None, k))
        } else {
            match decode_value(tag / 0x20, after(s, k)) {
                Ok((field, j)) => Ok((Some(((tag % 0x20) as u64, field)), k + j)),
                Err(e) => Err(e),
            }
        },
        Err(e) => Err(e),
    }
}

/// The metadata at the front of `s` on top of `sofar`, when `n` more entries may come:
/// entries up to the end byte, each in place of an earlier one at its index. After the last
/// that may come, no end byte is asked for.
pub open spec fn decode_entries(
    n: nat,
    sofar: Map<u64, MetadataFieldView>,
    s: Seq<u8>,
) -> Result<(Map<u64, MetadataFieldView>, nat), PacketError>
    decreases n,
{
    if n == 0 {
        Ok((sofar, 0))
    } else {
        match decode_entry(s) {
            Ok((Some((index, field)), k)) => match decode_entries(
                (n - 1) as nat,
                sofar.insert(index, field),
                after(s, k),
            ) {
                Ok((m, i)) => Ok((m, k + i)),
                Err(e) => Err(e),
            },
            Ok((None, k)) => Ok((sofar, k)),
            Err(e) => Err(e),
        }
    }
}

/// How many bytes have been taken where an entry is refused: just its tag where it is of a
/// kind that does not exist.
pub open spec fn entry_refused_after(s: Seq<u8>) -> Option<nat> {
    match u8::decode(s) {
        Ok((tag, k)) => if tag == META_END {
            None
        } else {
            further(value_refused_after(tag / 0x20, after(s, k)), k)
        },
        Err(_) => None,
    }
}

/// How many bytes have been taken where one of up to `n` entries is refused.
pub open spec fn entries_refused_after(n: nat, s: Seq<u8>) -> Option<nat>
    decreases n,
{
    if n == 0 {
        None
    } else {
        match decode_entry(s) {
            Ok((Some(_), k)) => further(entries_refused_after((n - 1) as nat, after(s, k)), k),
            Ok((None, _)) => None,
            Err(_) => entry_refused_after(s),
        }
    }
}

/// The bytes of entries one behind the other.
pub open spec fn encode_entries(entries: Seq<(u64, MetadataField)>) -> Encoded
    decreases entries.len(),
{
    if entries.len() == 0 {
        Encoded::whole(Seq::empty())
    } else {
        let (index, field) = entries.last();
        encode_entries(entries.drop_last()).then_also(
            entry_tag(index, field.kind()).encode(),
        ).then_also(field.encode_value())
    }
}

/// Takes an entry off the front of `r`.
pub fn read_entry(r: &mut &[u8]) -> (res: Result<Option<(u64, MetadataField)>, PacketError>)
    ensures
        match decode_entry(old(r)@) {
            Ok((entry, n)) => {
                &&& res matches Ok(x) && match (x, entry) {
                    (Some((index, field)), Some((i, f))) => index == i && field@ == f,
                    (None, None) => true,
                    _ => false,
                }
                &&& final(r)@ == after(old(r)@, n)
            },
            Err(e) => {
                &&& res matches Err(f) && f == e
                &&& final(r)@.is_suffix_of(old(r)@)
                &&& entry_refused_after(old(r)@) matches Some(n) ==> final(r)@ == after(
                    old(r)@,
                    n,
                )
            },
        },
{
    let ghost s = old(r)@;
    proof {
        u8::decode_stays_inside(s);
    }
    let tag: u8 = match u8::read_from(r) {
        Ok(tag) => tag,
        Err(e) => {
            return Err(e);
        },
    };
    if tag == META_END {
        return Ok(None);
    }
    let index: u8 = tag & 0x1f;
    let kind: u8 = (tag >> 5) & 0x07;
    proof {
        assert(tag & 0x1f == tag % 0x20) by (bit_vector);
        assert((tag >> 5) & 0x07 == tag / 0x20) by (bit_vector);
    }
    let ghost behind = r@;
    proof {
        lemma_value_stays_inside(kind, behind);
    }
    match MetadataField::read_value(kind, r) {
        Ok(field) => {
            proof {
                let k = u8::decode(s)->Ok_0.1;
                let j = decode_value(kind, behind)->Ok_0.1;
                assert(r@ =~= after(s, k + j));
            }
            Ok(Some((index as u64, field)))
        },
        Err(e) => {
            assert(r@.is_suffix_of(s));
            proof {
                let k = u8::decode(s)->Ok_0.1;
                if let Some(j) = value_refused_after(kind, behind) {
                    assert(r@ =~= after(s, k + j));
                }
            }
            Err(e)
        },
    }
}

/// An entry never takes more bytes than there are.
proof fn lemma_entry_stays_inside(s: Seq<u8>)
    ensures
        decode_entry(s) matches Ok((_, k)) ==> k <= s.len(),
        entry_refused_after(s) matches Some(k) ==> k <= s.len(),
{
    u8::decode_stays_inside(s);
    if let Ok((tag, k)) = u8::decode(s) {
        lemma_value_stays_inside(tag / 0x20, after(s, k));
    }
}

impl Serializable for EntityMeta {
    open spec fn decode(s: Seq<u8>) -> Result<(Map<u64, MetadataFieldView>, nat), PacketError> {
        decode_entries(256, Map::empty(), s)
    }

    open spec fn refused_after(s: Seq<u8>) -> Option<nat> {
        entries_refused_after(256, s)
    }

    open spec fn encode(&self) -> Encoded {
        encode_entries(meta_entries(self.meta)).then_also(META_END.encode())
    }

    /// The indices must fit their five bits, and the field whose tag is the end byte must
    /// not be there: a float at the last index.
    open spec fn survives(&self) -> bool {
        &&& lists(meta_order(self.meta), meta_fields(self.meta))
        &&& all_survive(self@)
    }

    proof fn decode_stays_inside(s: Seq<u8>) {
        lemma_entries_stay_inside(256, Map::empty(), s);
    }

    proof fn decode_undoes_encode(&self, tail: Seq<u8>) {
        let entries = meta_entries(self.meta);
        let order = meta_order(self.meta);
        let bytes = encode_entries(entries).bytes;
        let end = META_END.encode().bytes;
        if self.encode().error is None {
            assert forall|i: int| 0 <= i < entries.len() implies entry_survives(
                (#[trigger] entries[i]).0,
                entries[i].1@,
            ) by {
                assert(order.contains(order[i]));
                assert(self@.dom().contains(order[i]));
            }
            assert forall|i: int| 0 <= i < order.len() implies #[trigger] order[i] < 32 by {
                assert(entries[i].0 == order[i]);
            }
            lemma_distinct_below(order, 32);
            lemma_entries_read_back(256, Map::empty(), entries, end + tail);
            META_END.decode_undoes_encode(tail);
            assert(bytes + end + tail =~= bytes + (end + tail));
            let all = put_all(Map::empty(), entries);
            assert forall|i: int, j: int| 0 <= i < j < entries.len() implies (
            #[trigger] entries[i]).0 != (#[trigger] entries[j]).0 by {
                assert(order[i] != order[j]);
            }
            lemma_put_all(entries);
            assert(all =~= self@) by {
                assert forall|k: u64| #[trigger] all.dom().contains(k) <==> self@.dom().contains(
                    k,
                ) by {
                    if self@.dom().contains(k) {
                        assert(order.contains(k));
                        let i = choose|i: int| 0 <= i < order.len() && order[i] == k;
                        assert(entries[i].0 == k);
                    }
                    if all.dom().contains(k) {
                        let i = choose|i: int| 0 <= i < entries.len() && (#[trigger] entries[i]).0 == k;
                        assert(order.contains(order[i]));
                    }
                }
                assert forall|k: u64| #[trigger] all.dom().contains(k) implies all[k]
                    == self@[k] by {
                    let i = choose|i: int| 0 <= i < entries.len() && (#[trigger] entries[i]).0 == k;
                    assert(order.contains(order[i]));
                }
            }
        }
    }

    fn read_from(r: &mut &[u8]) -> (res: Result<EntityMeta, PacketError>) {
        let ghost s = old(r)@;
        let mut m: EntityMeta = EntityMeta::default();
        let mut left: u16 = 256;
        let ghost mut used: nat = 0;
        assert(r@ =~= after(s, 0));
        while left > 0
            invariant
                left <= 256,
                s == old(r)@,
                used <= s.len(),
                r@ == after(s, used),
                match decode_entries(left as nat, m@, r@) {
                    Ok((all, k)) => EntityMeta::decode(s) == Ok::<
                        (Map<u64, MetadataFieldView>, nat),
                        PacketError,
                    >((all, used + k)),
                    Err(e) => EntityMeta::decode(s) == Err::<
                        (Map<u64, MetadataFieldView>, nat),
                        PacketError,
                    >(e),
                },
                EntityMeta::refused_after(s) == further(
                    entries_refused_after(left as nat, r@),
                    used,
                ),
            decreases left,
        {
            let ghost before = r@;
            proof {
                lemma_entry_stays_inside(before);
            }
            match read_entry(r) {
                Ok(Some((index, field))) => {
                    let ghost k = decode_entry(before)->Ok_0.1;
                    let ghost sofar = m@;
                    let _ = insert_field(&mut m.meta, index, field);
                    left = left - 1;
                    proof {
                        assert(m@ =~= sofar.insert(index, field@));
                        used = used + k;
                        assert(r@ =~= after(s, used));
                    }
                },
                Ok(None) => {
                    proof {
                        let k = decode_entry(before)->Ok_0.1;
                        assert(r@ =~= after(s, used + k));
                    }
                    return Ok(m);
                },
                Err(e) => {
                    assert(r@.is_suffix_of(s));
                    proof {
                        if let Some(k) = entry_refused_after(before) {
                            assert(r@ =~= after(s, used + k));
                        }
                    }
                    return Err(e);
                },
            }
        }
        Ok(m)
    }

    fn write_to(&self, w: &mut Vec<u8>) -> (res: Result<(), PacketError>)
        ensures
            lists(meta_order(self.meta), meta_fields(self.meta)),
    {
        let ghost start = w@;
        let entries: Vec<(u64, &MetadataField)> = list_fields(&self.meta);
        let ghost all = meta_entries(self.meta);
        let mut i: usize = 0;
        proof {
            let order = meta_order(self.meta);
            assert forall|k: u64| #[trigger] order.contains(k) <==> meta_fields(
                self.meta,
            ).dom().contains(k) by {
                if order.contains(k) {
                    let j = choose|j: int| 0 <= j < order.len() && order[j] == k;
                    assert(entries@[j].0 == k);
                }
                if meta_fields(self.meta).dom().contains(k) {
                    let j = choose|j: int|
                        0 <= j < entries@.len() && (#[trigger] entries@[j]).0 == k;
                    assert(order[j] == k);
                }
            }
            assert(order.no_duplicates()) by {
                assert forall|i: int, j: int|
                    0 <= i < order.len() && 0 <= j < order.len() && i != j implies order[i]
                    != order[j] by {
                    assert(entries@[i].0 == order[i] && entries@[j].0 == order[j]);
                }
            }
        }
        assert(start + Seq::<u8>::empty() =~= start);
        assert(all.take(0) =~= Seq::<(u64, MetadataField)>::empty());
        while i < entries.len()
            invariant
                i <= entries@.len(),
                all == meta_entries(self.meta),
                entries@.len() == all.len(),
                forall|j: int|
                    #![trigger entries@[j]]
                    0 <= j < entries@.len() ==> entries@[j].0 == all[j].0 && *entries@[j].1
                        == all[j].1,
                start == old(w)@,
                lists(meta_order(self.meta), meta_fields(self.meta)),
                encode_entries(all.take(i as int)).error is None,
                w@ == start + encode_entries(all.take(i as int)).bytes,
            decreases entries@.len() - i,
        {
            let (index, field): (u64, &MetadataField) = entries[i];
            let kind: u8 = field.get_type();
            let tag: u8 = (index as u8) | (kind << 5);
            proof {
                assert(index as u8 == index % 0x100) by (bit_vector);
                assert(kind << 5 == kind * 0x20) by (bit_vector)
                    requires
                        kind <= 5,
                ;
                assert(all.take(i + 1).drop_last() =~= all.take(i as int));
                assert(tag == entry_tag(index, field.kind()));
            }
            let ghost before = w@;
            match tag.write_to(w) {
                Ok(()) => {},
                Err(e) => {
                    return Err(e);
                },
            }
            match field.write_value(w) {
                Ok(()) => {},
                Err(e) => {
                    proof {
                        lemma_error_stays(all, i + 1);
                        assert(w@ =~= start + encode_entries(all.take(i + 1)).bytes);
                    }
                    return Err(e);
                },
            }
            i = i + 1;
            assert(w@ =~= start + encode_entries(all.take(i as int)).bytes);
        }
        assert(all.take(i as int) =~= all);
        let res = META_END.write_to(w);
        assert(w@ =~= start + self.encode().bytes);
        res
    }
}

/// Whether a field at an index is read back as it was written.
pub open spec fn entry_survives(index: u64, field: MetadataFieldView) -> bool {
    index < 32 && !(index == 31 && field is Float)
}

/// Whether every field is read back as it was written.
pub open spec fn all_survive(m: Map<u64, MetadataFieldView>) -> bool {
    forall|k: u64| #[trigger] m.dom().contains(k) ==> entry_survives(k, m[k])
}

/// Metadata that was received can be passed on: it is read back as it was written.
pub proof fn received_metadata_survives(s: Seq<u8>)
    ensures
        EntityMeta::decode(s) matches Ok((m, _)) ==> all_survive(m),
{
    lemma_received_entries_survive(256, Map::empty(), s);
}

/// An entry that was received is one that is read back.
proof fn lemma_received_entry_survives(s: Seq<u8>)
    ensures
        decode_entry(s) matches Ok((Some((index, field)), _)) ==> entry_survives(index, field),
{
    reveal(decode_value);
}

/// Entries on top of those that are read back are read back too.
proof fn lemma_received_entries_survive(n: nat, sofar: Map<u64, MetadataFieldView>, s: Seq<u8>)
    requires
        all_survive(sofar),
    ensures
        decode_entries(n, sofar, s) matches Ok((m, _)) ==> all_survive(m),
    decreases n,
{
    if n > 0 {
        lemma_received_entry_survives(s);
        if let Ok((Some((index, field)), k)) = decode_entry(s) {
            lemma_received_entries_survive((n - 1) as nat, sofar.insert(index, field), after(s, k));
        }
    }
}

/// The fields of `entries` on top of `sofar`, each in place of an earlier one at its index.
pub open spec fn put_all(
    sofar: Map<u64, MetadataFieldView>,
    entries: Seq<(u64, MetadataField)>,
) -> Map<u64, MetadataFieldView>
    decreases entries.len(),
{
    if entries.len() == 0 {
        sofar
    } else {
        put_all(sofar, entries.drop_last()).insert(entries.last().0, entries.last().1@)
    }
}

/// Entries with different indices all stay.
proof fn lemma_put_all(entries: Seq<(u64, MetadataField)>)
    requires
        forall|i: int, j: int|
            0 <= i < j < entries.len() ==> (#[trigger] entries[i]).0 != (#[trigger] entries[j]).0,
    ensures
        forall|k: u64| #[trigger]
            put_all(Map::empty(), entries).dom().contains(k) <==> exists|i: int|
                0 <= i < entries.len() && (#[trigger] entries[i]).0 == k,
        forall|i: int|
            0 <= i < entries.len() ==> put_all(Map::empty(), entries)[(
            #[trigger] entries[i]).0] == entries[i].1@,
    decreases entries.len(),
{
    if entries.len() > 0 {
        let before = entries.drop_last();
        assert forall|i: int, j: int| 0 <= i < j < before.len() implies (#[trigger] before[i]).0
            != (#[trigger] before[j]).0 by {
            assert(entries[i].0 != entries[j].0);
        }
        lemma_put_all(before);
        let all = put_all(Map::empty(), entries);
        let earlier = put_all(Map::empty(), before);
        assert forall|k: u64| #[trigger] all.dom().contains(k) <==> exists|i: int|
            0 <= i < entries.len() && (#[trigger] entries[i]).0 == k by {
            if earlier.dom().contains(k) {
                let i = choose|i: int| 0 <= i < before.len() && (#[trigger] before[i]).0 == k;
                assert(entries[i].0 == k);
            }
            if exists|i: int| 0 <= i < entries.len() && (#[trigger] entries[i]).0 == k {
                let i = choose|i: int| 0 <= i < entries.len() && (#[trigger] entries[i]).0 == k;
                if i < before.len() {
                    assert(before[i].0 == k);
                }
            }
            if k == entries.last().0 {
                assert(entries[entries.len() - 1].0 == k);
            }
        }
        assert forall|i: int| 0 <= i < entries.len() implies all[(#[trigger] entries[i]).0]
            == entries[i].1@ by {
            if i < before.len() {
                assert(before[i] == entries[i]);
                assert(entries[i].0 != entries[entries.len() - 1].0);
            }
        }
    }
}

/// There are no more than `b` different numbers below `b`.
proof fn lemma_distinct_below(order: Seq<u64>, b: nat)
    requires
        order.no_duplicates(),
        forall|i: int| 0 <= i < order.len() ==> #[trigger] order[i] < b,
    ensures
        order.len() <= b,
    decreases b,
{
    if b > 0 {
        if exists|i: int| 0 <= i < order.len() && #[trigger] order[i] == b - 1 {
            let i = choose|i: int| 0 <= i < order.len() && #[trigger] order[i] == b - 1;
            lemma_distinct_below(order.remove(i), (b - 1) as nat);
        } else {
            lemma_distinct_below(order, (b - 1) as nat);
        }
    } else if order.len() > 0 {
        assert(order[0] < b);
    }
}

/// `k` more bytes in front of what was decoded.
pub open spec fn behind(
    decoded: Result<(Map<u64, MetadataFieldView>, nat), PacketError>,
    k: nat,
) -> Result<(Map<u64, MetadataFieldView>, nat), PacketError> {
    match decoded {
        Ok((m, n)) => Ok((m, k + n)),
        Err(e) => Err(e),
    }
}

/// The tag of an entry gives its index and its kind back, and is not the end byte.
proof fn lemma_entry_tag(index: u64, field: MetadataField)
    requires
        entry_survives(index, field@),
    ensures
        entry_tag(index, field.kind()) % 0x20 == index,
        entry_tag(index, field.kind()) / 0x20 == field.kind(),
        entry_tag(index, field.kind()) != META_END,
{
    let low = index as u8;
    let high = (field.kind() * 0x20) as u8;
    let kind = field.kind();
    assert(low | high == low + high) by (bit_vector)
        requires
            low < 0x20,
            high == kind * 0x20,
            kind <= 5,
    ;
}

/// One entry that was written is read back, whatever comes after it.
proof fn lemma_entry_reads_back(index: u64, field: MetadataField, tail: Seq<u8>)
    requires
        entry_survives(index, field@),
        field.encode_value().error is None,
    ensures
        decode_entry(
            entry_tag(index, field.kind()).encode().bytes + (field.encode_value().bytes + tail),
        ) == Ok::<(Option<(u64, MetadataFieldView)>, nat), PacketError>(
            (
                Some((index, field@)),
                entry_tag(index, field.kind()).encode().bytes.len()
                    + field.encode_value().bytes.len(),
            ),
        ),
{
    let tag = entry_tag(index, field.kind());
    let value = field.encode_value().bytes;
    lemma_entry_tag(index, field);
    tag.decode_undoes_encode(value + tail);
    value_is_read_back(field, tail);
    assert(after(tag.encode().bytes + (value + tail), tag.encode().bytes.len()) =~= value + tail);
}

/// Entries that were written are read back one after the other.
proof fn lemma_entries_read_back(
    n: nat,
    sofar: Map<u64, MetadataFieldView>,
    entries: Seq<(u64, MetadataField)>,
    tail: Seq<u8>,
)
    requires
        entries.len() <= n,
        encode_entries(entries).error is None,
        forall|i: int|
            0 <= i < entries.len() ==> entry_survives((#[trigger] entries[i]).0, entries[i].1@),
    ensures
        decode_entries(n, sofar, encode_entries(entries).bytes + tail) == behind(
            decode_entries((n - entries.len()) as nat, put_all(sofar, entries), tail),
            encode_entries(entries).bytes.len(),
        ),
    decreases entries.len(),
{
    let bytes = encode_entries(entries).bytes;
    if entries.len() == 0 {
        assert(bytes + tail =~= tail);
    } else {
        let before = entries.drop_last();
        let (index, field) = entries.last();
        let first = encode_entries(before).bytes;
        let tag = entry_tag(index, field.kind()).encode().bytes;
        let value = field.encode_value().bytes;
        assert(entry_survives(entries[entries.len() - 1].0, entries[entries.len() - 1].1@));
        assert forall|i: int| 0 <= i < before.len() implies entry_survives(
            (#[trigger] before[i]).0,
            before[i].1@,
        ) by {
            assert(entries[i] == before[i]);
        }
        lemma_entries_read_back(n, sofar, before, tag + (value + tail));
        lemma_entry_reads_back(index, field, tail);
        assert(bytes + tail =~= first + (tag + (value + tail)));
        assert(after(tag + (value + tail), tag.len() + value.len()) =~= tail);
    }
}

/// Once an entry cannot be written, nothing after it is.
proof fn lemma_error_stays(entries: Seq<(u64, MetadataField)>, n: int)
    requires
        0 <= n <= entries.len(),
        encode_entries(entries.take(n)).error is Some,
    ensures
        encode_entries(entries) == encode_entries(entries.take(n)),
    decreases entries.len() - n,
{
    if n == entries.len() {
        assert(entries.take(n) =~= entries);
    } else {
        assert(entries.take(n + 1).drop_last() =~= entries.take(n));
        lemma_error_stays(entries, n + 1);
    }
}

/// Metadata never takes more bytes than there are.
proof fn lemma_entries_stay_inside(n: nat, sofar: Map<u64, MetadataFieldView>, s: Seq<u8>)
    ensures
        decode_entries(n, sofar, s) matches Ok((_, k)) ==> k <= s.len(),
        entries_refused_after(n, s) matches Some(k) ==> k <= s.len(),
    decreases n,
{
    if n > 0 {
        lemma_entry_stays_inside(s);
        if let Ok((Some((index, field)), k)) = decode_entry(s) {
            lemma_entries_stay_inside((n - 1) as nat, sofar.insert(index, field), after(s, k));
        }
    }
}

} // verus!
