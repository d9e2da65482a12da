//! Item stacks.

use crate::net::error::PacketError;
use crate::net::item_nbt::{blob_content, decode_blob, read_blob};
use crate::net::packet_helpers::{Encoded, Serializable};
use crate::net::wire::after;
use vstd::prelude::*;

verus! {

/// What an inventory slot holds. Nothing but the id is there when the id is -1.
#[derive(Debug, PartialEq)]
pub struct Slot {
    pub item_id: i16,
    pub item_count: Option<u8>,
    pub item_damage: Option<i16>,
    pub data: Option<nbt::Blob>,
}

/// A slot with the content of its data.
pub struct SlotView {
    pub item_id: i16,
    pub item_count: Option<u8>,
    pub item_damage: Option<i16>,
    pub data: Option<Seq<u8>>,
}

impl View for Slot {
    type V = SlotView;

    open spec fn view(&self) -> SlotView {
        SlotView {
            item_id: self.item_id,
            item_count: self.item_count,
            item_damage: self.item_damage,
            data: match self.data {
                Some(blob) => Some(blob_content(blob)),
                None => None,
            },
        }
    }
}

impl Clone for Slot {
    fn clone(&self) -> (c: Slot)
        ensures
            c@ == self@,
    {
        let data: Option<nbt::Blob> = match &self.data {
            Some(blob) => Some(blob.clone()),
            None => None,
        };
        Slot {
            item_id: self.item_id,
            item_count: self.item_count,
            item_damage: self.item_damage,
            data,
        }
    }
}

impl Default for Slot {
    fn default() -> (s: Slot)
        ensures
            s == (Slot { item_id: 0, item_count: None, item_damage: None, data: None }),
    {
        Slot { item_id: 0, item_count: None, item_damage: None, data: None }
    }
}

/// What follows the id of an item that is there: its count, its damage and a length,
/// then its data unless that length is -1.
pub open spec fn decode_item(item_id: i16, s: Seq<u8>) -> Result<(SlotView, nat), PacketError> {
    match <(u8, (i16, i16))>::decode(s) {
        Ok(((count, (damage, nbt_length)), n)) => {
            let item = SlotView {
                item_id,
                item_count: Some(count),
                item_damage: Some(damage),
                data: None,
            };
            if nbt_length == -1 {
                Ok((item, n))
            } else {
                match decode_blob(after(s, n)) {
                    Ok((content, m)) => Ok((SlotView { data: Some(content), ..item }, n + m)),
                    Err(e) => Err(e),
                }
            }
        },
        Err(e) => Err(e),
    }
}

impl Serializable for Slot {
    open spec fn decode(s: Seq<u8>) -> Result<(SlotView, nat), PacketError> {
        match i16::decode(s) {
            Ok((item_id, n)) => if item_id == -1 {
                Ok((SlotView { item_id, item_count: None, item_damage: None, data: None }, n))
            } else {
                match decode_item(item_id, after(s, n)) {
                    Ok((item, m)) => Ok((item, n + m)),
                    Err(e) => Err(e),
                }
            },
            Err(e) => Err(e),
        }
    }

    open spec fn refused_after(s: Seq<u8>) -> Option<nat> {
        None
    }

    open spec fn encode(&self) -> Encoded {
        Encoded::refused(PacketError::NotWritable)
    }

    open spec fn survives(&self) -> bool {
        true
    }

    proof fn decode_stays_inside(s: Seq<u8>) {
        i16::decode_stays_inside(s);
        if let Ok((_, n)) = i16::decode(s) {
            <(u8, (i16, i16))>::decode_stays_inside(after(s, n));
        }
    }

    proof fn decode_undoes_encode(&self, tail: Seq<u8>) {
    }

    fn read_from(r: &mut &[u8]) -> (res: Result<Slot, PacketError>)
        ensures
            old(r)@.len() >= 7 && !(old(r)@[0] == 0xff && old(r)@[1] == 0xff) && old(r)@[5] == 0xff
                && old(r)@[6] == 0xff ==> {
                &&& res matches Ok(slot)
                &&& (slot.item_id - (old(r)@[0] * 256 + old(r)@[1])) % 0x1_0000 == 0
                &&& slot.item_count == Some(old(r)@[2])
                &&& slot.item_damage matches Some(d) && (d - (old(r)@[3] * 256 + old(r)@[4]))
                    % 0x1_0000 == 0
                &&& slot.data is None
                &&& final(r)@ == old(r)@.subrange(7, old(r)@.len() as int)
            },
    {
        let ghost s = old(r)@;
        proof {
            crate::net::types::laws::slot_is_spelled_out(s);
            i16::decode_stays_inside(s);
        }
        let mut slot: Slot = Slot::default();
        slot.item_id = match i16::read_from(r) {
            Ok(item_id) => item_id,
            Err(e) => {
                return Err(e);
            },
        };
        if slot.item_id != -1 {
            let ghost behind_id = r@;
            proof {
                <(u8, (i16, i16))>::decode_stays_inside(behind_id);
            }
            let (count, (damage, nbt_length)) = match <(u8, (i16, i16))>::read_from(r) {
                Ok(item) => item,
                Err(e) => {
                    assert(r@.is_suffix_of(s));
                    return Err(e);
                },
            };
            slot.item_count = Some(count);
            slot.item_damage = Some(damage);
            let ghost behind_item = r@;
            let ghost n = i16::decode(s)->Ok_0.1;
            let ghost m = <(u8, (i16, i16))>::decode(behind_id)->Ok_0.1;
            assert(behind_item =~= after(s, n + m));
            if nbt_length != -1 {
                match read_blob(r) {
                    Ok(blob) => {
                        slot.data = Some(blob);
                        proof {
                            let k = decode_blob(behind_item)->Ok_0.1;
                            assert(r@ =~= after(s, n + (m + k)));
                        }
                    },
                    Err(e) => {
                        assert(r@.is_suffix_of(s));
                        return Err(e);
                    },
                }
            }
        }
        Ok(slot)
    }

    fn write_to(&self, w: &mut Vec<u8>) -> (res: Result<(), PacketError>) {
        Err(PacketError::NotWritable)
    }
}

} // verus!
