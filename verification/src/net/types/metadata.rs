//! Entity metadata: numbered fields of several kinds.

use crate::net::error::PacketError;
use crate::net::float_bits::Float32;
use crate::net::packet_helpers::{Encoded, Serializable};
use crate::net::types::slot::{Slot, SlotView};
use crate::net::wire::after;
use vstd::prelude::*;

verus! {

/// A field of an entity's metadata.
#[derive(Debug, PartialEq)]
pub enum MetadataField {
    Byte(u8),
    Short(i16),
    Int(i32),
    Float(Float32),
    String(String),
    Slot(Slot),
}

/// A field with what its value stands for.
pub enum MetadataFieldView {
    Byte(u8),
    Short(i16),
    Int(i32),
    Float(Float32),
    String(Seq<char>),
    Slot(SlotView),
}

impl View for MetadataField {
    type V = MetadataFieldView;

    open spec fn view(&self) -> MetadataFieldView {
        match *self {
            MetadataField::Byte(v) => MetadataFieldView::Byte(v),
            MetadataField::Short(v) => MetadataFieldView::Short(v),
            MetadataField::Int(v) => MetadataFieldView::Int(v),
            MetadataField::Float(v) => MetadataFieldView::Float(v),
            MetadataField::String(v) => MetadataFieldView::String(v@),
            MetadataField::Slot(v) => MetadataFieldView::Slot(v@),
        }
    }
}

impl Clone for MetadataField {
    fn clone(&self) -> (c: MetadataField)
        ensures
            c@ == self@,
    {
        match self {
            MetadataField::Byte(v) => MetadataField::Byte(*v),
            MetadataField::Short(v) => MetadataField::Short(*v),
            MetadataField::Int(v) => MetadataField::Int(*v),
            MetadataField::Float(v) => MetadataField::Float(*v),
            MetadataField::String(v) => MetadataField::String(v.clone()),
            MetadataField::Slot(v) => MetadataField::Slot(v.clone()),
        }
    }
}

impl MetadataField {
    /// The number of the field's kind.
    pub open spec fn kind(self) -> u8 {
        match self {
            MetadataField::Byte(_) => 0,
            MetadataField::Short(_) => 1,
            MetadataField::Int(_) => 2,
            MetadataField::Float(_) => 3,
            MetadataField::String(_) => 4,
            MetadataField::Slot(_) => 5,
        }
    }

    /// The number of the field's kind.
    pub fn get_type(&self) -> (kind: u8)
        ensures
            kind == self.kind(),
    {
        match self {
            MetadataField::Byte(_) => 0,
            MetadataField::Short(_) => 1,
            MetadataField::Int(_) => 2,
            MetadataField::Float(_) => 3,
            MetadataField::String(_) => 4,
            MetadataField::Slot(_) => 5,
        }
    }

    /// The bytes of the field's value.
    pub open spec fn encode_value(self) -> Encoded {
        match self {
            MetadataField::Byte(v) => v.encode(),
            MetadataField::Short(v) => v.encode(),
            MetadataField::Int(v) => v.encode(),
            MetadataField::Float(v) => v.encode(),
            MetadataField::String(v) => v.encode(),
            MetadataField::Slot(v) => v.encode(),
        }
    }

    /// Appends the field's value to `w`.
    pub fn write_value(&self, w: &mut Vec<u8>) -> (res: Result<(), PacketError>)
        ensures
            crate::net::packet_helpers::writes(self.encode_value(), old(w)@, res, final(w)@),
    {
        match self {
            MetadataField::Byte(v) => v.write_to(w),
            MetadataField::Short(v) => v.write_to(w),
            MetadataField::Int(v) => v.write_to(w),
            MetadataField::Float(v) => v.write_to(w),
            MetadataField::String(v) => v.write_to(w),
            MetadataField::Slot(v) => v.write_to(w),
        }
    }

    /// Takes the value of a field of the given kind off the front of `r`.
    pub fn read_value(kind: u8, r: &mut &[u8]) -> (res: Result<MetadataField, PacketError>)
        ensures
            crate::net::packet_helpers::reads(
                decode_value(kind, old(r)@),
                value_refused_after(kind, old(r)@),
                old(r)@,
                res,
                final(r)@,
            ),
    {
        proof {
            reveal(decode_value);
            assert(r@ =~= after(r@, 0));
        }
        match kind {
            0 => match u8::read_from(r) {
                Ok(v) => Ok(MetadataField::Byte(v)),
                Err(e) => Err(e),
            },
            1 => match i16::read_from(r) {
                Ok(v) => Ok(MetadataField::Short(v)),
                Err(e) => Err(e),
            },
            2 => match i32::read_from(r) {
                Ok(v) => Ok(MetadataField::Int(v)),
                Err(e) => Err(e),
            },
            3 => match Float32::read_from(r) {
                Ok(v) => Ok(MetadataField::Float(v)),
                Err(e) => Err(e),
            },
            4 => match String::read_from(r) {
                Ok(v) => Ok(MetadataField::String(v)),
                Err(e) => Err(e),
            },
            5 => match Slot::read_from(r) {
                Ok(v) => Ok(MetadataField::Slot(v)),
                Err(e) => Err(e),
            },
            _ => Err(PacketError::InvalidMetadataType(kind)),
        }
    }
}

/// The value of a field of the given kind at the front of `s`, with its size.
#[verifier::opaque]
pub open spec fn decode_value(kind: u8, s: Seq<u8>) -> Result<
    (MetadataFieldView, nat),
    PacketError,
> {
    if kind == 0 {
        match u8::decode(s) {
            Ok((v, n)) => Ok((MetadataFieldView::Byte(v), n)),
            Err(e) => Err(e),
        }
    } else if kind == 1 {
        match i16::decode(s) {
            Ok((v, n)) => Ok((MetadataFieldView::Short(v), n)),
            Err(e) => Err(e),
        }
    } else if kind == 2 {
        match i32::decode(s) {
            Ok((v, n)) => Ok((MetadataFieldView::Int(v), n)),
            Err(e) => Err(e),
        }
    } else if kind == 3 {
        match Float32::decode(s) {
            Ok((v, n)) => Ok((MetadataFieldView::Float(v), n)),
            Err(e) => Err(e),
        }
    } else if kind == 4 {
        match String::decode(s) {
            Ok((v, n)) => Ok((MetadataFieldView::String(v), n)),
            Err(e) => Err(e),
        }
    } else if kind == 5 {
        match Slot::decode(s) {
            Ok((v, n)) => Ok((MetadataFieldView::Slot(v), n)),
            Err(e) => Err(e),
        }
    } else {
        Err(PacketError::InvalidMetadataType(kind))
    }
}

/// How many bytes have been taken where a value is refused for what they say: none where
/// there is no such kind.
pub open spec fn value_refused_after(kind: u8, s: Seq<u8>) -> Option<nat> {
    if kind == 4 {
        String::refused_after(s)
    } else if kind > 5 {
        Some(0)
    } else {
        None
    }
}

/// A value never takes more bytes than there are.
pub proof fn lemma_value_stays_inside(kind: u8, s: Seq<u8>)
    ensures
        decode_value(kind, s) matches Ok((_, n)) ==> n <= s.len(),
        value_refused_after(kind, s) matches Some(n) ==> n <= s.len(),
{
    reveal(decode_value);
    u8::decode_stays_inside(s);
    i16::decode_stays_inside(s);
    i32::decode_stays_inside(s);
    Float32::decode_stays_inside(s);
    String::decode_stays_inside(s);
    Slot::decode_stays_inside(s);
}

/// A value that was written is read back under its kind, whatever comes after it.
pub proof fn value_is_read_back(f: MetadataField, tail: Seq<u8>)
    requires
        f.encode_value().error is None,
    ensures
        decode_value(f.kind(), f.encode_value().bytes + tail) == Ok::<
            (MetadataFieldView, nat),
            PacketError,
        >((f@, f.encode_value().bytes.len())),
{
    reveal(decode_value);
    match f {
        MetadataField::Byte(v) => v.decode_undoes_encode(tail),
        MetadataField::Short(v) => v.decode_undoes_encode(tail),
        MetadataField::Int(v) => v.decode_undoes_encode(tail),
        MetadataField::Float(v) => v.decode_undoes_encode(tail),
        MetadataField::String(v) => v.decode_undoes_encode(tail),
        MetadataField::Slot(v) => v.decode_undoes_encode(tail),
    }
}

} // verus!
