//! Floating-point numbers by their bits. The wire format moves them and never computes
//! with them.

use crate::net::error::PacketError;
use crate::net::packet_helpers::{Encoded, Serializable};
use vstd::prelude::*;

verus! {

/// The bits of an IEEE 754 number of single precision.
///
/// Two of these are compared as the numbers are: what is no number equals nothing, not even
/// itself, and the two zeros are equal.
#[derive(Debug, Clone, Copy)]
pub struct Float32 {
    pub bits: u32,
}

impl Float32 {
    /// The bits without the sign.
    pub open spec fn magnitude(self) -> u32 {
        self.bits % 0x8000_0000
    }

    /// Whether the bits are no number: they lie above those of infinity.
    pub open spec fn is_nan(self) -> bool {
        self.magnitude() > 0x7f80_0000
    }

    /// Whether the bits are one of the two zeros.
    pub open spec fn is_zero(self) -> bool {
        self.magnitude() == 0
    }

    /// Whether the numbers are equal.
    pub open spec fn same_number(self, other: Float32) -> bool {
        &&& !self.is_nan()
        &&& !other.is_nan()
        &&& self.bits == other.bits || (self.is_zero() && other.is_zero())
    }
}

impl PartialEq for Float32 {
    fn eq(&self, other: &Float32) -> (equal: bool) {
        let a: u32 = self.bits % 0x8000_0000;
        let b: u32 = other.bits % 0x8000_0000;
        a <= 0x7f80_0000 && b <= 0x7f80_0000 && (self.bits == other.bits || (a == 0 && b == 0))
    }
}

impl vstd::std_specs::cmp::PartialEqSpecImpl for Float32 {
    open spec fn obeys_eq_spec() -> bool {
        true
    }

    open spec fn eq_spec(&self, other: &Float32) -> bool {
        self.same_number(*other)
    }
}

/// The bits of an IEEE 754 number of double precision.
///
/// Two of these are compared as the numbers are: what is no number equals nothing, not even
/// itself, and the two zeros are equal.
#[derive(Debug, Clone, Copy)]
pub struct Float64 {
    pub bits: u64,
}

impl Float64 {
    /// The bits without the sign.
    pub open spec fn magnitude(self) -> u64 {
        self.bits % 0x8000_0000_0000_0000
    }

    /// Whether the bits are no number: they lie above those of infinity.
    pub open spec fn is_nan(self) -> bool {
        self.magnitude() > 0x7ff0_0000_0000_0000
    }

    /// Whether the bits are one of the two zeros.
    pub open spec fn is_zero(self) -> bool {
        self.magnitude() == 0
    }

    /// Whether the numbers are equal.
    pub open spec fn same_number(self, other: Float64) -> bool {
        &&& !self.is_nan()
        &&& !other.is_nan()
        &&& self.bits == other.bits || (self.is_zero() && other.is_zero())
    }
}

impl PartialEq for Float64 {
    fn eq(&self, other: &Float64) -> (equal: bool) {
        let a: u64 = self.bits % 0x8000_0000_0000_0000;
        let b: u64 = other.bits % 0x8000_0000_0000_0000;
        a <= 0x7ff0_0000_0000_0000 && b <= 0x7ff0_0000_0000_0000 && (self.bits == other.bits || (a == 0 && b == 0))
    }
}

impl vstd::std_specs::cmp::PartialEqSpecImpl for Float64 {
    open spec fn obeys_eq_spec() -> bool {
        true
    }

    open spec fn eq_spec(&self, other: &Float64) -> bool {
        self.same_number(*other)
    }
}

impl View for Float32 {
    type V = Float32;

    open spec fn view(&self) -> Float32 {
        *self
    }
}

impl Default for Float32 {
    /// Zero, whose bits are all clear.
    fn default() -> (f: Float32)
        ensures
            f.bits == 0,
    {
        Float32 { bits: 0 }
    }
}

impl Default for Float64 {
    /// Zero, whose bits are all clear.
    fn default() -> (f: Float64)
        ensures
            f.bits == 0,
    {
        Float64 { bits: 0 }
    }
}

impl Serializable for Float32 {
    open spec fn decode(s: Seq<u8>) -> Result<(Float32, nat), PacketError> {
        match u32::decode(s) {
            Ok((bits, n)) => Ok((Float32 { bits }, n)),
            Err(e) => Err(e),
        }
    }

    open spec fn refused_after(s: Seq<u8>) -> Option<nat> {
        None
    }

    open spec fn encode(&self) -> Encoded {
        self.bits.encode()
    }

    open spec fn survives(&self) -> bool {
        true
    }

    proof fn decode_stays_inside(s: Seq<u8>) {
        u32::decode_stays_inside(s);
    }

    proof fn decode_undoes_encode(&self, tail: Seq<u8>) {
        self.bits.decode_undoes_encode(tail);
    }

    fn read_from(r: &mut &[u8]) -> (res: Result<Float32, PacketError>) {
        match u32::read_from(r) {
            Ok(bits) => Ok(Float32 { bits }),
            Err(e) => Err(e),
        }
    }

    fn write_to(&self, w: &mut Vec<u8>) -> (res: Result<(), PacketError>) {
        self.bits.write_to(w)
    }
}

} // verus!
