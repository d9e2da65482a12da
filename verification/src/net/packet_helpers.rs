//! What it takes for a type to be part of a packet, and the integers that every
//! packet is built from.

use crate::net::error::PacketError;
use crate::net::wire::{read_be, write_be};
#[allow(unused_imports)]
use crate::net::wire::{after, be_bytes, be_limit, be_value};
use vstd::prelude::*;

verus! {

/// The binary form of a value: the bytes that are written, and the error that writing
/// ends with where the value has no binary form beyond them.
pub struct Encoded {
    pub bytes: Seq<u8>,
    pub error: Option<PacketError>,
}

impl Encoded {
    /// All of a value.
    pub open spec fn whole(bytes: Seq<u8>) -> Encoded {
        Encoded { bytes, error: None }
    }

    /// Nothing but an error.
    pub open spec fn refused(e: PacketError) -> Encoded {
        Encoded { bytes: Seq::empty(), error: Some(e) }
    }

    /// One value behind another; nothing comes behind an error.
    pub open spec fn then_also(self, next: Encoded) -> Encoded {
        match self.error {
            None => Encoded { bytes: self.bytes + next.bytes, error: next.error },
            Some(_) => self,
        }
    }
}

/// A type with a binary form.
///
/// `decode` says what the front of a packet holds and how many bytes that takes;
/// `encode` says which bytes stand for a value. Reading and writing follow them.
pub trait Serializable: Sized + View {
    /// The value at the front of `s` with its size in bytes, or why there is none.
    spec fn decode(s: Seq<u8>) -> Result<(Self::V, nat), PacketError>;

    /// How many bytes a read has taken when it is refused for what they say. Nothing where
    /// it is not: where the packet ends too early, or the reader of another format gives up,
    /// it is open how many were taken.
    spec fn refused_after(s: Seq<u8>) -> Option<nat>;

    /// The bytes that stand for the value.
    spec fn encode(&self) -> Encoded;

    /// Whether nothing of the value is lost where it is written. That holds of every value
    /// of a type that cannot be written.
    spec fn survives(&self) -> bool;

    /// A value never takes more bytes than there are, and no more are taken for one that is
    /// refused.
    proof fn decode_stays_inside(s: Seq<u8>)
        ensures
            Self::decode(s) matches Ok((_, n)) ==> n <= s.len(),
            Self::refused_after(s) matches Some(n) ==> n <= s.len(),
    ;

    /// What was written is read back, whatever comes after it, and nothing of what
    /// comes after it is taken.
    proof fn decode_undoes_encode(&self, tail: Seq<u8>)
        requires
            self.survives(),
        ensures
            self.encode().error is None ==> Self::decode(self.encode().bytes + tail) == Ok::<
                (Self::V, nat),
                PacketError,
            >((self@, self.encode().bytes.len())),
    ;

    /// Takes a value off the front of `r`.
    fn read_from(r: &mut &[u8]) -> (res: Result<Self, PacketError>)
        ensures
            reads(Self::decode(old(r)@), Self::refused_after(old(r)@), old(r)@, res, final(r)@),
    ;

    /// Appends the value to `w`.
    fn write_to(&self, w: &mut Vec<u8>) -> (res: Result<(), PacketError>)
        ensures
            writes(self.encode(), old(w)@, res, final(w)@),
    ;
}

/// `res` and `rest` are what a read off the front of `s` gives and leaves, where
/// `decoded` is what `s` holds there.
///
/// A failed read may have taken some of the bytes: as many as `refused_after` says, where it
/// says so.
pub open spec fn reads<T: View>(
    decoded: Result<(T::V, nat), PacketError>,
    refused_after: Option<nat>,
    s: Seq<u8>,
    res: Result<T, PacketError>,
    rest: Seq<u8>,
) -> bool {
    match decoded {
        Ok((v, n)) => {
            &&& res matches Ok(x) && x@ == v
            &&& rest == after(s, n)
        },
        Err(e) => {
            &&& res matches Err(f) && f == e
            &&& rest.is_suffix_of(s)
            &&& refused_after matches Some(n) ==> rest == after(s, n)
        },
    }
}

/// A count of bytes with `k` more in front of them.
pub open spec fn further(n: Option<nat>, k: nat) -> Option<nat> {
    match n {
        Some(n) => Some(k + n),
        None => None,
    }
}

/// `res` and `out` are what appending a value to `w` gives and leads to, where
/// `encoded` is the value's binary form.
pub open spec fn writes(
    encoded: Encoded,
    w: Seq<u8>,
    res: Result<(), PacketError>,
    out: Seq<u8>,
) -> bool {
    &&& out == w + encoded.bytes
    &&& match encoded.error {
        None => res is Ok,
        Some(e) => res matches Err(f) && f == e,
    }
}

/// The number at the front of `s` in a field of `n` bytes.
pub open spec fn decode_be(s: Seq<u8>, n: nat) -> Result<nat, PacketError> {
    if s.len() < n {
        Err(PacketError::UnexpectedEnd)
    } else {
        Ok(be_value(s.take(n as int)))
    }
}

/// The integer that the bits of `v` stand for in two's complement, where there are
/// `limit` bit patterns.
pub open spec fn to_signed(v: nat, limit: nat) -> int {
    if 2 * v < limit {
        v as int
    } else {
        v - limit
    }
}

/// The bits of `x` in two's complement, where there are `limit` bit patterns.
pub open spec fn to_unsigned(x: int, limit: nat) -> nat {
    if 0 <= x {
        x as nat
    } else {
        (x + limit) as nat
    }
}

/// A field of `n` bytes is read back, and nothing after it is taken.
pub proof fn lemma_field(v: nat, n: nat, tail: Seq<u8>)
    requires
        v < be_limit(n),
    ensures
        be_bytes(v, n).len() == n,
        decode_be(be_bytes(v, n) + tail, n) == Ok::<nat, PacketError>(v),
{
    crate::net::wire::lemma_be_bytes_len(v, n);
    crate::net::wire::lemma_be_value_of_bytes(v, n);
    assert((be_bytes(v, n) + tail).take(n as int) =~= be_bytes(v, n));
}

impl Serializable for u8 {
    open spec fn decode(s: Seq<u8>) -> Result<(u8, nat), PacketError> {
        match decode_be(s, 1) {
            Ok(v) => Ok((v as u8, 1)),
            Err(e) => Err(e),
        }
    }

    open spec fn refused_after(s: Seq<u8>) -> Option<nat> {
        None
    }

    open spec fn encode(&self) -> Encoded {
        Encoded::whole(be_bytes(*self as nat, 1))
    }

    open spec fn survives(&self) -> bool {
        true
    }

    proof fn decode_stays_inside(s: Seq<u8>) {
    }

    proof fn decode_undoes_encode(&self, tail: Seq<u8>) {
        crate::net::wire::lemma_be_limits();
        lemma_field(*self as nat, 1, tail);
    }

    fn read_from(r: &mut &[u8]) -> (res: Result<u8, PacketError>) {
        proof {
            crate::net::wire::lemma_be_limits();
            if r@.len() >= 1 {
                crate::net::wire::lemma_be_value_bound(r@.take(1));
            }
        }
        match read_be(r, 1) {
            Ok(v) => Ok(v as u8),
            Err(e) => Err(e),
        }
    }

    fn write_to(&self, w: &mut Vec<u8>) -> (res: Result<(), PacketError>) {
        write_be(*self as u64, 1, w);
        Ok(())
    }
}

impl Serializable for u16 {
    open spec fn decode(s: Seq<u8>) -> Result<(u16, nat), PacketError> {
        match decode_be(s, 2) {
            Ok(v) => Ok((v as u16, 2)),
            Err(e) => Err(e),
        }
    }

    open spec fn refused_after(s: Seq<u8>) -> Option<nat> {
        None
    }

    open spec fn encode(&self) -> Encoded {
        Encoded::whole(be_bytes(*self as nat, 2))
    }

    open spec fn survives(&self) -> bool {
        true
    }

    proof fn decode_stays_inside(s: Seq<u8>) {
    }

    proof fn decode_undoes_encode(&self, tail: Seq<u8>) {
        crate::net::wire::lemma_be_limits();
        lemma_field(*self as nat, 2, tail);
    }

    fn read_from(r: &mut &[u8]) -> (res: Result<u16, PacketError>) {
        proof {
            crate::net::wire::lemma_be_limits();
            if r@.len() >= 2 {
                crate::net::wire::lemma_be_value_bound(r@.take(2));
            }
        }
        match read_be(r, 2) {
            Ok(v) => Ok(v as u16),
            Err(e) => Err(e),
        }
    }

    fn write_to(&self, w: &mut Vec<u8>) -> (res: Result<(), PacketError>) {
        write_be(*self as u64, 2, w);
        Ok(())
    }
}

impl Serializable for u32 {
    open spec fn decode(s: Seq<u8>) -> Result<(u32, nat), PacketError> {
        match decode_be(s, 4) {
            Ok(v) => Ok((v as u32, 4)),
            Err(e) => Err(e),
        }
    }

    open spec fn refused_after(s: Seq<u8>) -> Option<nat> {
        None
    }

    open spec fn encode(&self) -> Encoded {
        Encoded::whole(be_bytes(*self as nat, 4))
    }

    open spec fn survives(&self) -> bool {
        true
    }

    proof fn decode_stays_inside(s: Seq<u8>) {
    }

    proof fn decode_undoes_encode(&self, tail: Seq<u8>) {
        crate::net::wire::lemma_be_limits();
        lemma_field(*self as nat, 4, tail);
    }

    fn read_from(r: &mut &[u8]) -> (res: Result<u32, PacketError>) {
        proof {
            crate::net::wire::lemma_be_limits();
            if r@.len() >= 4 {
                crate::net::wire::lemma_be_value_bound(r@.take(4));
            }
        }
        match read_be(r, 4) {
            Ok(v) => Ok(v as u32),
            Err(e) => Err(e),
        }
    }

    fn write_to(&self, w: &mut Vec<u8>) -> (res: Result<(), PacketError>) {
        write_be(*self as u64, 4, w);
        Ok(())
    }
}

impl Serializable for u64 {
    open spec fn decode(s: Seq<u8>) -> Result<(u64, nat), PacketError> {
        match decode_be(s, 8) {
            Ok(v) => Ok((v as u64, 8)),
            Err(e) => Err(e),
        }
    }

    open spec fn refused_after(s: Seq<u8>) -> Option<nat> {
        None
    }

    open spec fn encode(&self) -> Encoded {
        Encoded::whole(be_bytes(*self as nat, 8))
    }

    open spec fn survives(&self) -> bool {
        true
    }

    proof fn decode_stays_inside(s: Seq<u8>) {
    }

    proof fn decode_undoes_encode(&self, tail: Seq<u8>) {
        crate::net::wire::lemma_be_limits();
        lemma_field(*self as nat, 8, tail);
    }

    fn read_from(r: &mut &[u8]) -> (res: Result<u64, PacketError>) {
        proof {
            crate::net::wire::lemma_be_limits();
            if r@.len() >= 8 {
                crate::net::wire::lemma_be_value_bound(r@.take(8));
            }
        }
        match read_be(r, 8) {
            Ok(v) => Ok(v),
            Err(e) => Err(e),
        }
    }

    fn write_to(&self, w: &mut Vec<u8>) -> (res: Result<(), PacketError>) {
        write_be(*self, 8, w);
        Ok(())
    }
}

impl Serializable for i16 {
    open spec fn decode(s: Seq<u8>) -> Result<(i16, nat), PacketError> {
        match decode_be(s, 2) {
            Ok(v) => Ok((to_signed(v, 0x1_0000) as i16, 2)),
            Err(e) => Err(e),
        }
    }

    open spec fn refused_after(s: Seq<u8>) -> Option<nat> {
        None
    }

    open spec fn encode(&self) -> Encoded {
        Encoded::whole(be_bytes(to_unsigned(*self as int, 0x1_0000), 2))
    }

    open spec fn survives(&self) -> bool {
        true
    }

    proof fn decode_stays_inside(s: Seq<u8>) {
    }

    proof fn decode_undoes_encode(&self, tail: Seq<u8>) {
        crate::net::wire::lemma_be_limits();
        lemma_field(to_unsigned(*self as int, 0x1_0000), 2, tail);
    }

    fn read_from(r: &mut &[u8]) -> (res: Result<i16, PacketError>) {
        proof {
            crate::net::wire::lemma_be_limits();
            if r@.len() >= 2 {
                crate::net::wire::lemma_be_value_bound(r@.take(2));
            }
        }
        match read_be(r, 2) {
            Ok(v) => {
                let x: i64 = v as i64;
                Ok(if x < 0x8000 { x as i16 } else { (x - 0x1_0000) as i16 })
            },
            Err(e) => Err(e),
        }
    }

    fn write_to(&self, w: &mut Vec<u8>) -> (res: Result<(), PacketError>) {
        let x: i64 = *self as i64;
        let v: u64 = if x < 0 { (x + 0x1_0000) as u64 } else { x as u64 };
        write_be(v, 2, w);
        Ok(())
    }
}

impl Serializable for i32 {
    open spec fn decode(s: Seq<u8>) -> Result<(i32, nat), PacketError> {
        match decode_be(s, 4) {
            Ok(v) => Ok((to_signed(v, 0x1_0000_0000) as i32, 4)),
            Err(e) => Err(e),
        }
    }

    open spec fn refused_after(s: Seq<u8>) -> Option<nat> {
        None
    }

    open spec fn encode(&self) -> Encoded {
        Encoded::whole(be_bytes(to_unsigned(*self as int, 0x1_0000_0000), 4))
    }

    open spec fn survives(&self) -> bool {
        true
    }

    proof fn decode_stays_inside(s: Seq<u8>) {
    }

    proof fn decode_undoes_encode(&self, tail: Seq<u8>) {
        crate::net::wire::lemma_be_limits();
        lemma_field(to_unsigned(*self as int, 0x1_0000_0000), 4, tail);
    }

    fn read_from(r: &mut &[u8]) -> (res: Result<i32, PacketError>) {
        proof {
            crate::net::wire::lemma_be_limits();
            if r@.len() >= 4 {
                crate::net::wire::lemma_be_value_bound(r@.take(4));
            }
        }
        match read_be(r, 4) {
            Ok(v) => {
                let x: i64 = v as i64;
                Ok(if x < 0x8000_0000 { x as i32 } else { (x - 0x1_0000_0000) as i32 })
            },
            Err(e) => Err(e),
        }
    }

    fn write_to(&self, w: &mut Vec<u8>) -> (res: Result<(), PacketError>) {
        let x: i64 = *self as i64;
        let v: u64 = if x < 0 { (x + 0x1_0000_0000) as u64 } else { x as u64 };
        write_be(v, 4, w);
        Ok(())
    }
}

/// A field that was read is written with the bytes that it had.
pub proof fn field_is_rewritten(s: Seq<u8>, n: nat)
    ensures
        decode_be(s, n) matches Ok(v) ==> be_bytes(v, n) == s.take(n as int),
{
    if s.len() >= n {
        crate::net::wire::lemma_be_bytes_of_value(s.take(n as int));
    }
}

/// A `u8` that was read is written with the bytes that it had.
pub proof fn u8_is_rewritten(s: Seq<u8>)
    ensures
        u8::decode(s) matches Ok((v, n)) ==> v.encode() == Encoded::whole(s.take(n as int)),
{
    field_is_rewritten(s, 1);
    if s.len() >= 1 {
        crate::net::wire::lemma_be_limits();
        crate::net::wire::lemma_be_value_bound(s.take(1));
    }
}

/// An `i16` that was read is written with the bytes that it had.
pub proof fn i16_is_rewritten(s: Seq<u8>)
    ensures
        i16::decode(s) matches Ok((v, n)) ==> v.encode() == Encoded::whole(s.take(n as int)),
{
    field_is_rewritten(s, 2);
    if s.len() >= 2 {
        crate::net::wire::lemma_be_limits();
        crate::net::wire::lemma_be_value_bound(s.take(2));
    }
}

/// An `i32` that was read is written with the bytes that it had.
pub proof fn i32_is_rewritten(s: Seq<u8>)
    ensures
        i32::decode(s) matches Ok((v, n)) ==> v.encode() == Encoded::whole(s.take(n as int)),
{
    field_is_rewritten(s, 4);
    if s.len() >= 4 {
        crate::net::wire::lemma_be_limits();
        crate::net::wire::lemma_be_value_bound(s.take(4));
    }
}

/// A `u64` that was read is written with the bytes that it had.
pub proof fn u64_is_rewritten(s: Seq<u8>)
    ensures
        u64::decode(s) matches Ok((v, n)) ==> v.encode() == Encoded::whole(s.take(n as int)),
{
    field_is_rewritten(s, 8);
    if s.len() >= 8 {
        crate::net::wire::lemma_be_limits();
        crate::net::wire::lemma_be_value_bound(s.take(8));
    }
}

} // verus!
