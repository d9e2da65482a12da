//! Block positions, in the four forms that packets give them.

use crate::net::error::PacketError;
use crate::net::packet_helpers::{
    i16_is_rewritten, i32_is_rewritten, u64_is_rewritten, u8_is_rewritten,
};
use crate::net::packet_helpers::{Encoded, Serializable};
use crate::net::wire::after;
use vstd::prelude::*;

verus! {

/// A position with a one-byte height.
#[derive(Debug, Clone, Copy, PartialEq, Eq, Structural)]
pub struct PositionIBI {
    pub x: i32,
    pub y: u8,
    pub z: i32,
}

impl View for PositionIBI {
    type V = PositionIBI;

    open spec fn view(&self) -> PositionIBI {
        *self
    }
}

impl Default for PositionIBI {
    fn default() -> (p: PositionIBI)
        ensures
            p == (PositionIBI { x: 0, y: 0, z: 0 }),
    {
        PositionIBI { x: 0, y: 0, z: 0 }
    }
}

impl Serializable for PositionIBI {
    open spec fn decode(s: Seq<u8>) -> Result<(PositionIBI, nat), PacketError> {
        match <(i32, (u8, i32))>::decode(s) {
            Ok(((x, (y, z)), n)) => Ok((PositionIBI { x, y, z }, n)),
            Err(e) => Err(e),
        }
    }

    open spec fn refused_after(s: Seq<u8>) -> Option<nat> {
        None
    }

    open spec fn encode(&self) -> Encoded {
        (self.x, (self.y, self.z)).encode()
    }

    open spec fn survives(&self) -> bool {
        true
    }

    proof fn decode_stays_inside(s: Seq<u8>) {
        <(i32, (u8, i32))>::decode_stays_inside(s);
    }

    proof fn decode_undoes_encode(&self, tail: Seq<u8>) {
        (self.x, (self.y, self.z)).decode_undoes_encode(tail);
    }

    fn read_from(r: &mut &[u8]) -> (res: Result<PositionIBI, PacketError>) {
        match <(i32, (u8, i32))>::read_from(r) {
            Ok((x, (y, z))) => Ok(PositionIBI { x, y, z }),
            Err(e) => Err(e),
        }
    }

    fn write_to(&self, w: &mut Vec<u8>) -> (res: Result<(), PacketError>) {
        (self.x, (self.y, self.z)).write_to(w)
    }
}

/// A position with a two-byte height.
#[derive(Debug, Clone, Copy, PartialEq, Eq, Structural)]
pub struct PositionISI {
    pub x: i32,
    pub y: i16,
    pub z: i32,
}

impl View for PositionISI {
    type V = PositionISI;

    open spec fn view(&self) -> PositionISI {
        *self
    }
}

impl Default for PositionISI {
    fn default() -> (p: PositionISI)
        ensures
            p == (PositionISI { x: 0, y: 0, z: 0 }),
    {
        PositionISI { x: 0, y: 0, z: 0 }
    }
}

impl Serializable for PositionISI {
    open spec fn decode(s: Seq<u8>) -> Result<(PositionISI, nat), PacketError> {
        match <(i32, (i16, i32))>::decode(s) {
            Ok(((x, (y, z)), n)) => Ok((PositionISI { x, y, z }, n)),
            Err(e) => Err(e),
        }
    }

    open spec fn refused_after(s: Seq<u8>) -> Option<nat> {
        None
    }

    open spec fn encode(&self) -> Encoded {
        (self.x, (self.y, self.z)).encode()
    }

    open spec fn survives(&self) -> bool {
        true
    }

    proof fn decode_stays_inside(s: Seq<u8>) {
        <(i32, (i16, i32))>::decode_stays_inside(s);
    }

    proof fn decode_undoes_encode(&self, tail: Seq<u8>) {
        (self.x, (self.y, self.z)).decode_undoes_encode(tail);
    }

    fn read_from(r: &mut &[u8]) -> (res: Result<PositionISI, PacketError>) {
        match <(i32, (i16, i32))>::read_from(r) {
            Ok((x, (y, z))) => Ok(PositionISI { x, y, z }),
            Err(e) => Err(e),
        }
    }

    fn write_to(&self, w: &mut Vec<u8>) -> (res: Result<(), PacketError>) {
        (self.x, (self.y, self.z)).write_to(w)
    }
}

/// A position with a four-byte height.
#[derive(Debug, Clone, Copy, PartialEq, Eq, Structural)]
pub struct PositionIII {
    pub x: i32,
    pub y: i32,
    pub z: i32,
}

impl View for PositionIII {
    type V = PositionIII;

    open spec fn view(&self) -> PositionIII {
        *self
    }
}

impl Default for PositionIII {
    fn default() -> (p: PositionIII)
        ensures
            p == (PositionIII { x: 0, y: 0, z: 0 }),
    {
        PositionIII { x: 0, y: 0, z: 0 }
    }
}

impl Serializable for PositionIII {
    open spec fn decode(s: Seq<u8>) -> Result<(PositionIII, nat), PacketError> {
        match <(i32, (i32, i32))>::decode(s) {
            Ok(((x, (y, z)), n)) => Ok((PositionIII { x, y, z }, n)),
            Err(e) => Err(e),
        }
    }

    open spec fn refused_after(s: Seq<u8>) -> Option<nat> {
        None
    }

    open spec fn encode(&self) -> Encoded {
        (self.x, (self.y, self.z)).encode()
    }

    open spec fn survives(&self) -> bool {
        true
    }

    proof fn decode_stays_inside(s: Seq<u8>) {
        <(i32, (i32, i32))>::decode_stays_inside(s);
    }

    proof fn decode_undoes_encode(&self, tail: Seq<u8>) {
        (self.x, (self.y, self.z)).decode_undoes_encode(tail);
    }

    fn read_from(r: &mut &[u8]) -> (res: Result<PositionIII, PacketError>) {
        match <(i32, (i32, i32))>::read_from(r) {
            Ok((x, (y, z))) => Ok(PositionIII { x, y, z }),
            Err(e) => Err(e),
        }
    }

    fn write_to(&self, w: &mut Vec<u8>) -> (res: Result<(), PacketError>) {
        (self.x, (self.y, self.z)).write_to(w)
    }
}

/// General position type. Also used for 26-26-12 encoding
#[derive(Debug, Clone, Copy, PartialEq, Eq, Structural)]
pub struct Position {
    x: i32,
    y: i32,  // 32 bits, so that every `PositionIII` has its `Position`
    z: i32,
}

/// A position stands for its three coordinates.
impl View for Position {
    type V = PositionIII;

    closed spec fn view(&self) -> PositionIII {
        PositionIII { x: self.x, y: self.y, z: self.z }
    }
}

impl Default for Position {
    fn default() -> (p: Position)
        ensures
            p@ == (PositionIII { x: 0, y: 0, z: 0 }),
    {
        Position { x: 0, y: 0, z: 0 }
    }
}

/// The coordinate that a field of `span` values holds as `v`: the upper half of the
/// values stands for the negative coordinates.
pub open spec fn coordinate(v: int, span: int) -> int {
    if v < span / 2 {
        v
    } else {
        v - span
    }
}

/// The position packed into a word: 26 bits of x, 26 bits of z, 12 bits of y.
pub open spec fn unpacked(v: u64) -> PositionIII {
    PositionIII {
        x: coordinate((v / 0x40_0000_0000) as int, 0x400_0000) as i32,
        y: coordinate((v % 0x1000) as int, 0x1000) as i32,
        z: coordinate((v / 0x1000 % 0x400_0000) as int, 0x400_0000) as i32,
    }
}

/// The word that a position is packed into. A coordinate that is too large for its
/// field loses its upper bits.
pub open spec fn packed(p: PositionIII) -> u64 {
    ((p.x as int % 0x400_0000) * 0x40_0000_0000 + (p.z as int % 0x400_0000) * 0x1000 + p.y as int
        % 0x1000) as u64
}

/// What packing leaves of a position: each coordinate wrapped round to its field.
pub open spec fn wrapped(p: PositionIII) -> PositionIII {
    PositionIII {
        x: coordinate(p.x as int % 0x400_0000, 0x400_0000) as i32,
        y: coordinate(p.y as int % 0x1000, 0x1000) as i32,
        z: coordinate(p.z as int % 0x400_0000, 0x400_0000) as i32,
    }
}

/// Whether each coordinate fits its field of the packed form.
pub open spec fn fits_packed(p: PositionIII) -> bool {
    &&& -0x200_0000 <= p.x < 0x200_0000
    &&& -0x800 <= p.y < 0x800
    &&& -0x200_0000 <= p.z < 0x200_0000
}

/// Packing a position and unpacking it again wraps its coordinates.
pub proof fn packing_wraps(p: PositionIII)
    ensures
        unpacked(packed(p)) == wrapped(p),
{
    let x = p.x as int % 0x400_0000;
    let y = p.y as int % 0x1000;
    let z = p.z as int % 0x400_0000;
    let v = x * 0x40_0000_0000 + z * 0x1000 + y;
    assert(0 <= v < 0x1_0000_0000_0000_0000);
    assert(v / 0x40_0000_0000 == x);
    assert(v / 0x1000 == x * 0x400_0000 + z);
}

/// A position whose coordinates fit is packed without loss.
pub proof fn packing_keeps(p: PositionIII)
    requires
        fits_packed(p),
    ensures
        unpacked(packed(p)) == p,
{
    packing_wraps(p);
}

/// Every word is the packed form of the position that it unpacks to.
pub proof fn unpacking_keeps(v: u64)
    ensures
        packed(unpacked(v)) == v,
        fits_packed(unpacked(v)),
{
    let x = (v / 0x40_0000_0000) as int;
    let y = (v % 0x1000) as int;
    let z = (v / 0x1000 % 0x400_0000) as int;
    assert(v == x * 0x40_0000_0000 + z * 0x1000 + y);
    assert(0 <= x < 0x400_0000);
    assert(coordinate(x, 0x400_0000) % 0x400_0000 == x);
    assert(coordinate(z, 0x400_0000) % 0x400_0000 == z);
    assert(coordinate(y, 0x1000) % 0x1000 == y);
}

/// The low 26 bits of an integer.
proof fn lemma_low_26(x: i32)
    ensures
        (x as u64) & 0x3FF_FFFF == x as int % 0x400_0000,
{
    assert(0 <= x ==> (x as u64) & 0x3FF_FFFF == x as u64 % 0x400_0000) by (bit_vector);
    assert(x < 0 ==> (x as u64) & 0x3FF_FFFF == (x + 0x1_0000_0000) as u64 % 0x400_0000)
        by (bit_vector);
}

/// The low 12 bits of an integer.
proof fn lemma_low_12(x: i32)
    ensures
        (x as u64) & 0xFFF == x as int % 0x1000,
{
    assert(0 <= x ==> (x as u64) & 0xFFF == x as u64 % 0x1000) by (bit_vector);
    assert(x < 0 ==> (x as u64) & 0xFFF == (x + 0x1_0000_0000) as u64 % 0x1000) by (bit_vector);
}

impl Serializable for Position {
    open spec fn decode(s: Seq<u8>) -> Result<(PositionIII, nat), PacketError> {
        match u64::decode(s) {
            Ok((v, n)) => Ok((unpacked(v), n)),
            Err(e) => Err(e),
        }
    }

    open spec fn refused_after(s: Seq<u8>) -> Option<nat> {
        None
    }

    open spec fn encode(&self) -> Encoded {
        packed(self@).encode()
    }

    open spec fn survives(&self) -> bool {
        fits_packed(self@)
    }

    proof fn decode_stays_inside(s: Seq<u8>) {
        u64::decode_stays_inside(s);
    }

    proof fn decode_undoes_encode(&self, tail: Seq<u8>) {
        packed(self@).decode_undoes_encode(tail);
        packing_keeps(self@);
    }

    fn read_from(r: &mut &[u8]) -> (res: Result<Position, PacketError>) {
        let v: u64 = match u64::read_from(r) {
            Ok(v) => v,
            Err(e) => {
                return Err(e);
            },
        };
        proof {
            assert((v >> 38) & 0x3FF_FFFF == v / 0x40_0000_0000) by (bit_vector);
            assert(v & 0xFFF == v % 0x1000) by (bit_vector);
            assert((v >> 12) & 0x3FF_FFFF == v / 0x1000 % 0x400_0000) by (bit_vector);
        }
        let mut p = Position {
            x: ((v >> 38) & 0x3FF_FFFF) as i32,
            y: (v & 0xFFF) as i32,
            z: ((v >> 12) & 0x3FF_FFFF) as i32,
        };
        if p.x >= 0x200_0000 {
            p.x = p.x - 0x400_0000;
        }
        if p.y >= 0x800 {
            p.y = p.y - 0x1000;
        }
        if p.z >= 0x200_0000 {
            p.z = p.z - 0x400_0000;
        }
        Ok(p)
    }

    fn write_to(&self, w: &mut Vec<u8>) -> (res: Result<(), PacketError>) {
        let x: u64 = (self.x as u64) & 0x3FF_FFFF;
        let y: u64 = (self.y as u64) & 0xFFF;
        let z: u64 = (self.z as u64) & 0x3FF_FFFF;
        let v: u64 = (x << 38) | y | (z << 12);
        proof {
            lemma_low_26(self.x);
            lemma_low_12(self.y);
            lemma_low_26(self.z);
            assert((x << 38) | y | (z << 12) == x * 0x40_0000_0000 + z * 0x1000 + y)
                by (bit_vector)
                requires
                    x < 0x400_0000,
                    y < 0x1000,
                    z < 0x400_0000,
            ;
        }
        v.write_to(w)
    }
}

impl Position {
    /// The position with the given coordinates.
    pub closed spec fn at(x: i32, y: i32, z: i32) -> Position {
        Position { x, y, z }
    }

    /// There is exactly one position for every three coordinates.
    pub proof fn coordinates_are_all(self)
        ensures
            self == Position::at(self@.x, self@.y, self@.z),
            forall|x: i32, y: i32, z: i32| #[trigger]
                Position::at(x, y, z)@ == (PositionIII { x, y, z }),
    {
    }
}

impl vstd::std_specs::convert::FromSpecImpl<PositionIBI> for Position {
    open spec fn obeys_from_spec() -> bool {
        true
    }

    open spec fn from_spec(p: PositionIBI) -> Position {
        Position::at(p.x, p.y as i32, p.z)
    }
}

impl From<PositionIBI> for Position {
    fn from(p: PositionIBI) -> (q: Position)
        ensures
            q@ == (PositionIII { x: p.x, y: p.y as i32, z: p.z }),
    {
        Position { x: p.x, y: p.y as i32, z: p.z }
    }
}

impl vstd::std_specs::convert::FromSpecImpl<PositionISI> for Position {
    open spec fn obeys_from_spec() -> bool {
        true
    }

    open spec fn from_spec(p: PositionISI) -> Position {
        Position::at(p.x, p.y as i32, p.z)
    }
}

impl From<PositionISI> for Position {
    fn from(p: PositionISI) -> (q: Position)
        ensures
            q@ == (PositionIII { x: p.x, y: p.y as i32, z: p.z }),
    {
        Position { x: p.x, y: p.y as i32, z: p.z }
    }
}

impl vstd::std_specs::convert::FromSpecImpl<PositionIII> for Position {
    open spec fn obeys_from_spec() -> bool {
        true
    }

    open spec fn from_spec(p: PositionIII) -> Position {
        Position::at(p.x, p.y, p.z)
    }
}

impl From<PositionIII> for Position {
    fn from(p: PositionIII) -> (q: Position)
        ensures
            q@ == p,
    {
        Position { x: p.x, y: p.y, z: p.z }
    }
}

/// Two fields that were read one behind the other had their bytes one behind the other.
proof fn lemma_two_fields(s: Seq<u8>, m: nat, n: nat)
    requires
        m + n <= s.len(),
    ensures
        s.take(m as int) + after(s, m).take(n as int) == s.take((m + n) as int),
{
    assert(s.take(m as int) + after(s, m).take(n as int) =~= s.take((m + n) as int));
}

impl PositionIBI {
    /// A position that was read is written with the bytes that it had.
    pub proof fn is_rewritten(s: Seq<u8>)
        ensures
            PositionIBI::decode(s) matches Ok((p, n)) ==> p.encode() == Encoded::whole(
                s.take(n as int),
            ),
    {
        i32_is_rewritten(s);
        u8_is_rewritten(after(s, 4));
        i32_is_rewritten(after(after(s, 4), 1));
        if let Ok((p, n)) = PositionIBI::decode(s) {
            assert(after(after(s, 4), 1) =~= after(s, 5));
            lemma_two_fields(s, 4, 1);
            lemma_two_fields(s, 5, 4);
            assert(p.encode().bytes =~= s.take(n as int));
        }
    }
}

impl PositionISI {
    /// A position that was read is written with the bytes that it had.
    pub proof fn is_rewritten(s: Seq<u8>)
        ensures
            PositionISI::decode(s) matches Ok((p, n)) ==> p.encode() == Encoded::whole(
                s.take(n as int),
            ),
    {
        i32_is_rewritten(s);
        i16_is_rewritten(after(s, 4));
        i32_is_rewritten(after(after(s, 4), 2));
        if let Ok((p, n)) = PositionISI::decode(s) {
            assert(after(after(s, 4), 2) =~= after(s, 6));
            lemma_two_fields(s, 4, 2);
            lemma_two_fields(s, 6, 4);
            assert(p.encode().bytes =~= s.take(n as int));
        }
    }
}

impl PositionIII {
    /// A position that was read is written with the bytes that it had.
    pub proof fn is_rewritten(s: Seq<u8>)
        ensures
            PositionIII::decode(s) matches Ok((p, n)) ==> p.encode() == Encoded::whole(
                s.take(n as int),
            ),
    {
        i32_is_rewritten(s);
        i32_is_rewritten(after(s, 4));
        i32_is_rewritten(after(after(s, 4), 4));
        if let Ok((p, n)) = PositionIII::decode(s) {
            assert(after(after(s, 4), 4) =~= after(s, 8));
            lemma_two_fields(s, 4, 4);
            lemma_two_fields(s, 8, 4);
            assert(p.encode().bytes =~= s.take(n as int));
        }
    }
}

impl Position {
    /// A packed position that was read is written with the bytes that it had.
    pub proof fn is_rewritten(s: Seq<u8>)
        ensures
            Position::decode(s) matches Ok((p, n)) ==> packed(p).encode() == Encoded::whole(
                s.take(n as int),
            ),
    {
        u64_is_rewritten(s);
        if let Ok((v, n)) = u64::decode(s) {
            unpacking_keeps(v);
        }
    }
}

} // verus!
