//! Integers of one to five bytes: seven bits to a byte, the lowest first, and the top
//! bit of a byte set where another byte follows.

use crate::net::error::PacketError;
use crate::net::packet_helpers::{to_signed, to_unsigned, Encoded, Serializable};
use crate::net::wire::after;
use vstd::prelude::*;

verus! {

/// An integer whose size on the wire depends on its value.
#[derive(Debug, Clone, Copy, PartialEq, Eq, Structural)]
pub struct VarInt(pub i32);

impl View for VarInt {
    type V = VarInt;

    open spec fn view(&self) -> VarInt {
        *self
    }
}

impl Default for VarInt {
    fn default() -> (v: VarInt)
        ensures
            v == VarInt(0),
    {
        VarInt(0)
    }
}

/// The number that the low seven bits of the bytes of `s` spell, lowest first.
pub open spec fn groups_value(s: Seq<u8>) -> nat
    decreases s.len(),
{
    if s.len() == 0 {
        0
    } else {
        (s[0] % 128) as nat + 128 * groups_value(s.drop_first())
    }
}

/// The shortest bytes that spell `v`, all but the last with the top bit set.
pub open spec fn groups(v: nat) -> Seq<u8>
    decreases v,
{
    if v < 128 {
        seq![v as u8]
    } else {
        seq![(v % 128 + 128) as u8] + groups(v / 128)
    }
}

/// How many bytes the integer at the front of `s` takes when it may take up to `most`:
/// the first with the top bit clear is its last.
pub open spec fn groups_size(s: Seq<u8>, most: nat) -> Result<nat, PacketError>
    decreases most,
{
    if most == 0 {
        Err(PacketError::VarIntTooLong)
    } else if s.len() == 0 {
        Err(PacketError::UnexpectedEnd)
    } else if s[0] < 128 {
        Ok(1)
    } else {
        match groups_size(s.drop_first(), (most - 1) as nat) {
            Ok(n) => Ok(n + 1),
            Err(e) => Err(e),
        }
    }
}

/// The size stays inside both bounds.
proof fn lemma_groups_size(s: Seq<u8>, most: nat)
    ensures
        groups_size(s, most) matches Ok(n) ==> 0 < n <= s.len() && n <= most,
        groups_size(s, most) == Err::<nat, PacketError>(PacketError::VarIntTooLong) ==> most
            <= s.len(),
    decreases most,
{
    if most > 0 && s.len() > 0 && s[0] >= 128 {
        lemma_groups_size(s.drop_first(), (most - 1) as nat);
    }
}

/// A number that `most` groups can hold is found again behind any tail.
pub proof fn lemma_groups(v: nat, most: nat, tail: Seq<u8>)
    requires
        most > 0,
        v < groups_limit(most),
    ensures
        0 < groups(v).len() <= most,
        groups_size(groups(v) + tail, most) == Ok::<nat, PacketError>(groups(v).len()),
        groups_value(groups(v)) == v,
    decreases v,
{
    let all = groups(v) + tail;
    if v < 128 {
        assert(groups(v).drop_first() =~= Seq::<u8>::empty());
        assert(groups_value(Seq::<u8>::empty()) == 0);
    } else {
        assert(most > 1) by {
            reveal_with_fuel(groups_limit, 2);
        }
        lemma_groups(v / 128, (most - 1) as nat, tail);
        assert(groups(v).drop_first() =~= groups(v / 128));
        assert(all.drop_first() =~= groups(v / 128) + tail);
    }
}

/// How many numbers `n` groups can spell.
pub open spec fn groups_limit(n: nat) -> nat
    decreases n,
{
    if n == 0 {
        1
    } else {
        128 * groups_limit((n - 1) as nat)
    }
}

/// Five groups can hold 32 bits.
proof fn lemma_groups_limit()
    ensures
        groups_limit(5) == 0x8_0000_0000,
{
    reveal_with_fuel(groups_limit, 6);
}

/// Groups spell a number below the limit of their count.
pub proof fn lemma_groups_value_bound(s: Seq<u8>)
    ensures
        groups_value(s) < groups_limit(s.len()),
    decreases s.len(),
{
    if s.len() > 0 {
        lemma_groups_value_bound(s.drop_first());
    }
}

/// Takes the groups of an integer off the front of `r`, `most` at most.
fn read_groups(r: &mut &[u8], most: u8) -> (res: Result<u64, PacketError>)
    requires
        most <= 5,
    ensures
        match groups_size(old(r)@, most as nat) {
            Ok(n) => {
                &&& res matches Ok(v) && v == groups_value(old(r)@.take(n as int))
                &&& final(r)@ == after(old(r)@, n)
            },
            Err(e) => {
                &&& res matches Err(f) && f == e
                &&& final(r)@.is_suffix_of(old(r)@)
                &&& e == PacketError::VarIntTooLong ==> final(r)@ == after(old(r)@, most as nat)
            },
        },
    decreases most,
{
    if most == 0 {
        assert(r@ =~= after(r@, 0));
        return Err(PacketError::VarIntTooLong);
    }
    let ghost s = old(r)@;
    let all: &[u8] = *r;
    if all.len() == 0 {
        return Err(PacketError::UnexpectedEnd);
    }
    let first: u8 = all[0];
    let (_, rest) = all.split_at(1);
    *r = rest;
    assert(rest@ =~= s.drop_first());
    if first < 128 {
        assert(s.take(1).drop_first() =~= Seq::<u8>::empty());
        assert(groups_value(Seq::<u8>::empty()) == 0);
        return Ok(first as u64);
    }
    proof {
        lemma_groups_size(s.drop_first(), (most - 1) as nat);
    }
    match read_groups(r, most - 1) {
        Ok(high) => {
            proof {
                let n = groups_size(s, most as nat)->Ok_0;
                assert(s.take(n as int).drop_first() =~= s.drop_first().take(n - 1));
                assert(after(s.drop_first(), (n - 1) as nat) =~= after(s, n));
                lemma_groups_value_bound(s.drop_first().take(n - 1));
                lemma_groups_limit_small((n - 1) as nat);
            }
            Ok((first % 128) as u64 + 128 * high)
        },
        Err(e) => {
            assert(r@.is_suffix_of(s));
            assert(e == PacketError::VarIntTooLong ==> r@ =~= after(s, most as nat));
            Err(e)
        },
    }
}

/// Up to five groups the limit is that of five at most.
proof fn lemma_groups_limit_small(n: nat)
    requires
        n <= 5,
    ensures
        groups_limit(n) <= 0x8_0000_0000,
{
    reveal_with_fuel(groups_limit, 6);
}

impl Serializable for VarInt {
    /// Bits beyond the thirty-second are dropped.
    open spec fn decode(s: Seq<u8>) -> Result<(VarInt, nat), PacketError> {
        match groups_size(s, 5) {
            Ok(n) => Ok(
                (
                    VarInt(
                        to_signed(
                            groups_value(s.take(n as int)) % 0x1_0000_0000,
                            0x1_0000_0000,
                        ) as i32,
                    ),
                    n,
                ),
            ),
            Err(e) => Err(e),
        }
    }

    open spec fn refused_after(s: Seq<u8>) -> Option<nat> {
        if groups_size(s, 5) == Err::<nat, PacketError>(PacketError::VarIntTooLong) {
            Some(5)
        } else {
            None
        }
    }

    open spec fn encode(&self) -> Encoded {
        Encoded::whole(groups(to_unsigned(self.0 as int, 0x1_0000_0000)))
    }

    open spec fn survives(&self) -> bool {
        true
    }

    proof fn decode_stays_inside(s: Seq<u8>) {
        lemma_groups_size(s, 5);
    }

    proof fn decode_undoes_encode(&self, tail: Seq<u8>) {
        let v = to_unsigned(self.0 as int, 0x1_0000_0000);
        lemma_groups_limit();
        lemma_groups(v, 5, tail);
        assert((groups(v) + tail).take(groups(v).len() as int) =~= groups(v));
    }

    fn read_from(r: &mut &[u8]) -> (res: Result<VarInt, PacketError>) {
        match read_groups(r, 5) {
            Ok(v) => {
                let low: i64 = (v % 0x1_0000_0000) as i64;
                Ok(VarInt(if low < 0x8000_0000 { low as i32 } else { (low - 0x1_0000_0000) as i32 }))
            },
            Err(e) => Err(e),
        }
    }

    fn write_to(&self, w: &mut Vec<u8>) -> (res: Result<(), PacketError>) {
        let x: i64 = self.0 as i64;
        let mut v: u64 = if x < 0 { (x + 0x1_0000_0000) as u64 } else { x as u64 };
        let ghost start = w@;
        let ghost all = groups(v as nat);
        assert(start + groups(v as nat) =~= w@ + groups(v as nat));
        while v >= 128
            invariant
                start + all == w@ + groups(v as nat),
            decreases v,
        {
            let ghost before = w@;
            let ghost old_v = v as nat;
            w.push((v % 128 + 128) as u8);
            v = v / 128;
            assert(before + groups(old_v) =~= w@ + groups(v as nat));
        }
        let ghost before = w@;
        w.push(v as u8);
        assert(w@ =~= before + groups(v as nat));
        Ok(())
    }
}

/// An integer takes one to five bytes, whichever way it goes.
pub proof fn one_to_five_bytes(v: VarInt, s: Seq<u8>)
    ensures
        1 <= v.encode().bytes.len() <= 5,
        VarInt::decode(s) matches Ok((_, n)) ==> 1 <= n <= 5,
{
    lemma_groups_limit();
    lemma_groups(to_unsigned(v.0 as int, 0x1_0000_0000), 5, s);
    lemma_groups_size(s, 5);
}

} // verus!
