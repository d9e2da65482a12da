//! Big-endian integers of one to eight bytes.

use crate::net::error::PacketError;
use vstd::prelude::*;

verus! {

/// The number that `s` spells in base 256, most significant byte first.
pub open spec fn be_value(s: Seq<u8>) -> nat
    decreases s.len(),
{
    if s.len() == 0 {
        0
    } else {
        be_value(s.drop_last()) * 256 + s.last() as nat
    }
}

/// The last `n` base-256 digits of `v`, most significant byte first.
pub open spec fn be_bytes(v: nat, n: nat) -> Seq<u8>
    decreases n,
{
    if n == 0 {
        Seq::empty()
    } else {
        be_bytes(v / 256, (n - 1) as nat).push((v % 256) as u8)
    }
}

/// How many numbers `n` bytes can spell.
pub open spec fn be_limit(n: nat) -> nat
    decreases n,
{
    if n == 0 {
        1
    } else {
        be_limit((n - 1) as nat) * 256
    }
}

/// The limits for the widths that occur.
pub proof fn lemma_be_limits()
    ensures
        be_limit(1) == 0x100,
        be_limit(2) == 0x1_0000,
        be_limit(4) == 0x1_0000_0000,
        be_limit(8) == 0x1_0000_0000_0000_0000,
{
    reveal_with_fuel(be_limit, 9);
}

/// No width up to eight bytes has a limit above that of eight.
proof fn lemma_be_limit_u64(n: nat)
    requires
        n <= 8,
    ensures
        0 < be_limit(n) <= 0x1_0000_0000_0000_0000,
{
    reveal_with_fuel(be_limit, 9);
}

/// A string of bytes spells a number below the limit of its length.
pub proof fn lemma_be_value_bound(s: Seq<u8>)
    ensures
        be_value(s) < be_limit(s.len()),
    decreases s.len(),
{
    if s.len() > 0 {
        lemma_be_value_bound(s.drop_last());
    }
}

/// `be_bytes` gives as many bytes as asked for.
pub proof fn lemma_be_bytes_len(v: nat, n: nat)
    ensures
        be_bytes(v, n).len() == n,
    decreases n,
{
    if n > 0 {
        lemma_be_bytes_len(v / 256, (n - 1) as nat);
    }
}

/// A number below the limit is what its bytes spell.
pub proof fn lemma_be_value_of_bytes(v: nat, n: nat)
    requires
        v < be_limit(n),
    ensures
        be_value(be_bytes(v, n)) == v,
    decreases n,
{
    if n > 0 {
        lemma_be_value_of_bytes(v / 256, (n - 1) as nat);
        assert(be_bytes(v, n).drop_last() =~= be_bytes(v / 256, (n - 1) as nat));
    }
}

/// The bytes of the number that `s` spells are `s` again.
pub proof fn lemma_be_bytes_of_value(s: Seq<u8>)
    ensures
        be_bytes(be_value(s), s.len()) == s,
    decreases s.len(),
{
    if s.len() > 0 {
        lemma_be_bytes_of_value(s.drop_last());
        assert(be_value(s) / 256 == be_value(s.drop_last()));
        assert(be_value(s) % 256 == s.last() as nat);
        assert(s =~= s.drop_last().push(s.last()));
    } else {
        assert(be_bytes(be_value(s), 0) =~= s);
    }
}

/// What is left of `s` after its first `n` bytes.
pub open spec fn after(s: Seq<u8>, n: nat) -> Seq<u8> {
    s.subrange(n as int, s.len() as int)
}

/// Takes an unsigned integer of `n` bytes off the front of `r`.
pub fn read_be(r: &mut &[u8], n: usize) -> (res: Result<u64, PacketError>)
    requires
        n <= 8,
    ensures
        old(r)@.len() < n ==> res == Err::<u64, PacketError>(PacketError::UnexpectedEnd) && final(r)@ == old(
            r,
        )@,
        old(r)@.len() >= n ==> {
            &&& res matches Ok(v) && v == be_value(old(r)@.take(n as int))
            &&& final(r)@ == after(old(r)@, n as nat)
        },
{
    let s: &[u8] = *r;
    if s.len() < n {
        return Err(PacketError::UnexpectedEnd);
    }
    let mut v: u64 = 0;
    let mut i: usize = 0;
    while i < n
        invariant
            i <= n <= 8,
            n <= s@.len(),
            v == be_value(s@.take(i as int)),
        decreases n - i,
    {
        proof {
            let head = s@.take(i as int);
            let next = s@.take(i + 1);
            assert(next.drop_last() =~= head);
            lemma_be_value_bound(next);
            lemma_be_limit_u64((i + 1) as nat);
        }
        v = v * 256 + s[i] as u64;
        i = i + 1;
    }
    let (_, rest) = s.split_at(n);
    *r = rest;
    Ok(v)
}

/// Appends the last `n` bytes of `v` to `w`.
pub fn write_be(v: u64, n: usize, w: &mut Vec<u8>)
    requires
        n <= 8,
    ensures
        final(w)@ == old(w)@ + be_bytes(v as nat, n as nat),
    decreases n,
{
    if n > 0 {
        write_be(v / 256, n - 1, w);
        w.push((v % 256) as u8);
    }
    proof {
        if n > 0 {
            assert(w@ =~= old(w)@ + be_bytes(v as nat, n as nat));
        } else {
            assert(w@ =~= old(w)@ + be_bytes(v as nat, 0));
        }
    }
}

} // verus!
