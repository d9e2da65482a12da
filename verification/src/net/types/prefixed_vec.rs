//! Lists behind the number of their elements.

use crate::net::error::PacketError;
use crate::net::packet_helpers::{further, Encoded, Serializable};
use crate::net::varint::VarInt;
use crate::net::wire::after;
use std::marker::PhantomData;
use vstd::prelude::*;

verus! {

/// An integer that can stand in front of a list.
pub trait ElementCount: Serializable {
    /// The count, whatever its size.
    spec fn count(v: Self::V) -> int;

    /// The count, if the platform can count that far.
    fn try_into_isize(self) -> (n: Result<isize, PacketError>)
        ensures
            match n {
                Ok(n) => n == Self::count(self@),
                Err(e) => {
                    &&& e == PacketError::CountOutOfRange
                    &&& !(isize::MIN <= Self::count(self@) <= isize::MAX)
                },
            },
    ;
}

impl ElementCount for u8 {
    open spec fn count(v: u8) -> int {
        v as int
    }

    fn try_into_isize(self) -> (n: Result<isize, PacketError>) {
        Ok(self as isize)
    }
}

impl ElementCount for u16 {
    open spec fn count(v: u16) -> int {
        v as int
    }

    fn try_into_isize(self) -> (n: Result<isize, PacketError>) {
        Ok(self as isize)
    }
}

impl ElementCount for u32 {
    open spec fn count(v: u32) -> int {
        v as int
    }

    fn try_into_isize(self) -> (n: Result<isize, PacketError>) {
        if self as u64 <= isize::MAX as u64 {
            Ok(self as isize)
        } else {
            Err(PacketError::CountOutOfRange)
        }
    }
}

impl ElementCount for u64 {
    open spec fn count(v: u64) -> int {
        v as int
    }

    fn try_into_isize(self) -> (n: Result<isize, PacketError>) {
        if self <= isize::MAX as u64 {
            Ok(self as isize)
        } else {
            Err(PacketError::CountOutOfRange)
        }
    }
}

impl ElementCount for i16 {
    open spec fn count(v: i16) -> int {
        v as int
    }

    fn try_into_isize(self) -> (n: Result<isize, PacketError>) {
        Ok(self as isize)
    }
}

impl ElementCount for i32 {
    open spec fn count(v: i32) -> int {
        v as int
    }

    fn try_into_isize(self) -> (n: Result<isize, PacketError>) {
        Ok(self as isize)
    }
}

impl ElementCount for VarInt {
    open spec fn count(v: VarInt) -> int {
        v.0 as int
    }

    fn try_into_isize(self) -> (n: Result<isize, PacketError>) {
        Ok(self.0 as isize)
    }
}

/// A list of `T` that is preceded by a `C`, the number of its elements.
#[derive(Debug, PartialEq)]
pub struct PrefixedVec<T: Serializable, C: ElementCount> {
    pub data: Vec<T>,
    /// Only there to name the type of the count.
    pub _m: PhantomData<C>,
}

/// A list stands for what its elements stand for.
impl<T: Serializable, C: ElementCount> View for PrefixedVec<T, C> {
    type V = Seq<T::V>;

    open spec fn view(&self) -> Seq<T::V> {
        self.data@.map_values(|x: T| x@)
    }
}

impl<T: Serializable, C: ElementCount> Default for PrefixedVec<T, C> {
    fn default() -> (v: PrefixedVec<T, C>)
        ensures
            v.data@ == Seq::<T>::empty(),
    {
        PrefixedVec { data: Vec::new(), _m: PhantomData }
    }
}

impl<T: Serializable + Clone, C: ElementCount> Clone for PrefixedVec<T, C> {
    fn clone(&self) -> (v: PrefixedVec<T, C>)
        ensures
            v.data@.len() == self.data@.len(),
            forall|i: int|
                0 <= i < self.data@.len() ==> cloned::<T>(self.data@[i], #[trigger] v.data@[i]),
    {
        PrefixedVec { data: self.data.clone(), _m: PhantomData }
    }
}

/// `n` values of type `T` one behind the other, with the bytes that they take together.
pub open spec fn decode_elements<T: Serializable>(n: nat, s: Seq<u8>) -> Result<
    (Seq<T::V>, nat),
    PacketError,
>
    decreases n,
{
    if n == 0 {
        Ok((Seq::empty(), 0))
    } else {
        match T::decode(s) {
            Ok((first, k)) => match decode_elements::<T>((n - 1) as nat, after(s, k)) {
                Ok((others, m)) => Ok((seq![first] + others, k + m)),
                Err(e) => Err(e),
            },
            Err(e) => Err(e),
        }
    }
}

/// How many bytes have been taken where one of `n` values of type `T` is refused.
pub open spec fn elements_refused_after<T: Serializable>(n: nat, s: Seq<u8>) -> Option<nat>
    decreases n,
{
    if n == 0 {
        None
    } else {
        match T::decode(s) {
            Ok((_, k)) => further(elements_refused_after::<T>((n - 1) as nat, after(s, k)), k),
            Err(_) => T::refused_after(s),
        }
    }
}

/// A list that is read has as many elements as were announced, and lies inside the packet.
pub proof fn elements_are_as_announced<T: Serializable>(n: nat, s: Seq<u8>)
    ensures
        decode_elements::<T>(n, s) matches Ok((v, k)) ==> v.len() == n && k <= s.len(),
        elements_refused_after::<T>(n, s) matches Some(k) ==> k <= s.len(),
    decreases n,
{
    if n > 0 {
        T::decode_stays_inside(s);
        if let Ok((_, k)) = T::decode(s) {
            elements_are_as_announced::<T>((n - 1) as nat, after(s, k));
        }
    }
}

/// How many elements a count announces: none where it is below zero.
pub open spec fn announced(count: int) -> nat {
    if count < 0 {
        0
    } else {
        count as nat
    }
}

impl<T: Serializable, C: ElementCount> Serializable for PrefixedVec<T, C> {
    open spec fn decode(s: Seq<u8>) -> Result<(Seq<T::V>, nat), PacketError> {
        match C::decode(s) {
            Ok((c, n)) => if isize::MIN <= C::count(c) <= isize::MAX {
                match decode_elements::<T>(announced(C::count(c)), after(s, n)) {
                    Ok((v, m)) => Ok((v, n + m)),
                    Err(e) => Err(e),
                }
            } else {
                Err(PacketError::CountOutOfRange)
            },
            Err(e) => Err(e),
        }
    }

    /// Just the count has been taken where that is what is refused.
    open spec fn refused_after(s: Seq<u8>) -> Option<nat> {
        match C::decode(s) {
            Ok((c, n)) => if isize::MIN <= C::count(c) <= isize::MAX {
                further(elements_refused_after::<T>(announced(C::count(c)), after(s, n)), n)
            } else {
                Some(n)
            },
            Err(_) => C::refused_after(s),
        }
    }

    open spec fn encode(&self) -> Encoded {
        Encoded::refused(PacketError::NotWritable)
    }

    open spec fn survives(&self) -> bool {
        true
    }

    proof fn decode_stays_inside(s: Seq<u8>) {
        C::decode_stays_inside(s);
        if let Ok((c, n)) = C::decode(s) {
            elements_are_as_announced::<T>(announced(C::count(c)), after(s, n));
        }
    }

    proof fn decode_undoes_encode(&self, tail: Seq<u8>) {
    }

    fn read_from(r: &mut &[u8]) -> (res: Result<PrefixedVec<T, C>, PacketError>) {
        let ghost s = old(r)@;
        proof {
            C::decode_stays_inside(s);
        }
        let count: C = match C::read_from(r) {
            Ok(count) => count,
            Err(e) => {
                return Err(e);
            },
        };
        let icount: isize = match count.try_into_isize() {
            Ok(icount) => icount,
            Err(e) => {
                return Err(e);
            },
        };
        let ghost start = r@;
        let ghost n = C::decode(s)->Ok_0.1;
        let ghost total = announced(icount as int);
        let mut v: PrefixedVec<T, C> = PrefixedVec::default();
        let mut i: isize = 0;
        let ghost mut used: nat = 0;
        proof {
            elements_are_as_announced::<T>(total, start);
            assert(r@ =~= after(start, used));
            if let Ok((vs, _)) = decode_elements::<T>(total, start) {
                assert(v@ + vs =~= vs);
            }
        }
        while i < icount
            invariant
                0 <= i,
                i <= icount || i == 0,
                s == old(r)@,
                C::decode(s) matches Ok((c, m)) && m == n && C::count(c) == icount,
                total == announced(icount as int),
                start == after(s, n),
                n <= s.len(),
                used <= start.len(),
                r@ == after(start, used),
                match decode_elements::<T>((total - i) as nat, r@) {
                    Ok((vs, k)) => decode_elements::<T>(total, start) == Ok::<
                        (Seq<T::V>, nat),
                        PacketError,
                    >((v@ + vs, used + k)),
                    Err(e) => decode_elements::<T>(total, start) == Err::<
                        (Seq<T::V>, nat),
                        PacketError,
                    >(e),
                },
                elements_refused_after::<T>(total, start) == further(
                    elements_refused_after::<T>((total - i) as nat, r@),
                    used,
                ),
            decreases icount - i,
        {
            let ghost before = r@;
            let ghost sofar = v@;
            proof {
                T::decode_stays_inside(before);
            }
            match T::read_from(r) {
                Ok(x) => {
                    let ghost k = T::decode(before)->Ok_0.1;
                    v.data.push(x);
                    i = i + 1;
                    proof {
                        used = used + k;
                        assert(r@ =~= after(start, used));
                        assert(v@ =~= sofar.push(x@));
                        if let Ok((vs, _)) = decode_elements::<T>((total - i) as nat, r@) {
                            assert(sofar + (seq![x@] + vs) =~= v@ + vs);
                        }
                    }
                },
                Err(e) => {
                    assert(r@.is_suffix_of(s));
                    proof {
                        if let Some(k) = T::refused_after(before) {
                            assert(r@ =~= after(s, n + (used + k)));
                        }
                    }
                    return Err(e);
                },
            }
        }
        proof {
            assert(total - i == 0);
            assert(v@ + Seq::<T::V>::empty() =~= v@);
            assert(r@ =~= after(s, n + used));
        }
        Ok(v)
    }

    fn write_to(&self, w: &mut Vec<u8>) -> (res: Result<(), PacketError>) {
        Err(PacketError::NotWritable)
    }
}

} // verus!
