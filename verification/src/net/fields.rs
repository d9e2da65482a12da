//! Values that stand one behind the other.

use crate::net::error::PacketError;
use crate::net::packet_helpers::{further, Encoded, Serializable};
use crate::net::wire::after;
use vstd::prelude::*;

verus! {

impl<A: Serializable, B: Serializable> Serializable for (A, B) {
    open spec fn decode(s: Seq<u8>) -> Result<((A::V, B::V), nat), PacketError> {
        match A::decode(s) {
            Ok((a, m)) => match B::decode(after(s, m)) {
                Ok((b, n)) => Ok(((a, b), m + n)),
                Err(e) => Err(e),
            },
            Err(e) => Err(e),
        }
    }

    open spec fn refused_after(s: Seq<u8>) -> Option<nat> {
        match A::decode(s) {
            Ok((_, m)) => further(B::refused_after(after(s, m)), m),
            Err(_) => A::refused_after(s),
        }
    }

    open spec fn encode(&self) -> Encoded {
        self.0.encode().then_also(self.1.encode())
    }

    open spec fn survives(&self) -> bool {
        self.0.survives() && self.1.survives()
    }

    proof fn decode_stays_inside(s: Seq<u8>) {
        A::decode_stays_inside(s);
        if let Ok((_, m)) = A::decode(s) {
            B::decode_stays_inside(after(s, m));
        }
    }

    proof fn decode_undoes_encode(&self, tail: Seq<u8>) {
        let a = self.0.encode().bytes;
        let b = self.1.encode().bytes;
        if self.encode().error is None {
            self.0.decode_undoes_encode(b + tail);
            self.1.decode_undoes_encode(tail);
            assert(a + b + tail =~= a + (b + tail));
            assert(after(a + b + tail, a.len()) =~= b + tail);
        }
    }

    fn read_from(r: &mut &[u8]) -> (res: Result<(A, B), PacketError>) {
        let ghost s = old(r)@;
        proof {
            A::decode_stays_inside(s);
        }
        let a: A = match A::read_from(r) {
            Ok(a) => a,
            Err(e) => {
                return Err(e);
            },
        };
        let ghost behind = r@;
        proof {
            B::decode_stays_inside(behind);
        }
        match B::read_from(r) {
            Ok(b) => {
                proof {
                    let m = A::decode(s)->Ok_0.1;
                    let n = B::decode(behind)->Ok_0.1;
                    assert(r@ =~= after(s, m + n));
                }
                Ok((a, b))
            },
            Err(e) => {
                assert(r@.is_suffix_of(s));
                proof {
                    let m = A::decode(s)->Ok_0.1;
                    if let Some(n) = B::refused_after(behind) {
                        assert(r@ =~= after(s, m + n));
                    }
                }
                Err(e)
            },
        }
    }

    fn write_to(&self, w: &mut Vec<u8>) -> (res: Result<(), PacketError>) {
        let ghost start = w@;
        match self.0.write_to(w) {
            Ok(()) => {},
            Err(e) => {
                return Err(e);
            },
        }
        let res = self.1.write_to(w);
        assert(w@ =~= start + self.encode().bytes);
        res
    }
}

} // verus!
