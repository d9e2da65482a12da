//! Strings: their UTF-8 bytes behind the number of them.

use crate::net::error::PacketError;
use crate::net::packet_helpers::{Encoded, Serializable};
use crate::net::varint::VarInt;
use crate::net::wire::after;
use vstd::prelude::*;
use vstd::slice::slice_to_vec;
use vstd::utf8::{decode_utf8, encode_utf8, valid_utf8};

verus! {

/// `std::string::FromUtf8Error`: bytes that are no string.
#[verifier::external_type_specification]
#[verifier::external_body]
pub struct ExFromUtf8Error(std::string::FromUtf8Error);

/// `String::from_utf8`: the string whose UTF-8 bytes are `vec`, and an error exactly
/// where these are not UTF-8.
pub assume_specification[ std::string::String::from_utf8 ](vec: std::vec::Vec<u8>) -> (res: Result<
    std::string::String,
    std::string::FromUtf8Error,
>)
    ensures
        valid_utf8(vec@) ==> res is Ok && res->Ok_0@ == decode_utf8(vec@),
        !valid_utf8(vec@) ==> res is Err,
;

/// The string that `len` bytes of `s` behind the first `n` are.
pub open spec fn decode_text(s: Seq<u8>, n: nat, len: int) -> Result<(Seq<char>, nat), PacketError> {
    if len < 0 {
        Err(PacketError::NegativeLength)
    } else if s.len() < n + len {
        Err(PacketError::UnexpectedEnd)
    } else if !valid_utf8(s.subrange(n as int, n + len)) {
        Err(PacketError::InvalidString)
    } else {
        Ok((decode_utf8(s.subrange(n as int, n + len)), (n + len) as nat))
    }
}

/// How many bytes have been taken where the string is refused: the length where it is below
/// zero, and the whole string where it is none.
pub open spec fn text_refused_after(s: Seq<u8>, n: nat, len: int) -> Option<nat> {
    if len < 0 {
        Some(n)
    } else if s.len() < n + len {
        None
    } else if !valid_utf8(s.subrange(n as int, n + len)) {
        Some((n + len) as nat)
    } else {
        None
    }
}

impl Serializable for String {
    open spec fn decode(s: Seq<u8>) -> Result<(Seq<char>, nat), PacketError> {
        match VarInt::decode(s) {
            Ok((len, n)) => decode_text(s, n, len.0 as int),
            Err(e) => Err(e),
        }
    }

    open spec fn refused_after(s: Seq<u8>) -> Option<nat> {
        match VarInt::decode(s) {
            Ok((len, n)) => text_refused_after(s, n, len.0 as int),
            Err(_) => VarInt::refused_after(s),
        }
    }

    open spec fn encode(&self) -> Encoded {
        let bytes = encode_utf8(self@);
        if bytes.len() > i32::MAX {
            Encoded::refused(PacketError::StringTooLong)
        } else {
            VarInt(bytes.len() as i32).encode().then_also(Encoded::whole(bytes))
        }
    }

    open spec fn survives(&self) -> bool {
        true
    }

    proof fn decode_stays_inside(s: Seq<u8>) {
        VarInt::decode_stays_inside(s);
    }

    proof fn decode_undoes_encode(&self, tail: Seq<u8>) {
        let bytes = encode_utf8(self@);
        if bytes.len() <= i32::MAX {
            let len = VarInt(bytes.len() as i32);
            let prefix = len.encode().bytes;
            let all = prefix + bytes + tail;
            len.decode_undoes_encode(bytes + tail);
            assert(prefix + (bytes + tail) =~= all);
            assert(all.subrange(prefix.len() as int, (prefix.len() + bytes.len()) as int) =~= bytes);
            vstd::utf8::encode_utf8_valid_utf8(self@);
            vstd::utf8::encode_utf8_decode_utf8(self@);
        }
    }

    fn read_from(r: &mut &[u8]) -> (res: Result<String, PacketError>) {
        let ghost s = old(r)@;
        proof {
            VarInt::decode_stays_inside(s);
        }
        let len: VarInt = match VarInt::read_from(r) {
            Ok(len) => len,
            Err(e) => {
                return Err(e);
            },
        };
        let rest: &[u8] = *r;
        if len.0 < 0 {
            return Err(PacketError::NegativeLength);
        }
        let size: usize = len.0 as usize;
        if rest.len() < size {
            return Err(PacketError::UnexpectedEnd);
        }
        let (bytes, behind) = rest.split_at(size);
        *r = behind;
        proof {
            let n = VarInt::decode(s)->Ok_0.1;
            assert(bytes@ =~= s.subrange(n as int, (n + size) as int));
            assert(behind@ =~= after(s, (n + size) as nat));
        }
        match String::from_utf8(slice_to_vec(bytes)) {
            Ok(text) => Ok(text),
            Err(_) => Err(PacketError::InvalidString),
        }
    }

    fn write_to(&self, w: &mut Vec<u8>) -> (res: Result<(), PacketError>) {
        let bytes: &[u8] = self.as_str().as_bytes();
        if bytes.len() > i32::MAX as usize {
            return Err(PacketError::StringTooLong);
        }
        let ghost start = w@;
        let len = VarInt(bytes.len() as i32);
        match len.write_to(w) {
            Ok(()) => {},
            Err(e) => {
                return Err(e);
            },
        }
        let ghost prefixed = w@;
        w.extend_from_slice(bytes);
        assert(w@ =~= prefixed + bytes@);
        assert(w@ =~= start + (len.encode().bytes + bytes@));
        Ok(())
    }
}

} // verus!
