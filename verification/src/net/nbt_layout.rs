//! The layout of NBT data: where each tag ends.
//!
//! Item data comes from the server, and `nbt` sets memory aside for as many list
//! elements as the data announces before it reads them. Data is therefore measured
//! first, and only handed on where every announced element is there.

use crate::net::packet_helpers::to_signed;
use crate::net::wire::{after, be_value, lemma_be_limits, lemma_be_value_bound, read_be};
use vstd::prelude::*;

verus! {

/// The size of a string at the front of `s`: two bytes of length, then as many
/// bytes as they say.
pub open spec fn string_size(s: Seq<u8>) -> Option<nat> {
    if s.len() < 2 || s.len() < 2 + be_value(s.take(2)) {
        None
    } else {
        Some(2 + be_value(s.take(2)))
    }
}

/// The element count of an array or list, which is four bytes at the front of `s`.
pub open spec fn element_count(s: Seq<u8>) -> Option<nat> {
    if s.len() < 4 || to_signed(be_value(s.take(4)), 0x1_0000_0000) < 0 {
        None
    } else {
        Some(be_value(s.take(4)))
    }
}

/// The size of an array at the front of `s` whose elements take `width` bytes each.
pub open spec fn array_size(s: Seq<u8>, width: nat) -> Option<nat> {
    match element_count(s) {
        Some(n) => if s.len() < 4 + n * width {
            None
        } else {
            Some(4 + n * width)
        },
        None => None,
    }
}

/// The size of a number of `n` bytes at the front of `s`.
pub open spec fn number_size(s: Seq<u8>, n: nat) -> Option<nat> {
    if s.len() < n {
        None
    } else {
        Some(n)
    }
}

/// The size of the payload at the front of `s` of a tag of kind `id`, if `s` holds
/// all of it.
pub open spec fn payload_size(id: u8, s: Seq<u8>) -> Option<nat>
    decreases s.len(), 1nat,
{
    if id == 1 {
        number_size(s, 1)
    } else if id == 2 {
        number_size(s, 2)
    } else if id == 3 || id == 5 {
        number_size(s, 4)
    } else if id == 4 || id == 6 {
        number_size(s, 8)
    } else if id == 7 {
        array_size(s, 1)
    } else if id == 8 {
        string_size(s)
    } else if id == 9 {
        if s.len() < 5 {
            None
        } else {
            match element_count(after(s, 1)) {
                Some(n) => match elements_size(s[0], n, after(s, 5)) {
                    Some(k) => Some(5 + k),
                    None => None,
                },
                None => None,
            }
        }
    } else if id == 10 {
        entries_size(s)
    } else if id == 11 {
        array_size(s, 4)
    } else if id == 12 {
        array_size(s, 8)
    } else {
        None
    }
}

/// The size of `n` payloads of tags of kind `id`, one behind the other, at the
/// front of `s`.
pub open spec fn elements_size(id: u8, n: nat, s: Seq<u8>) -> Option<nat>
    decreases s.len(), 2nat,
{
    if n == 0 {
        Some(0)
    } else {
        match payload_size(id, s) {
            Some(k) => if 0 < k <= s.len() {
                match elements_size(id, (n - 1) as nat, after(s, k)) {
                    Some(rest) => Some(k + rest),
                    None => None,
                }
            } else {
                None
            },
            None => None,
        }
    }
}

/// The size of a compound's entries at the front of `s`: named tags up to and with
/// the end tag.
pub open spec fn entries_size(s: Seq<u8>) -> Option<nat>
    decreases s.len(), 0nat,
{
    if s.len() == 0 {
        None
    } else if s[0] == 0 {
        Some(1)
    } else {
        match string_size(after(s, 1)) {
            Some(m) => match payload_size(s[0], after(s, 1 + m)) {
                Some(k) => if 1 + m + k <= s.len() {
                    match entries_size(after(s, 1 + m + k)) {
                        Some(rest) => Some(1 + m + k + rest),
                        None => None,
                    }
                } else {
                    None
                },
                None => None,
            },
            None => None,
        }
    }
}

/// Whether `s` starts with a whole file: a named compound with nothing missing.
pub open spec fn starts_with_file(s: Seq<u8>) -> bool {
    &&& s.len() > 0
    &&& s[0] == 10
    &&& string_size(after(s, 1)) matches Some(m) && entries_size(after(s, 1 + m)) is Some
}

/// A payload takes at least one byte and no more than there are.
pub proof fn lemma_payload_size(id: u8, s: Seq<u8>)
    ensures
        payload_size(id, s) matches Some(k) ==> 0 < k <= s.len(),
    decreases s.len(), 1nat,
{
    if id == 9 && s.len() >= 5 {
        if let Some(n) = element_count(after(s, 1)) {
            lemma_elements_size(s[0], n, after(s, 5));
        }
    } else if id == 10 {
        lemma_entries_size(s);
    }
}

/// Elements never take more bytes than there are.
proof fn lemma_elements_size(id: u8, n: nat, s: Seq<u8>)
    ensures
        elements_size(id, n, s) matches Some(k) ==> k <= s.len(),
    decreases s.len(), 2nat,
{
    if n > 0 {
        if let Some(k) = payload_size(id, s) {
            if 0 < k <= s.len() {
                lemma_elements_size(id, (n - 1) as nat, after(s, k));
            }
        }
    }
}

/// Entries take at least one byte and no more than there are.
proof fn lemma_entries_size(s: Seq<u8>)
    ensures
        entries_size(s) matches Some(k) ==> 0 < k <= s.len(),
    decreases s.len(), 0nat,
{
    if s.len() > 0 && s[0] != 0 {
        if let Some(m) = string_size(after(s, 1)) {
            if let Some(k) = payload_size(s[0], after(s, 1 + m)) {
                if 1 + m + k <= s.len() {
                    lemma_entries_size(after(s, 1 + m + k));
                }
            }
        }
    }
}

/// `s` without its first `n` bytes.
fn skip<'a>(s: &'a [u8], n: usize) -> (rest: &'a [u8])
    requires
        n <= s@.len(),
    ensures
        rest@ == after(s@, n as nat),
{
    let (_, rest) = s.split_at(n);
    rest
}

/// Measures a string.
fn string_len(s: &[u8]) -> (size: Option<usize>)
    ensures
        match string_size(s@) {
            Some(k) => size matches Some(n) && n == k,
            None => size is None,
        },
{
    proof {
        lemma_be_limits();
        if s@.len() >= 2 {
            lemma_be_value_bound(s@.take(2));
        }
    }
    let mut r: &[u8] = s;
    match read_be(&mut r, 2) {
        Ok(n) => if r.len() as u64 >= n {
            Some(2 + n as usize)
        } else {
            None
        },
        Err(_) => None,
    }
}

/// Reads an element count.
fn read_count(s: &[u8]) -> (count: Option<u64>)
    ensures
        match element_count(s@) {
            Some(k) => count matches Some(n) && n == k && n < 0x8000_0000,
            None => count is None,
        },
{
    proof {
        lemma_be_limits();
        if s@.len() >= 4 {
            lemma_be_value_bound(s@.take(4));
        }
    }
    let mut r: &[u8] = s;
    match read_be(&mut r, 4) {
        Ok(n) => if n < 0x8000_0000 {
            Some(n)
        } else {
            None
        },
        Err(_) => None,
    }
}

/// Measures an array.
fn array_len(s: &[u8], width: u64) -> (size: Option<usize>)
    requires
        width <= 8,
    ensures
        match array_size(s@, width as nat) {
            Some(k) => size matches Some(n) && n == k,
            None => size is None,
        },
{
    match read_count(s) {
        Some(n) => {
            assert(0 <= n * width <= 0x8000_0000 * 8) by (nonlinear_arith)
                requires
                    0 <= n < 0x8000_0000,
                    0 <= width <= 8,
            ;
            let size: u64 = 4 + n * width;
            if s.len() as u64 >= size {
                Some(size as usize)
            } else {
                None
            }
        },
        None => None,
    }
}

/// Measures a number.
fn number_len(s: &[u8], n: usize) -> (size: Option<usize>)
    ensures
        match number_size(s@, n as nat) {
            Some(k) => size matches Some(m) && m == k,
            None => size is None,
        },
{
    if s.len() < n {
        None
    } else {
        Some(n)
    }
}

/// Measures the payload of a tag of kind `id`.
fn payload_len(id: u8, s: &[u8]) -> (size: Option<usize>)
    ensures
        match payload_size(id, s@) {
            Some(k) => size matches Some(n) && n == k && 0 < k <= s@.len(),
            None => size is None,
        },
    decreases s@.len(), 1nat,
{
    proof {
        lemma_payload_size(id, s@);
    }
    if id == 1 {
        number_len(s, 1)
    } else if id == 2 {
        number_len(s, 2)
    } else if id == 3 || id == 5 {
        number_len(s, 4)
    } else if id == 4 || id == 6 {
        number_len(s, 8)
    } else if id == 7 {
        array_len(s, 1)
    } else if id == 8 {
        string_len(s)
    } else if id == 9 {
        if s.len() < 5 {
            None
        } else {
            match read_count(skip(s, 1)) {
                Some(n) => match elements_len(s[0], n, skip(s, 5)) {
                    Some(k) => Some(5 + k),
                    None => None,
                },
                None => None,
            }
        }
    } else if id == 10 {
        entries_len(s)
    } else if id == 11 {
        array_len(s, 4)
    } else if id == 12 {
        array_len(s, 8)
    } else {
        None
    }
}

/// Measures the elements of a list.
fn elements_len(id: u8, n: u64, s: &[u8]) -> (size: Option<usize>)
    ensures
        match elements_size(id, n as nat, s@) {
            Some(k) => size matches Some(m) && m == k && k <= s@.len(),
            None => size is None,
        },
    decreases s@.len(), 2nat,
{
    proof {
        lemma_elements_size(id, n as nat, s@);
    }
    let mut left: u64 = n;
    let total: usize = s.len();
    let mut done: usize = 0;
    let mut rest: &[u8] = s;
    while left > 0
        invariant
            total == s@.len(),
            done + rest@.len() == total,
            match elements_size(id, left as nat, rest@) {
                Some(k) => elements_size(id, n as nat, s@) == Some((done + k) as nat),
                None => elements_size(id, n as nat, s@) is None,
            },
        decreases left,
    {
        match payload_len(id, rest) {
            Some(k) => {
                rest = skip(rest, k);
                done = done + k;
                left = left - 1;
            },
            None => {
                return None;
            },
        }
    }
    Some(done)
}

/// Measures the entries of a compound.
fn entries_len(s: &[u8]) -> (size: Option<usize>)
    ensures
        match entries_size(s@) {
            Some(k) => size matches Some(n) && n == k && 0 < k <= s@.len(),
            None => size is None,
        },
    decreases s@.len(), 0nat,
{
    proof {
        lemma_entries_size(s@);
    }
    let total: usize = s.len();
    let mut done: usize = 0;
    let mut rest: &[u8] = s;
    while rest.len() > 0
        invariant
            total == s@.len(),
            done + rest@.len() == total,
            match entries_size(rest@) {
                Some(k) => entries_size(s@) == Some((done + k) as nat),
                None => entries_size(s@) is None,
            },
        decreases rest@.len(),
    {
        let id: u8 = rest[0];
        if id == 0 {
            return Some(done + 1);
        }
        let named: &[u8] = skip(rest, 1);
        match string_len(named) {
            Some(m) => {
                let payload: &[u8] = skip(named, m);
                assert(payload@ =~= after(rest@, (1 + m) as nat));
                match payload_len(id, payload) {
                    Some(k) => {
                        let ghost before = rest@;
                        rest = skip(payload, k);
                        assert(rest@ =~= after(before, (1 + m + k) as nat));
                        done = done + 1 + m + k;
                    },
                    None => {
                        return None;
                    },
                }
            },
            None => {
                return None;
            },
        }
    }
    None
}

/// Whether `s` starts with a whole file.
pub fn holds_file(s: &[u8]) -> (whole: bool)
    ensures
        whole == starts_with_file(s@),
{
    if s.len() == 0 || s[0] != 10 {
        return false;
    }
    let named: &[u8] = skip(s, 1);
    match string_len(named) {
        Some(m) => {
            let entries: &[u8] = skip(named, m);
            assert(entries@ =~= after(s@, (1 + m) as nat));
            entries_len(entries).is_some()
        },
        None => false,
    }
}

} // verus!
