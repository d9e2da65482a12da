//! The gzip-compressed NBT data that can come with an item.

use crate::net::error::PacketError;
use crate::net::nbt_layout::{holds_file, starts_with_file};
use crate::net::wire::after;
use std::io::Read;
use vstd::prelude::*;

verus! {

/// `nbt::Blob`: an NBT file in memory.
#[verifier::external_type_specification]
#[verifier::external_body]
pub struct ExBlob(nbt::Blob);

/// `nbt::Error`: why NBT data could not be read.
#[verifier::external_type_specification]
#[verifier::external_body]
pub struct ExNbtError(nbt::Error);

/// What a blob holds, its title and its tags: the bytes of its uncompressed form, with
/// the entries of every compound in the order of their names.
pub uninterp spec fn blob_content(blob: nbt::Blob) -> Seq<u8>;

/// The bytes that a gzip stream at the front of `s` decompresses to, up to where it ends
/// or is found broken.
pub uninterp spec fn gunzip(s: Seq<u8>) -> Seq<u8>;

/// What `nbt::Blob::from_gzip_reader` makes of `s`: the content of the blob with the
/// number of bytes that are taken off `s`, or nothing where it fails.
pub uninterp spec fn gzip_blob(s: Seq<u8>) -> Option<(Seq<u8>, nat)>;

/// `Clone` of `nbt::Blob`: a blob with the same title and tags.
pub assume_specification[ <nbt::Blob as Clone>::clone ](blob: &nbt::Blob) -> (copy: nbt::Blob)
    ensures
        blob_content(copy) == blob_content(*blob),
;

/// `flate2::read::GzDecoder` read byte by byte, to the end of the stream or the first error:
/// what the stream at the front of `s` decompresses to, as `gunzip` says. Bytes behind the
/// stream are left alone.
#[verifier::external_body]
fn read_gzip(s: &[u8]) -> (bytes: Vec<u8>)
    ensures
        bytes@ == gunzip(s@),
{
    flate2::read::GzDecoder::new(s).bytes().map_while(|byte| byte.ok()).collect()
}

/// `nbt::Blob::from_gzip_reader` on a slice: takes bytes off its front and gives the
/// blob in them, as `gzip_blob` says. It may take more bytes than the compressed data
/// has, because it reads ahead. It panics on an element count below zero, which data that
/// starts with a whole file has not. Of a failure nothing is said but that what is left
/// is an end of the slice.
#[verifier::external_body]
fn blob_from_gzip(r: &mut &[u8]) -> (res: Result<nbt::Blob, nbt::Error>)
    requires
        starts_with_file(gunzip(old(r)@)),
    ensures
        match gzip_blob(old(r)@) {
            Some((content, n)) => {
                &&& res matches Ok(blob) && blob_content(blob) == content
                &&& n <= old(r)@.len()
                &&& final(r)@ == after(old(r)@, n)
            },
            None => res is Err && final(r)@.is_suffix_of(old(r)@),
        },
{
    nbt::Blob::from_gzip_reader(r)
}

/// The blob at the front of `s` with the number of bytes that reading it takes.
pub open spec fn decode_blob(s: Seq<u8>) -> Result<(Seq<u8>, nat), PacketError> {
    if !starts_with_file(gunzip(s)) {
        Err(PacketError::InvalidNbt)
    } else {
        match gzip_blob(s) {
            Some((content, n)) => if n <= s.len() {
                Ok((content, n))
            } else {
                Err(PacketError::InvalidNbt)
            },
            None => Err(PacketError::InvalidNbt),
        }
    }
}

/// Takes a blob off the front of `r`.
///
/// Data that announces more than it holds is refused.
pub fn read_blob(r: &mut &[u8]) -> (res: Result<nbt::Blob, PacketError>)
    ensures
        match decode_blob(old(r)@) {
            Ok((content, n)) => {
                &&& res matches Ok(blob) && blob_content(blob) == content
                &&& final(r)@ == after(old(r)@, n)
            },
            Err(e) => {
                &&& res matches Err(f) && f == e
                &&& final(r)@.is_suffix_of(old(r)@)
            },
        },
{
    let s: &[u8] = *r;
    let bytes: Vec<u8> = read_gzip(s);
    if !holds_file(bytes.as_slice()) {
        return Err(PacketError::InvalidNbt);
    }
    match blob_from_gzip(r) {
        Ok(blob) => Ok(blob),
        Err(_) => Err(PacketError::InvalidNbt),
    }
}

} // verus!
