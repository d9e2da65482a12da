use vstd::prelude::*;

verus! {

/// Why a value could not be read from a packet, or written to one.
#[derive(Debug, Clone, Copy, PartialEq, Eq, Structural)]
pub enum PacketError {
    /// The packet ends before the value does.
    UnexpectedEnd,
    /// A variable-length integer goes on past its fifth byte.
    VarIntTooLong,
    /// A string announces a length below zero.
    NegativeLength,
    /// The bytes of a string are not UTF-8.
    InvalidString,
    /// A string has more bytes than its length prefix can announce.
    StringTooLong,
    /// The count in front of a list does not fit the platform's `isize`.
    CountOutOfRange,
    /// An entity metadata entry is of a kind that does not exist.
    InvalidMetadataType(u8),
    /// The NBT data attached to an item cannot be read.
    InvalidNbt,
    /// Values of this type are only ever received.
    NotWritable,
}

} // verus!
