//! Reading and writing of the values that packets are made of.

pub mod error;
pub mod fields;
pub mod float_bits;
pub mod item_nbt;
pub mod laws;
pub mod nbt_layout;
pub mod nbt_laws;
pub mod packet_helpers;
pub mod text;
pub mod types;
pub mod varint;
pub mod wire;
