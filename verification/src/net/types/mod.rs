//! The values that packets carry.

pub mod chunk;
pub mod entity;
pub mod entity_meta;
pub mod laws;
pub mod meta_map;
pub mod metadata;
pub mod position;
pub mod prefixed_vec;
pub mod slot;

pub use self::chunk::{BlockChangeRecord, ChunkMetadata};
pub use self::entity::{
    EntityAnimation, EntityModifier, EntityProperty, EntitySpawnProperty, GameState,
};
pub use self::entity_meta::EntityMeta;
pub use self::metadata::MetadataField;
pub use self::position::{Position, PositionIBI, PositionIII, PositionISI};
pub use self::prefixed_vec::PrefixedVec;
pub use self::slot::Slot;
