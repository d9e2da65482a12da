//! What packets say of entities and of the game around them.

use crate::net::error::PacketError;
use crate::net::float_bits::{Float32, Float64};
use crate::net::packet_helpers::{Encoded, Serializable};
use vstd::prelude::*;

verus! {

/// A change of the game's state.
#[derive(Debug, Clone, Copy, PartialEq)]
pub enum GameState {
    InvalidBed,
    EndRaining,
    BeginRaining,
    ChangeGamemode(Float32),
    EnterCredits,
    DemoMessages(Float32),
    ArrowHittingPlayer,
    FadeValue(Float32),
    FadeTime(Float32),
}

impl Default for GameState {
    fn default() -> (g: GameState)
        ensures
            g == GameState::InvalidBed,
    {
        GameState::InvalidBed
    }
}

/// Something that an entity is seen to do.
#[derive(Debug, Clone, Copy, PartialEq, Eq, Structural)]
pub enum EntityAnimation {
    SwingArm,
    DamageAnimation,
    LeaveBed,
    EatFood,
    CriticalEffect,
    MagicCriticalEffect,
    Unknown,
    Crouch,
    Uncrouch,
}

impl Default for EntityAnimation {
    fn default() -> (a: EntityAnimation)
        ensures
            a == EntityAnimation::SwingArm,
    {
        EntityAnimation::SwingArm
    }
}

impl EntityAnimation {
    /// The number that the protocol gives to an animation.
    pub open spec fn number(self) -> isize {
        match self {
            EntityAnimation::SwingArm => 0,
            EntityAnimation::DamageAnimation => 1,
            EntityAnimation::LeaveBed => 2,
            EntityAnimation::EatFood => 3,
            EntityAnimation::CriticalEffect => 4,
            EntityAnimation::MagicCriticalEffect => 5,
            EntityAnimation::Unknown => 102,
            EntityAnimation::Crouch => 104,
            EntityAnimation::Uncrouch => 105,
        }
    }

    /// The number that the protocol gives to this animation.
    pub fn discriminant(&self) -> (n: isize)
        ensures
            n == self.number(),
    {
        match self {
            EntityAnimation::SwingArm => 0,
            EntityAnimation::DamageAnimation => 1,
            EntityAnimation::LeaveBed => 2,
            EntityAnimation::EatFood => 3,
            EntityAnimation::CriticalEffect => 4,
            EntityAnimation::MagicCriticalEffect => 5,
            EntityAnimation::Unknown => 102,
            EntityAnimation::Crouch => 104,
            EntityAnimation::Uncrouch => 105,
        }
    }

    /// No two animations share a number.
    pub proof fn numbers_differ(a: EntityAnimation, b: EntityAnimation)
        requires
            a.number() == b.number(),
        ensures
            a == b,
    {
    }
}

/// An attribute of an entity with what changes it.
#[derive(Debug, Clone, PartialEq)]
pub struct EntityProperty {
    pub key: String,
    pub value: Float64,
    pub modifiers: Vec<EntityModifier>,
}

impl Default for EntityProperty {
    fn default() -> (p: EntityProperty)
        ensures
            p.key@ == Seq::<char>::empty(),
            p.value.bits == 0,
            p.modifiers@ == Seq::<EntityModifier>::empty(),
    {
        EntityProperty { key: String::new(), value: Float64 { bits: 0 }, modifiers: Vec::new() }
    }
}

/// One change to an attribute of an entity.
#[derive(Debug, Clone, Copy, PartialEq)]
pub struct EntityModifier {
    pub uuid: u128,
    pub amount: Float64,
    pub operation: u8,
}

impl Default for EntityModifier {
    fn default() -> (m: EntityModifier)
        ensures
            m.uuid == 0,
            m.amount.bits == 0,
            m.operation == 0,
    {
        EntityModifier { uuid: 0, amount: Float64 { bits: 0 }, operation: 0 }
    }
}

/// A signed property of a player who comes into view.
#[derive(Debug, Clone, PartialEq)]
pub struct EntitySpawnProperty {
    pub name: String,
    pub value: String,
    pub signature: String,
}

/// The characters of an `EntitySpawnProperty`.
pub struct EntitySpawnPropertyView {
    pub name: Seq<char>,
    pub value: Seq<char>,
    pub signature: Seq<char>,
}

impl View for EntitySpawnProperty {
    type V = EntitySpawnPropertyView;

    open spec fn view(&self) -> EntitySpawnPropertyView {
        EntitySpawnPropertyView {
            name: self.name@,
            value: self.value@,
            signature: self.signature@,
        }
    }
}

impl Default for EntitySpawnProperty {
    fn default() -> (p: EntitySpawnProperty)
        ensures
            p.name@ == Seq::<char>::empty(),
            p.value@ == Seq::<char>::empty(),
            p.signature@ == Seq::<char>::empty(),
    {
        EntitySpawnProperty { name: String::new(), value: String::new(), signature: String::new() }
    }
}

impl Serializable for EntitySpawnProperty {
    open spec fn decode(s: Seq<u8>) -> Result<(EntitySpawnPropertyView, nat), PacketError> {
        match <(String, (String, String))>::decode(s) {
            Ok(((name, (value, signature)), n)) => Ok(
                (EntitySpawnPropertyView { name, value, signature }, n),
            ),
            Err(e) => Err(e),
        }
    }

    open spec fn refused_after(s: Seq<u8>) -> Option<nat> {
        <(String, (String, String))>::refused_after(s)
    }

    open spec fn encode(&self) -> Encoded {
        Encoded::refused(PacketError::NotWritable)
    }

    open spec fn survives(&self) -> bool {
        true
    }

    proof fn decode_stays_inside(s: Seq<u8>) {
        <(String, (String, String))>::decode_stays_inside(s);
    }

    proof fn decode_undoes_encode(&self, tail: Seq<u8>) {
    }

    fn read_from(r: &mut &[u8]) -> (res: Result<EntitySpawnProperty, PacketError>) {
        match <(String, (String, String))>::read_from(r) {
            Ok((name, (value, signature))) => Ok(EntitySpawnProperty { name, value, signature }),
            Err(e) => Err(e),
        }
    }

    fn write_to(&self, w: &mut Vec<u8>) -> (res: Result<(), PacketError>) {
        Err(PacketError::NotWritable)
    }
}

} // verus!
