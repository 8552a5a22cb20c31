//! Entities placed on a surface. Their behaviours carry no state yet.
use vstd::prelude::*;

verus! {

#[derive(Debug, Copy, Clone, Default, PartialEq, Eq, Structural)]
pub struct CraftingBehavior;

#[derive(Debug, Copy, Clone, Default, PartialEq, Eq, Structural)]
pub struct BeltBehavior;

/// What an entity does on each update.
#[derive(Debug, Copy, Clone, Default, PartialEq, Eq, Structural)]
pub enum Behavior {
    #[default]
    Idle,
    CraftingMachine(CraftingBehavior),
    TransportBelt(BeltBehavior),
}

#[derive(Debug, Copy, Clone, Default, PartialEq, Eq, Structural)]
pub struct Inventory;

#[derive(Debug, Copy, Clone, Default, PartialEq, Eq, Structural)]
pub struct Blueprint;

/// Identifier of an entity.
#[derive(Debug, Copy, Clone, Default, PartialEq, Eq, Structural)]
pub struct EID(pub u32);

#[derive(Debug, Copy, Clone, Default, PartialEq, Eq, Structural)]
pub struct Entity {
    pub id: EID,
    pub inventory: Inventory,
    pub behavior: Behavior,
    pub bp: Blueprint,
}

} // verus!
