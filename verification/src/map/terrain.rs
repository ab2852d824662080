use vstd::prelude::*;
use crate::common::ID;

verus! {

/// A kind of ground: the modifier it puts on the units standing on it, and its movement cost.
#[derive(Debug, Clone, Copy)]
pub struct Terrain {
    modifier_id: Option<ID>,
    cost: u8,
}

impl Terrain {
    /// The modifier the terrain puts on the units standing on it.
    pub closed spec fn modifier(&self) -> Option<ID> {
        self.modifier_id
    }

    /// The movement cost.
    pub closed spec fn cost(&self) -> u8 {
        self.cost
    }

    /// Creates a terrain.
    pub fn new(modifier_id: Option<ID>, cost: u8) -> (terrain: Self)
        ensures
            terrain.modifier() == modifier_id,
            terrain.cost() == cost,
    {
        Self { modifier_id, cost }
    }

    /// Gets the modifier the terrain puts on the units standing on it.
    pub fn get_modifier_id(&self) -> (modifier_id: Option<ID>)
        ensures
            modifier_id == self.modifier(),
    {
        self.modifier_id
    }

    /// Gets the movement cost.
    pub fn get_cost(&self) -> (cost: u8)
        ensures
            cost == self.cost(),
    {
        self.cost
    }
}

} // verus!
