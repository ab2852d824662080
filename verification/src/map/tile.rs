use vstd::prelude::*;
use super::{COST_IMPASSABLE, COST_MINIMUM};
use crate::common::{ID, Scene, Target, Timed};
use crate::dynamic::{Adjustment, Appliable, AppliableBox, AppliableKind, Applier, Attribute, Dynamic, Modifier, StatisticKind, Trigger};
use std::rc::Rc;

verus! {

/// Tiles whose heights differ by this much or more cannot be climbed between.
pub const CLIMB_MAX: u8 = 2;

/// The cost of a tile of terrain cost `cost` under `modifier`: set to the modifier's amount,
/// raised by it, or lowered by it down to the least cost.
pub open spec fn modified_cost(cost: u8, modifier: Option<Modifier>) -> int {
    match modifier {
        None => cost as int,
        Some(m) => {
            let (statistic, value, is_add) = m.adjustments()[0];
            let amount = (value % 256) as int;
            if statistic == StatisticKind::Tile(true) {
                amount
            } else if is_add {
                cost + amount
            } else if cost - amount > COST_MINIMUM {
                cost - amount
            } else {
                COST_MINIMUM as int
            }
        },
    }
}

/// Whether a modifier changes the tile cost: its first adjustment is of the tile.
pub open spec fn is_tile_modifier(modifier: Modifier) -> bool {
    modifier.adjustments().len() > 0 && modifier.adjustments()[0].0 is Tile
}

/// Whether a modifier may stand on a tile of terrain cost `cost` in `scene`: it changes the
/// tile cost, the modified cost fits a `u8`, and its successor is a tile modifier of the scene.
pub open spec fn tile_modifier_ok(scene: Scene, cost: u8, modifier: Modifier) -> bool {
    &&& is_tile_modifier(modifier)
    &&& modified_cost(cost, Some(modifier)) <= 254
    &&& (modifier.next() matches Some(n) ==> n < scene.modifiers().len() && is_tile_modifier(scene.modifiers()[n as int]))
}

/// Whether an attribute may stand on a tile: it yields a modifier of the scene and triggers on occupation.
pub open spec fn tile_attribute_ok(scene: Scene, attribute: Attribute) -> bool {
    &&& attribute.appliable_kind() is Modifier
    &&& attribute.trigger() == Trigger::OnOccupy
    &&& scene.valid_kind(attribute.appliable_kind())
}

/// A tile of the grid.
#[derive(Debug)]
pub struct Tile {
    scene: Rc<Scene>,
    modifier: Option<Modifier>,
    attribute: Option<Attribute>,
    terrain_id: ID,
    height: u8,
    city_id: Option<ID>,
    is_recruited: bool,
    applier_id_modifier: Option<ID>,
    applier_id_attribute: Option<ID>,
}

impl Tile {
    /// The scene the tile takes its terrain from.
    pub closed spec fn scene(&self) -> Scene {
        *self.scene
    }

    /// The modifier on the tile.
    pub closed spec fn modifier(&self) -> Option<Modifier> {
        self.modifier
    }

    /// The attribute on the tile.
    pub closed spec fn attribute(&self) -> Option<Attribute> {
        self.attribute
    }

    /// The terrain.
    pub closed spec fn terrain(&self) -> ID {
        self.terrain_id
    }

    /// The height.
    pub closed spec fn height(&self) -> u8 {
        self.height
    }

    /// The city on the tile.
    pub closed spec fn city(&self) -> Option<ID> {
        self.city_id
    }

    /// Whether the city's recruit has been spawned.
    pub closed spec fn recruited(&self) -> bool {
        self.is_recruited
    }

    /// The unit that applied the modifier.
    pub closed spec fn applier_modifier(&self) -> Option<ID> {
        self.applier_id_modifier
    }

    /// The unit that applied the attribute.
    pub closed spec fn applier_attribute(&self) -> Option<ID> {
        self.applier_id_attribute
    }

    /// The movement cost of the terrain.
    pub open spec fn terrain_cost(&self) -> u8 {
        self.scene().terrains()[self.terrain() as int].cost()
    }

    /// The movement cost of the tile.
    pub open spec fn cost(&self) -> u8 {
        modified_cost(self.terrain_cost(), self.modifier()) as u8
    }

    /// Whether the tile cannot be entered.
    pub open spec fn impassable(&self) -> bool {
        self.cost() == COST_IMPASSABLE
    }

    /// The climb to `other`, if it is climbable.
    pub open spec fn climb(&self, other: &Tile) -> Option<u8> {
        let climb = if self.height() >= other.height() {
            self.height() - other.height()
        } else {
            other.height() - self.height()
        };
        if climb < CLIMB_MAX { Some(climb as u8) } else { None }
    }

    /// The cost of moving from this tile onto `other`: impassable when either is impassable or
    /// the climb is too steep, else the cost of `other` plus the climb.
    pub open spec fn cost_to(&self, other: &Tile) -> u8 {
        if self.impassable() || other.impassable() {
            COST_IMPASSABLE
        } else {
            match self.climb(other) {
                None => COST_IMPASSABLE,
                Some(c) => (other.cost() + c) as u8,
            }
        }
    }

    /// Whether the tile is consistent with its scene.
    pub open spec fn wf(&self) -> bool {
        &&& self.scene().wf()
        &&& self.terrain() < self.scene().terrains().len()
        &&& (self.city() matches Some(c) ==> c < self.scene().cities().len())
        &&& (self.modifier() matches Some(m) ==> tile_modifier_ok(self.scene(), self.terrain_cost(), m))
        &&& (self.attribute() matches Some(a) ==> tile_attribute_ok(self.scene(), a))
    }

    /// The modified cost stays within the bound that a well-formed tile keeps.
    pub proof fn lemma_cost_bound(&self)
        requires
            self.wf(),
        ensures
            modified_cost(self.terrain_cost(), self.modifier()) <= 254,
            self.cost() <= 254,
            self.cost() as int == modified_cost(self.terrain_cost(), self.modifier()),
    {
        self.scene().lemma_terrain_cost(self.terrain() as int);
    }

    /// Creates a tile with no modifier, no attribute and no recruit spawned.
    pub fn new(scene: Rc<Scene>, terrain_id: ID, height: u8, city_id: Option<ID>) -> (tile: Self)
        requires
            scene.wf(),
            terrain_id < scene.terrains().len(),
            city_id matches Some(c) ==> c < scene.cities().len(),
        ensures
            tile.wf(),
            tile.scene() == *scene,
            tile.terrain() == terrain_id,
            tile.height() == height,
            tile.city() == city_id,
            tile.modifier() == None::<Modifier>,
            tile.attribute() == None::<Attribute>,
            !tile.recruited(),
            tile.applier_modifier() == None::<ID>,
            tile.applier_attribute() == None::<ID>,
    {
        Self {
            scene,
            modifier: None,
            attribute: None,
            terrain_id,
            height,
            city_id,
            is_recruited: false,
            applier_id_modifier: None,
            applier_id_attribute: None,
        }
    }

    /// Gets the movement cost.
    pub fn get_cost(&self) -> (cost: u8)
        requires
            self.wf(),
        ensures
            cost == self.cost(),
    {
        let cost: u8 = self.scene.get_terrain(&self.terrain_id).get_cost();

        proof {
            self.lemma_cost_bound();
            self.scene().lemma_terrain_cost(self.terrain() as int);
        }
        match self.modifier {
            Some(modifier) => {
                let (statistic, value, is_add): Adjustment = modifier.get_adjustments().get(0);
                let amount: u8 = (value % 256) as u8;

                match statistic {
                    StatisticKind::Tile(is_flat) => {
                        if is_flat {
                            amount
                        } else if is_add {
                            cost + amount
                        } else {
                            let lowered: u8 = cost.saturating_sub(amount);

                            if lowered > COST_MINIMUM {
                                lowered
                            } else {
                                COST_MINIMUM
                            }
                        }
                    },
                    StatisticKind::Unit(..) => unreached(),
                }
            },
            None => cost,
        }
    }

    /// Gets whether the tile cannot be entered.
    pub fn is_impassable(&self) -> (is_impassable: bool)
        requires
            self.wf(),
        ensures
            is_impassable == self.impassable(),
    {
        self.get_cost() == COST_IMPASSABLE
    }

    /// Gets the climb to `other`, if it is climbable.
    pub fn try_climb(&self, other: &Tile) -> (climb: Option<u8>)
        ensures
            climb == self.climb(other),
    {
        let climb: u8 = if self.height >= other.height {
            self.height - other.height
        } else {
            other.height - self.height
        };

        if climb < CLIMB_MAX {
            Some(climb)
        } else {
            None
        }
    }

    /// Gets the cost of moving from this tile onto `other`.
    pub fn find_cost(&self, other: &Tile) -> (cost: u8)
        requires
            self.wf(),
            other.wf(),
        ensures
            cost == self.cost_to(other),
    {
        if self.is_impassable() || other.is_impassable() {
            COST_IMPASSABLE
        } else {
            match self.try_climb(other) {
                None => COST_IMPASSABLE,
                Some(c) => {
                    proof {
                        other.lemma_cost_bound();
                    }
                    other.get_cost() + c
                },
            }
        }
    }

    /// Gets the terrain.
    pub fn get_terrain_id(&self) -> (terrain_id: ID)
        ensures
            terrain_id == self.terrain(),
    {
        self.terrain_id
    }

    /// Gets the modifier on the tile.
    pub fn get_modifier(&self) -> (modifier: Option<Modifier>)
        ensures
            modifier == self.modifier(),
    {
        self.modifier
    }

    /// Gets the attribute on the tile.
    pub fn get_attribute(&self) -> (attribute: Option<Attribute>)
        ensures
            attribute == self.attribute(),
    {
        self.attribute
    }

    /// Gets the height.
    pub fn get_height(&self) -> (height: u8)
        ensures
            height == self.height(),
    {
        self.height
    }

    /// Gets the city on the tile.
    pub fn get_city_id(&self) -> (city_id: Option<ID>)
        ensures
            city_id == self.city(),
    {
        self.city_id
    }

    /// Gets whether the city's recruit has been spawned.
    pub fn is_recruited(&self) -> (is_recruited: bool)
        ensures
            is_recruited == self.recruited(),
    {
        self.is_recruited
    }

    /// Gets the unit that applied the modifier.
    pub fn get_applier_id_modifier(&self) -> (applier_id: Option<ID>)
        ensures
            applier_id == self.applier_modifier(),
    {
        self.applier_id_modifier
    }

    /// Gets the unit that applied the attribute.
    pub fn get_applier_id_attribute(&self) -> (applier_id: Option<ID>)
        ensures
            applier_id == self.applier_attribute(),
    {
        self.applier_id_attribute
    }

    /// Sets whether the city's recruit has been spawned.
    pub fn set_recruited(&mut self, is_recruited: bool)
        ensures
            final(self).recruited() == is_recruited,
            final(self).scene() == old(self).scene(),
            final(self).modifier() == old(self).modifier(),
            final(self).attribute() == old(self).attribute(),
            final(self).terrain() == old(self).terrain(),
            final(self).height() == old(self).height(),
            final(self).city() == old(self).city(),
            final(self).applier_modifier() == old(self).applier_modifier(),
            final(self).applier_attribute() == old(self).applier_attribute(),
    {
        self.is_recruited = is_recruited;
    }

    /// Whether `other` is this tile with only its modifier, attribute and appliers changed.
    pub open spec fn same_ground(&self, other: &Tile) -> bool {
        &&& other.scene() == self.scene()
        &&& other.terrain() == self.terrain()
        &&& other.height() == self.height()
        &&& other.city() == self.city()
        &&& other.recruited() == self.recruited()
    }

    /// Whether `other` is this tile with its modifier replaced by `modifier`, its modifier applier by `applier`.
    pub open spec fn with_modifier(&self, other: &Tile, modifier: Option<Modifier>, applier: Option<ID>) -> bool {
        &&& self.same_ground(other)
        &&& other.modifier() == modifier
        &&& other.applier_modifier() == applier
        &&& other.attribute() == self.attribute()
        &&& other.applier_attribute() == self.applier_attribute()
    }

    /// Whether `other` is this tile with `appliable` added: a modifier replaces the modifier; an
    /// attribute replaces the attribute and clears the modifier.
    pub open spec fn added(&self, other: &Tile, appliable: AppliableBox) -> bool {
        match appliable {
            AppliableBox::Modifier(m) => self.with_modifier(other, Some(m), m.applier()),
            AppliableBox::Attribute(a) => {
                &&& self.same_ground(other)
                &&& other.modifier() == None::<Modifier>
                &&& other.applier_modifier() == self.applier_modifier()
                &&& other.attribute() == Some(a)
                &&& other.applier_attribute() == a.applier()
            },
            AppliableBox::Effect(..) => false,
        }
    }

    /// Whether `other` is this tile a turn later: the modifier loses a turn and, once expired,
    /// gives way to its successor; the attribute loses a turn and, once expired, is dropped.
    pub open spec fn decremented(&self, other: &Tile) -> bool {
        &&& self.same_ground(other)
        &&& other.applier_modifier() == self.applier_modifier()
        &&& other.applier_attribute() == self.applier_attribute()
        &&& other.modifier() == match self.modifier() {
            None => None,
            Some(m) => if m.survives() {
                Some(m.decremented())
            } else {
                match m.next() {
                    Some(n) => Some(self.scene().modifiers()[n as int]),
                    None => None,
                }
            },
        }
        &&& other.attribute() == match self.attribute() {
            None => None,
            Some(a) => if a.survives() { Some(a.decremented()) } else { None },
        }
    }

    /// Whether `other` is this tile with its recruit spawned.
    pub open spec fn with_recruited(&self, other: &Tile) -> bool {
        &&& other.recruited()
        &&& other.scene() == self.scene()
        &&& other.terrain() == self.terrain()
        &&& other.height() == self.height()
        &&& other.city() == self.city()
        &&& other.modifier() == self.modifier()
        &&& other.attribute() == self.attribute()
        &&& other.applier_modifier() == self.applier_modifier()
        &&& other.applier_attribute() == self.applier_attribute()
    }

    /// Whether `other` equals this tile in every part.
    pub open spec fn same(&self, other: &Tile) -> bool {
        self.with_modifier(other, self.modifier(), self.applier_modifier())
    }

    fn remove_modifier(&mut self, modifier_id: ID) -> (is_removed: bool)
        requires
            old(self).wf(),
        ensures
            final(self).wf(),
            is_removed == (old(self).modifier() matches Some(m) && m.id() == modifier_id),
            if is_removed {
                old(self).with_modifier(final(self), None, None)
            } else {
                old(self).same(final(self))
            },
    {
        match self.modifier {
            Some(modifier) => {
                if modifier.get_id() == modifier_id {
                    self.modifier = None;
                    self.applier_id_modifier = None;

                    true
                } else {
                    false
                }
            },
            None => false,
        }
    }
}

impl Dynamic for Tile {
    /// A tile takes a modifier of the tile cost, or an attribute yielding a modifier on occupation.
    open spec fn accepts(&self, appliable: AppliableBox) -> bool {
        &&& self.wf()
        &&& match appliable {
            AppliableBox::Modifier(m) => tile_modifier_ok(self.scene(), self.terrain_cost(), m),
            AppliableBox::Effect(..) => false,
            AppliableBox::Attribute(a) => tile_attribute_ok(self.scene(), a),
        }
    }

    /// A tile holds no effects.
    open spec fn removable(&self, kind: AppliableKind) -> bool {
        self.wf() && !(kind is Effect)
    }

    open spec fn decrementable(&self) -> bool {
        self.wf()
    }

    /// A modifier replaces the tile's modifier; an attribute replaces its attribute and clears its modifier.
    fn add_appliable(&mut self, appliable: AppliableBox) -> (is_added: bool)
        ensures
            is_added,
            final(self).wf(),
            old(self).added(final(self), appliable),
    {
        match appliable {
            AppliableBox::Modifier(modifier) => {
                self.modifier = Some(modifier);
                self.applier_id_modifier = modifier.get_applier_id();

                true
            },
            AppliableBox::Effect(..) => unreached(),
            AppliableBox::Attribute(attribute) => {
                self.modifier = None;
                self.attribute = Some(attribute);
                self.applier_id_attribute = attribute.get_applier_id();

                true
            },
        }
    }

    /// Removes the modifier, or the attribute together with the modifier it yields, when the identifier matches.
    fn remove_appliable(&mut self, appliable: AppliableKind) -> (is_removed: bool)
        ensures
            final(self).wf(),
            match appliable {
                AppliableKind::Modifier(id) => {
                    &&& is_removed == (old(self).modifier() matches Some(m) && m.id() == id)
                    &&& if is_removed {
                        old(self).with_modifier(final(self), None, None)
                    } else {
                        old(self).same(final(self))
                    }
                },
                AppliableKind::Attribute(id) => {
                    &&& is_removed == (old(self).attribute() matches Some(a) && a.id() == id)
                    &&& if is_removed {
                        let yielded = old(self).attribute()->Some_0.appliable_kind()->Modifier_0;
                        let is_modifier_removed = old(self).modifier() matches Some(m) && m.id() == yielded;
                        &&& old(self).same_ground(final(self))
                        &&& final(self).attribute() == None::<Attribute>
                        &&& final(self).applier_attribute() == None::<ID>
                        &&& final(self).modifier() == if is_modifier_removed { None } else { old(self).modifier() }
                        &&& final(self).applier_modifier() == if is_modifier_removed {
                            None
                        } else {
                            old(self).applier_modifier()
                        }
                    } else {
                        old(self).same(final(self))
                    }
                },
                AppliableKind::Effect(..) => false,
            },
    {
        match appliable {
            AppliableKind::Modifier(modifier_id) => self.remove_modifier(modifier_id),
            AppliableKind::Effect(..) => unreached(),
            AppliableKind::Attribute(attribute_id) => {
                match self.attribute {
                    Some(attribute) => {
                        if attribute.get_id() == attribute_id {
                            match attribute.get_kind() {
                                AppliableKind::Modifier(m) => {
                                    self.remove_modifier(m);
                                },
                                _ => {},
                            }
                            self.attribute = None;
                            self.applier_id_attribute = None;

                            true
                        } else {
                            false
                        }
                    },
                    None => false,
                }
            },
        }
    }

    /// The modifier loses a turn and, once expired, gives way to its successor; the attribute
    /// loses a turn and, once expired, is dropped.
    fn decrement_durations(&mut self)
        ensures
            final(self).wf(),
            old(self).decremented(final(self)),
    {
        if let Some(mut modifier) = self.modifier {
            proof {
                modifier.lemma_decremented();
            }
            let is_survived: bool = modifier.decrement_duration();

            self.modifier = if is_survived {
                Some(modifier)
            } else {
                match modifier.get_next_id() {
                    Some(n) => {
                        proof {
                            self.scene().lemma_modifier(n as int);
                            self.scene().lemma_terrain_cost(self.terrain() as int);
                        }
                        Some(*self.scene.get_modifier(&n))
                    },
                    None => None,
                }
            };
        }

        if let Some(mut attribute) = self.attribute {
            proof {
                attribute.lemma_decremented();
            }
            let is_survived: bool = attribute.decrement_duration();

            self.attribute = if is_survived {
                Some(attribute)
            } else {
                None
            };
        }
    }
}

impl Applier for Tile {
    open spec fn valid_in(&self, scene: Scene) -> bool {
        self.attribute() matches Some(a) ==> scene.valid_kind(a.appliable_kind())
    }

    /// A tile yields the change of its attribute, if it has one.
    fn try_yield_appliable(&self, scene: Rc<Scene>) -> (appliable: Option<AppliableBox>)
        ensures
            appliable == match self.attribute() {
                Some(a) => Some(scene.appliable_of(a.appliable_kind())),
                None => None::<AppliableBox>,
            },
    {
        match self.attribute {
            Some(attribute) => Some(attribute.get_kind().appliable(scene)),
            None => None,
        }
    }

    /// A tile's attribute targets the map.
    fn get_target(&self) -> (target: Target)
        ensures
            target == Target::OnMap(0),
    {
        Target::OnMap(0)
    }
}

} // verus!

verus! {

/// The description of a tile, built into a tile of a scene.
#[derive(Debug, Clone, Copy)]
pub struct TileBuilder {
    terrain_id: ID,
    height: u8,
    city_id: Option<ID>,
}

impl TileBuilder {
    /// The terrain.
    pub closed spec fn terrain(&self) -> ID {
        self.terrain_id
    }

    /// The height.
    pub closed spec fn height(&self) -> u8 {
        self.height
    }

    /// The city.
    pub closed spec fn city(&self) -> Option<ID> {
        self.city_id
    }

    /// Whether the builder names a terrain and a city of `scene`.
    pub open spec fn valid_in(&self, scene: Scene) -> bool {
        &&& self.terrain() < scene.terrains().len()
        &&& (self.city() matches Some(c) ==> c < scene.cities().len())
    }

    /// Creates a tile builder.
    pub fn new(terrain_id: ID, height: u8, city_id: Option<ID>) -> (builder: Self)
        ensures
            builder.terrain() == terrain_id,
            builder.height() == height,
            builder.city() == city_id,
    {
        Self { terrain_id, height, city_id }
    }

    /// Builds the tile in `scene`.
    pub fn build(&self, scene: Rc<Scene>) -> (tile: Tile)
        requires
            scene.wf(),
            self.valid_in(*scene),
        ensures
            tile.wf(),
            tile.scene() == *scene,
            tile.terrain() == self.terrain(),
            tile.height() == self.height(),
            tile.city() == self.city(),
            tile.modifier() == None::<Modifier>,
            tile.attribute() == None::<Attribute>,
            !tile.recruited(),
            tile.applier_modifier() == None::<ID>,
            tile.applier_attribute() == None::<ID>,
    {
        Tile::new(scene, self.terrain_id, self.height, self.city_id)
    }
}

/// Passage between two tiles goes both ways or neither: a move is impossible one way exactly
/// when it is impossible the other way.
pub proof fn law_passage_symmetric(a: Tile, b: Tile)
    requires
        a.wf(),
        b.wf(),
    ensures
        (a.cost_to(&b) == COST_IMPASSABLE) <==> (b.cost_to(&a) == COST_IMPASSABLE),
{
    a.lemma_cost_bound();
    b.lemma_cost_bound();
}

/// A tile whose modifier is gone costs what its terrain costs.
pub proof fn law_modifier_removed(before: Tile, after: Tile)
    requires
        before.same_ground(&after),
        after.modifier() is None,
    ensures
        after.cost() == before.terrain_cost(),
{
}

} // verus!
